# table_bot

A chat bot for robotics trial runs: teams wait for one of two tables in a queue
per table, and are moved between voice channels when it is their turn.

What the bot decides is a library, `src/`, whose functions carry contracts that
Verus proves. What it does, talking to the chat service and to the key-value
store, is a thin program around it, `app/`.

- `config`, `presets`: the settings of a deployment, and of the two there are
- `text`: numbers as text
- `walk`: sets and maps as lists
- `store`: the commands sent to the store, and its replies
- `queue`: entering, leaving and popping queues, one store command at a time
- `voice`: who sits at which table
- `seating`: the moves that bring a team to a table
- `interaction`: answering slash commands, one request at a time
- `commands`: the slash commands that are offered
- `laws`, `listings`, `completion`: what whole dialogues do, in what order teams
  wait, and that every dialogue comes to an end

The program is started with `ENV` set to `prod` or to anything else for the test
deployment, with the bot's token in `discord_token.txt` and the store on the
local host.
