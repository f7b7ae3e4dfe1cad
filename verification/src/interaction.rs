//! Answering slash commands.  A command that needs the store, the voice states
//! or the chat service is a dialogue: it makes a request, and goes on when the
//! outcome is handed back.

use vstd::prelude::*;
use vstd::string::*;

use crate::config::{default_table, Config, ConfigView, DUMMY_TEAM};
use crate::queue::{
    add_to_queue, add_to_smallest_queue, all_named, clock_reading, dequeue, format_queue, get_queue,
    queue_is_named, queue_text, read_clock, unqueue, AddToQueue, AddToSmallestQueue, Dequeue, SmallestStep,
    SmallestStepView, Step, StoreReply, StoreReplyView, Unqueue,
};
use crate::seating::{can_join, planned, TableJoin, TableJoinView};
use crate::store::{exact_score, StoreCommand};
use crate::text::{append_i64, append_u64, decimal};
use crate::voice::TableVoiceState;

verus! {

/// What an option of a slash command refers to.
#[derive(Debug)]
pub enum Resolved {
    /// A user, with the name and discriminator under which they are shown.
    User { id: u64, tag: String },
    /// Anything else.
    Other,
}

/// An option that was given with a slash command.
#[derive(Debug)]
pub struct CommandOption {
    /// The value, where it is an integer.
    pub value: Option<i64>,
    /// What the value refers to, where it refers to anything.
    pub resolved: Option<Resolved>,
}

/// A slash command as a user gave it.
#[derive(Debug)]
pub struct Invocation {
    pub guild_id: Option<u64>,
    pub user_id: u64,
    pub name: String,
    pub options: Vec<CommandOption>,
}

/// The mathematical content of a [`Resolved`].
pub enum ResolvedView {
    User { id: u64, tag: Seq<char> },
    Other,
}

/// The mathematical content of a [`CommandOption`].
pub struct CommandOptionView {
    pub value: Option<i64>,
    pub resolved: Option<ResolvedView>,
}

/// The mathematical content of an [`Invocation`].
pub struct InvocationView {
    pub guild_id: Option<u64>,
    pub user_id: u64,
    pub name: Seq<char>,
    pub options: Seq<CommandOptionView>,
}

impl View for Resolved {
    type V = ResolvedView;

    open spec fn view(&self) -> ResolvedView {
        match self {
            Resolved::User { id, tag } => ResolvedView::User { id: *id, tag: tag@ },
            Resolved::Other => ResolvedView::Other,
        }
    }
}

impl View for CommandOption {
    type V = CommandOptionView;

    open spec fn view(&self) -> CommandOptionView {
        CommandOptionView {
            value: self.value,
            resolved: match self.resolved {
                Some(resolved) => Some(resolved@),
                None => None,
            },
        }
    }
}

impl View for Invocation {
    type V = InvocationView;

    open spec fn view(&self) -> InvocationView {
        InvocationView {
            guild_id: self.guild_id,
            user_id: self.user_id,
            name: self.name@,
            options: self.options@.map_values(|option: CommandOption| option@),
        }
    }
}

/// The slash commands.
#[derive(Clone, Copy, Debug, PartialEq, Eq, Structural)]
pub enum Command {
    Ping,
    Id,
    Tjoin,
    Tkick,
    Queue,
    Enqueue,
    EnqueueMe,
    EnqueueMeFaster,
    UnqueueMe,
    Dequeue,
    DequeueNojoin,
    Unknown,
}

/// The command with the given name.
pub open spec fn command_named(name: Seq<char>) -> Command {
    if name == "ping"@ {
        Command::Ping
    } else if name == "id"@ {
        Command::Id
    } else if name == "tjoin"@ {
        Command::Tjoin
    } else if name == "tkick"@ {
        Command::Tkick
    } else if name == "queue"@ {
        Command::Queue
    } else if name == "enqueue"@ {
        Command::Enqueue
    } else if name == "enqueue_me"@ {
        Command::EnqueueMe
    } else if name == "enqueue_me_faster"@ {
        Command::EnqueueMeFaster
    } else if name == "unqueue_me"@ {
        Command::UnqueueMe
    } else if name == "dequeue"@ {
        Command::Dequeue
    } else if name == "dequeue_nojoin"@ {
        Command::DequeueNojoin
    } else {
        Command::Unknown
    }
}

impl Command {
    /// Whether only blessed users may run this command.
    pub open spec fn privileged(self) -> bool {
        match self {
            Command::Tjoin
            | Command::Tkick
            | Command::Enqueue
            | Command::Dequeue
            | Command::DequeueNojoin => true,
            _ => false,
        }
    }

    /// Whether only blessed users may run this command.
    pub fn is_privileged(self) -> (privileged: bool)
        ensures
            privileged == self.privileged(),
    {
        match self {
            Command::Tjoin
            | Command::Tkick
            | Command::Enqueue
            | Command::Dequeue
            | Command::DequeueNojoin => true,
            _ => false,
        }
    }

    /// The command with the given name.
    pub fn named(name: &String) -> (command: Command)
        ensures
            command == command_named(name@),
    {
        if is_word(name, "ping") {
            Command::Ping
        } else if is_word(name, "id") {
            Command::Id
        } else if is_word(name, "tjoin") {
            Command::Tjoin
        } else if is_word(name, "tkick") {
            Command::Tkick
        } else if is_word(name, "queue") {
            Command::Queue
        } else if is_word(name, "enqueue") {
            Command::Enqueue
        } else if is_word(name, "enqueue_me") {
            Command::EnqueueMe
        } else if is_word(name, "enqueue_me_faster") {
            Command::EnqueueMeFaster
        } else if is_word(name, "unqueue_me") {
            Command::UnqueueMe
        } else if is_word(name, "dequeue") {
            Command::Dequeue
        } else if is_word(name, "dequeue_nojoin") {
            Command::DequeueNojoin
        } else {
            Command::Unknown
        }
    }
}

fn is_word(text: &String, word: &str) -> (same: bool)
    ensures
        same == (text@ == word@),
{
    *text == word.to_string()
}

/// Why a team is brought to a table.
#[derive(Clone, Copy, Debug, PartialEq, Eq, Structural)]
pub enum Cause {
    Join,
    Kick,
    Dequeue,
}

/// A command that waits for the outcome of a request.
#[allow(inconsistent_fields)]
#[derive(Debug)]
pub enum Session {
    /// Listing both queues: waiting for the first.
    FirstQueue,
    /// Listing both queues: waiting for the second.
    SecondQueue { first: Vec<i64> },
    /// Adding a team to the queue of a table; `own` if it is that of the user.
    Enqueueing { own: bool, table: i64, add: AddToQueue },
    /// Adding the user's team to the shortest queue.
    EnqueueingFaster { add: AddToSmallestQueue },
    /// A team was added to the queue of a table: waiting for the queue.
    Showing { table: i64 },
    /// Taking the user's team out of its queue.
    Unqueueing { op: Unqueue },
    /// Taking the first team out of a queue, and bringing it to the table if
    /// `join`.
    Dequeueing { table: i64, join: bool, op: Dequeue },
    /// Bringing a team to a table: waiting for the voice states.
    Joining { cause: Cause, team: i64, table: i64 },
    /// Bringing a team to a table: waiting for a move.
    Moving { cause: Cause, team: i64, table: i64, join: TableJoin },
}

/// What a command waits for.
#[derive(Debug)]
pub enum Request {
    /// The reply of the store to a command.
    Store(StoreCommand),
    /// The lengths of the queues of these tables.
    Count(Vec<i64>),
    /// The voice states.
    Voice,
    /// A user being moved into a voice channel.
    Move { user: u64, channel: u64 },
}

/// The outcome of a request.
pub enum Event<'a> {
    Stored(StoreReply),
    /// The tables, each with the length of its queue.
    Counted(Vec<(i64, i64)>),
    Voice(&'a TableVoiceState),
    /// Whether the user was moved.
    Moved(bool),
}

/// What to do about a command.
#[derive(Debug)]
pub enum Turn {
    /// Nothing.
    Ignore,
    /// Answer, and be done.
    Reply(String),
    /// Make a request, and hand the outcome back.
    Ask(Session, Request),
}

/// The mathematical content of a [`Session`].
#[allow(inconsistent_fields)]
#[verifier::ext_equal]
pub enum SessionView {
    FirstQueue,
    SecondQueue { first: Seq<i64> },
    Enqueueing { own: bool, table: i64, add: AddToQueue },
    EnqueueingFaster { add: AddToSmallestQueue },
    Showing { table: i64 },
    Unqueueing { op: Unqueue },
    Dequeueing { table: i64, join: bool, op: Dequeue },
    Joining { cause: Cause, team: i64, table: i64 },
    Moving { cause: Cause, team: i64, table: i64, join: TableJoinView },
}

/// The mathematical content of a [`Request`].
#[verifier::ext_equal]
pub enum RequestView {
    Store(StoreCommand),
    Count(Seq<i64>),
    Voice,
    Move { user: u64, channel: u64 },
}

/// The mathematical content of an [`Event`].
#[verifier::ext_equal]
pub enum EventView {
    Stored(StoreReplyView),
    Counted(Seq<(i64, i64)>),
    Voice(Map<i64, Set<u64>>),
    Moved(bool),
}

/// The mathematical content of a [`Turn`].
#[verifier::ext_equal]
pub enum TurnView {
    Ignore,
    Reply(Seq<char>),
    Ask(SessionView, RequestView),
}

impl View for Session {
    type V = SessionView;

    open spec fn view(&self) -> SessionView {
        match self {
            Session::FirstQueue => SessionView::FirstQueue,
            Session::SecondQueue { first } => SessionView::SecondQueue { first: first@ },
            Session::Enqueueing { own, table, add } => SessionView::Enqueueing {
                own: *own,
                table: *table,
                add: *add,
            },
            Session::EnqueueingFaster { add } => SessionView::EnqueueingFaster { add: *add },
            Session::Showing { table } => SessionView::Showing { table: *table },
            Session::Unqueueing { op } => SessionView::Unqueueing { op: *op },
            Session::Dequeueing { table, join, op } => SessionView::Dequeueing {
                table: *table,
                join: *join,
                op: *op,
            },
            Session::Joining { cause, team, table } => SessionView::Joining {
                cause: *cause,
                team: *team,
                table: *table,
            },
            Session::Moving { cause, team, table, join } => SessionView::Moving {
                cause: *cause,
                team: *team,
                table: *table,
                join: join@,
            },
        }
    }
}

impl View for Request {
    type V = RequestView;

    open spec fn view(&self) -> RequestView {
        match self {
            Request::Store(command) => RequestView::Store(*command),
            Request::Count(tables) => RequestView::Count(tables@),
            Request::Voice => RequestView::Voice,
            Request::Move { user, channel } => RequestView::Move {
                user: *user,
                channel: *channel,
            },
        }
    }
}

impl<'a> View for Event<'a> {
    type V = EventView;

    open spec fn view(&self) -> EventView {
        match self {
            Event::Stored(reply) => EventView::Stored(reply@),
            Event::Counted(counts) => EventView::Counted(counts@),
            Event::Voice(voice) => EventView::Voice(voice@),
            Event::Moved(moved) => EventView::Moved(*moved),
        }
    }
}

impl View for Turn {
    type V = TurnView;

    open spec fn view(&self) -> TurnView {
        match self {
            Turn::Ignore => TurnView::Ignore,
            Turn::Reply(text) => TurnView::Reply(text@),
            Turn::Ask(session, request) => TurnView::Ask(session@, request@),
        }
    }
}

/// The turn that adds a team to the queue of its table.
pub open spec fn enqueue_turn(own: bool, team: i64) -> TurnView {
    let table = default_table(team);
    TurnView::Ask(
        SessionView::Enqueueing { own, table, add: AddToQueue::Checking { table, team } },
        RequestView::Store(StoreCommand::Hexists { team }),
    )
}

impl InvocationView {
    /// Whether the options are those of the command: those of a privileged one
    /// are only looked at for a blessed user, and none in another guild.
    pub open spec fn well_formed(self, config: ConfigView) -> bool {
        let blessed = config.blessed_users.contains(self.user_id);
        self.guild_id != Some(config.guild_id) || match command_named(self.name) {
            Command::Id => self.options.len() >= 1 && self.options[0].resolved is Some,
            Command::Tjoin => blessed ==> self.options.len() == 2 && self.options[0].value is Some
                && self.options[1].value is Some,
            Command::Tkick | Command::Dequeue | Command::DequeueNojoin => blessed ==>
                self.options.len() == 1 && self.options[0].value is Some,
            Command::Enqueue => blessed ==> self.options.len() == 1
                && self.options[0].resolved is Some,
            _ => true,
        }
    }

    /// The first turn of a command in the configured guild, where the user may
    /// run it.
    pub open spec fn permitted_turn(self, config: ConfigView) -> TurnView {
        let own_team = config.user_team(self.user_id);
        let no_team = TurnView::Reply("Cannot determine your team. Are you a participant?"@);
        let value = self.options[0].value->0;
        match command_named(self.name) {
            Command::Ping => TurnView::Reply("Hey, I'm alive!"@),
            Command::Id => match self.options[0].resolved->0 {
                ResolvedView::User { id, tag } => TurnView::Reply(
                    tag + "'s id is "@ + decimal(id as int),
                ),
                ResolvedView::Other => TurnView::Reply("Please provide a valid user"@),
            },
            Command::Tjoin => TurnView::Ask(
                SessionView::Joining {
                    cause: Cause::Join,
                    team: self.options[1].value->0,
                    table: value,
                },
                RequestView::Voice,
            ),
            Command::Tkick => TurnView::Ask(
                SessionView::Joining { cause: Cause::Kick, team: DUMMY_TEAM, table: value },
                RequestView::Voice,
            ),
            Command::Queue => TurnView::Ask(
                SessionView::FirstQueue,
                RequestView::Store(StoreCommand::Zrange { table: 1 }),
            ),
            Command::Enqueue => match self.options[0].resolved->0 {
                ResolvedView::User { id, tag } => match config.user_team(id) {
                    Some(team) => enqueue_turn(false, team),
                    None => TurnView::Reply("Cannot determine the team of the user"@),
                },
                ResolvedView::Other => TurnView::Reply("Please provide a valid user"@),
            },
            Command::EnqueueMe => match own_team {
                Some(team) => enqueue_turn(true, team),
                None => no_team,
            },
            Command::EnqueueMeFaster => match own_team {
                Some(team) => TurnView::Ask(
                    SessionView::EnqueueingFaster { add: AddToSmallestQueue::Checking { team } },
                    RequestView::Store(StoreCommand::Hexists { team }),
                ),
                None => no_team,
            },
            Command::UnqueueMe => match own_team {
                Some(team) => TurnView::Ask(
                    SessionView::Unqueueing { op: Unqueue::Looking { team } },
                    RequestView::Store(StoreCommand::Hget { team }),
                ),
                None => no_team,
            },
            Command::Dequeue => TurnView::Ask(
                SessionView::Dequeueing { table: value, join: true, op: Dequeue::Popping },
                RequestView::Store(StoreCommand::Zpopmin { table: value }),
            ),
            Command::DequeueNojoin => TurnView::Ask(
                SessionView::Dequeueing { table: value, join: false, op: Dequeue::Popping },
                RequestView::Store(StoreCommand::Zpopmin { table: value }),
            ),
            Command::Unknown => TurnView::Reply("not implemented :("@),
        }
    }

    /// The first turn of a command: other guilds are ignored, and privileged
    /// commands refused to users who are not blessed.
    pub open spec fn first_turn(self, config: ConfigView) -> TurnView {
        if self.guild_id != Some(config.guild_id) {
            TurnView::Ignore
        } else if command_named(self.name).privileged() && !config.blessed_users.contains(
            self.user_id,
        ) {
            TurnView::Reply("You should be blessed by the gods to do this"@)
        } else {
            self.permitted_turn(config)
        }
    }
}

fn say(text: &str) -> (turn: Turn)
    ensures
        turn@ == TurnView::Reply(text@),
{
    Turn::Reply(text.to_string())
}

fn enqueue(config: &Config, own: bool, team: i64) -> (turn: Turn)
    ensures
        turn@ == enqueue_turn(own, team),
{
    let table = config.team_table(team);
    match add_to_queue(table, team) {
        Step::Ask(add, command) => Turn::Ask(
            Session::Enqueueing { own, table, add },
            Request::Store(command),
        ),
        Step::Done(_) => Turn::Ignore,
    }
}

impl Invocation {
    fn has_value(&self, at: usize) -> (has: bool)
        requires
            at < self.options@.len(),
        ensures
            has == self@.options[at as int].value is Some,
    {
        self.options[at].value.is_some()
    }

    fn has_resolved(&self, at: usize) -> (has: bool)
        requires
            at < self.options@.len(),
        ensures
            has == self@.options[at as int].resolved is Some,
    {
        self.options[at].resolved.is_some()
    }

    /// Whether [`interaction_create`] can answer this command.
    pub fn is_well_formed(&self, config: &Config) -> (well_formed: bool)
        ensures
            well_formed == self@.well_formed(config@),
    {
        let ours = match self.guild_id {
            Some(id) => id == config.guild_id,
            None => false,
        };
        let blessed = config.blessed_users.contains(&self.user_id);
        !ours || match Command::named(&self.name) {
            Command::Id => self.options.len() >= 1 && self.has_resolved(0),
            Command::Tjoin => !blessed || self.options.len() == 2 && self.has_value(0)
                && self.has_value(1),
            Command::Tkick | Command::Dequeue | Command::DequeueNojoin => !blessed
                || self.options.len() == 1 && self.has_value(0),
            Command::Enqueue => !blessed || self.options.len() == 1 && self.has_resolved(0),
            _ => true,
        }
    }

    fn integer(&self, at: usize) -> (value: i64)
        requires
            at < self.options@.len(),
            self@.options[at as int].value is Some,
        ensures
            value == self@.options[at as int].value->0,
    {
        self.options[at].value.unwrap()
    }

    /// The first turn, for a user who may run the command.
    fn begin(&self, config: &Config) -> (turn: Turn)
        requires
            self.guild_id == Some(config.guild_id),
            self@.well_formed(config@),
            command_named(self.name@).privileged() ==> config@.blessed_users.contains(
                self.user_id,
            ),
        ensures
            turn@ == self@.permitted_turn(config@),
    {
        match Command::named(&self.name) {
            Command::Ping => say("Hey, I'm alive!"),
            Command::Id => match self.options[0].resolved.as_ref().unwrap() {
                Resolved::User { id, tag } => {
                    let mut text = tag.clone();
                    text.append("'s id is ");
                    append_u64(&mut text, *id);
                    Turn::Reply(text)
                },
                Resolved::Other => say("Please provide a valid user"),
            },
            Command::Tjoin => Turn::Ask(
                Session::Joining {
                    cause: Cause::Join,
                    team: self.integer(1),
                    table: self.integer(0),
                },
                Request::Voice,
            ),
            Command::Tkick => Turn::Ask(
                Session::Joining { cause: Cause::Kick, team: DUMMY_TEAM, table: self.integer(0) },
                Request::Voice,
            ),
            Command::Queue => Turn::Ask(Session::FirstQueue, Request::Store(get_queue(1))),
            Command::Enqueue => match self.options[0].resolved.as_ref().unwrap() {
                Resolved::User { id, .. } => match config.user_team(*id) {
                    Some(team) => enqueue(config, false, team),
                    None => say("Cannot determine the team of the user"),
                },
                Resolved::Other => say("Please provide a valid user"),
            },
            Command::EnqueueMe => match config.user_team(self.user_id) {
                Some(team) => enqueue(config, true, team),
                None => say("Cannot determine your team. Are you a participant?"),
            },
            Command::EnqueueMeFaster => match config.user_team(self.user_id) {
                Some(team) => smallest_turn(add_to_smallest_queue(team)),
                None => say("Cannot determine your team. Are you a participant?"),
            },
            Command::UnqueueMe => match config.user_team(self.user_id) {
                Some(team) => unqueue_turn(unqueue(team)),
                None => say("Cannot determine your team. Are you a participant?"),
            },
            Command::Dequeue => {
                let table = self.integer(0);
                dequeue_turn(table, true, dequeue(table))
            },
            Command::DequeueNojoin => {
                let table = self.integer(0);
                dequeue_turn(table, false, dequeue(table))
            },
            Command::Unknown => say("not implemented :("),
        }
    }
}

/// Starts answering a slash command.
pub fn interaction_create(config: &Config, invocation: &Invocation) -> (turn: Turn)
    requires
        invocation@.well_formed(config@),
    ensures
        turn@ == invocation@.first_turn(config@),
{
    let ours = match invocation.guild_id {
        Some(id) => id == config.guild_id,
        None => false,
    };
    if !ours {
        return Turn::Ignore;
    }
    if Command::named(&invocation.name).is_privileged() && !config.blessed_users.contains(
        &invocation.user_id,
    ) {
        return say("You should be blessed by the gods to do this");
    }
    invocation.begin(config)
}

/// What follows a step of adding a team to the queue of a table.
pub open spec fn after_add(own: bool, table: i64, step: Step<AddToQueue, bool>) -> TurnView {
    match step {
        Step::Ask(add, command) => TurnView::Ask(
            SessionView::Enqueueing { own, table, add },
            RequestView::Store(command),
        ),
        Step::Done(added) => if added {
            showing(table)
        } else if own {
            TurnView::Reply("You are already enqueued somewhere!"@)
        } else {
            TurnView::Reply("They are already enqueued somewhere!"@)
        },
    }
}

/// The turn that lists the queue to which a team was added.
pub open spec fn showing(table: i64) -> TurnView {
    TurnView::Ask(
        SessionView::Showing { table },
        RequestView::Store(StoreCommand::Zrange { table }),
    )
}

/// What follows a step of adding a team to the shortest queue.
pub open spec fn after_smallest(step: SmallestStepView) -> TurnView {
    match step {
        SmallestStepView::Ask(add, command) => TurnView::Ask(
            SessionView::EnqueueingFaster { add },
            RequestView::Store(command),
        ),
        SmallestStepView::Count(add, tables) => TurnView::Ask(
            SessionView::EnqueueingFaster { add },
            RequestView::Count(tables),
        ),
        SmallestStepView::Done(Some(table)) => showing(table),
        SmallestStepView::Done(None) => TurnView::Reply("You are already enqueued somewhere!"@),
    }
}

/// What follows a step of taking a team out of its queue.
pub open spec fn after_unqueue(step: Step<Unqueue, Option<i64>>) -> TurnView {
    match step {
        Step::Ask(op, command) => TurnView::Ask(
            SessionView::Unqueueing { op },
            RequestView::Store(command),
        ),
        Step::Done(Some(table)) => TurnView::Reply(
            "Successfully unqueued from table "@ + decimal(table as int),
        ),
        Step::Done(None) => TurnView::Reply("You don't seem to be enqueued!"@),
    }
}

/// What follows a step of taking the first team out of a queue.
pub open spec fn after_dequeue(
    table: i64,
    join: bool,
    step: Step<Dequeue, Option<i64>>,
) -> TurnView {
    match step {
        Step::Ask(op, command) => TurnView::Ask(
            SessionView::Dequeueing { table, join, op },
            RequestView::Store(command),
        ),
        Step::Done(Some(team)) => if join {
            TurnView::Ask(
                SessionView::Joining { cause: Cause::Dequeue, team, table },
                RequestView::Voice,
            )
        } else {
            TurnView::Reply("Deqeued team "@ + decimal(team as int) + " -> /dev/null"@)
        },
        Step::Done(None) => TurnView::Reply(
            "The queue for table "@ + decimal(table as int) + " is empty"@,
        ),
    }
}

/// How bringing a team to a table is reported.
pub open spec fn join_text(cause: Cause, team: i64, table: i64, join: TableJoinView) -> Seq<char> {
    let head = match cause {
        Cause::Join => "Done team "@ + decimal(team as int) + " -> table "@,
        Cause::Kick => "Done kicking from table "@,
        Cause::Dequeue => "Deqeued team "@ + decimal(team as int) + " -> table "@,
    };
    head + decimal(table as int) + ": "@ + decimal(join.people_in as int) + " people in, "@
        + decimal(join.people_out as int) + " people out, "@ + decimal(join.people_fail as int)
        + " people failed"@
}

/// What follows when the moves of a join stand as given: the next move, or the
/// report.
pub open spec fn after_move(cause: Cause, team: i64, table: i64, join: TableJoinView) -> TurnView {
    match join.next_move() {
        Some(relocation) => TurnView::Ask(
            SessionView::Moving { cause, team, table, join },
            RequestView::Move { user: relocation.user, channel: relocation.channel },
        ),
        None => TurnView::Reply(join_text(cause, team, table, join)),
    }
}

impl SessionView {
    /// Whether the session can go on with `event`: it is what was waited for,
    /// and what it names is known.
    pub open spec fn accepts(self, config: ConfigView, event: EventView) -> bool {
        match (self, event) {
            (SessionView::FirstQueue, EventView::Stored(reply)) => reply is Teams,
            (SessionView::SecondQueue { first }, EventView::Stored(reply)) => {
                reply matches StoreReplyView::Teams(second) && all_named(config, first)
                    && all_named(config, second)
            },
            (SessionView::Enqueueing { add, .. }, EventView::Stored(reply)) => add.accepts(reply),
            (SessionView::EnqueueingFaster { add }, EventView::Stored(reply)) => add.accepts(reply),
            (SessionView::EnqueueingFaster { add }, EventView::Counted(counts)) => add is Counting
                && counts.len() > 0,
            (SessionView::Showing { .. }, EventView::Stored(reply)) => {
                reply matches StoreReplyView::Teams(queue) && all_named(config, queue)
            },
            (SessionView::Unqueueing { op }, EventView::Stored(reply)) => op.accepts(reply),
            (SessionView::Dequeueing { op, .. }, EventView::Stored(reply)) => op.accepts(reply),
            (SessionView::Joining { team, table, .. }, EventView::Voice(seating)) => can_join(
                config,
                seating,
                team,
                table,
            ),
            (SessionView::Moving { join, .. }, EventView::Moved(_)) => join.balanced()
                && join.next_move() is Some,
            _ => false,
        }
    }

    /// Whether the next command to the store carries the time.
    pub open spec fn notes_time(self) -> bool {
        match self {
            SessionView::Enqueueing { add, .. } => add is Assigning,
            SessionView::EnqueueingFaster {
                add: AddToSmallestQueue::Adding { add, .. },
            } => add is Assigning,
            _ => false,
        }
    }

    /// What follows on `event`, received at the time `millis`.  Only the order
    /// of the tables to count, and that of the moves to make, is left open.
    pub open spec fn goes_on(
        self,
        config: ConfigView,
        event: EventView,
        millis: i64,
        turn: TurnView,
    ) -> bool {
        match (self, event) {
            (
                SessionView::FirstQueue,
                EventView::Stored(StoreReplyView::Teams(first)),
            ) => turn == TurnView::Ask(
                SessionView::SecondQueue { first },
                RequestView::Store(StoreCommand::Zrange { table: 2 }),
            ),
            (
                SessionView::SecondQueue { first },
                EventView::Stored(StoreReplyView::Teams(second)),
            ) => turn == TurnView::Reply(
                "Table 1:\n"@ + queue_text(config, first) + "\n\nTable 2:\n"@ + queue_text(
                    config,
                    second,
                ),
            ),
            (SessionView::Enqueueing { own, table, add }, EventView::Stored(reply)) => turn
                == after_add(own, table, add.next(reply, millis)),
            (SessionView::EnqueueingFaster { add }, EventView::Stored(reply)) => exists|
                step: SmallestStepView,
            | #[trigger]
                add.goes_on(config, reply, millis, step) && turn == after_smallest(step),
            (SessionView::EnqueueingFaster { add }, EventView::Counted(counts)) => turn
                == after_smallest(add.counted(counts)),
            (SessionView::Showing { table }, EventView::Stored(StoreReplyView::Teams(queue))) => turn
                == TurnView::Reply(
                "Enqueued to table "@ + decimal(table as int) + "\n"@ + queue_text(config, queue),
            ),
            (SessionView::Unqueueing { op }, EventView::Stored(reply)) => turn == after_unqueue(
                op.next(reply),
            ),
            (SessionView::Dequeueing { table, join, op }, EventView::Stored(reply)) => turn
                == after_dequeue(table, join, op.next(reply)),
            (SessionView::Joining { cause, team, table }, EventView::Voice(seating)) => exists|
                join: TableJoinView,
            | #[trigger]
                planned(config, seating, team, table, join) && turn == after_move(
                    cause,
                    team,
                    table,
                    join,
                ),
            (SessionView::Moving { cause, team, table, join }, EventView::Moved(moved)) => turn
                == after_move(cause, team, table, join.record(moved)),
            _ => false,
        }
    }
}

/// The time at which an event is received matters only to a session that is
/// about to note it.
pub proof fn law_time_matters_only_when_noted(
    session: SessionView,
    config: ConfigView,
    event: EventView,
    millis: i64,
    other: i64,
    turn: TurnView,
)
    requires
        !session.notes_time(),
        session.accepts(config, event),
        session.goes_on(config, event, millis, turn),
    ensures
        session.goes_on(config, event, other, turn),
{
    if let SessionView::EnqueueingFaster { add } = session {
        if let EventView::Stored(reply) = event {
            let step = choose|step: SmallestStepView| #[trigger]
                add.goes_on(config, reply, millis, step) && turn == after_smallest(step);
            assert(add.goes_on(config, reply, other, step));
        }
    }
}

fn add_turn(own: bool, table: i64, step: Step<AddToQueue, bool>) -> (turn: Turn)
    ensures
        turn@ == after_add(own, table, step),
{
    match step {
        Step::Ask(add, command) => Turn::Ask(
            Session::Enqueueing { own, table, add },
            Request::Store(command),
        ),
        Step::Done(added) => if added {
            Turn::Ask(Session::Showing { table }, Request::Store(get_queue(table)))
        } else if own {
            say("You are already enqueued somewhere!")
        } else {
            say("They are already enqueued somewhere!")
        },
    }
}

fn smallest_turn(step: SmallestStep) -> (turn: Turn)
    ensures
        turn@ == after_smallest(step@),
{
    match step {
        SmallestStep::Ask(add, command) => Turn::Ask(
            Session::EnqueueingFaster { add },
            Request::Store(command),
        ),
        SmallestStep::Count(add, tables) => Turn::Ask(
            Session::EnqueueingFaster { add },
            Request::Count(tables),
        ),
        SmallestStep::Done(Some(table)) => Turn::Ask(
            Session::Showing { table },
            Request::Store(get_queue(table)),
        ),
        SmallestStep::Done(None) => say("You are already enqueued somewhere!"),
    }
}

fn unqueue_turn(step: Step<Unqueue, Option<i64>>) -> (turn: Turn)
    ensures
        turn@ == after_unqueue(step),
{
    match step {
        Step::Ask(op, command) => Turn::Ask(
            Session::Unqueueing { op },
            Request::Store(command),
        ),
        Step::Done(Some(table)) => {
            let mut text = "Successfully unqueued from table ".to_string();
            append_i64(&mut text, table);
            Turn::Reply(text)
        },
        Step::Done(None) => say("You don't seem to be enqueued!"),
    }
}

fn dequeue_turn(table: i64, join: bool, step: Step<Dequeue, Option<i64>>) -> (turn: Turn)
    ensures
        turn@ == after_dequeue(table, join, step),
{
    match step {
        Step::Ask(op, command) => Turn::Ask(
            Session::Dequeueing { table, join, op },
            Request::Store(command),
        ),
        Step::Done(Some(team)) => if join {
            Turn::Ask(Session::Joining { cause: Cause::Dequeue, team, table }, Request::Voice)
        } else {
            let mut text = "Deqeued team ".to_string();
            append_i64(&mut text, team);
            text.append(" -> /dev/null");
            Turn::Reply(text)
        },
        Step::Done(None) => {
            let mut text = "The queue for table ".to_string();
            append_i64(&mut text, table);
            text.append(" is empty");
            Turn::Reply(text)
        },
    }
}

fn move_turn(cause: Cause, team: i64, table: i64, join: TableJoin) -> (turn: Turn)
    ensures
        turn@ == after_move(cause, team, table, join@),
{
    match join.next_move() {
        Some(relocation) => Turn::Ask(
            Session::Moving { cause, team, table, join },
            Request::Move { user: relocation.user, channel: relocation.channel },
        ),
        None => {
            let mut text = String::new();
            match cause {
                Cause::Join => {
                    text.append("Done team ");
                    append_i64(&mut text, team);
                    text.append(" -> table ");
                },
                Cause::Kick => {
                    text.append("Done kicking from table ");
                },
                Cause::Dequeue => {
                    text.append("Deqeued team ");
                    append_i64(&mut text, team);
                    text.append(" -> table ");
                },
            }
            append_i64(&mut text, table);
            text.append(": ");
            append_u64(&mut text, join.people_in as u64);
            text.append(" people in, ");
            append_u64(&mut text, join.people_out as u64);
            text.append(" people out, ");
            append_u64(&mut text, join.people_fail as u64);
            text.append(" people failed");
            assert(text@ =~= join_text(cause, team, table, join@));
            Turn::Reply(text)
        },
    }
}

impl Session {
    /// Whether [`Session::resume`] can go on with `event`.
    pub fn can_resume<'a>(&self, config: &Config, event: &Event<'a>) -> (can: bool)
        ensures
            can == self@.accepts(config@, event@),
    {
        match (self, event) {
            (Session::FirstQueue, Event::Stored(StoreReply::Teams(_))) => true,
            (
                Session::SecondQueue { first },
                Event::Stored(StoreReply::Teams(second)),
            ) => queue_is_named(config, first) && queue_is_named(config, second),
            (Session::Enqueueing { add, .. }, Event::Stored(reply)) => add.can_resume(reply),
            (Session::EnqueueingFaster { add }, Event::Stored(reply)) => add.can_resume(reply),
            (Session::EnqueueingFaster { add }, Event::Counted(counts)) => match add {
                AddToSmallestQueue::Counting { .. } => counts.len() > 0,
                _ => false,
            },
            (Session::Showing { .. }, Event::Stored(StoreReply::Teams(queue))) => queue_is_named(
                config,
                queue,
            ),
            (Session::Unqueueing { op }, Event::Stored(reply)) => op.can_resume(reply),
            (Session::Dequeueing { op, .. }, Event::Stored(reply)) => op.can_resume(reply),
            (
                Session::Joining { team, table, .. },
                Event::Voice(voice),
            ) => TableJoin::is_possible(config, voice, *team, *table),
            (Session::Moving { join, .. }, Event::Moved(_)) => join.is_balanced()
                && join.next_move().is_some(),
            _ => false,
        }
    }

    /// Whether the next command to the store carries the time.
    fn is_noting_time(&self) -> (noting: bool)
        ensures
            noting == self@.notes_time(),
    {
        match self {
            Session::Enqueueing { add: AddToQueue::Assigning { .. }, .. } => true,
            Session::EnqueueingFaster {
                add: AddToSmallestQueue::Adding { add: AddToQueue::Assigning { .. }, .. },
            } => true,
            _ => false,
        }
    }

    /// Goes on with `event`, received now.
    pub fn resume<'a>(self, config: &Config, event: Event<'a>) -> (turn: Turn)
        requires
            self@.accepts(config@, event@),
        ensures
            exists|millis: i64|
                exact_score(millis) && #[trigger] self@.goes_on(config@, event@, millis, turn@),
            self@.notes_time() ==> exists|millis: i64| #[trigger]
                clock_reading(millis) && self@.goes_on(config@, event@, millis, turn@),
            !self@.notes_time() ==> forall|millis: i64| #[trigger]
                self@.goes_on(config@, event@, millis, turn@),
    {
        let millis: i64 = if self.is_noting_time() {
            read_clock()
        } else {
            0
        };
        let ghost before = self@;
        let ghost outcome = event@;
        let turn = self.resume_at(config, event, millis);
        proof {
            assert(before.goes_on(config@, outcome, millis, turn@));
            if !before.notes_time() {
                assert forall|other: i64| #[trigger]
                    before.goes_on(config@, outcome, other, turn@) by {
                    law_time_matters_only_when_noted(
                        before,
                        config@,
                        outcome,
                        millis,
                        other,
                        turn@,
                    );
                }
            }
        }
        turn
    }

    /// Goes on with `event`, received at the time `millis`, in milliseconds
    /// since the epoch.
    pub fn resume_at<'a>(self, config: &Config, event: Event<'a>, millis: i64) -> (turn: Turn)
        requires
            self@.accepts(config@, event@),
        ensures
            self@.goes_on(config@, event@, millis, turn@),
    {
        match (self, event) {
            (Session::FirstQueue, Event::Stored(StoreReply::Teams(first))) => Turn::Ask(
                Session::SecondQueue { first },
                Request::Store(get_queue(2)),
            ),
            (Session::SecondQueue { first }, Event::Stored(StoreReply::Teams(second))) => {
                let mut text = "Table 1:\n".to_string();
                text.append(format_queue(config, &first).as_str());
                text.append("\n\nTable 2:\n");
                text.append(format_queue(config, &second).as_str());
                Turn::Reply(text)
            },
            (Session::Enqueueing { own, table, add }, Event::Stored(reply)) => add_turn(
                own,
                table,
                add.resume(&reply, millis),
            ),
            (Session::EnqueueingFaster { add }, Event::Stored(reply)) => smallest_turn(
                add.resume(config, &reply, millis),
            ),
            (Session::EnqueueingFaster { add }, Event::Counted(counts)) => smallest_turn(
                add.resume_with_counts(&counts),
            ),
            (Session::Showing { table }, Event::Stored(StoreReply::Teams(queue))) => {
                let mut text = "Enqueued to table ".to_string();
                append_i64(&mut text, table);
                text.append("\n");
                text.append(format_queue(config, &queue).as_str());
                Turn::Reply(text)
            },
            (Session::Unqueueing { op }, Event::Stored(reply)) => unqueue_turn(op.resume(&reply)),
            (Session::Dequeueing { table, join, op }, Event::Stored(reply)) => dequeue_turn(
                table,
                join,
                op.resume(&reply),
            ),
            (Session::Joining { cause, team, table }, Event::Voice(voice)) => {
                let join = TableJoin::plan(config, voice, team, table);
                move_turn(cause, team, table, join)
            },
            (Session::Moving { cause, team, table, join }, Event::Moved(moved)) => {
                let mut join = join;
                join.record(moved);
                move_turn(cause, team, table, join)
            },
            _ => Turn::Ignore,
        }
    }
}

} // verus!
