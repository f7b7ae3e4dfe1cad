use std::collections::HashMap;

use table_bot::config::{Config, DUMMY_TABLE, DUMMY_TEAM};
use table_bot::interaction::{
    interaction_create, CommandOption, Event, Invocation, Request, Resolved, Session, Turn,
};
use table_bot::presets::TeamEntry;
use table_bot::queue::StoreReply;
use table_bot::store::{PopReply, StoreCommand};
use table_bot::voice::{TableVoiceState, VoiceReport};

const GUILD: u64 = 22;
const CHIEF: u64 = 7;

fn config() -> Config {
    Config::assemble(
        "stage".to_string(),
        String::new(),
        11,
        GUILD,
        &vec![(DUMMY_TABLE, 900), (1, 901), (2, 902)],
        &vec![
            TeamEntry { id: DUMMY_TEAM, members: vec![], room: 900 },
            TeamEntry { id: 3, members: vec![30, 31], room: 803 },
            TeamEntry { id: 4, members: vec![40], room: 804 },
            TeamEntry { id: 8, members: vec![80, 81], room: 808 },
            TeamEntry { id: 11, members: vec![110], room: 811 },
        ],
        &vec![(DUMMY_TEAM, "Nobody"), (3, "Threes"), (4, "Fours"), (8, "Eights"), (11, "Elevens")],
        &vec![CHIEF],
    )
}

/// A store that holds everything in memory.
#[derive(Clone, Debug, PartialEq)]
struct Memory {
    assigned: HashMap<i64, i64>,
    waiting: HashMap<(i64, i64), i64>,
}

impl Memory {
    fn new() -> Memory {
        Memory { assigned: HashMap::new(), waiting: HashMap::new() }
    }

    fn queue(&self, table: i64) -> Vec<i64> {
        let mut teams: Vec<(i64, String, i64)> = self
            .waiting
            .iter()
            .filter(|((t, _), _)| *t == table)
            .map(|((_, team), millis)| (*millis, team.to_string(), *team))
            .collect();
        teams.sort();
        teams.into_iter().map(|(_, _, team)| team).collect()
    }

    fn answer(&mut self, command: StoreCommand) -> StoreReply {
        match command {
            StoreCommand::Hexists { team } => StoreReply::Flag(self.assigned.contains_key(&team)),
            StoreCommand::Hset { team, table } => {
                self.assigned.insert(team, table);
                StoreReply::Done
            }
            StoreCommand::Hget { team } => StoreReply::Table(self.assigned.get(&team).cloned()),
            StoreCommand::Hdel { team } => {
                self.assigned.remove(&team);
                StoreReply::Done
            }
            StoreCommand::Zadd { table, team, millis } => {
                self.waiting.entry((table, team)).or_insert(millis);
                StoreReply::Done
            }
            StoreCommand::Zrem { table, team } => {
                self.waiting.remove(&(table, team));
                StoreReply::Done
            }
            StoreCommand::Zpopmin { table } => match self.queue(table).first() {
                Some(team) => {
                    let millis = self.waiting.remove(&(table, *team)).unwrap();
                    StoreReply::Popped(PopReply::Bulk(vec![
                        team.to_string().into_bytes(),
                        millis.to_string().into_bytes(),
                    ]))
                }
                None => StoreReply::Popped(PopReply::Bulk(vec![])),
            },
            StoreCommand::Zrange { table } => {
                let mut teams = self.queue(table);
                teams.truncate(101);
                StoreReply::Teams(teams)
            }
            StoreCommand::Zcount { table: _ } => unreachable!(),
        }
    }
}

/// Runs a command to its end; moves of the users in `stuck` fail.
fn run(
    memory: &mut Memory,
    voice: &TableVoiceState,
    millis: i64,
    stuck: &[u64],
    invocation: &Invocation,
) -> Option<String> {
    run_moving(memory, voice, millis, stuck, invocation).0
}

/// Runs a command to its end, and gives the users who were to be moved, each
/// with the channel.
fn run_moving(
    memory: &mut Memory,
    voice: &TableVoiceState,
    millis: i64,
    stuck: &[u64],
    invocation: &Invocation,
) -> (Option<String>, Vec<(u64, u64)>) {
    let mut attempts = vec![];
    let config = config();
    assert!(invocation.is_well_formed(&config));
    let mut turn = interaction_create(&config, invocation);
    loop {
        let (session, request) = match turn {
            Turn::Ignore => return (None, attempts),
            Turn::Reply(text) => return (Some(text), attempts),
            Turn::Ask(session, request) => (session, request),
        };
        let event = match request {
            Request::Store(command) => Event::Stored(memory.answer(command)),
            Request::Count(tables) => Event::Counted(
                tables.iter().map(|t| (*t, memory.queue(*t).len() as i64)).collect(),
            ),
            Request::Voice => Event::Voice(voice),
            Request::Move { user, channel } => {
                attempts.push((user, channel));
                Event::Moved(!stuck.contains(&user))
            }
        };
        assert!(session.can_resume(&config, &event));
        turn = session.resume_at(&config, event, millis);
    }
}

fn call(user_id: u64, name: &str, options: Vec<CommandOption>) -> Invocation {
    Invocation { guild_id: Some(GUILD), user_id, name: name.to_string(), options }
}

fn number(value: i64) -> CommandOption {
    CommandOption { value: Some(value), resolved: None }
}

fn someone(id: u64, tag: &str) -> CommandOption {
    CommandOption { value: None, resolved: Some(Resolved::User { id, tag: tag.to_string() }) }
}

fn other() -> CommandOption {
    CommandOption { value: None, resolved: Some(Resolved::Other) }
}

fn say(memory: &mut Memory, millis: i64, user: u64, name: &str) -> String {
    let voice = TableVoiceState::new();
    run(memory, &voice, millis, &[], &call(user, name, vec![])).unwrap()
}

fn seated(users: &[(u64, u64)]) -> TableVoiceState {
    let mut state = TableVoiceState::new();
    let reports = users
        .iter()
        .map(|&(user, channel)| VoiceReport { user, channel: Some(channel) })
        .collect();
    state.guild_create(&config(), GUILD, &reports);
    state
}

#[test]
fn ping_is_answered() {
    let mut memory = Memory::new();
    assert_eq!(say(&mut memory, 1, 99, "ping"), "Hey, I'm alive!");
    assert_eq!(memory, Memory::new());
}

#[test]
fn unknown_commands_are_not_implemented() {
    assert_eq!(say(&mut Memory::new(), 1, 99, "dance"), "not implemented :(");
    assert_eq!(say(&mut Memory::new(), 1, 99, ""), "not implemented :(");
    assert_eq!(say(&mut Memory::new(), 1, 99, "PING"), "not implemented :(");
}

#[test]
fn other_guilds_are_ignored() {
    let mut memory = Memory::new();
    let voice = TableVoiceState::new();
    for guild_id in [None, Some(23)] {
        for name in ["ping", "id", "tjoin", "enqueue_me", "nonsense"] {
            let invocation =
                Invocation { guild_id, user_id: CHIEF, name: name.to_string(), options: vec![] };
            assert_eq!(run(&mut memory, &voice, 1, &[], &invocation), None);
        }
    }
    assert_eq!(memory, Memory::new());
}

#[test]
fn privileged_commands_are_refused() {
    let mut memory = Memory::new();
    for name in ["tjoin", "tkick", "enqueue", "dequeue", "dequeue_nojoin"] {
        assert_eq!(
            say(&mut memory, 1, 30, name),
            "You should be blessed by the gods to do this"
        );
    }
    assert_eq!(memory, Memory::new());
}

#[test]
fn id_of_a_user() {
    let voice = TableVoiceState::new();
    let mut memory = Memory::new();
    let invocation = call(99, "id", vec![someone(246300672734003211, "ann#0042")]);
    assert_eq!(
        run(&mut memory, &voice, 1, &[], &invocation).unwrap(),
        "ann#0042's id is 246300672734003211"
    );
    let invocation = call(99, "id", vec![other(), number(1)]);
    assert_eq!(
        run(&mut memory, &voice, 1, &[], &invocation).unwrap(),
        "Please provide a valid user"
    );
}

#[test]
fn malformed_commands_are_noticed() {
    let config = config();
    assert!(!call(99, "id", vec![]).is_well_formed(&config));
    assert!(!call(99, "id", vec![number(1)]).is_well_formed(&config));
    assert!(!call(CHIEF, "tjoin", vec![number(1)]).is_well_formed(&config));
    assert!(!call(CHIEF, "tjoin", vec![number(1), other()]).is_well_formed(&config));
    assert!(!call(CHIEF, "tkick", vec![]).is_well_formed(&config));
    assert!(!call(CHIEF, "tkick", vec![number(1), number(2)]).is_well_formed(&config));
    assert!(!call(CHIEF, "enqueue", vec![number(1)]).is_well_formed(&config));
    assert!(!call(CHIEF, "dequeue", vec![other()]).is_well_formed(&config));
    assert!(!call(CHIEF, "dequeue_nojoin", vec![]).is_well_formed(&config));
    assert!(call(30, "dequeue", vec![]).is_well_formed(&config));
    assert!(call(30, "queue", vec![number(1)]).is_well_formed(&config));
}

#[test]
fn enqueue_me_adds_the_team() {
    let mut memory = Memory::new();
    assert_eq!(
        say(&mut memory, 50, 30, "enqueue_me"),
        "Enqueued to table 1\n  team 3: Threes\n"
    );
    assert_eq!(memory.assigned, HashMap::from([(3, 1)]));
    assert_eq!(memory.waiting, HashMap::from([((1, 3), 50)]));
    assert_eq!(
        say(&mut memory, 60, 40, "enqueue_me"),
        "Enqueued to table 1\n  team 3: Threes\n  team 4: Fours\n"
    );
    assert_eq!(
        say(&mut memory, 70, 81, "enqueue_me"),
        "Enqueued to table 2\n  team 8: Eights\n"
    );
}

#[test]
fn a_team_waits_once() {
    let mut memory = Memory::new();
    say(&mut memory, 50, 30, "enqueue_me");
    let before = memory.clone();
    assert_eq!(say(&mut memory, 60, 31, "enqueue_me"), "You are already enqueued somewhere!");
    assert_eq!(
        say(&mut memory, 60, 31, "enqueue_me_faster"),
        "You are already enqueued somewhere!"
    );
    let voice = TableVoiceState::new();
    let invocation = call(CHIEF, "enqueue", vec![someone(30, "x")]);
    assert_eq!(
        run(&mut memory, &voice, 60, &[], &invocation).unwrap(),
        "They are already enqueued somewhere!"
    );
    assert_eq!(memory, before);
}

#[test]
fn strangers_have_no_queue() {
    let mut memory = Memory::new();
    for name in ["enqueue_me", "enqueue_me_faster", "unqueue_me"] {
        assert_eq!(
            say(&mut memory, 1, 99, name),
            "Cannot determine your team. Are you a participant?"
        );
    }
    assert_eq!(memory, Memory::new());
}

#[test]
fn enqueue_of_another_user() {
    let mut memory = Memory::new();
    let voice = TableVoiceState::new();
    let invocation = call(CHIEF, "enqueue", vec![someone(80, "x")]);
    assert_eq!(
        run(&mut memory, &voice, 5, &[], &invocation).unwrap(),
        "Enqueued to table 2\n  team 8: Eights\n"
    );
    assert_eq!(memory.waiting, HashMap::from([((2, 8), 5)]));
    let invocation = call(CHIEF, "enqueue", vec![someone(99, "x")]);
    assert_eq!(
        run(&mut memory, &voice, 5, &[], &invocation).unwrap(),
        "Cannot determine the team of the user"
    );
    let invocation = call(CHIEF, "enqueue", vec![other()]);
    assert_eq!(
        run(&mut memory, &voice, 5, &[], &invocation).unwrap(),
        "Please provide a valid user"
    );
}

#[test]
fn enqueue_me_faster_takes_a_shortest_queue() {
    let mut memory = Memory::new();
    say(&mut memory, 50, 30, "enqueue_me");
    assert_eq!(
        say(&mut memory, 60, 40, "enqueue_me_faster"),
        "Enqueued to table 2\n  team 4: Fours\n"
    );
    assert_eq!(memory.assigned, HashMap::from([(3, 1), (4, 2)]));
}

#[test]
fn unqueue_me_undoes_enqueue_me() {
    let mut memory = Memory::new();
    say(&mut memory, 50, 40, "enqueue_me");
    let before = memory.clone();
    say(&mut memory, 60, 30, "enqueue_me");
    assert_ne!(memory, before);
    assert_eq!(
        say(&mut memory, 70, 31, "unqueue_me"),
        "Successfully unqueued from table 1"
    );
    assert_eq!(memory, before);
    assert_eq!(say(&mut memory, 70, 31, "unqueue_me"), "You don't seem to be enqueued!");
    assert_eq!(memory, before);
}

#[test]
fn both_queues_are_listed() {
    let mut memory = Memory::new();
    assert_eq!(
        say(&mut memory, 1, 99, "queue"),
        "Table 1:\n  (empty)\n\nTable 2:\n  (empty)"
    );
    say(&mut memory, 50, 30, "enqueue_me");
    say(&mut memory, 40, 40, "enqueue_me");
    let before = memory.clone();
    assert_eq!(
        say(&mut memory, 1, 99, "queue"),
        "Table 1:\n  team 4: Fours\n  team 3: Threes\n\n\nTable 2:\n  (empty)"
    );
    assert_eq!(memory, before);
}

#[test]
fn first_come_first_served() {
    let mut memory = Memory::new();
    let voice = TableVoiceState::new();
    say(&mut memory, 50, 30, "enqueue_me");
    say(&mut memory, 60, 40, "enqueue_me");
    let pop = call(CHIEF, "dequeue_nojoin", vec![number(1)]);
    assert_eq!(
        run(&mut memory, &voice, 70, &[], &pop).unwrap(),
        "Deqeued team 3 -> /dev/null"
    );
    assert_eq!(
        run(&mut memory, &voice, 70, &[], &pop).unwrap(),
        "Deqeued team 4 -> /dev/null"
    );
    assert_eq!(
        run(&mut memory, &voice, 70, &[], &pop).unwrap(),
        "The queue for table 1 is empty"
    );
    assert_eq!(memory, Memory::new());
}

#[test]
fn dequeue_brings_the_team_to_the_table() {
    let mut memory = Memory::new();
    say(&mut memory, 50, 81, "enqueue_me");
    let voice = seated(&[(30, 902), (31, 902), (80, 902)]);
    let pop = call(CHIEF, "dequeue", vec![number(2)]);
    assert_eq!(
        run(&mut memory, &voice, 70, &[31], &pop).unwrap(),
        "Deqeued team 8 -> table 2: 1 people in, 1 people out, 1 people failed"
    );
    assert_eq!(memory, Memory::new());
    assert_eq!(
        run(&mut memory, &voice, 70, &[], &pop).unwrap(),
        "The queue for table 2 is empty"
    );
}

#[test]
fn tjoin_reports_its_moves() {
    let mut memory = Memory::new();
    let voice = seated(&[(80, 901), (81, 901)]);
    let join = call(CHIEF, "tjoin", vec![number(1), number(3)]);
    assert_eq!(
        run(&mut memory, &voice, 1, &[], &join).unwrap(),
        "Done team 3 -> table 1: 2 people in, 2 people out, 0 people failed"
    );
    assert_eq!(
        run(&mut memory, &voice, 1, &[30, 31, 80, 81], &join).unwrap(),
        "Done team 3 -> table 1: 0 people in, 0 people out, 4 people failed"
    );
    assert_eq!(memory, Memory::new());
}

#[test]
fn tkick_clears_a_table() {
    let voice = seated(&[(80, 901), (30, 901), (31, 902)]);
    let kick = call(CHIEF, "tkick", vec![number(1)]);
    assert_eq!(
        run(&mut Memory::new(), &voice, 1, &[], &kick).unwrap(),
        "Done kicking from table 1: 0 people in, 2 people out, 0 people failed"
    );
    let kick = call(CHIEF, "tkick", vec![number(0)]);
    assert_eq!(
        run(&mut Memory::new(), &voice, 1, &[], &kick).unwrap(),
        "Done kicking from table 0: 0 people in, 0 people out, 0 people failed"
    );
}

#[test]
fn the_time_of_adding_is_noted() {
    let config = config();
    let session = Session::Enqueueing {
        own: true,
        table: 1,
        add: table_bot::queue::AddToQueue::Assigning { table: 1, team: 3 },
    };
    match session.resume(&config, Event::Stored(StoreReply::Done)) {
        Turn::Ask(_, Request::Store(StoreCommand::Zadd { table: 1, team: 3, millis })) => {
            assert!(millis > 1_600_000_000_000);
        }
        turn => panic!("{:?}", turn),
    }
}

#[test]
fn sessions_want_the_right_event() {
    let config = config();
    assert!(!Session::FirstQueue.can_resume(&config, &Event::Moved(true)));
    assert!(!Session::FirstQueue.can_resume(&config, &Event::Stored(StoreReply::Done)));
    let nameless = StoreReply::Teams(vec![3, 5]);
    assert!(!Session::Showing { table: 1 }.can_resume(&config, &Event::Stored(nameless)));
    let voice = TableVoiceState::new();
    let joining = Session::Joining {
        cause: table_bot::interaction::Cause::Join,
        team: 5,
        table: 1,
    };
    assert!(!joining.can_resume(&config, &Event::Voice(&voice)));
}

#[test]
fn newcomers_go_to_the_end() {
    let mut memory = Memory::new();
    say(&mut memory, 50, 80, "enqueue_me");
    say(&mut memory, 40, 30, "enqueue_me");
    let others = memory.queue(1);
    assert_eq!(memory.queue(2), vec![8]);
    assert_eq!(
        say(&mut memory, 51, 110, "enqueue_me"),
        "Enqueued to table 2\n  team 8: Eights\n  team 11: Elevens\n"
    );
    assert_eq!(memory.queue(2), vec![8, 11]);
    assert_eq!(memory.queue(1), others);
}

#[test]
fn the_head_of_the_listing_is_taken() {
    let mut memory = Memory::new();
    say(&mut memory, 50, 80, "enqueue_me");
    say(&mut memory, 50, 110, "enqueue_me");
    assert_eq!(
        say(&mut memory, 1, 99, "queue"),
        "Table 1:\n  (empty)\n\nTable 2:\n  team 11: Elevens\n  team 8: Eights\n"
    );
    let voice = TableVoiceState::new();
    let pop = call(CHIEF, "dequeue_nojoin", vec![number(2)]);
    assert_eq!(
        run(&mut memory, &voice, 70, &[], &pop).unwrap(),
        "Deqeued team 11 -> /dev/null"
    );
    assert_eq!(memory.queue(2), vec![8]);
    assert_eq!(
        run(&mut memory, &voice, 70, &[], &pop).unwrap(),
        "Deqeued team 8 -> /dev/null"
    );
    assert_eq!(
        run(&mut memory, &voice, 70, &[], &pop).unwrap(),
        "The queue for table 2 is empty"
    );
}

#[test]
fn moves_follow_the_plan() {
    let mut memory = Memory::new();
    let voice = seated(&[(80, 901), (31, 901)]);
    let join = call(CHIEF, "tjoin", vec![number(1), number(3)]);
    let (_, attempts) = run_moving(&mut memory, &voice, 1, &[80], &join);
    assert_eq!(attempts, vec![(80, 808), (30, 901)]);
    let kick = call(CHIEF, "tkick", vec![number(1)]);
    let (_, mut attempts) = run_moving(&mut memory, &voice, 1, &[], &kick);
    attempts.sort();
    assert_eq!(attempts, vec![(31, 803), (80, 808)]);
    say(&mut memory, 50, 40, "enqueue_me");
    let pop = call(CHIEF, "dequeue", vec![number(1)]);
    let (_, mut attempts) = run_moving(&mut memory, &voice, 1, &[], &pop);
    assert_eq!(attempts.pop(), Some((40, 901)));
    attempts.sort();
    assert_eq!(attempts, vec![(31, 803), (80, 808)]);
    let (_, attempts) = run_moving(&mut memory, &voice, 1, &[], &pop);
    assert!(attempts.is_empty());
    let enqueue = call(40, "enqueue_me", vec![]);
    let (_, attempts) = run_moving(&mut memory, &voice, 1, &[], &enqueue);
    assert!(attempts.is_empty());
}

#[test]
fn those_who_stay_keep_their_places() {
    let mut memory = Memory::new();
    say(&mut memory, 50, 30, "enqueue_me");
    say(&mut memory, 60, 40, "enqueue_me");
    say(&mut memory, 70, 80, "enqueue_me");
    memory.answer(StoreCommand::Zadd { table: 1, team: 5, millis: 55 });
    assert_eq!(memory.queue(1), vec![3, 5, 4]);
    assert_eq!(
        say(&mut memory, 80, 30, "unqueue_me"),
        "Successfully unqueued from table 1"
    );
    assert_eq!(memory.queue(1), vec![5, 4]);
    assert_eq!(memory.queue(2), vec![8]);
}

#[test]
fn unqueue_me_undoes_every_way_of_enqueueing() {
    let voice = TableVoiceState::new();
    let ways = [
        call(30, "enqueue_me", vec![]),
        call(31, "enqueue_me_faster", vec![]),
        call(CHIEF, "enqueue", vec![someone(30, "x")]),
    ];
    for way in &ways {
        let mut memory = Memory::new();
        say(&mut memory, 50, 40, "enqueue_me");
        let before = memory.clone();
        run(&mut memory, &voice, 60, &[], way);
        assert_ne!(memory, before);
        let table = memory.assigned[&3];
        assert_eq!(
            say(&mut memory, 70, 31, "unqueue_me"),
            format!("Successfully unqueued from table {}", table)
        );
        assert_eq!(memory, before);
    }
}

#[test]
fn every_second_enqueueing_is_refused() {
    let voice = TableVoiceState::new();
    let ways = [
        (call(30, "enqueue_me", vec![]), "You are already enqueued somewhere!"),
        (call(31, "enqueue_me_faster", vec![]), "You are already enqueued somewhere!"),
        (
            call(CHIEF, "enqueue", vec![someone(31, "x")]),
            "They are already enqueued somewhere!",
        ),
    ];
    for (first, _) in &ways {
        for (second, refusal) in &ways {
            let mut memory = Memory::new();
            run(&mut memory, &voice, 60, &[], first);
            let between = memory.clone();
            assert_eq!(run(&mut memory, &voice, 70, &[], second).unwrap(), *refusal);
            assert_eq!(memory, between);
        }
    }
}

#[test]
fn faster_newcomers_go_to_the_end() {
    let mut memory = Memory::new();
    say(&mut memory, 50, 80, "enqueue_me");
    say(&mut memory, 51, 30, "enqueue_me");
    say(&mut memory, 52, 40, "enqueue_me");
    assert_eq!(
        say(&mut memory, 60, 110, "enqueue_me_faster"),
        "Enqueued to table 2\n  team 8: Eights\n  team 11: Elevens\n"
    );
    assert_eq!(memory.queue(1), vec![3, 4]);
}
