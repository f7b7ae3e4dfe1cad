use table_bot::config::{Config, DUMMY_TABLE, DUMMY_TEAM};
use table_bot::presets::TeamEntry;
use table_bot::seating::{Relocation, TableJoin};
use table_bot::voice::{TableVoiceState, VoiceReport};

fn config() -> Config {
    Config::assemble(
        String::new(),
        String::new(),
        0,
        22,
        &vec![(DUMMY_TABLE, 900), (1, 901), (2, 902)],
        &vec![
            TeamEntry { id: DUMMY_TEAM, members: vec![], room: 900 },
            TeamEntry { id: 3, members: vec![30, 31], room: 803 },
            TeamEntry { id: 8, members: vec![80, 81], room: 808 },
        ],
        &vec![],
        &vec![],
    )
}

fn seated(users: &[(u64, u64)]) -> TableVoiceState {
    let mut state = TableVoiceState::new();
    let reports = users
        .iter()
        .map(|&(user, channel)| VoiceReport { user, channel: Some(channel) })
        .collect();
    state.guild_create(&config(), 22, &reports);
    state
}

fn sorted(moves: &[Relocation]) -> Vec<(u64, u64, bool)> {
    let mut moves: Vec<(u64, u64, bool)> =
        moves.iter().map(|m| (m.user, m.channel, m.kick)).collect();
    moves.sort();
    moves
}

#[test]
fn others_leave_before_the_team_comes() {
    let voice = seated(&[(80, 901), (81, 901), (30, 901)]);
    assert!(TableJoin::is_possible(&config(), &voice, 3, 1));
    let join = TableJoin::plan(&config(), &voice, 3, 1);
    assert_eq!(join.moves.len(), 3);
    assert_eq!(sorted(&join.moves[..2]), vec![(80, 808, true), (81, 808, true)]);
    assert_eq!(sorted(&join.moves[2..]), vec![(31, 901, false)]);
    assert_eq!((join.done, join.people_in, join.people_out, join.people_fail), (0, 0, 0, 0));
}

#[test]
fn an_empty_table_is_filled() {
    let join = TableJoin::plan(&config(), &TableVoiceState::new(), 8, 2);
    assert_eq!(sorted(&join.moves), vec![(80, 902, false), (81, 902, false)]);
}

#[test]
fn a_seated_team_stays() {
    let voice = seated(&[(30, 902), (31, 902)]);
    let join = TableJoin::plan(&config(), &voice, 3, 2);
    assert!(join.moves.is_empty());
    assert_eq!(join.next_move(), None);
}

#[test]
fn the_empty_team_clears_the_table() {
    let voice = seated(&[(30, 901), (80, 901), (81, 902)]);
    let join = TableJoin::plan(&config(), &voice, DUMMY_TEAM, 1);
    assert_eq!(sorted(&join.moves), vec![(30, 803, true), (80, 808, true)]);
}

#[test]
fn unknown_teams_and_tables() {
    let voice = TableVoiceState::new();
    assert!(!TableJoin::is_possible(&config(), &voice, 4, 1));
    assert!(!TableJoin::is_possible(&config(), &voice, 3, 5));
    let mut no_neutral = config();
    no_neutral.tables.remove(&DUMMY_TABLE);
    assert!(!TableJoin::is_possible(&no_neutral, &voice, 3, 1));
}

#[test]
fn someone_without_a_room_cannot_leave() {
    let voice = seated(&[(80, 901)]);
    let mut homeless = config();
    homeless.team_voice_rooms.remove(&8);
    assert!(!TableJoin::is_possible(&homeless, &voice, 3, 1));
    assert!(TableJoin::is_possible(&homeless, &voice, 8, 1));
    let mut teamless = config();
    teamless.user_teams.remove(&80);
    assert!(!TableJoin::is_possible(&teamless, &voice, 3, 1));
}

#[test]
fn outcomes_are_counted() {
    let voice = seated(&[(80, 901), (81, 901)]);
    let mut join = TableJoin::plan(&config(), &voice, 3, 1);
    for moved in [true, false, true, false] {
        assert!(join.is_balanced());
        assert!(join.next_move().is_some());
        join.record(moved);
    }
    assert_eq!(join.next_move(), None);
    assert!(join.is_balanced());
    assert_eq!((join.people_in, join.people_out, join.people_fail), (1, 1, 2));
    assert_eq!(join.people_in + join.people_out + join.people_fail, join.moves.len());
}

#[test]
fn successes_are_counted_by_direction() {
    let voice = seated(&[(80, 901)]);
    let mut join = TableJoin::plan(&config(), &voice, 3, 1);
    while join.next_move().is_some() {
        join.record(true);
    }
    assert_eq!((join.people_in, join.people_out, join.people_fail), (2, 1, 0));
}

#[test]
fn unbalanced_counts_are_noticed() {
    let mut join = TableJoin::plan(&config(), &TableVoiceState::new(), 3, 1);
    join.people_in = 1;
    assert!(!join.is_balanced());
}

#[test]
fn guests_do_not_make_a_seated_team_move() {
    let mut voice = seated(&[(30, 901), (31, 901)]);
    voice.members.get_mut(&1).unwrap().insert(99);
    let join = TableJoin::plan(&config(), &voice, 3, 1);
    assert!(join.moves.is_empty());
}

#[test]
fn a_second_join_moves_nobody() {
    let mut voice = seated(&[(80, 901), (81, 901), (30, 902)]);
    let join = TableJoin::plan(&config(), &voice, 3, 1);
    assert_eq!(join.moves.len(), 4);
    for made in &join.moves {
        let previous = if made.kick {
            Some(VoiceReport { user: made.user, channel: Some(901) })
        } else {
            None
        };
        let current = VoiceReport { user: made.user, channel: Some(made.channel) };
        voice.voice_state_update(&config(), Some(22), previous, current);
    }
    assert!(TableJoin::plan(&config(), &voice, 3, 1).moves.is_empty());
}
