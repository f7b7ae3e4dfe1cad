use table_bot::config::{Config, DUMMY_TABLE, DUMMY_TEAM};
use table_bot::presets::TeamEntry;
use table_bot::voice::{TableVoiceState, VoiceReport};

fn config() -> Config {
    Config::assemble(
        String::new(),
        String::new(),
        0,
        22,
        &vec![(DUMMY_TABLE, 900), (1, 901), (2, 902)],
        &vec![
            TeamEntry { id: DUMMY_TEAM, members: vec![], room: 900 },
            TeamEntry { id: 3, members: vec![30, 31], room: 803 },
        ],
        &vec![],
        &vec![],
    )
}

fn report(user: u64, channel: Option<u64>) -> VoiceReport {
    VoiceReport { user, channel }
}

fn at(state: &TableVoiceState, table: i64) -> Vec<u64> {
    let mut users: Vec<u64> = match state.members.get(&table) {
        Some(users) => users.iter().cloned().collect(),
        None => vec![],
    };
    users.sort();
    users
}

#[test]
fn nobody_is_seated_at_first() {
    assert!(TableVoiceState::new().members.is_empty());
}

#[test]
fn guild_report_seats_participants() {
    let mut state = TableVoiceState::new();
    let reports = vec![
        report(30, Some(901)),
        report(31, Some(803)),
        report(99, Some(901)),
        report(31, None),
    ];
    state.guild_create(&config(), 22, &reports);
    assert_eq!(at(&state, 1), vec![30]);
    assert_eq!(state.members.len(), 1);
    state.guild_create(&config(), 22, &vec![report(31, Some(901))]);
    assert_eq!(at(&state, 1), vec![30, 31]);
}

#[test]
fn other_guilds_seat_nobody() {
    let mut state = TableVoiceState::new();
    state.guild_create(&config(), 23, &vec![report(30, Some(901))]);
    assert!(state.members.is_empty());
    state.voice_state_update(&config(), Some(23), None, report(30, Some(901)));
    state.voice_state_update(&config(), None, None, report(30, Some(901)));
    assert!(state.members.is_empty());
}

#[test]
fn update_moves_a_user() {
    let mut state = TableVoiceState::new();
    state.voice_state_update(&config(), Some(22), None, report(30, Some(901)));
    assert_eq!(at(&state, 1), vec![30]);
    state.voice_state_update(
        &config(),
        Some(22),
        Some(report(30, Some(901))),
        report(30, Some(902)),
    );
    assert_eq!(at(&state, 1), Vec::<u64>::new());
    assert_eq!(at(&state, 2), vec![30]);
    state.voice_state_update(&config(), Some(22), Some(report(30, Some(902))), report(30, None));
    assert_eq!(at(&state, 2), Vec::<u64>::new());
    assert!(state.members.contains_key(&1));
    assert!(state.members.contains_key(&2));
}

#[test]
fn update_within_a_channel_changes_nothing() {
    let mut state = TableVoiceState::new();
    state.voice_state_update(&config(), Some(22), None, report(30, Some(901)));
    state.voice_state_update(
        &config(),
        Some(22),
        Some(report(30, Some(901))),
        report(30, Some(901)),
    );
    assert_eq!(at(&state, 1), vec![30]);
}

#[test]
fn updates_of_strangers_do_not_count() {
    let mut state = TableVoiceState::new();
    state.voice_state_update(
        &config(),
        Some(22),
        Some(report(30, Some(901))),
        report(99, Some(901)),
    );
    assert!(state.members.is_empty());
}

#[test]
fn leaving_an_unknown_table_still_notes_the_table() {
    let mut state = TableVoiceState::new();
    state.voice_state_update(
        &config(),
        Some(22),
        Some(report(30, Some(901))),
        report(30, Some(803)),
    );
    assert_eq!(at(&state, 1), Vec::<u64>::new());
    assert!(state.members.contains_key(&1));
    assert_eq!(state.members.len(), 1);
}
