use table_bot::config::{Config, DUMMY_TABLE, DUMMY_TEAM};
use table_bot::presets::TeamEntry;

fn small_config() -> Config {
    Config::assemble(
        "stage".to_string(),
        "secret".to_string(),
        11,
        22,
        &vec![(DUMMY_TABLE, 900), (1, 901), (2, 902)],
        &vec![
            TeamEntry { id: DUMMY_TEAM, members: vec![], room: 900 },
            TeamEntry { id: 3, members: vec![30, 31], room: 803 },
            TeamEntry { id: 8, members: vec![80], room: 808 },
        ],
        &vec![(DUMMY_TEAM, "Nobody"), (3, "Threes"), (8, "Eights")],
        &vec![80, 7],
    )
}

#[test]
fn assembled_fields() {
    let config = small_config();
    assert_eq!(config.environment, "stage");
    assert_eq!(config.token, "secret");
    assert_eq!(config.app_id, 11);
    assert_eq!(config.guild_id, 22);
    assert_eq!(config.tables.len(), 3);
    assert_eq!(config.tables[&2], 902);
    assert_eq!(config.teams.len(), 3);
    assert!(config.teams[&DUMMY_TEAM].is_empty());
    assert_eq!(config.teams[&3].len(), 2);
    assert!(config.teams[&3].contains(&31));
    assert_eq!(config.team_names[&8], "Eights");
    assert_eq!(config.team_voice_rooms[&3], 803);
    assert_eq!(config.participants.len(), 3);
    assert!(config.participants.contains(&80));
    assert_eq!(config.blessed_users.len(), 2);
    assert!(config.blessed_users.contains(&7));
}

#[test]
fn later_entries_win() {
    let config = Config::assemble(
        String::new(),
        String::new(),
        0,
        0,
        &vec![(1, 5), (1, 6)],
        &vec![
            TeamEntry { id: 1, members: vec![10], room: 1 },
            TeamEntry { id: 2, members: vec![10], room: 2 },
        ],
        &vec![],
        &vec![],
    );
    assert_eq!(config.tables[&1], 6);
    assert_eq!(config.user_team(10), Some(2));
    assert!(config.teams[&1].contains(&10));
}

#[test]
fn team_of_a_user() {
    let config = small_config();
    assert_eq!(config.user_team(30), Some(3));
    assert_eq!(config.user_team(31), Some(3));
    assert_eq!(config.user_team(80), Some(8));
    assert_eq!(config.user_team(7), None);
}

#[test]
fn default_table_of_a_team() {
    let config = small_config();
    assert_eq!(config.team_table(DUMMY_TEAM), DUMMY_TEAM);
    assert_eq!(config.team_table(0), -1);
    assert_eq!(config.team_table(1), 1);
    assert_eq!(config.team_table(5), 1);
    assert_eq!(config.team_table(6), 2);
    assert_eq!(config.team_table(11), 2);
    assert_eq!(config.team_table(12), -1);
    assert_eq!(config.team_table(i64::MAX), -1);
    assert_eq!(config.team_table(i64::MIN), -1);
}

#[test]
fn store_keys() {
    let config = small_config();
    assert_eq!(config.queue_name(1), "stage:queue:1");
    assert_eq!(config.queue_name(-1), "stage:queue:-1");
    assert_eq!(config.queue_name(120), "stage:queue:120");
    assert_eq!(config.team_to_queue_name(), "stage:team_to_queue");
    assert_ne!(config.queue_name(1), config.queue_name(2));
    assert_ne!(config.queue_name(1), config.team_to_queue_name());
}

#[test]
fn table_of_a_channel() {
    let config = small_config();
    assert_eq!(config.table_of_channel(900), Some(DUMMY_TABLE));
    assert_eq!(config.table_of_channel(902), Some(2));
    assert_eq!(config.table_of_channel(803), None);
}
