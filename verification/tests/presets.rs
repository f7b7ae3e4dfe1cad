use table_bot::config::{DUMMY_TABLE, DUMMY_TEAM};
use table_bot::presets::{prod_config, test_config};

#[test]
fn production_settings() {
    let config = prod_config("token".to_string());
    assert_eq!(config.environment, "prod");
    assert_eq!(config.token, "token");
    assert_eq!(config.app_id, 952960685787193374);
    assert_eq!(config.guild_id, 951447764837990400);
    assert_eq!(config.tables.len(), 3);
    assert_eq!(config.tables[&DUMMY_TABLE], 952884153827885117);
    assert_eq!(config.tables[&1], 952984861306662942);
    assert_eq!(config.tables[&2], 952984899734868048);
    assert_eq!(config.teams.len(), 13);
    assert_eq!(config.team_names[&DUMMY_TEAM], "Dummy team");
    assert_eq!(config.blessed_users.len(), 4);
}

#[test]
fn test_settings() {
    let config = test_config("other".to_string());
    assert_eq!(config.environment, "test");
    assert_eq!(config.token, "other");
    assert_eq!(config.guild_id, 377441849134284812);
    assert_eq!(config.tables[&DUMMY_TABLE], 452137106609799168);
    assert_eq!(config.tables[&1], 952970394070036582);
    assert_eq!(config.tables[&2], 953042225984585829);
    assert_eq!(config.participants.len(), 2);
    assert_eq!(config.user_team(352172373774041102), Some(1));
    assert_eq!(config.user_team(246300672734003211), Some(2));
    assert!(config.teams[&12].is_empty());
    assert_eq!(config.blessed_users.len(), 2);
}

#[test]
fn settings_are_coherent() {
    for config in [prod_config(String::new()), test_config(String::new())] {
        assert!(config.tables.contains_key(&DUMMY_TABLE));
        assert!(config.teams[&DUMMY_TEAM].is_empty());
        let mut members = 0;
        for (team, users) in &config.teams {
            assert!(config.team_voice_rooms.contains_key(team));
            assert!(config.team_names.contains_key(team));
            for user in users {
                assert_eq!(config.user_team(*user), Some(*team));
                assert!(config.participants.contains(user));
                members += 1;
            }
        }
        assert_eq!(config.participants.len(), members);
        assert_eq!(config.user_teams.len(), members);
        assert_eq!(config.team_names.len(), config.teams.len());
        let mut channels: Vec<u64> = config.tables.values().cloned().collect();
        channels.sort();
        channels.dedup();
        assert_eq!(channels.len(), config.tables.len());
    }
}

#[test]
fn deployments_share_no_keys() {
    let prod = prod_config(String::new());
    let test = test_config(String::new());
    assert_ne!(prod.team_to_queue_name(), test.team_to_queue_name());
    for table in [0, 1, 2] {
        assert_ne!(prod.queue_name(table), test.queue_name(table));
    }
}

#[test]
fn production_teams() {
    let config = prod_config(String::new());
    assert_eq!(config.team_names[&1], "Волновая Интерференция");
    assert_eq!(config.team_names[&11], "ClosedCV");
    assert_eq!(config.team_names[&12], "[REDACTED]");
    assert!(config.blessed_users.contains(&743031905200635925));
    assert!(!config.teams[&1].is_empty());
}

#[test]
fn nobody_returns_to_a_table() {
    for config in [prod_config(String::new()), test_config(String::new())] {
        for user in &config.participants {
            let home = config.team_voice_rooms[&config.user_teams[user]];
            assert_eq!(config.table_of_channel(home), None);
        }
    }
}
