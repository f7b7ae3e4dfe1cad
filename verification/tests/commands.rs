use table_bot::commands::{
    application_commands, offered_teams_are_named, table_option, CommandOffer, ParameterKind,
};
use table_bot::config::Config;
use table_bot::interaction::Command;
use table_bot::presets::{prod_config, test_config};

#[test]
fn table_parameter() {
    let table = table_option();
    assert_eq!(table.name, "table");
    assert_eq!(table.description, "A table id (1 or 2)");
    assert_eq!(table.kind, ParameterKind::Integer);
    assert_eq!(table.bounds, None);
    assert!(table.required);
    let choices: Vec<(&str, i32)> =
        table.choices.iter().map(|choice| (choice.name.as_str(), choice.value)).collect();
    assert_eq!(choices, vec![("Table #1", 1), ("Table #2", 2)]);
}

fn names(offers: &Vec<CommandOffer>) -> Vec<&str> {
    offers.iter().map(|offer| offer.name.as_str()).collect()
}

#[test]
fn offered_commands() {
    let offers = application_commands(&test_config(String::new()));
    assert_eq!(
        names(&offers),
        vec![
            "ping",
            "tjoin",
            "tkick",
            "enqueue",
            "enqueue_me",
            "enqueue_me_faster",
            "unqueue_me",
            "queue",
            "dequeue",
            "dequeue_nojoin",
        ]
    );
    let counts: Vec<usize> = offers.iter().map(|offer| offer.parameters.len()).collect();
    assert_eq!(counts, vec![0, 2, 1, 1, 0, 0, 0, 0, 1, 1]);
    assert_eq!(offers[0].description, "A ping command");
    assert_eq!(
        offers[9].description,
        "Dequeue the team from the specified table queue, but do NOT move them to the table"
    );
    for offer in &offers {
        assert_ne!(Command::named(&offer.name), Command::Unknown);
    }
}

#[test]
fn team_parameter() {
    let config = prod_config(String::new());
    assert!(offered_teams_are_named(&config));
    let offers = application_commands(&config);
    let team = &offers[1].parameters[1];
    assert_eq!(team.name, "team_id");
    assert_eq!(team.description, "Team id (1-12)");
    assert_eq!(team.bounds, Some((1, 12)));
    assert!(team.required);
    assert_eq!(team.choices.len(), 12);
    assert_eq!(team.choices[11].name, "#12: [REDACTED]");
    for (i, choice) in team.choices.iter().enumerate() {
        let id = i as i64 + 1;
        assert_eq!(choice.value as i64, id);
        assert_eq!(choice.name, format!("#{}: {}", id, config.team_names[&id]));
    }
}

#[test]
fn user_parameter() {
    let offers = application_commands(&test_config(String::new()));
    let user = &offers[3].parameters[0];
    assert_eq!(user.name, "user");
    assert_eq!(user.description, "The user to enqueue");
    assert_eq!(user.kind, ParameterKind::User);
    assert!(user.choices.is_empty());
    assert!(user.required);
}

#[test]
fn teams_without_names_cannot_be_offered() {
    let config = Config::assemble(
        String::new(),
        String::new(),
        0,
        0,
        &vec![],
        &vec![],
        &vec![(1, "one"), (2, "two")],
        &vec![],
    );
    assert!(!offered_teams_are_named(&config));
}
