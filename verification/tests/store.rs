use table_bot::config::Config;
use table_bot::store::{PopReply, StoreCommand};

fn config() -> Config {
    Config::assemble(
        "stage".to_string(),
        String::new(),
        0,
        0,
        &vec![],
        &vec![],
        &vec![],
        &vec![],
    )
}

fn packed(words: &[&str]) -> String {
    let mut text = format!("*{}\r\n", words.len());
    for word in words {
        text.push_str(&format!("${}\r\n{}\r\n", word.len(), word));
    }
    text
}

fn sent(command: StoreCommand) -> String {
    String::from_utf8(command.to_cmd(&config()).get_packed_command()).unwrap()
}

#[test]
fn hash_commands() {
    assert_eq!(
        sent(StoreCommand::Hexists { team: 4 }),
        packed(&["HEXISTS", "stage:team_to_queue", "4"])
    );
    assert_eq!(
        sent(StoreCommand::Hset { team: 4, table: 2 }),
        packed(&["HSET", "stage:team_to_queue", "4", "2"])
    );
    assert_eq!(
        sent(StoreCommand::Hget { team: 12 }),
        packed(&["HGET", "stage:team_to_queue", "12"])
    );
    assert_eq!(
        sent(StoreCommand::Hdel { team: -1 }),
        packed(&["HDEL", "stage:team_to_queue", "-1"])
    );
}

#[test]
fn queue_commands() {
    assert_eq!(
        sent(StoreCommand::Zadd { table: 1, team: 7, millis: 1647000000123 }),
        packed(&["ZADD", "stage:queue:1", "NX", "1647000000123", "7"])
    );
    assert_eq!(
        sent(StoreCommand::Zrem { table: 2, team: 7 }),
        packed(&["ZREM", "stage:queue:2", "7"])
    );
    assert_eq!(
        sent(StoreCommand::Zpopmin { table: 2 }),
        packed(&["ZPOPMIN", "stage:queue:2", "1"])
    );
    assert_eq!(
        sent(StoreCommand::Zrange { table: -1 }),
        packed(&["ZRANGE", "stage:queue:-1", "0", "100"])
    );
}

#[test]
fn counting_has_no_bounds() {
    let sent = sent(StoreCommand::Zcount { table: 1 });
    assert_eq!(sent, packed(&["ZCOUNT", "stage:queue:1", "-inf", "inf"]));
    let floats = redis::Cmd::zcount("stage:queue:1", f64::NEG_INFINITY, f64::INFINITY);
    assert_eq!(sent.into_bytes(), floats.get_packed_command());
}

#[test]
fn no_two_commands_are_sent_alike() {
    let mut all = vec![];
    for team in [-1, 1, 11] {
        all.push(sent(StoreCommand::Hexists { team }));
        all.push(sent(StoreCommand::Hget { team }));
        all.push(sent(StoreCommand::Hdel { team }));
        for table in [1, 11] {
            all.push(sent(StoreCommand::Hset { team, table }));
            all.push(sent(StoreCommand::Zrem { team, table }));
            all.push(sent(StoreCommand::Zadd { team, table, millis: 1 }));
            all.push(sent(StoreCommand::Zadd { team, table, millis: 11 }));
        }
    }
    for table in [-1, 1, 11] {
        all.push(sent(StoreCommand::Zpopmin { table }));
        all.push(sent(StoreCommand::Zrange { table }));
        all.push(sent(StoreCommand::Zcount { table }));
    }
    let total = all.len();
    all.sort();
    all.dedup();
    assert_eq!(all.len(), total);
}

fn bulk(items: &[&str]) -> PopReply {
    PopReply::Bulk(items.iter().map(|item| item.as_bytes().to_vec()).collect())
}

#[test]
fn popped_team() {
    let reply = bulk(&["7", "1647000000123"]);
    assert!(reply.is_readable());
    assert_eq!(reply.team(), Some(7));
    assert_eq!(bulk(&["-12", "0"]).team(), Some(-12));
    assert_eq!(bulk(&["+5", "0"]).team(), Some(5));
    assert_eq!(bulk(&["-9223372036854775808", "0"]).team(), Some(i64::MIN));
}

#[test]
fn nothing_popped() {
    assert!(bulk(&[]).is_readable());
    assert_eq!(bulk(&[]).team(), None);
    assert!(PopReply::Other.is_readable());
    assert_eq!(PopReply::Other.team(), None);
}

#[test]
fn unreadable_pops() {
    assert!(!bulk(&["7"]).is_readable());
    assert!(!bulk(&["7", "1", "8", "2"]).is_readable());
    assert!(!bulk(&["seven", "1"]).is_readable());
    assert!(!bulk(&["", "1"]).is_readable());
    assert!(!bulk(&["-", "1"]).is_readable());
    assert!(!bulk(&["7 ", "1"]).is_readable());
    assert!(!bulk(&["9223372036854775808", "1"]).is_readable());
}

#[test]
fn reading_agrees_with_the_client_library() {
    for text in ["0", "00", "-0", "+0", "+", "--1", "1.5", "9223372036854775807"] {
        let value = redis::Value::Bulk(vec![
            redis::Value::Data(text.as_bytes().to_vec()),
            redis::Value::Data(b"2.5".to_vec()),
        ]);
        let pair: Option<(i64, f64)> = redis::from_redis_value(&value).ok();
        let reply = bulk(&[text, "2.5"]);
        assert_eq!(reply.is_readable(), pair.is_some());
        if let Some((team, _)) = pair {
            assert_eq!(reply.team(), Some(team));
        }
    }
}
