use table_bot::config::{Config, DUMMY_TABLE};
use table_bot::queue::{
    add_to_queue, add_to_smallest_queue, dequeue, format_queue, get_queue, queue_is_named,
    queue_tables, smallest_queue, unqueue, AddToQueue, AddToSmallestQueue, Dequeue, SmallestStep,
    Step, StoreReply, Unqueue,
};
use table_bot::store::{PopReply, StoreCommand};

fn config() -> Config {
    Config::assemble(
        String::new(),
        String::new(),
        0,
        0,
        &vec![(DUMMY_TABLE, 900), (1, 901), (2, 902)],
        &vec![],
        &vec![(3, "Threes"), (8, "Команда")],
        &vec![],
    )
}

#[test]
fn adding_a_free_team() {
    let (add, command) = match add_to_queue(2, 8) {
        Step::Ask(add, command) => (add, command),
        Step::Done(_) => panic!("nothing was checked"),
    };
    assert_eq!(add, AddToQueue::Checking { table: 2, team: 8 });
    assert_eq!(command, StoreCommand::Hexists { team: 8 });
    assert!(add.can_resume(&StoreReply::Flag(false)));
    let (add, command) = match add.resume(&StoreReply::Flag(false), 1) {
        Step::Ask(add, command) => (add, command),
        Step::Done(_) => panic!("nothing was assigned"),
    };
    assert_eq!(command, StoreCommand::Hset { team: 8, table: 2 });
    assert!(add.can_resume(&StoreReply::Done));
    let (add, command) = match add.resume(&StoreReply::Done, 55) {
        Step::Ask(add, command) => (add, command),
        Step::Done(_) => panic!("nothing was added"),
    };
    assert_eq!(command, StoreCommand::Zadd { table: 2, team: 8, millis: 55 });
    assert!(add.can_resume(&StoreReply::Done));
    assert!(matches!(add.resume(&StoreReply::Done, 99), Step::Done(true)));
}

#[test]
fn adding_a_waiting_team() {
    let add = AddToQueue::Checking { table: 1, team: 3 };
    assert!(matches!(add.resume(&StoreReply::Flag(true), 1), Step::Done(false)));
}

#[test]
fn adding_wants_the_right_reply() {
    let add = AddToQueue::Checking { table: 1, team: 3 };
    assert!(!add.can_resume(&StoreReply::Done));
    assert!(!add.can_resume(&StoreReply::Table(Some(1))));
    assert!(!AddToQueue::Adding.can_resume(&StoreReply::Flag(true)));
}

#[test]
fn the_first_of_the_smallest() {
    assert_eq!(smallest_queue(&vec![(1, 4), (2, 3)]), 2);
    assert_eq!(smallest_queue(&vec![(2, 3), (1, 3)]), 2);
    assert_eq!(smallest_queue(&vec![(1, 3), (2, 3)]), 1);
    assert_eq!(smallest_queue(&vec![(7, 9)]), 7);
    assert_eq!(smallest_queue(&vec![(1, 5), (2, 1), (3, 0), (4, 0), (5, 2)]), 3);
}

#[test]
fn neutral_table_has_no_queue() {
    let mut tables = queue_tables(&config());
    tables.sort();
    assert_eq!(tables, vec![1, 2]);
}

#[test]
fn adding_to_the_smallest_queue() {
    let add = match add_to_smallest_queue(8) {
        SmallestStep::Ask(add, StoreCommand::Hexists { team: 8 }) => add,
        step => panic!("{:?}", step),
    };
    assert!(add.can_resume(&StoreReply::Flag(false)));
    let add = match add.resume(&config(), &StoreReply::Flag(false), 1) {
        SmallestStep::Count(add, mut tables) => {
            tables.sort();
            assert_eq!(tables, vec![1, 2]);
            add
        }
        step => panic!("{:?}", step),
    };
    assert_eq!(add, AddToSmallestQueue::Counting { team: 8 });
    assert!(!add.can_resume(&StoreReply::Flag(false)));
    let add = match add.resume_with_counts(&vec![(2, 6), (1, 2)]) {
        SmallestStep::Ask(add, StoreCommand::Hexists { team: 8 }) => add,
        step => panic!("{:?}", step),
    };
    assert!(!add.can_resume(&StoreReply::Flag(true)));
    assert!(add.can_resume(&StoreReply::Flag(false)));
    let add = match add.resume(&config(), &StoreReply::Flag(false), 1) {
        SmallestStep::Ask(add, StoreCommand::Hset { team: 8, table: 1 }) => add,
        step => panic!("{:?}", step),
    };
    let add = match add.resume(&config(), &StoreReply::Done, 77) {
        SmallestStep::Ask(add, StoreCommand::Zadd { table: 1, team: 8, millis: 77 }) => add,
        step => panic!("{:?}", step),
    };
    match add.resume(&config(), &StoreReply::Done, 1) {
        SmallestStep::Done(table) => assert_eq!(table, Some(1)),
        step => panic!("{:?}", step),
    }
}

#[test]
fn a_waiting_team_is_not_added_to_the_smallest_queue() {
    let add = AddToSmallestQueue::Checking { team: 3 };
    match add.resume(&config(), &StoreReply::Flag(true), 1) {
        SmallestStep::Done(table) => assert_eq!(table, None),
        step => panic!("{:?}", step),
    }
}

#[test]
fn taking_a_team_out() {
    let op = match unqueue(3) {
        Step::Ask(op, StoreCommand::Hget { team: 3 }) => op,
        step => panic!("{:?}", step),
    };
    assert!(op.can_resume(&StoreReply::Table(None)));
    let op = match op.resume(&StoreReply::Table(Some(2))) {
        Step::Ask(op, StoreCommand::Zrem { table: 2, team: 3 }) => op,
        step => panic!("{:?}", step),
    };
    assert!(op.can_resume(&StoreReply::Done));
    let op = match op.resume(&StoreReply::Done) {
        Step::Ask(op, StoreCommand::Hdel { team: 3 }) => op,
        step => panic!("{:?}", step),
    };
    assert!(op.can_resume(&StoreReply::Done));
    match op.resume(&StoreReply::Done) {
        Step::Done(table) => assert_eq!(table, Some(2)),
        step => panic!("{:?}", step),
    }
}

#[test]
fn a_team_that_does_not_wait_stays_out() {
    match (Unqueue::Looking { team: 3 }).resume(&StoreReply::Table(None)) {
        Step::Done(table) => assert_eq!(table, None),
        step => panic!("{:?}", step),
    }
}

#[test]
fn popping_a_team() {
    let op = match dequeue(2) {
        Step::Ask(op, StoreCommand::Zpopmin { table: 2 }) => op,
        step => panic!("{:?}", step),
    };
    let reply = StoreReply::Popped(PopReply::Bulk(vec![b"8".to_vec(), b"1647".to_vec()]));
    assert!(op.can_resume(&reply));
    let op = match op.resume(&reply) {
        Step::Ask(op, StoreCommand::Hdel { team: 8 }) => op,
        step => panic!("{:?}", step),
    };
    match op.resume(&StoreReply::Done) {
        Step::Done(team) => assert_eq!(team, Some(8)),
        step => panic!("{:?}", step),
    }
}

#[test]
fn popping_an_empty_queue() {
    for reply in [PopReply::Bulk(vec![]), PopReply::Other] {
        match Dequeue::Popping.resume(&StoreReply::Popped(reply)) {
            Step::Done(team) => assert_eq!(team, None),
            step => panic!("{:?}", step),
        }
    }
}

#[test]
fn popping_wants_a_readable_reply() {
    let reply = StoreReply::Popped(PopReply::Bulk(vec![b"x".to_vec(), b"1".to_vec()]));
    assert!(!Dequeue::Popping.can_resume(&reply));
    assert!(!Dequeue::Popping.can_resume(&StoreReply::Done));
}

#[test]
fn listing_a_queue() {
    assert_eq!(get_queue(2), StoreCommand::Zrange { table: 2 });
}

#[test]
fn queue_as_text() {
    assert_eq!(format_queue(&config(), &vec![]), "  (empty)");
    assert_eq!(format_queue(&config(), &vec![3]), "  team 3: Threes\n");
    assert_eq!(
        format_queue(&config(), &vec![8, 3]),
        "  team 8: Команда\n  team 3: Threes\n"
    );
}

#[test]
fn queue_with_a_nameless_team() {
    assert!(queue_is_named(&config(), &vec![]));
    assert!(queue_is_named(&config(), &vec![3, 8, 3]));
    assert!(!queue_is_named(&config(), &vec![3, 4]));
}
