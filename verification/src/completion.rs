//! Every command comes to an end: it goes on with every outcome that its
//! requests can have, and has answered after finitely many of them.

use vstd::prelude::*;
use vstd::seq_lib::*;
use vstd::utf8::*;

use crate::config::{ConfigView, DUMMY_TABLE, DUMMY_TEAM};
use crate::interaction::{
    after_add, after_dequeue, after_move, after_smallest, after_unqueue, command_named,
    Cause, Command, EventView, InvocationView, RequestView, ResolvedView, SessionView, TurnView,
};
use crate::laws::{
    added_text, answers, attempted, counts_queues, dialogue, happens,
    law_dialogues_progress, lemma_order_is_total, lemma_order_is_transitive, moves_left,
    moving_dialogue, phase, Attempt, Store,
};
use crate::presets::{
    assembled, lemma_map_of_entries, lemma_map_of_keys, map_of, member_sets, prod_settings,
    prod_tables, test_settings, test_tables, TeamEntryView,
};
use crate::queue::{
    all_named, lists_queues, queue_text, AddToQueue, AddToSmallestQueue, Dequeue, SmallestStepView,
    Step, StoreReplyView, Unqueue,
};
use crate::seating::{
    arrivals, can_join, departures, law_coherent_settings_allow_joins, planned, to_join,
    to_kick, TableJoinView,
};
use crate::store::{exact_score, PopReplyView, StoreCommand, LAST_SHOWN};
use crate::text::{decimal, law_decimal_reads_back};
use crate::voice::seated_at;
use crate::walk::lists;

verus! {

/// The queues are finite and hold only teams that have a name.
pub open spec fn in_order(config: ConfigView, store: Store) -> bool {
    &&& forall|table: i64| (#[trigger] store.queue(table)).finite()
    &&& forall|table: i64, team: i64| #[trigger]
        store.waits(table, team) ==> config.team_names.contains_key(team)
}

/// The length of every queue is a number that the store can give.
pub open spec fn countable(store: Store) -> bool {
    forall|table: i64| (#[trigger] store.queue(table)).len() <= i64::MAX
}

/// There are finitely many tables, and finitely many users in each team.
pub open spec fn finite_settings(config: ConfigView) -> bool {
    &&& config.tables.dom().finite()
    &&& forall|team: i64|
        config.teams.contains_key(team) ==> (#[trigger] config.teams[team]).finite()
}

/// Finitely many users sit at each table.
pub open spec fn finite_seating(seating: Map<i64, Set<u64>>) -> bool {
    forall|table: i64| (#[trigger] seated_at(seating, table)).finite()
}

/// Some table has a queue.
pub open spec fn has_queue(config: ConfigView) -> bool {
    exists|table: i64| #[trigger] config.tables.contains_key(table) && table != DUMMY_TABLE
}

/// The team and the table that a command names, if it gets to use them, exist.
pub open spec fn names_known(config: ConfigView, invocation: InvocationView) -> bool {
    let ours = invocation.guild_id == Some(config.guild_id);
    let blessed = config.blessed_users.contains(invocation.user_id);
    ours && blessed ==> match command_named(invocation.name) {
        Command::Tjoin => {
            &&& config.tables.contains_key(invocation.options[0].value->0)
            &&& config.teams.contains_key(invocation.options[1].value->0)
        },
        Command::Tkick | Command::Dequeue => config.tables.contains_key(
            invocation.options[0].value->0,
        ),
        _ => true,
    }
}

/// Whether the next step of adding a team can be taken.
spec fn add_ready(config: ConfigView, add: AddToQueue, request: RequestView) -> bool {
    match add {
        AddToQueue::Checking { table, team } => {
            &&& request == RequestView::Store(StoreCommand::Hexists { team })
            &&& config.team_names.contains_key(team)
        },
        AddToQueue::Assigning { table, team } => {
            &&& request == RequestView::Store(StoreCommand::Hset { team, table })
            &&& config.team_names.contains_key(team)
        },
        AddToQueue::Adding => {
            &&& request matches RequestView::Store(StoreCommand::Zadd { team, millis, .. })
            &&& config.team_names.contains_key(team)
            &&& exact_score(millis)
        },
    }
}

/// Whether a dialogue that stands at `turn` can be gone on with.
spec fn ready(
    config: ConfigView,
    seating: Map<i64, Set<u64>>,
    store: Store,
    turn: TurnView,
) -> bool {
    match turn {
        TurnView::Ignore => true,
        TurnView::Reply(_) => true,
        TurnView::Ask(session, request) => match session {
            SessionView::FirstQueue => request == RequestView::Store(
                StoreCommand::Zrange { table: 1 },
            ),
            SessionView::SecondQueue { first } => {
                &&& request == RequestView::Store(StoreCommand::Zrange { table: 2 })
                &&& all_named(config, first)
            },
            SessionView::Showing { table } => request == RequestView::Store(
                StoreCommand::Zrange { table },
            ),
            SessionView::Enqueueing { add, .. } => add_ready(config, add, request),
            SessionView::EnqueueingFaster { add } => match add {
                AddToSmallestQueue::Checking { team } => {
                    &&& request == RequestView::Store(StoreCommand::Hexists { team })
                    &&& config.team_names.contains_key(team)
                    &&& countable(store)
                    &&& has_queue(config)
                },
                AddToSmallestQueue::Counting { team } => {
                    &&& request matches RequestView::Count(tables)
                    &&& lists_queues(config, tables)
                    &&& config.team_names.contains_key(team)
                    &&& !store.assigned.contains_key(team)
                    &&& countable(store)
                    &&& has_queue(config)
                },
                AddToSmallestQueue::Adding { add, .. } => {
                    &&& add_ready(config, add, request)
                    &&& add matches AddToQueue::Checking { team, .. }
                        ==> !store.assigned.contains_key(team)
                },
            },
            SessionView::Unqueueing { op } => match op {
                Unqueue::Looking { team } => request == RequestView::Store(
                    StoreCommand::Hget { team },
                ),
                Unqueue::Removing { team, table } => request == RequestView::Store(
                    StoreCommand::Zrem { table, team },
                ),
                Unqueue::Forgetting { .. } => request matches RequestView::Store(
                    StoreCommand::Hdel { .. },
                ),
            },
            SessionView::Dequeueing { table, join, op } => match op {
                Dequeue::Popping => {
                    &&& request == RequestView::Store(StoreCommand::Zpopmin { table })
                    &&& join ==> config.tables.contains_key(table)
                },
                Dequeue::Forgetting { team } => {
                    &&& request == RequestView::Store(StoreCommand::Hdel { team })
                    &&& join ==> can_join(config, seating, team, table)
                },
            },
            SessionView::Joining { team, table, .. } => {
                &&& request == RequestView::Voice
                &&& can_join(config, seating, team, table)
            },
            SessionView::Moving { join, .. } => {
                &&& request is Move
                &&& join.balanced()
                &&& join.next_move() is Some
            },
        },
    }
}

/// A list of the elements of a finite set.
proof fn listing<A>(set: Set<A>) -> (list: Seq<A>)
    requires
        set.finite(),
    ensures
        lists(list, set),
    decreases set.len(),
{
    if set.len() == 0 {
        let list = Seq::<A>::empty();
        assert(list.to_set() =~= set);
        list
    } else {
        let last = set.choose();
        let shorter = listing(set.remove(last));
        let list = shorter.push(last);
        assert(!shorter.contains(last)) by {
            assert(!shorter.to_set().contains(last));
        }
        assert forall|a: A| list.to_set().contains(a) <==> set.contains(a) by {
            assert(shorter.to_set().contains(a) <==> shorter.contains(a));
            if list.contains(a) && a != last {
                let i = choose|i: int| 0 <= i < list.len() && list[i] == a;
                assert(shorter[i] == a);
            }
            if shorter.contains(a) {
                let i = choose|i: int| 0 <= i < shorter.len() && shorter[i] == a;
                assert(list[i] == a);
            }
            if a == last {
                assert(list[shorter.len() as int] == a);
            }
        }
        assert(list.to_set() =~= set);
        list
    }
}

/// Some team of a finite part of a queue stands first in it.
proof fn earliest(store: Store, table: i64, part: Set<i64>) -> (first: i64)
    requires
        part.finite(),
        part.len() > 0,
    ensures
        part.contains(first),
        forall|team: i64| #[trigger]
            part.contains(team) ==> team == first || store.precedes(table, first, team),
    decreases part.len(),
{
    let one = part.choose();
    let rest = part.remove(one);
    if rest.len() == 0 {
        assert forall|team: i64| #[trigger] part.contains(team) implies team == one by {
            if team != one {
                assert(rest.contains(team));
            }
        }
        one
    } else {
        let other = earliest(store, table, rest);
        lemma_order_is_total(store, table, one, other);
        if store.precedes(table, one, other) {
            assert forall|team: i64| #[trigger] part.contains(team) implies team == one
                || store.precedes(table, one, team) by {
                if team != one && team != other {
                    assert(rest.contains(team));
                    lemma_order_is_transitive(store, table, one, other, team);
                }
            }
            one
        } else {
            assert forall|team: i64| #[trigger] part.contains(team) implies team == other
                || store.precedes(table, other, team) by {
                if team != one {
                    assert(rest.contains(team));
                }
            }
            other
        }
    }
}

/// A list of a finite part of a queue in its order.
proof fn ranking(store: Store, table: i64, part: Set<i64>) -> (teams: Seq<i64>)
    requires
        part.finite(),
    ensures
        forall|team: i64| #[trigger] teams.contains(team) <==> part.contains(team),
        forall|i: int, j: int|
            0 <= i < j < teams.len() ==> store.precedes(
                table,
                #[trigger] teams[i],
                #[trigger] teams[j],
            ),
    decreases part.len(),
{
    if part.len() == 0 {
        Seq::empty()
    } else {
        let first = earliest(store, table, part);
        let rest = ranking(store, table, part.remove(first));
        let teams = seq![first] + rest;
        assert forall|team: i64| #[trigger] teams.contains(team) <==> part.contains(team) by {
            if teams.contains(team) && team != first {
                let i = choose|i: int| 0 <= i < teams.len() && teams[i] == team;
                assert(rest[i - 1] == team);
                assert(rest.contains(team));
            }
            if part.contains(team) {
                if team == first {
                    assert(teams[0] == team);
                } else {
                    assert(rest.contains(team));
                    let i = choose|i: int| 0 <= i < rest.len() && rest[i] == team;
                    assert(teams[i + 1] == team);
                }
            }
        }
        assert forall|i: int, j: int| 0 <= i < j < teams.len() implies store.precedes(
            table,
            #[trigger] teams[i],
            #[trigger] teams[j],
        ) by {
            assert(rest[j - 1] == teams[j]);
            if i > 0 {
                assert(rest[i - 1] == teams[i]);
            } else {
                assert(rest.contains(teams[j]));
                assert(part.contains(teams[j]));
            }
        }
        teams
    }
}

/// What the store can give as a listing of a queue.
proof fn shown(config: ConfigView, store: Store, table: i64) -> (teams: Seq<i64>)
    requires
        in_order(config, store),
    ensures
        store.lists(table, teams),
        all_named(config, teams),
{
    let all = ranking(store, table, store.queue(table));
    let teams = if all.len() <= LAST_SHOWN + 1 {
        all
    } else {
        all.take(LAST_SHOWN + 1)
    };
    assert forall|i: int| 0 <= i < teams.len() implies store.waits(table, #[trigger] teams[i]) by {
        assert(all[i] == teams[i]);
        assert(all.contains(teams[i]));
        assert(store.queue(table).contains(teams[i]));
    }
    assert forall|i: int, j: int| 0 <= i < j < teams.len() implies store.precedes(
        table,
        #[trigger] teams[i],
        #[trigger] teams[j],
    ) by {
        assert(all[i] == teams[i] && all[j] == teams[j]);
    }
    assert forall|team: i64| #[trigger] store.waits(table, team) implies teams.contains(team)
        || teams.len() == LAST_SHOWN + 1 && forall|i: int|
        0 <= i < teams.len() ==> store.precedes(table, #[trigger] teams[i], team) by {
        assert(store.queue(table).contains(team));
        assert(all.contains(team));
        let k = choose|k: int| 0 <= k < all.len() && all[k] == team;
        if k < teams.len() {
            assert(teams[k] == team);
        } else {
            assert forall|i: int| 0 <= i < teams.len() implies store.precedes(
                table,
                #[trigger] teams[i],
                team,
            ) by {
                assert(all[i] == teams[i]);
            }
        }
    }
    teams
}

/// What the store can reply when a team is popped.
proof fn popped(team: i64) -> (reply: PopReplyView)
    ensures
        reply.readable(),
        reply.team() == Some(team),
{
    law_decimal_reads_back(team);
    PopReplyView::Bulk(seq![encode_utf8(decimal(team as int)), Seq::empty()])
}

/// The queues stay in order when a team that has a name is added.
proof fn lemma_order_after_adding(
    config: ConfigView,
    before: Store,
    table: i64,
    team: i64,
    millis: i64,
    after: Store,
)
    requires
        in_order(config, before),
        config.team_names.contains_key(team),
        answers(before, StoreCommand::Zadd { table, team, millis }, StoreReplyView::Done, after),
    ensures
        in_order(config, after),
{
    assert forall|t: i64| (#[trigger] after.queue(t)).finite() by {
        assert(before.queue(t).finite());
        if t == table {
            assert forall|other: i64| after.queue(t).contains(other) <==> before.queue(t).insert(
                team,
            ).contains(other) by {
                assert(before.waits(t, other) || !before.waits(t, other));
            }
            assert(after.queue(t) =~= before.queue(t).insert(team));
        } else {
            assert(after.queue(t) =~= before.queue(t));
        }
    }
    assert forall|t: i64, other: i64| #[trigger]
        after.waits(t, other) implies config.team_names.contains_key(other) by {
        if !before.waits(t, other) {
            assert(other == team);
        }
    }
}

/// The queues stay in order when a team is removed.
proof fn lemma_order_after_removing(
    config: ConfigView,
    before: Store,
    table: i64,
    team: i64,
    after: Store,
)
    requires
        in_order(config, before),
        after.waiting == before.waiting.remove((table, team)),
    ensures
        in_order(config, after),
{
    assert forall|t: i64| (#[trigger] after.queue(t)).finite() by {
        assert(before.queue(t).finite());
        if t == table {
            assert(after.queue(t) =~= before.queue(t).remove(team));
        } else {
            assert(after.queue(t) =~= before.queue(t));
        }
    }
    assert forall|t: i64, other: i64| #[trigger]
        after.waits(t, other) implies config.team_names.contains_key(other) by {
        assert(before.waits(t, other));
    }
}

/// The queues are in order whatever the hash holds.
proof fn lemma_order_of_same_queues(config: ConfigView, before: Store, after: Store)
    requires
        in_order(config, before),
        after.waiting == before.waiting,
    ensures
        in_order(config, after),
{
    assert forall|t: i64| (#[trigger] after.queue(t)).finite() by {
        assert(after.queue(t) =~= before.queue(t));
    }
    assert forall|t: i64, other: i64| #[trigger]
        after.waits(t, other) implies config.team_names.contains_key(other) by {
        assert(before.waits(t, other));
    }
}

/// What can happen next in a dialogue: an event, the store after it, and the
/// turn that follows.
type Happening = (EventView, Store, TurnView);

/// Whether `came` can happen next, and leaves the dialogue so that it can be
/// gone on with.
spec fn leads_on(
    config: ConfigView,
    session: SessionView,
    request: RequestView,
    seating: Map<i64, Set<u64>>,
    millis: i64,
    store: Store,
    came: Happening,
) -> bool {
    &&& happens(request, seating, store, came.0, came.1)
    &&& session.accepts(config, came.0)
    &&& session.goes_on(config, came.0, millis, came.2)
    &&& in_order(config, came.1)
    &&& ready(config, seating, came.1, came.2)
    &&& came.2 !is Ignore
}

/// The reply to a command of adding a team, and the store after it.
proof fn add_step(
    config: ConfigView,
    add: AddToQueue,
    command: StoreCommand,
    store: Store,
) -> (came: (StoreReplyView, Store))
    requires
        in_order(config, store),
        add_ready(config, add, RequestView::Store(command)),
    ensures
        answers(store, command, came.0, came.1),
        add.accepts(came.0),
        in_order(config, came.1),
        add matches AddToQueue::Checking { team, .. } ==> came.0 == StoreReplyView::Flag(
            store.assigned.contains_key(team),
        ),
{
    match add {
        AddToQueue::Checking { team, .. } => {
            (StoreReplyView::Flag(store.assigned.contains_key(team)), store)
        },
        AddToQueue::Assigning { table, team } => {
            let after = Store { assigned: store.assigned.insert(team, table), ..store };
            lemma_order_of_same_queues(config, store, after);
            (StoreReplyView::Done, after)
        },
        AddToQueue::Adding => {
            let (table, team, millis) = (
                command->Zadd_table,
                command->Zadd_team,
                command->Zadd_millis,
            );
            let after = Store {
                waiting: if store.waits(table, team) {
                    store.waiting
                } else {
                    store.waiting.insert((table, team), millis)
                },
                ..store
            };
            lemma_order_after_adding(config, store, table, team, millis, after);
            (StoreReplyView::Done, after)
        },
    }
}

proof fn faster_step(
    config: ConfigView,
    add: AddToSmallestQueue,
    request: RequestView,
    seating: Map<i64, Set<u64>>,
    millis: i64,
    store: Store,
) -> (came: Happening)
    requires
        finite_settings(config),
        finite_seating(seating),
        exact_score(millis),
        in_order(config, store),
        ready(
            config,
            seating,
            store,
            TurnView::Ask(SessionView::EnqueueingFaster { add }, request),
        ),
    ensures
        leads_on(
            config,
            SessionView::EnqueueingFaster { add },
            request,
            seating,
            millis,
            store,
            came,
        ),
{
    match add {
        AddToSmallestQueue::Checking { team } => {
            let taken = store.assigned.contains_key(team);
            let reply = StoreReplyView::Flag(taken);
            let step = if taken {
                SmallestStepView::Done(None)
            } else {
                let tables = listing(config.tables.dom().remove(DUMMY_TABLE));
                assert(lists_queues(config, tables));
                SmallestStepView::Count(AddToSmallestQueue::Counting { team }, tables)
            };
            assert(add.goes_on(config, reply, millis, step));
            (EventView::Stored(reply), store, after_smallest(step))
        },
        AddToSmallestQueue::Counting { team } => {
            let tables = request->Count_0;
            let counts = Seq::new(
                tables.len(),
                |i: int| (tables[i], store.queue(tables[i]).len() as i64),
            );
            assert forall|i: int| 0 <= i < tables.len() implies (#[trigger] counts[i]).0
                == tables[i] && counts[i].1 == store.queue(tables[i]).len() by {
                assert(store.queue(tables[i]).len() <= i64::MAX);
            }
            assert(counts_queues(store, tables, counts));
            let table = choose|table: i64| #[trigger]
                config.tables.contains_key(table) && table != DUMMY_TABLE;
            assert(tables.to_set().contains(table));
            assert(tables.contains(table));
            let event = EventView::Counted(counts);
            (event, store, after_smallest(add.counted(counts)))
        },
        AddToSmallestQueue::Adding { table, add: inner } => {
            let command = request->Store_0;
            let (reply, after) = add_step(config, inner, command, store);
            let step = match inner.next(reply, millis) {
                Step::Ask(next, command) => SmallestStepView::Ask(
                    AddToSmallestQueue::Adding { table, add: next },
                    command,
                ),
                Step::Done(_) => SmallestStepView::Done(Some(table)),
            };
            assert(add.goes_on(config, reply, millis, step));
            (EventView::Stored(reply), after, after_smallest(step))
        },
    }
}

proof fn dequeue_step(
    config: ConfigView,
    table: i64,
    join: bool,
    op: Dequeue,
    request: RequestView,
    seating: Map<i64, Set<u64>>,
    millis: i64,
    store: Store,
) -> (came: Happening)
    requires
        config.coherent(),
        in_order(config, store),
        ready(
            config,
            seating,
            store,
            TurnView::Ask(SessionView::Dequeueing { table, join, op }, request),
        ),
    ensures
        leads_on(
            config,
            SessionView::Dequeueing { table, join, op },
            request,
            seating,
            millis,
            store,
            came,
        ),
{
    match op {
        Dequeue::Popping => {
            let queue = store.queue(table);
            assert(queue.finite());
            if queue.len() == 0 {
                let reply = StoreReplyView::Popped(PopReplyView::Other);
                assert forall|team: i64| !store.waits(table, team) by {
                    assert(!queue.contains(team));
                }
                (EventView::Stored(reply), store, after_dequeue(table, join, op.next(reply)))
            } else {
                let team = earliest(store, table, queue);
                assert(store.waits(table, team));
                assert forall|other: i64| #[trigger] store.waits(table, other) implies other == team
                    || store.precedes(table, team, other) by {
                    assert(queue.contains(other));
                }
                assert(store.is_first(table, team));
                let reply = StoreReplyView::Popped(popped(team));
                let after = Store { waiting: store.waiting.remove((table, team)), ..store };
                lemma_order_after_removing(config, store, table, team, after);
                assert(config.teams.dom().contains(team));
                if join {
                    law_coherent_settings_allow_joins(config, seating, team, table);
                }
                (EventView::Stored(reply), after, after_dequeue(table, join, op.next(reply)))
            }
        },
        Dequeue::Forgetting { team } => {
            let reply = StoreReplyView::Done;
            let after = Store { assigned: store.assigned.remove(team), ..store };
            lemma_order_of_same_queues(config, store, after);
            (EventView::Stored(reply), after, after_dequeue(table, join, op.next(reply)))
        },
    }
}

proof fn unqueue_step(
    config: ConfigView,
    op: Unqueue,
    request: RequestView,
    seating: Map<i64, Set<u64>>,
    millis: i64,
    store: Store,
) -> (came: Happening)
    requires
        in_order(config, store),
        ready(config, seating, store, TurnView::Ask(SessionView::Unqueueing { op }, request)),
    ensures
        leads_on(config, SessionView::Unqueueing { op }, request, seating, millis, store, came),
{
    let (reply, after) = match op {
        Unqueue::Looking { team } => (
            StoreReplyView::Table(
                if store.assigned.contains_key(team) {
                    Some(store.assigned[team])
                } else {
                    None
                },
            ),
            store,
        ),
        Unqueue::Removing { team, table } => {
            let after = Store { waiting: store.waiting.remove((table, team)), ..store };
            lemma_order_after_removing(config, store, table, team, after);
            (StoreReplyView::Done, after)
        },
        Unqueue::Forgetting { .. } => {
            let team = request->Store_0->Hdel_team;
            let after = Store { assigned: store.assigned.remove(team), ..store };
            lemma_order_of_same_queues(config, store, after);
            (StoreReplyView::Done, after)
        },
    };
    (EventView::Stored(reply), after, after_unqueue(op.next(reply)))
}

proof fn join_step(
    config: ConfigView,
    cause: Cause,
    team: i64,
    table: i64,
    seating: Map<i64, Set<u64>>,
    millis: i64,
    store: Store,
) -> (came: Happening)
    requires
        finite_settings(config),
        finite_seating(seating),
        in_order(config, store),
        can_join(config, seating, team, table),
    ensures
        leads_on(
            config,
            SessionView::Joining { cause, team, table },
            RequestView::Voice,
            seating,
            millis,
            store,
            came,
        ),
{
    assert(seated_at(seating, table).finite());
    assert(config.teams[team].finite());
    let leaving = listing(to_kick(config, seating, team, table));
    let coming = listing(to_join(config, seating, team, table));
    let join = TableJoinView {
        moves: departures(config, leaving) + arrivals(config, coming, table),
        done: 0,
        people_in: 0,
        people_out: 0,
        people_fail: 0,
    };
    assert(lists(leaving, to_kick(config, seating, team, table)));
    assert(planned(config, seating, team, table, join));
    (EventView::Voice(seating), store, after_move(cause, team, table, join))
}

/// Every dialogue can go on.
proof fn step(
    config: ConfigView,
    session: SessionView,
    request: RequestView,
    seating: Map<i64, Set<u64>>,
    millis: i64,
    store: Store,
) -> (came: Happening)
    requires
        config.coherent(),
        finite_settings(config),
        finite_seating(seating),
        exact_score(millis),
        in_order(config, store),
        ready(config, seating, store, TurnView::Ask(session, request)),
    ensures
        leads_on(config, session, request, seating, millis, store, came),
{
    match session {
        SessionView::FirstQueue => {
            let teams = shown(config, store, 1);
            let next = TurnView::Ask(
                SessionView::SecondQueue { first: teams },
                RequestView::Store(StoreCommand::Zrange { table: 2 }),
            );
            (EventView::Stored(StoreReplyView::Teams(teams)), store, next)
        },
        SessionView::SecondQueue { first } => {
            let teams = shown(config, store, 2);
            let event = EventView::Stored(StoreReplyView::Teams(teams));
            let text = "Table 1:\n"@ + queue_text(config, first) + "\n\nTable 2:\n"@ + queue_text(
                config,
                teams,
            );
            (event, store, TurnView::Reply(text))
        },
        SessionView::Showing { table } => {
            let teams = shown(config, store, table);
            let event = EventView::Stored(StoreReplyView::Teams(teams));
            let text = added_text(config, table, teams);
            (event, store, TurnView::Reply(text))
        },
        SessionView::Enqueueing { own, table, add } => {
            let (reply, after) = add_step(config, add, request->Store_0, store);
            (EventView::Stored(reply), after, after_add(own, table, add.next(reply, millis)))
        },
        SessionView::EnqueueingFaster { add } => {
            faster_step(config, add, request, seating, millis, store)
        },
        SessionView::Unqueueing { op } => {
            unqueue_step(config, op, request, seating, millis, store)
        },
        SessionView::Dequeueing { table, join, op } => {
            dequeue_step(config, table, join, op, request, seating, millis, store)
        },
        SessionView::Joining { cause, team, table } => {
            join_step(config, cause, team, table, seating, millis, store)
        },
        SessionView::Moving { cause, team, table, join } => {
            let next = after_move(cause, team, table, join.record(true));
            (EventView::Moved(true), store, next)
        },
    }
}

/// Every dialogue that can go on can end.
proof fn complete(
    config: ConfigView,
    turn: TurnView,
    seating: Map<i64, Set<u64>>,
    millis: i64,
    store: Store,
) -> (end: (Store, Option<Seq<char>>, Seq<Attempt>))
    requires
        config.coherent(),
        finite_settings(config),
        finite_seating(seating),
        exact_score(millis),
        in_order(config, store),
        ready(config, seating, store, turn),
    ensures
        moving_dialogue(config, turn, seating, millis, store, end.0, end.1, end.2),
        end.1 is None <==> turn is Ignore,
    decreases phase(turn), moves_left(turn),
{
    match turn {
        TurnView::Ignore => (store, None, Seq::empty()),
        TurnView::Reply(text) => (store, Some(text), Seq::empty()),
        TurnView::Ask(session, request) => {
            let (event, middle, next) = step(config, session, request, seating, millis, store);
            law_dialogues_progress(config, session, request, event, millis, next);
            let (after, answer, rest) = complete(config, next, seating, millis, middle);
            let made = attempted(request, event);
            let attempts = made + rest;
            assert(attempts.skip(made.len() as int) =~= rest);
            assert(made.is_prefix_of(attempts));
            assert(happens(request, seating, store, event, middle));
            assert(session.goes_on(config, event, millis, next));
            (after, answer, attempts)
        },
    }
}

/// Whatever happens next in a dialogue that can be gone on with, the dialogue
/// goes on with it, and can be gone on with after it.
proof fn lemma_every_event_is_accepted(
    config: ConfigView,
    session: SessionView,
    request: RequestView,
    seating: Map<i64, Set<u64>>,
    millis: i64,
    store: Store,
    event: EventView,
    after: Store,
)
    requires
        config.coherent(),
        exact_score(millis),
        in_order(config, store),
        ready(config, seating, store, TurnView::Ask(session, request)),
        happens(request, seating, store, event, after),
    ensures
        session.accepts(config, event),
        in_order(config, after),
        forall|next: TurnView| #[trigger]
            session.goes_on(config, event, millis, next) ==> ready(config, seating, after, next)
                && next !is Ignore,
{
    match request {
        RequestView::Store(command) => {
            let reply = event->Stored_0;
            match command {
                StoreCommand::Zadd { table, team, millis: score } => {
                    lemma_order_after_adding(config, store, table, team, score, after);
                },
                StoreCommand::Zrem { table, team } => {
                    lemma_order_after_removing(config, store, table, team, after);
                },
                StoreCommand::Hset { .. } | StoreCommand::Hdel { .. } => {
                    lemma_order_of_same_queues(config, store, after);
                },
                StoreCommand::Zpopmin { table } => {
                    if let Some(team) = reply->Popped_0.team() {
                        lemma_order_after_removing(config, store, table, team, after);
                        assert(store.waits(table, team));
                        assert(config.team_names.dom().contains(team));
                        assert(config.teams.contains_key(team));
                        if config.tables.contains_key(table) {
                            law_coherent_settings_allow_joins(config, seating, team, table);
                        }
                    }
                },
                StoreCommand::Zrange { table } => {
                    let teams = reply->Teams_0;
                    assert forall|i: int|
                        0 <= i < teams.len() implies config.team_names.contains_key(
                        #[trigger] teams[i],
                    ) by {
                        assert(store.waits(table, teams[i]));
                    }
                    assert(all_named(config, teams));
                },
                _ => {},
            }
        },
        RequestView::Count(tables) => {
            let table = choose|table: i64| #[trigger]
                config.tables.contains_key(table) && table != DUMMY_TABLE;
            assert(tables.to_set().contains(table));
            assert(tables.contains(table));
        },
        _ => {},
    }
    assert forall|next: TurnView| #[trigger]
        session.goes_on(config, event, millis, next) implies ready(config, seating, after, next)
        && next !is Ignore by {
        if let SessionView::EnqueueingFaster { add } = session {
            if let EventView::Stored(reply) = event {
                let step = choose|step: SmallestStepView| #[trigger]
                    add.goes_on(config, reply, millis, step) && next == after_smallest(step);
                assert(add.goes_on(config, reply, millis, step));
            }
        }
        if let SessionView::Joining { cause, team, table } = session {
            let join = choose|join: TableJoinView| #[trigger]
                planned(config, seating, team, table, join) && next == after_move(
                    cause,
                    team,
                    table,
                    join,
                );
            assert(planned(config, seating, team, table, join));
        }
    }
}

/// Whether a dialogue that stands at `turn` may come to stand at `next` with the
/// next event, which turns the store from `before` into `after`.
pub open spec fn may_follow(
    config: ConfigView,
    seating: Map<i64, Set<u64>>,
    millis: i64,
    turn: TurnView,
    before: Store,
    next: TurnView,
    after: Store,
) -> bool {
    turn matches TurnView::Ask(session, request) && exists|event: EventView| #[trigger]
        happens(request, seating, before, event, after) && session.goes_on(
            config,
            event,
            millis,
            next,
        )
}

/// Whether a dialogue may run through the given turns, with the given stores.
pub open spec fn runs_through(
    config: ConfigView,
    seating: Map<i64, Set<u64>>,
    millis: i64,
    turns: Seq<TurnView>,
    stores: Seq<Store>,
) -> bool {
    &&& turns.len() == stores.len()
    &&& forall|i: int|
        0 <= i < turns.len() - 1 ==> may_follow(
            config,
            seating,
            millis,
            #[trigger] turns[i],
            stores[i],
            turns[i + 1],
            stores[i + 1],
        )
}

proof fn lemma_stays_ready(
    config: ConfigView,
    seating: Map<i64, Set<u64>>,
    millis: i64,
    turns: Seq<TurnView>,
    stores: Seq<Store>,
    n: int,
)
    requires
        config.coherent(),
        exact_score(millis),
        runs_through(config, seating, millis, turns, stores),
        0 <= n < turns.len(),
        in_order(config, stores[0]),
        ready(config, seating, stores[0], turns[0]),
    ensures
        in_order(config, stores[n]),
        ready(config, seating, stores[n], turns[n]),
    decreases n,
{
    if n > 0 {
        let at = n - 1;
        lemma_stays_ready(config, seating, millis, turns, stores, at);
        assert(may_follow(
            config,
            seating,
            millis,
            turns[at],
            stores[at],
            turns[at + 1],
            stores[at + 1],
        ));
        if let TurnView::Ask(session, request) = turns[at] {
            let event = choose|event: EventView| #[trigger]
                happens(request, seating, stores[at], event, stores[n]) && session.goes_on(
                    config,
                    event,
                    millis,
                    turns[n],
                );
            lemma_every_event_is_accepted(
                config,
                session,
                request,
                seating,
                millis,
                stores[at],
                event,
                stores[n],
            );
        }
    }
}

/// Whether commands can be answered: the settings fit together, some table has a
/// queue, and the queues hold only known teams.
pub open spec fn answerable(
    config: ConfigView,
    invocation: InvocationView,
    seating: Map<i64, Set<u64>>,
    millis: i64,
    store: Store,
) -> bool {
    &&& config.coherent()
    &&& has_queue(config)
    &&& finite_settings(config)
    &&& finite_seating(seating)
    &&& exact_score(millis)
    &&& in_order(config, store)
    &&& countable(store)
    &&& invocation.well_formed(config)
    &&& names_known(config, invocation)
}

/// The first turn of a command that can be answered can be gone on with.
proof fn lemma_first_turn_is_ready(
    config: ConfigView,
    invocation: InvocationView,
    seating: Map<i64, Set<u64>>,
    millis: i64,
    store: Store,
)
    requires
        answerable(config, invocation, seating, millis, store),
    ensures
        ready(config, seating, store, invocation.first_turn(config)),
{
    assert forall|user: u64|
        (#[trigger] config.user_team(user)) is Some implies config.team_names.contains_key(
        config.user_team(user)->0,
    ) by {
        let team = config.user_team(user)->0;
        assert(config.user_team(user) == Some(team));
        assert(config.teams[team].contains(user));
        assert(config.teams.contains_key(team));
        assert(config.teams.dom().contains(team));
        assert(config.team_names.dom().contains(team));
    }
    let ours = invocation.guild_id == Some(config.guild_id);
    let command = command_named(invocation.name);
    if ours && config.blessed_users.contains(invocation.user_id) {
        if command is Tjoin {
            law_coherent_settings_allow_joins(
                config,
                seating,
                invocation.options[1].value->0,
                invocation.options[0].value->0,
            );
        } else if command is Tkick {
            law_coherent_settings_allow_joins(
                config,
                seating,
                DUMMY_TEAM,
                invocation.options[0].value->0,
            );
        } else if command is Enqueue {
            if let Some(ResolvedView::User { id, .. }) = invocation.options[0].resolved {
                if let Some(team) = config.user_team(id) {
                    assert(config.team_names.contains_key(team));
                }
            }
        }
    }
    if let Some(team) = config.user_team(invocation.user_id) {
        assert(config.team_names.contains_key(team));
    }
}

/// No dialogue gets stuck: wherever a command that can be answered has got to,
/// if it waits for the outcome of a request, then some outcome is possible, and
/// it goes on with every one that is.
pub proof fn law_no_dialogue_gets_stuck(
    config: ConfigView,
    invocation: InvocationView,
    seating: Map<i64, Set<u64>>,
    millis: i64,
    turns: Seq<TurnView>,
    stores: Seq<Store>,
    session: SessionView,
    request: RequestView,
)
    requires
        turns.len() > 0,
        answerable(config, invocation, seating, millis, stores[0]),
        turns[0] == invocation.first_turn(config),
        runs_through(config, seating, millis, turns, stores),
        turns.last() == TurnView::Ask(session, request),
    ensures
        forall|event: EventView, after: Store| #[trigger]
            happens(request, seating, stores.last(), event, after) ==> session.accepts(
                config,
                event,
            ),
        exists|event: EventView, after: Store, next: TurnView|
            #[trigger] happens(request, seating, stores.last(), event, after)
                && #[trigger] session.goes_on(config, event, millis, next),
{
    let store = stores.last();
    lemma_first_turn_is_ready(config, invocation, seating, millis, stores[0]);
    lemma_stays_ready(config, seating, millis, turns, stores, turns.len() - 1);
    assert forall|event: EventView, after: Store| #[trigger]
        happens(request, seating, store, event, after) implies session.accepts(config, event) by {
        lemma_every_event_is_accepted(
            config,
            session,
            request,
            seating,
            millis,
            store,
            event,
            after,
        );
    }
    let (event, after, next) = step(config, session, request, seating, millis, store);
    assert(happens(request, seating, store, event, after));
    assert(session.goes_on(config, event, millis, next));
}

/// The end of a run, counted from some turn on.
proof fn end_of_run(
    config: ConfigView,
    seating: Map<i64, Set<u64>>,
    millis: i64,
    turns: spec_fn(nat) -> TurnView,
    stores: spec_fn(nat) -> Store,
    from: nat,
) -> (n: nat)
    requires
        config.coherent(),
        exact_score(millis),
        in_order(config, stores(from)),
        ready(config, seating, stores(from), turns(from)),
        forall|i: nat| #[trigger]
            turns(i) is Ask ==> may_follow(
                config,
                seating,
                millis,
                turns(i),
                stores(i),
                turns(i + 1),
                stores(i + 1),
            ),
    ensures
        n >= from,
        turns(n) !is Ask,
        turns(from) !is Ignore ==> turns(n) is Reply,
    decreases phase(turns(from)), moves_left(turns(from)),
{
    match turns(from) {
        TurnView::Ask(session, request) => {
            let later = from + 1;
            let event = choose|event: EventView| #[trigger]
                happens(request, seating, stores(from), event, stores(later)) && session.goes_on(
                    config,
                    event,
                    millis,
                    turns(later),
                );
            lemma_every_event_is_accepted(
                config,
                session,
                request,
                seating,
                millis,
                stores(from),
                event,
                stores(later),
            );
            law_dialogues_progress(config, session, request, event, millis, turns(later));
            end_of_run(config, seating, millis, turns, stores, later)
        },
        _ => from,
    }
}

/// Every dialogue comes to an end: a command that can be answered and goes on
/// whenever the outcome of a request comes in has answered after finitely many
/// of them, or was ignored, as those from other guilds are.
pub proof fn law_every_dialogue_ends(
    config: ConfigView,
    invocation: InvocationView,
    seating: Map<i64, Set<u64>>,
    millis: i64,
    turns: spec_fn(nat) -> TurnView,
    stores: spec_fn(nat) -> Store,
)
    requires
        answerable(config, invocation, seating, millis, stores(0)),
        turns(0) == invocation.first_turn(config),
        forall|i: nat| #[trigger]
            turns(i) is Ask ==> may_follow(
                config,
                seating,
                millis,
                turns(i),
                stores(i),
                turns(i + 1),
                stores(i + 1),
            ),
    ensures
        exists|n: nat|
            if invocation.guild_id == Some(config.guild_id) {
                (#[trigger] turns(n)) is Reply
            } else {
                turns(n) is Ignore
            },
{
    lemma_first_turn_is_ready(config, invocation, seating, millis, stores(0));
    let n = end_of_run(config, seating, millis, turns, stores, 0);
    if invocation.guild_id == Some(config.guild_id) {
        assert(turns(n) is Reply);
    } else {
        assert(turns(0) is Ignore);
    }
}

/// Every well-formed command in the configured guild can be answered, and no
/// other can: given coherent settings, queues that hold only known teams, and
/// a team and a table that exist where the command names any, some dialogue
/// runs to its end.
pub proof fn law_commands_are_answered(
    config: ConfigView,
    invocation: InvocationView,
    seating: Map<i64, Set<u64>>,
    millis: i64,
    before: Store,
)
    requires
        answerable(config, invocation, seating, millis, before),
    ensures
        exists|after: Store, answer: Option<Seq<char>>|
            {
                &&& #[trigger] dialogue(
                    config,
                    invocation.first_turn(config),
                    seating,
                    millis,
                    before,
                    after,
                    answer,
                )
                &&& answer is Some <==> invocation.guild_id == Some(config.guild_id)
            },
{
    let turn = invocation.first_turn(config);
    lemma_first_turn_is_ready(config, invocation, seating, millis, before);
    let (after, answer, attempts) = complete(config, turn, seating, millis, before);
    assert(dialogue(config, turn, seating, millis, before, after, answer));
}

proof fn lemma_map_of_is_finite<K, V>(entries: Seq<(K, V)>)
    ensures
        map_of(entries).dom().finite(),
    decreases entries.len(),
{
    if entries.len() > 0 {
        lemma_map_of_is_finite(entries.drop_last());
    }
}

/// Settings that were put together from lists are finite.
pub proof fn law_assembled_settings_are_finite(
    environment: Seq<char>,
    token: Seq<char>,
    app_id: u64,
    guild_id: u64,
    tables: Seq<(i64, u64)>,
    entries: Seq<TeamEntryView>,
    names: Seq<(i64, Seq<char>)>,
    blessed: Seq<u64>,
)
    ensures
        finite_settings(
            assembled(
                environment,
                token,
                app_id,
                guild_id,
                tables,
                entries,
                names,
                blessed,
            ),
        ),
{
    let teams = member_sets(entries);
    lemma_map_of_is_finite(tables);
    lemma_map_of_entries(teams);
    assert forall|team: i64| map_of(teams).contains_key(team) implies (#[trigger] map_of(
        teams,
    )[team]).finite() by {
        let i = choose|i: int|
            0 <= i < teams.len() && #[trigger] teams[i] == (team, map_of(teams)[team]);
        seq_to_set_is_finite(entries[i].members);
    }
}

/// Both deployments have a table with a queue.
pub proof fn law_deployments_have_queues(token: Seq<char>)
    ensures
        has_queue(prod_settings(token)),
        has_queue(test_settings(token)),
{
    lemma_map_of_keys(prod_tables());
    assert(prod_tables()[1].0 == 1);
    assert(prod_settings(token).tables.contains_key(1));
    lemma_map_of_keys(test_tables());
    assert(test_tables()[1].0 == 1);
    assert(test_settings(token).tables.contains_key(1));
}

} // verus!
