//! In what order teams wait: how the listing of a queue changes when a team is
//! added or taken out, given a store that nobody else writes to.

use vstd::prelude::*;

use crate::config::ConfigView;
use crate::interaction::{command_named, Cause, InvocationView};
use crate::laws::{
    added_text, answers, counts_queues, dialogue, enqueues, has_shortest_queue, law_dequeue,
    law_enqueueing, lemma_order_is_strict, lemma_order_is_total, lemma_order_is_transitive,
    lemma_smallest_is_shortest, may_choose, reports_added, reports_join, Store,
};
use crate::queue::{
    add_start, dequeue_start, smallest, smallest_start, unqueue_start, AddToQueue,
    AddToSmallestQueue, Dequeue, SmallestStepView, Step, StoreReplyView, Unqueue,
};
use crate::store::{StoreCommand, LAST_SHOWN};
use crate::text::decimal;

verus! {

/// Of two listings of a queue, neither has a team that stands before the one
/// that the other has in its place.
proof fn lemma_no_earlier_team(
    store: Store,
    table: i64,
    limit: int,
    q: Seq<i64>,
    r: Seq<i64>,
    at: int,
)
    requires
        store.lists_up_to(table, limit, q),
        store.lists_up_to(table, limit, r),
        0 <= at < q.len(),
        at < r.len(),
        forall|i: int| 0 <= i < at ==> #[trigger] q[i] == r[i],
    ensures
        !store.precedes(table, q[at], r[at]),
{
    if store.precedes(table, q[at], r[at]) {
        assert(store.waits(table, q[at]));
        if r.contains(q[at]) {
            let j = choose|j: int| 0 <= j < r.len() && r[j] == q[at];
            if j < at {
                assert(q[j] == r[j]);
                assert(store.precedes(table, q[j], q[at]));
                lemma_order_is_strict(store, table, q[at]);
            } else if j > at {
                assert(store.precedes(table, r[at], r[j]));
                lemma_order_is_transitive(store, table, q[at], r[at], q[at]);
                lemma_order_is_strict(store, table, q[at]);
            } else {
                lemma_order_is_strict(store, table, q[at]);
            }
        } else {
            assert(store.precedes(table, r[at], q[at]));
            lemma_order_is_transitive(store, table, q[at], r[at], q[at]);
            lemma_order_is_strict(store, table, q[at]);
        }
    }
}

proof fn lemma_listings_agree(
    store: Store,
    table: i64,
    limit: int,
    q: Seq<i64>,
    r: Seq<i64>,
    n: int,
)
    requires
        store.lists_up_to(table, limit, q),
        store.lists_up_to(table, limit, r),
        0 <= n <= q.len(),
        n <= r.len(),
    ensures
        forall|i: int| 0 <= i < n ==> #[trigger] q[i] == r[i],
    decreases n,
{
    if n > 0 {
        let at = n - 1;
        lemma_listings_agree(store, table, limit, q, r, at);
        if q[at] != r[at] {
            lemma_order_is_total(store, table, q[at], r[at]);
            lemma_no_earlier_team(store, table, limit, q, r, at);
            lemma_no_earlier_team(store, table, limit, r, q, at);
        }
    }
}

proof fn lemma_no_longer_listing(
    store: Store,
    table: i64,
    limit: int,
    q: Seq<i64>,
    r: Seq<i64>,
)
    requires
        store.lists_up_to(table, limit, q),
        store.lists_up_to(table, limit, r),
    ensures
        r.len() <= q.len(),
{
    if q.len() < r.len() {
        let n = q.len() as int;
        lemma_listings_agree(store, table, limit, q, r, n);
        assert(store.waits(table, r[n]));
        assert(q.contains(r[n]));
        let k = choose|k: int| 0 <= k < q.len() && q[k] == r[n];
        assert(q[k] == r[k]);
        assert(store.precedes(table, r[k], r[n]));
        lemma_order_is_strict(store, table, r[n]);
    }
}

/// A queue has only one listing of each length.
pub proof fn law_listings_are_unique(
    store: Store,
    table: i64,
    limit: int,
    q: Seq<i64>,
    r: Seq<i64>,
)
    requires
        store.lists_up_to(table, limit, q),
        store.lists_up_to(table, limit, r),
    ensures
        q == r,
{
    lemma_no_longer_listing(store, table, limit, q, r);
    lemma_no_longer_listing(store, table, limit, r, q);
    lemma_listings_agree(store, table, limit, q, r, q.len() as int);
    assert(q =~= r);
}

/// The first teams of a listing are a shorter listing.
proof fn lemma_shorter_listing(
    store: Store,
    table: i64,
    limit: int,
    q: Seq<i64>,
    shorter: int,
)
    requires
        store.lists_up_to(table, limit, q),
        0 <= shorter <= limit,
    ensures
        store.lists_up_to(
            table,
            shorter,
            if q.len() <= shorter {
                q
            } else {
                q.take(shorter)
            },
        ),
{
    let p = if q.len() <= shorter {
        q
    } else {
        q.take(shorter)
    };
    assert forall|team: i64| #[trigger] store.waits(table, team) implies p.contains(team)
        || p.len() == shorter && forall|i: int|
        0 <= i < p.len() ==> store.precedes(table, #[trigger] p[i], team) by {
        if q.contains(team) {
            let k = choose|k: int| 0 <= k < q.len() && q[k] == team;
            if k < p.len() {
                assert(p[k] == team);
            } else {
                assert forall|i: int| 0 <= i < p.len() implies store.precedes(
                    table,
                    #[trigger] p[i],
                    team,
                ) by {
                    assert(p[i] == q[i]);
                    assert(store.precedes(table, q[i], q[k]));
                }
            }
        } else {
            assert forall|i: int| 0 <= i < p.len() implies store.precedes(
                table,
                #[trigger] p[i],
                team,
            ) by {
                assert(p[i] == q[i]);
            }
        }
    }
    assert forall|i: int| 0 <= i < p.len() implies store.waits(table, #[trigger] p[i]) by {
        assert(p[i] == q[i]);
    }
    assert forall|i: int, j: int| 0 <= i < j < p.len() implies store.precedes(
        table,
        #[trigger] p[i],
        #[trigger] p[j],
    ) by {
        assert(p[i] == q[i] && p[j] == q[j]);
    }
}

/// The team at the head of a listing is the one that stands first, and no other
/// is.
pub proof fn law_head_of_listing_is_first(store: Store, table: i64, q: Seq<i64>)
    requires
        store.lists(table, q),
    ensures
        q.len() > 0 ==> store.is_first(table, q[0]),
        forall|team: i64| #[trigger] store.is_first(table, team) ==> q.len() > 0 && team == q[0],
        q.len() == 0 ==> forall|team: i64| !store.waits(table, team),
{
    if q.len() > 0 {
        assert forall|other: i64| #[trigger] store.waits(table, other) implies other == q[0]
            || store.precedes(table, q[0], other) by {
            if q.contains(other) {
                let k = choose|k: int| 0 <= k < q.len() && q[k] == other;
                if k > 0 {
                    assert(store.precedes(table, q[0], q[k]));
                }
            }
        }
        assert(store.waits(table, q[0]));
        assert forall|team: i64| #[trigger] store.is_first(table, team) implies team == q[0] by {
            if team != q[0] {
                assert(store.waits(table, team));
                lemma_order_is_transitive(store, table, team, q[0], team);
                lemma_order_is_strict(store, table, team);
            }
        }
    }
}

/// When a listed team is taken out of the queue, the others that are listed keep
/// their order, and what moves up from beyond the listing follows them; the
/// listings of other tables stay as they are.
pub proof fn law_listing_without_a_team(
    before: Store,
    after: Store,
    table: i64,
    q: Seq<i64>,
    k: int,
)
    requires
        before.lists(table, q),
        0 <= k < q.len(),
        after == before.without(table, q[k]),
    ensures
        q.len() <= LAST_SHOWN ==> after.lists(table, q.remove(k)),
        forall|r: Seq<i64>| #[trigger]
            after.lists(table, r) ==> q.remove(k).is_prefix_of(r) && (q.len() <= LAST_SHOWN ==> r
                == q.remove(k)),
        forall|other: i64, r: Seq<i64>|
            other != table ==> (#[trigger] after.lists(other, r) <==> before.lists(other, r)),
{
    let rest = q.remove(k);
    let at = |i: int| if i < k { i } else { i + 1 };
    assert forall|i: int| 0 <= i < rest.len() implies #[trigger] rest[i] == q[at(i)] && rest[i]
        != q[k] && before.waits(table, rest[i]) by {
        if i < k {
            assert(before.precedes(table, q[i], q[k]));
        } else {
            assert(before.precedes(table, q[k], q[i + 1]));
        }
        lemma_order_is_strict(before, table, q[k]);
        assert(before.waits(table, q[at(i)]));
    }
    assert forall|t: i64, team: i64| #[trigger] after.waits(t, team) <==> before.waits(t, team) && (
    t != table || team != q[k]) by {}
    assert forall|i: int, j: int| 0 <= i < j < rest.len() implies after.precedes(
        table,
        #[trigger] rest[i],
        #[trigger] rest[j],
    ) by {
        assert(before.precedes(table, q[at(i)], q[at(j)]));
    }
    assert forall|team: i64| #[trigger] after.waits(table, team) implies rest.contains(team)
        || q.len() == LAST_SHOWN + 1 && forall|i: int|
        0 <= i < rest.len() ==> after.precedes(table, #[trigger] rest[i], team) by {
        assert(before.waits(table, team));
        if q.contains(team) {
            let n = choose|n: int| 0 <= n < q.len() && q[n] == team;
            if n < k {
                assert(rest[n] == team);
            } else {
                assert(rest[n - 1] == team);
            }
        } else {
            assert forall|i: int| 0 <= i < rest.len() implies after.precedes(
                table,
                #[trigger] rest[i],
                team,
            ) by {
                assert(before.precedes(table, q[at(i)], team));
            }
        }
    }
    assert(after.lists_up_to(table, LAST_SHOWN as int, rest));
    assert forall|r: Seq<i64>| #[trigger] after.lists(table, r) implies rest.is_prefix_of(r) && (
    q.len() <= LAST_SHOWN ==> r == rest) by {
        if q.len() <= LAST_SHOWN {
            assert(after.lists_up_to(table, LAST_SHOWN + 1, rest));
            law_listings_are_unique(after, table, LAST_SHOWN + 1, rest, r);
            assert(r.subrange(0, rest.len() as int) =~= rest);
        } else {
            lemma_shorter_listing(after, table, LAST_SHOWN + 1, r, LAST_SHOWN as int);
            let p = if r.len() <= LAST_SHOWN {
                r
            } else {
                r.take(LAST_SHOWN as int)
            };
            law_listings_are_unique(after, table, LAST_SHOWN as int, rest, p);
            assert(r.subrange(0, rest.len() as int) =~= p);
        }
    }
    assert forall|other: i64, r: Seq<i64>| other != table implies (#[trigger] after.lists(other, r)
        <==> before.lists(other, r)) by {
        lemma_same_queue_same_listings(before, after, other, r);
    }
}

proof fn lemma_same_listings(before: Store, after: Store, table: i64, r: Seq<i64>)
    requires
        before.lists(table, r),
        forall|team: i64| #[trigger] before.waits(table, team) <==> after.waits(table, team),
        forall|team: i64| #[trigger]
            before.waits(table, team) ==> before.waiting[(table, team)] == after.waiting[(
                table,
                team,
            )],
    ensures
        after.lists(table, r),
{
    assert forall|i: int| 0 <= i < r.len() implies after.waits(table, #[trigger] r[i]) by {
        assert(before.waits(table, r[i]));
    }
    assert forall|i: int, j: int| 0 <= i < j < r.len() implies after.precedes(
        table,
        #[trigger] r[i],
        #[trigger] r[j],
    ) by {
        assert(before.waits(table, r[i]) && before.waits(table, r[j]));
        assert(before.precedes(table, r[i], r[j]));
    }
    assert forall|team: i64| #[trigger] after.waits(table, team) implies r.contains(team) || r.len()
        == LAST_SHOWN + 1 && forall|i: int|
        0 <= i < r.len() ==> after.precedes(table, #[trigger] r[i], team) by {
        assert(before.waits(table, team));
        if !r.contains(team) {
            assert forall|i: int| 0 <= i < r.len() implies after.precedes(
                table,
                #[trigger] r[i],
                team,
            ) by {
                assert(before.waits(table, r[i]));
                assert(before.precedes(table, r[i], team));
            }
        }
    }
}

/// When a team is added later than all who wait at a table, it is listed behind
/// them, if it is listed at all, and they keep their order; the listings of
/// other tables stay as they are.
pub proof fn law_listing_with_a_newcomer(
    before: Store,
    after: Store,
    table: i64,
    team: i64,
    millis: i64,
    q: Seq<i64>,
)
    requires
        before.lists(table, q),
        !before.waits(table, team),
        later_than_all(before, table, millis),
        after == before.with(table, team, millis),
    ensures
        q.len() <= LAST_SHOWN ==> after.lists(table, q.push(team)),
        q.len() > LAST_SHOWN ==> after.lists(table, q),
        forall|r: Seq<i64>| #[trigger]
            after.lists(table, r) ==> r == if q.len() <= LAST_SHOWN {
                q.push(team)
            } else {
                q
            },
        forall|other: i64, r: Seq<i64>|
            other != table ==> (#[trigger] after.lists(other, r) <==> before.lists(other, r)),
{
    let full = q.len() > LAST_SHOWN;
    let expected = if full {
        q
    } else {
        q.push(team)
    };
    assert forall|t: i64, other: i64| #[trigger] after.waits(t, other) <==> before.waits(t, other)
        || t == table && other == team by {}
    assert forall|i: int| 0 <= i < q.len() implies before.waits(table, #[trigger] q[i]) && q[i]
        != team by {}
    assert forall|i: int| 0 <= i < expected.len() implies after.waits(
        table,
        #[trigger] expected[i],
    ) by {
        if i < q.len() {
            assert(expected[i] == q[i]);
            assert(before.waits(table, q[i]));
        }
    }
    assert forall|i: int| 0 <= i < q.len() implies after.precedes(
        table,
        #[trigger] q[i],
        team,
    ) by {
        assert(before.waits(table, q[i]));
    }
    assert forall|i: int, j: int| 0 <= i < j < expected.len() implies after.precedes(
        table,
        #[trigger] expected[i],
        #[trigger] expected[j],
    ) by {
        assert(expected[i] == q[i]);
        assert(before.waits(table, q[i]));
        if j < q.len() {
            assert(expected[j] == q[j]);
            assert(before.waits(table, q[j]));
            assert(before.precedes(table, q[i], q[j]));
        }
    }
    assert forall|other: i64| #[trigger] after.waits(table, other) implies expected.contains(other)
        || expected.len() == LAST_SHOWN + 1 && forall|i: int|
        0 <= i < expected.len() ==> after.precedes(table, #[trigger] expected[i], other) by {
        if other == team {
            if !full {
                assert(expected[q.len() as int] == other);
            } else {
                assert forall|i: int| 0 <= i < expected.len() implies after.precedes(
                    table,
                    #[trigger] expected[i],
                    other,
                ) by {
                    assert(expected[i] == q[i]);
                }
            }
        } else {
            assert(before.waits(table, other));
            if q.contains(other) {
                let k = choose|k: int| 0 <= k < q.len() && q[k] == other;
                assert(expected[k] == other);
            } else {
                assert forall|i: int| 0 <= i < expected.len() implies after.precedes(
                    table,
                    #[trigger] expected[i],
                    other,
                ) by {
                    assert(before.waits(table, q[i]));
                    assert(before.precedes(table, q[i], other));
                }
            }
        }
    }
    assert(after.lists(table, expected));
    assert forall|r: Seq<i64>| #[trigger] after.lists(table, r) implies r == expected by {
        law_listings_are_unique(after, table, LAST_SHOWN + 1, r, expected);
    }
    assert forall|other: i64, r: Seq<i64>| other != table implies (#[trigger] after.lists(other, r)
        <==> before.lists(other, r)) by {
        lemma_same_queue_same_listings(before, after, other, r);
    }
}

/// The listings of a queue depend on that queue alone.
proof fn lemma_same_queue_same_listings(before: Store, after: Store, table: i64, r: Seq<i64>)
    requires
        forall|team: i64| #[trigger] before.waits(table, team) <==> after.waits(table, team),
        forall|team: i64| #[trigger]
            before.waits(table, team) ==> before.waiting[(table, team)] == after.waiting[(
                table,
                team,
            )],
    ensures
        after.lists(table, r) <==> before.lists(table, r),
{
    if before.lists(table, r) {
        lemma_same_listings(before, after, table, r);
    }
    if after.lists(table, r) {
        assert forall|team: i64| #[trigger] after.waits(table, team) implies after.waiting[(
            table,
            team,
        )] == before.waiting[(table, team)] by {
            assert(before.waits(table, team));
        }
        assert forall|team: i64| #[trigger] after.waits(table, team) <==> before.waits(
            table,
            team,
        ) by {
            assert(before.waits(table, team) <==> after.waits(table, team));
        }
        lemma_same_listings(after, before, table, r);
    }
}

/// How far adding a team is from its end.
pub open spec fn add_steps_left(step: Step<AddToQueue, bool>) -> nat {
    match step {
        Step::Ask(AddToQueue::Checking { .. }, _) => 3,
        Step::Ask(AddToQueue::Assigning { .. }, _) => 2,
        Step::Ask(AddToQueue::Adding, _) => 1,
        Step::Done(_) => 0,
    }
}

/// Whether adding a team, from `step` on, may turn the store from `before` into
/// `after` and end with the result `added`, at the time `millis`.
pub open spec fn adds(
    step: Step<AddToQueue, bool>,
    millis: i64,
    before: Store,
    after: Store,
    added: bool,
) -> bool
    decreases add_steps_left(step),
{
    match step {
        Step::Done(result) => result == added && after == before,
        Step::Ask(add, command) => exists|reply: StoreReplyView, middle: Store|
            {
                &&& #[trigger] answers(before, command, reply, middle)
                &&& add.accepts(reply)
                &&& adds(add.next(reply, millis), millis, middle, after, added)
            },
    }
}

/// `add_to_queue` adds a team unless it waits anywhere, and tells whether it
/// did.
pub proof fn law_add_to_queue(
    table: i64,
    team: i64,
    millis: i64,
    before: Store,
    after: Store,
    added: bool,
)
    requires
        adds(add_start(table, team), millis, before, after, added),
    ensures
        added == !before.assigned.contains_key(team),
        after == if added {
            before.with(table, team, millis)
        } else {
            before
        },
{
    reveal_with_fuel(adds, 4);
    let checking = AddToQueue::Checking { table, team };
    let (reply, middle) = choose|reply: StoreReplyView, middle: Store|
        {
            &&& #[trigger] answers(before, StoreCommand::Hexists { team }, reply, middle)
            &&& checking.accepts(reply)
            &&& adds(checking.next(reply, millis), millis, middle, after, added)
        };
    if !before.assigned.contains_key(team) {
        let assigning = AddToQueue::Assigning { table, team };
        let (reply1, middle1) = choose|reply: StoreReplyView, next: Store|
            {
                &&& #[trigger] answers(middle, StoreCommand::Hset { team, table }, reply, next)
                &&& assigning.accepts(reply)
                &&& adds(assigning.next(reply, millis), millis, next, after, added)
            };
        let adding = AddToQueue::Adding;
        let (reply2, middle2) = choose|reply: StoreReplyView, next: Store|
            {
                &&& #[trigger] answers(
                    middle1,
                    StoreCommand::Zadd { table, team, millis },
                    reply,
                    next,
                )
                &&& adding.accepts(reply)
                &&& adds(adding.next(reply, millis), millis, next, after, added)
            };
        assert(middle1.waits(table, team) <==> before.waits(table, team));
        assert(after =~= before.with(table, team, millis));
    }
}

/// A newcomer goes to the end: `add_to_queue` with a team that is in neither the
/// hash nor the queue, at a time later than all who wait there, turns the
/// listing into itself with the newcomer at its end, and leaves those of other
/// tables as they are.
pub proof fn law_newcomers_go_to_the_end(
    table: i64,
    team: i64,
    millis: i64,
    before: Store,
    after: Store,
    added: bool,
    q: Seq<i64>,
    r: Seq<i64>,
)
    requires
        adds(add_start(table, team), millis, before, after, added),
        !before.assigned.contains_key(team),
        !before.waits(table, team),
        later_than_all(before, table, millis),
        before.lists(table, q),
        after.lists(table, r),
    ensures
        added,
        q.len() <= LAST_SHOWN ==> r == q.push(team),
        q.len() > LAST_SHOWN ==> r == q,
        forall|other: i64, p: Seq<i64>|
            other != table ==> (#[trigger] after.lists(other, p) <==> before.lists(other, p)),
{
    law_add_to_queue(table, team, millis, before, after, added);
    law_listing_with_a_newcomer(before, after, table, team, millis, q);
}

/// How far taking the first team out of a queue is from its end.
pub open spec fn dequeue_steps_left(step: Step<Dequeue, Option<i64>>) -> nat {
    match step {
        Step::Ask(Dequeue::Popping, _) => 2,
        Step::Ask(Dequeue::Forgetting { .. }, _) => 1,
        Step::Done(_) => 0,
    }
}

/// Whether taking the first team out of a queue, from `step` on, may turn the
/// store from `before` into `after` and end with the result `taken`.
pub open spec fn takes(
    step: Step<Dequeue, Option<i64>>,
    before: Store,
    after: Store,
    taken: Option<i64>,
) -> bool
    decreases dequeue_steps_left(step),
{
    match step {
        Step::Done(result) => result == taken && after == before,
        Step::Ask(op, command) => exists|reply: StoreReplyView, middle: Store|
            {
                &&& #[trigger] answers(before, command, reply, middle)
                &&& op.accepts(reply)
                &&& takes(op.next(reply), middle, after, taken)
            },
    }
}

/// `dequeue` takes the head of the listing, if there is one: the listing
/// afterwards is what followed it, and what moves up from beyond the listing.
pub proof fn law_dequeue_takes_the_head(
    table: i64,
    before: Store,
    after: Store,
    taken: Option<i64>,
    q: Seq<i64>,
)
    requires
        takes(dequeue_start(table), before, after, taken),
        before.lists(table, q),
    ensures
        q.len() == 0 ==> taken is None && after == before,
        q.len() > 0 ==> taken == Some(q[0]) && after == before.without(table, q[0]),
        0 < q.len() <= LAST_SHOWN ==> after.lists(table, q.skip(1)),
        forall|r: Seq<i64>| #[trigger]
            after.lists(table, r) && q.len() > 0 ==> q.skip(1).is_prefix_of(r) && (q.len()
                <= LAST_SHOWN ==> r == q.skip(1)),
        forall|other: i64, r: Seq<i64>|
            other != table ==> (#[trigger] after.lists(other, r) <==> before.lists(other, r)),
{
    reveal_with_fuel(takes, 3);
    let popping = Dequeue::Popping;
    let (reply, middle) = choose|reply: StoreReplyView, middle: Store|
        {
            &&& #[trigger] answers(before, StoreCommand::Zpopmin { table }, reply, middle)
            &&& popping.accepts(reply)
            &&& takes(popping.next(reply), middle, after, taken)
        };
    law_head_of_listing_is_first(before, table, q);
    let popped = reply->Popped_0;
    if let Some(team) = popped.team() {
        assert(before.is_first(table, team));
        let forgetting = Dequeue::Forgetting { team };
        let (reply1, middle1) = choose|reply: StoreReplyView, next: Store|
            {
                &&& #[trigger] answers(middle, StoreCommand::Hdel { team }, reply, next)
                &&& forgetting.accepts(reply)
                &&& takes(forgetting.next(reply), next, after, taken)
            };
        assert(after =~= before.without(table, team));
        law_listing_without_a_team(before, after, table, q, 0);
        assert(q.remove(0) =~= q.skip(1));
    } else if q.len() > 0 {
        assert(before.waits(table, q[0]));
    }
}

/// Taking teams out of a queue until none is left gives them in the order of
/// the listing, and then none.
pub proof fn law_dequeue_empties_the_queue(
    table: i64,
    stores: Seq<Store>,
    taken: Seq<Option<i64>>,
    q: Seq<i64>,
)
    requires
        q.len() <= LAST_SHOWN,
        taken.len() == q.len() + 1,
        stores.len() == taken.len() + 1,
        stores[0].lists(table, q),
        forall|i: int|
            0 <= i < taken.len() ==> takes(
                dequeue_start(table),
                #[trigger] stores[i],
                stores[i + 1],
                taken[i],
            ),
    ensures
        forall|i: int| 0 <= i < q.len() ==> #[trigger] taken[i] == Some(q[i]),
        taken[q.len() as int] is None,
    decreases q.len(),
{
    assert(takes(dequeue_start(table), stores[0], stores[0int + 1], taken[0]));
    law_dequeue_takes_the_head(table, stores[0], stores[1], taken[0], q);
    if q.len() > 0 {
        let rest = q.skip(1);
        let later = stores.skip(1);
        let others = taken.skip(1);
        assert forall|i: int| 0 <= i < others.len() implies takes(
            dequeue_start(table),
            #[trigger] later[i],
            later[i + 1],
            others[i],
        ) by {
            assert(later[i] == stores[i + 1]);
            assert(takes(dequeue_start(table), stores[i + 1], stores[i + 1 + 1], taken[i + 1]));
        }
        law_dequeue_empties_the_queue(table, later, others, rest);
        assert forall|i: int| 0 <= i < q.len() implies #[trigger] taken[i] == Some(q[i]) by {
            if i > 0 {
                assert(others[i - 1] == Some(rest[i - 1]));
            }
        }
        assert(others[rest.len() as int] == taken[q.len() as int]);
    }
}

/// How far taking a team out of its queue is from its end.
pub open spec fn unqueue_steps_left(step: Step<Unqueue, Option<i64>>) -> nat {
    match step {
        Step::Ask(Unqueue::Looking { .. }, _) => 3,
        Step::Ask(Unqueue::Removing { .. }, _) => 2,
        Step::Ask(Unqueue::Forgetting { .. }, _) => 1,
        Step::Done(_) => 0,
    }
}

/// Whether taking a team out of its queue, from `step` on, may turn the store
/// from `before` into `after` and end with the result `left`.
pub open spec fn leaves(
    step: Step<Unqueue, Option<i64>>,
    before: Store,
    after: Store,
    left: Option<i64>,
) -> bool
    decreases unqueue_steps_left(step),
{
    match step {
        Step::Done(result) => result == left && after == before,
        Step::Ask(op, command) => exists|reply: StoreReplyView, middle: Store|
            {
                &&& #[trigger] answers(before, command, reply, middle)
                &&& op.accepts(reply)
                &&& leaves(op.next(reply), middle, after, left)
            },
    }
}

/// `unqueue` takes a team out of the queue that the hash names for it, and
/// gives the table of that queue; a team that is not in the hash stays out.
pub proof fn law_unqueue(team: i64, before: Store, after: Store, left: Option<i64>)
    requires
        leaves(unqueue_start(team), before, after, left),
    ensures
        !before.assigned.contains_key(team) ==> left is None && after == before,
        before.assigned.contains_key(team) ==> {
            let table = before.assigned[team];
            left == Some(table) && after == before.without(table, team)
        },
{
    reveal_with_fuel(leaves, 4);
    let looking = Unqueue::Looking { team };
    let (reply, middle) = choose|reply: StoreReplyView, middle: Store|
        {
            &&& #[trigger] answers(before, StoreCommand::Hget { team }, reply, middle)
            &&& looking.accepts(reply)
            &&& leaves(looking.next(reply), middle, after, left)
        };
    if before.assigned.contains_key(team) {
        let table = before.assigned[team];
        let removing = Unqueue::Removing { team, table };
        let (reply1, middle1) = choose|reply: StoreReplyView, next: Store|
            {
                &&& #[trigger] answers(middle, StoreCommand::Zrem { table, team }, reply, next)
                &&& removing.accepts(reply)
                &&& leaves(removing.next(reply), next, after, left)
            };
        let forgetting = Unqueue::Forgetting { table };
        let (reply2, middle2) = choose|reply: StoreReplyView, next: Store|
            {
                &&& #[trigger] answers(middle1, StoreCommand::Hdel { team }, reply, next)
                &&& forgetting.accepts(reply)
                &&& leaves(forgetting.next(reply), next, after, left)
            };
        assert(after =~= before.without(table, team));
    }
}

/// Those who stay keep their places: after `unqueue` of a team that is listed,
/// the listing is that of before without the team, and what moves up from
/// beyond the listing.
pub proof fn law_unqueue_keeps_the_order(
    team: i64,
    before: Store,
    after: Store,
    left: Option<i64>,
    q: Seq<i64>,
    k: int,
    r: Seq<i64>,
)
    requires
        leaves(unqueue_start(team), before, after, left),
        before.assigned.contains_key(team),
        before.lists(before.assigned[team], q),
        0 <= k < q.len(),
        q[k] == team,
        after.lists(before.assigned[team], r),
    ensures
        q.remove(k).is_prefix_of(r),
        q.len() <= LAST_SHOWN ==> r == q.remove(k),
        forall|other: i64, p: Seq<i64>|
            other != before.assigned[team] ==> (#[trigger] after.lists(other, p) <==> before.lists(
                other,
                p,
            )),
{
    law_unqueue(team, before, after, left);
    law_listing_without_a_team(before, after, before.assigned[team], q, k);
}

/// `/dequeue` and `/dequeue_nojoin` take the team that `/queue` lists first: the
/// listing afterwards is what followed it, and what moves up from beyond the
/// listing.
pub proof fn law_commands_take_the_head(
    config: ConfigView,
    invocation: InvocationView,
    seating: Map<i64, Set<u64>>,
    millis: i64,
    before: Store,
    after: Store,
    answer: Option<Seq<char>>,
    q: Seq<i64>,
)
    requires
        invocation.guild_id == Some(config.guild_id),
        command_named(invocation.name) is Dequeue || command_named(
            invocation.name,
        ) is DequeueNojoin,
        config.blessed_users.contains(invocation.user_id),
        invocation.well_formed(config),
        dialogue(config, invocation.first_turn(config), seating, millis, before, after, answer),
        before.lists(invocation.options[0].value->0, q),
    ensures
        ({
            let table = invocation.options[0].value->0;
            &&& q.len() == 0 ==> after == before && answer == Some(
                "The queue for table "@ + decimal(table as int) + " is empty"@,
            )
            &&& q.len() > 0 ==> {
                &&& after == before.without(table, q[0])
                &&& if command_named(invocation.name) is Dequeue {
                    reports_join(config, seating, Cause::Dequeue, q[0], table, answer)
                } else {
                    answer == Some("Deqeued team "@ + decimal(q[0] as int) + " -> /dev/null"@)
                }
                &&& forall|r: Seq<i64>| #[trigger]
                    after.lists(table, r) ==> q.skip(1).is_prefix_of(r) && (q.len() <= LAST_SHOWN
                        ==> r == q.skip(1))
            }
            &&& forall|other: i64, r: Seq<i64>|
                other != table ==> (#[trigger] after.lists(other, r) <==> before.lists(other, r))
        }),
{
    let table = invocation.options[0].value->0;
    law_dequeue(config, invocation, seating, millis, before, after, answer);
    law_head_of_listing_is_first(before, table, q);
    if q.len() > 0 {
        assert(before.waits(table, q[0]));
        law_listing_without_a_team(before, after, table, q, 0);
        assert(q.remove(0) =~= q.skip(1));
    }
}

/// Whether all who wait at `table` were added before the time `millis`.
pub open spec fn later_than_all(store: Store, table: i64, millis: i64) -> bool {
    forall|other: i64| #[trigger]
        store.waits(table, other) ==> store.waiting[(table, other)] < millis
}

/// A listing with a team added behind those who are listed, up to the length
/// that is shown.
pub open spec fn with_newcomer(q: Seq<i64>, team: i64) -> Seq<i64> {
    if q.len() <= LAST_SHOWN {
        q.push(team)
    } else {
        q
    }
}

/// Every way of enqueueing a team that does not wait, at a time later than all
/// who wait at the table to whose queue it is added, puts the team behind those
/// who are listed, shows the listing with the team at its end, and leaves the
/// listings of other tables as they are.
pub proof fn law_enqueued_teams_go_to_the_end(
    config: ConfigView,
    invocation: InvocationView,
    seating: Map<i64, Set<u64>>,
    millis: i64,
    before: Store,
    after: Store,
    answer: Option<Seq<char>>,
    team: i64,
)
    requires
        enqueues(config, invocation, team),
        !before.assigned.contains_key(team),
        dialogue(config, invocation.first_turn(config), seating, millis, before, after, answer),
    ensures
        exists|table: i64|
            {
                &&& #[trigger] may_choose(config, invocation, before, team, table)
                &&& after == before.with(table, team, millis)
                &&& forall|q: Seq<i64>| #[trigger]
                    before.lists(table, q) && !before.waits(table, team) && later_than_all(
                        before,
                        table,
                        millis,
                    ) ==> after.lists(table, with_newcomer(q, team)) && answer == Some(
                        added_text(config, table, with_newcomer(q, team)),
                    )
                &&& forall|other: i64, p: Seq<i64>|
                    other != table ==> (#[trigger] after.lists(other, p) <==> before.lists(
                        other,
                        p,
                    ))
            },
{
    law_enqueueing(config, invocation, seating, millis, before, after, answer, team);
    let table = choose|table: i64|
        {
            &&& #[trigger] may_choose(config, invocation, before, team, table)
            &&& after == before.with(table, team, millis)
            &&& reports_added(config, after, table, answer)
        };
    assert forall|q: Seq<i64>| #[trigger] before.lists(table, q) && !before.waits(table, team)
        && later_than_all(before, table, millis) implies after.lists(table, with_newcomer(q, team))
        && answer == Some(added_text(config, table, with_newcomer(q, team))) by {
        law_listing_with_a_newcomer(before, after, table, team, millis, q);
    }
    assert forall|other: i64, p: Seq<i64>| other != table implies (#[trigger] after.lists(other, p)
        <==> before.lists(other, p)) by {
        lemma_same_queue_same_listings(before, after, other, p);
    }
}

/// How far adding a team to the shortest queue is from its end.
pub open spec fn smallest_steps_left(step: SmallestStepView) -> nat {
    match step {
        SmallestStepView::Ask(AddToSmallestQueue::Checking { .. }, _) => 5,
        SmallestStepView::Ask(AddToSmallestQueue::Counting { .. }, _) => 4,
        SmallestStepView::Count(_, _) => 4,
        SmallestStepView::Ask(AddToSmallestQueue::Adding { add, .. }, _) => match add {
            AddToQueue::Checking { .. } => 3,
            AddToQueue::Assigning { .. } => 2,
            AddToQueue::Adding => 1,
        },
        SmallestStepView::Done(_) => 0,
    }
}

/// Whether adding a team to the shortest queue, from `step` on, may turn the
/// store from `before` into `after` and end with the result `chosen`, at the
/// time `millis`.
pub open spec fn adds_to_smallest(
    config: ConfigView,
    step: SmallestStepView,
    millis: i64,
    before: Store,
    after: Store,
    chosen: Option<i64>,
) -> bool
    decreases smallest_steps_left(step),
{
    match step {
        SmallestStepView::Done(result) => result == chosen && after == before,
        SmallestStepView::Count(add, tables) => exists|counts: Seq<(i64, i64)>|
            {
                &&& #[trigger] counts_queues(before, tables, counts)
                &&& counts.len() > 0
                &&& add is Counting
                &&& adds_to_smallest(config, add.counted(counts), millis, before, after, chosen)
            },
        SmallestStepView::Ask(add, command) => exists|
            reply: StoreReplyView,
            middle: Store,
            next: SmallestStepView,
        |
            {
                &&& #[trigger] answers(before, command, reply, middle)
                &&& add.accepts(reply)
                &&& #[trigger] add.goes_on(config, reply, millis, next)
                &&& smallest_steps_left(next) < smallest_steps_left(step)
                &&& adds_to_smallest(config, next, millis, middle, after, chosen)
            },
    }
}

/// The next reply in adding a team to the shortest queue, with what comes of it.
proof fn next_reply(
    config: ConfigView,
    add: AddToSmallestQueue,
    command: StoreCommand,
    millis: i64,
    before: Store,
    after: Store,
    chosen: Option<i64>,
) -> (came: (StoreReplyView, Store, SmallestStepView))
    requires
        adds_to_smallest(
            config,
            SmallestStepView::Ask(add, command),
            millis,
            before,
            after,
            chosen,
        ),
    ensures
        answers(before, command, came.0, came.1),
        add.accepts(came.0),
        add.goes_on(config, came.0, millis, came.2),
        adds_to_smallest(config, came.2, millis, came.1, after, chosen),
{
    let step = SmallestStepView::Ask(add, command);
    choose|reply: StoreReplyView, middle: Store, next: SmallestStepView|
        {
            &&& #[trigger] answers(before, command, reply, middle)
            &&& add.accepts(reply)
            &&& #[trigger] add.goes_on(config, reply, millis, next)
            &&& smallest_steps_left(next) < smallest_steps_left(step)
            &&& adds_to_smallest(config, next, millis, middle, after, chosen)
        }
}

/// Every reply brings adding to the shortest queue closer to its end.
pub proof fn law_adding_to_the_smallest_progresses(
    config: ConfigView,
    add: AddToSmallestQueue,
    command: StoreCommand,
    reply: StoreReplyView,
    millis: i64,
    next: SmallestStepView,
)
    requires
        add.accepts(reply),
        add.goes_on(config, reply, millis, next),
    ensures
        smallest_steps_left(next) < smallest_steps_left(SmallestStepView::Ask(add, command)),
{
}

/// `add_to_smallest_queue` chooses no table exactly for a team that waits
/// anywhere, and then changes nothing; otherwise it adds the team to the queue
/// of a table that has a shortest one, and gives that table.
pub proof fn law_add_to_smallest_queue(
    config: ConfigView,
    team: i64,
    millis: i64,
    before: Store,
    after: Store,
    chosen: Option<i64>,
)
    requires
        adds_to_smallest(config, smallest_start(team), millis, before, after, chosen),
    ensures
        chosen is None <==> before.assigned.contains_key(team),
        match chosen {
            None => after == before,
            Some(table) => has_shortest_queue(config, before, table) && after == before.with(
                table,
                team,
                millis,
            ),
        },
{
    let (reply, middle, step) = next_reply(
        config,
        AddToSmallestQueue::Checking { team },
        StoreCommand::Hexists { team },
        millis,
        before,
        after,
        chosen,
    );
    if !before.assigned.contains_key(team) {
        let tables = step->Count_1;
        let counting = AddToSmallestQueue::Counting { team };
        assert(step == SmallestStepView::Count(counting, tables));
        let counts = choose|counts: Seq<(i64, i64)>|
            {
                &&& #[trigger] counts_queues(before, tables, counts)
                &&& counts.len() > 0
                &&& counting is Counting
                &&& adds_to_smallest(
                    config,
                    counting.counted(counts),
                    millis,
                    before,
                    after,
                    chosen,
                )
            };
        let table = smallest(counts);
        lemma_smallest_is_shortest(config, before, tables, counts);
        let (reply1, middle1, step1) = next_reply(
            config,
            AddToSmallestQueue::Adding { table, add: AddToQueue::Checking { table, team } },
            StoreCommand::Hexists { team },
            millis,
            before,
            after,
            chosen,
        );
        let (reply2, middle2, step2) = next_reply(
            config,
            AddToSmallestQueue::Adding { table, add: AddToQueue::Assigning { table, team } },
            StoreCommand::Hset { team, table },
            millis,
            middle1,
            after,
            chosen,
        );
        let (reply3, middle3, step3) = next_reply(
            config,
            AddToSmallestQueue::Adding { table, add: AddToQueue::Adding },
            StoreCommand::Zadd { table, team, millis },
            millis,
            middle2,
            after,
            chosen,
        );
        assert(adds_to_smallest(config, step3, millis, middle3, after, chosen));
        assert(middle2.waits(table, team) <==> before.waits(table, team));
        assert(after =~= before.with(table, team, millis));
    } else {
        assert(adds_to_smallest(config, step, millis, middle, after, chosen));
    }
}

} // verus!
