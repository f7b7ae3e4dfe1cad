//! What whole dialogues do, given a store that answers as it is documented to
//! and that nobody else writes to in the meantime.

use vstd::prelude::*;
use vstd::utf8::*;

use crate::config::{default_table, ConfigView, DUMMY_TABLE, DUMMY_TEAM};
use crate::interaction::{
    after_move, after_smallest, command_named, enqueue_turn, join_text, showing, Cause, Command,
    EventView, InvocationView, RequestView, ResolvedView, SessionView, TurnView,
};
use crate::queue::{
    all_named, is_first_smallest, lists_queues, queue_text, smallest, AddToQueue,
    AddToSmallestQueue, Dequeue, SmallestStepView, StoreReplyView, Unqueue,
};
use crate::seating::{after_outcomes, planned, TableJoinView};
use crate::store::{exact_score, StoreCommand, LAST_SHOWN};
use crate::text::{
    bytes_before, decimal, law_decimal_is_injective, lemma_bytes_order_is_strict,
    lemma_bytes_order_is_total, lemma_bytes_order_is_transitive,
};

verus! {

/// The content of the store: the hash that maps each waiting team to a table,
/// and the score of each team in the queue of each table.
#[verifier::ext_equal]
pub struct Store {
    pub assigned: Map<i64, i64>,
    pub waiting: Map<(i64, i64), i64>,
}

impl Store {
    /// Whether `team` is in the queue of `table`.
    pub open spec fn waits(self, table: i64, team: i64) -> bool {
        self.waiting.contains_key((table, team))
    }

    /// The teams in the queue of `table`.
    pub open spec fn queue(self, table: i64) -> Set<i64> {
        Set::new(|team: i64| self.waits(table, team))
    }

    /// Whether `a` stands before `b` in the queue of `table`: it has the lower
    /// score or, of two equal ones, the number whose text is lower in the
    /// order of bytes.
    pub open spec fn precedes(self, table: i64, a: i64, b: i64) -> bool {
        let (x, y) = (self.waiting[(table, a)], self.waiting[(table, b)]);
        x < y || x == y && bytes_before(
            encode_utf8(decimal(a as int)),
            encode_utf8(decimal(b as int)),
        )
    }

    /// Whether `team` stands before all others in the queue of `table`.
    pub open spec fn is_first(self, table: i64, team: i64) -> bool {
        &&& self.waits(table, team)
        &&& forall|other: i64| #[trigger]
            self.waits(table, other) ==> other == team || self.precedes(table, team, other)
    }

    /// Whether `teams` lists the queue of `table` in order, up to a length of
    /// `limit`.
    pub open spec fn lists_up_to(self, table: i64, limit: int, teams: Seq<i64>) -> bool {
        &&& teams.len() <= limit
        &&& forall|i: int| 0 <= i < teams.len() ==> self.waits(table, #[trigger] teams[i])
        &&& forall|i: int, j: int|
            0 <= i < j < teams.len() ==> self.precedes(
                table,
                #[trigger] teams[i],
                #[trigger] teams[j],
            )
        &&& forall|team: i64| #[trigger]
            self.waits(table, team) ==> teams.contains(team) || teams.len() == limit && forall|
                i: int,
            |
                0 <= i < teams.len() ==> self.precedes(table, #[trigger] teams[i], team)
    }

    /// Whether `teams` lists the queue of `table` in order, up to the length
    /// that is shown.
    pub open spec fn lists(self, table: i64, teams: Seq<i64>) -> bool {
        self.lists_up_to(table, LAST_SHOWN + 1, teams)
    }

    /// Each waiting team is in exactly one queue, and the hash tells which.
    pub open spec fn consistent(self) -> bool {
        forall|table: i64, team: i64| #[trigger]
            self.waits(table, team) <==> self.assigned.contains_key(team) && self.assigned[team]
                == table
    }

    /// The store after `team` was added to the queue of `table`.
    pub open spec fn with(self, table: i64, team: i64, millis: i64) -> Store {
        Store {
            assigned: self.assigned.insert(team, table),
            waiting: if self.waits(table, team) {
                self.waiting
            } else {
                self.waiting.insert((table, team), millis)
            },
        }
    }

    /// The store after `team` was taken out of the queue of `table`.
    pub open spec fn without(self, table: i64, team: i64) -> Store {
        Store {
            assigned: self.assigned.remove(team),
            waiting: self.waiting.remove((table, team)),
        }
    }
}

/// No team stands before itself.
pub proof fn lemma_order_is_strict(store: Store, table: i64, team: i64)
    ensures
        !store.precedes(table, team, team),
{
    lemma_bytes_order_is_strict(encode_utf8(decimal(team as int)));
}

pub proof fn lemma_order_is_transitive(store: Store, table: i64, a: i64, b: i64, c: i64)
    requires
        store.precedes(table, a, b),
        store.precedes(table, b, c),
    ensures
        store.precedes(table, a, c),
{
    let (x, y, z) = (
        store.waiting[(table, a)],
        store.waiting[(table, b)],
        store.waiting[(table, c)],
    );
    if x == y && y == z {
        lemma_bytes_order_is_transitive(
            encode_utf8(decimal(a as int)),
            encode_utf8(decimal(b as int)),
            encode_utf8(decimal(c as int)),
        );
    }
}

/// Of two teams, one stands before the other.
pub proof fn lemma_order_is_total(store: Store, table: i64, a: i64, b: i64)
    requires
        a != b,
    ensures
        store.precedes(table, a, b) || store.precedes(table, b, a),
{
    let (s, t) = (decimal(a as int), decimal(b as int));
    if encode_utf8(s) == encode_utf8(t) {
        encode_utf8_decode_utf8(s);
        encode_utf8_decode_utf8(t);
        law_decimal_is_injective(a, b);
    }
    lemma_bytes_order_is_total(encode_utf8(s), encode_utf8(t));
}

/// Whether the store is known to answer `command` with `reply`, turning from
/// `before` into `after`.  Nothing is said of scores that it does not keep as
/// they are given.  Lengths of queues are asked for together, see [`happens`].
pub open spec fn answers(
    before: Store,
    command: StoreCommand,
    reply: StoreReplyView,
    after: Store,
) -> bool {
    match command {
        StoreCommand::Hexists { team } => {
            &&& reply == StoreReplyView::Flag(before.assigned.contains_key(team))
            &&& after == before
        },
        StoreCommand::Hset { team, table } => {
            &&& reply == StoreReplyView::Done
            &&& after == Store { assigned: before.assigned.insert(team, table), ..before }
        },
        StoreCommand::Hget { team } => {
            &&& reply == StoreReplyView::Table(
                if before.assigned.contains_key(team) {
                    Some(before.assigned[team])
                } else {
                    None
                },
            )
            &&& after == before
        },
        StoreCommand::Hdel { team } => {
            &&& reply == StoreReplyView::Done
            &&& after == Store { assigned: before.assigned.remove(team), ..before }
        },
        StoreCommand::Zadd { table, team, millis } => {
            &&& exact_score(millis)
            &&& reply == StoreReplyView::Done
            &&& after.assigned == before.assigned
            &&& after.waiting == if before.waits(table, team) {
                before.waiting
            } else {
                before.waiting.insert((table, team), millis)
            }
        },
        StoreCommand::Zrem { table, team } => {
            &&& reply == StoreReplyView::Done
            &&& after == Store { waiting: before.waiting.remove((table, team)), ..before }
        },
        StoreCommand::Zpopmin { table } => {
            &&& reply matches StoreReplyView::Popped(popped)
            &&& popped.readable()
            &&& match popped.team() {
                Some(team) => {
                    &&& before.is_first(table, team)
                    &&& after == Store { waiting: before.waiting.remove((table, team)), ..before }
                },
                None => {
                    &&& forall|team: i64| !before.waits(table, team)
                    &&& after == before
                },
            }
        },
        StoreCommand::Zrange { table } => {
            &&& reply matches StoreReplyView::Teams(teams)
            &&& before.lists(table, teams)
            &&& after == before
        },
        StoreCommand::Zcount { .. } => false,
    }
}

/// Whether `counts` gives the length of the queue of each of the tables.
pub open spec fn counts_queues(
    store: Store,
    tables: Seq<i64>,
    counts: Seq<(i64, i64)>,
) -> bool {
    &&& counts.len() == tables.len()
    &&& forall|i: int|
        0 <= i < tables.len() ==> (#[trigger] counts[i]).0 == tables[i] && counts[i].1
            == store.queue(tables[i]).len()
}

/// Whether `request` may have the outcome `event`, turning the store from
/// `before` into `after`, while people sit as `seating` says.  A move may
/// succeed or fail.
pub open spec fn happens(
    request: RequestView,
    seating: Map<i64, Set<u64>>,
    before: Store,
    event: EventView,
    after: Store,
) -> bool {
    match request {
        RequestView::Store(command) => event matches EventView::Stored(reply) && answers(
            before,
            command,
            reply,
            after,
        ),
        RequestView::Count(tables) => event matches EventView::Counted(counts) && counts_queues(
            before,
            tables,
            counts,
        ) && after == before,
        RequestView::Voice => event == EventView::Voice(seating) && after == before,
        RequestView::Move { .. } => event is Moved && after == before,
    }
}

/// How far a dialogue is from its end, disregarding moves.
pub open spec fn phase(turn: TurnView) -> nat {
    match turn {
        TurnView::Ignore => 0,
        TurnView::Reply(_) => 0,
        TurnView::Ask(session, _) => match session {
            SessionView::FirstQueue => 2,
            SessionView::SecondQueue { .. } => 1,
            SessionView::Showing { .. } => 1,
            SessionView::Enqueueing { add, .. } => add_phase(add),
            SessionView::EnqueueingFaster { add } => match add {
                AddToSmallestQueue::Checking { .. } => 6,
                AddToSmallestQueue::Counting { .. } => 5,
                AddToSmallestQueue::Adding { add, .. } => add_phase(add),
            },
            SessionView::Unqueueing { op } => match op {
                Unqueue::Looking { .. } => 3,
                Unqueue::Removing { .. } => 2,
                Unqueue::Forgetting { .. } => 1,
            },
            SessionView::Dequeueing { op, .. } => match op {
                Dequeue::Popping => 4,
                Dequeue::Forgetting { .. } => 3,
            },
            SessionView::Joining { .. } => 2,
            SessionView::Moving { .. } => 1,
        },
    }
}

/// How far adding a team is from the end of the dialogue.
pub open spec fn add_phase(add: AddToQueue) -> nat {
    match add {
        AddToQueue::Checking { .. } => 4,
        AddToQueue::Assigning { .. } => 3,
        AddToQueue::Adding => 2,
    }
}

/// How many moves a dialogue has yet to make.
pub open spec fn moves_left(turn: TurnView) -> nat {
    match turn {
        TurnView::Ask(SessionView::Moving { join, .. }, _) => if join.done < join.moves.len() {
            (join.moves.len() - join.done) as nat
        } else {
            0
        },
        _ => 0,
    }
}

/// Every event brings a dialogue closer to its end: it enters an earlier
/// phase, or makes one of finitely many moves.
pub proof fn law_dialogues_progress(
    config: ConfigView,
    session: SessionView,
    request: RequestView,
    event: EventView,
    millis: i64,
    next: TurnView,
)
    requires
        session.accepts(config, event),
        session.goes_on(config, event, millis, next),
    ensures
        phase(next) < phase(TurnView::Ask(session, request)) || phase(next) == phase(
            TurnView::Ask(session, request),
        ) && moves_left(next) < moves_left(TurnView::Ask(session, request)),
{
    match session {
        SessionView::EnqueueingFaster { add } => {
            if let EventView::Stored(reply) = event {
                let step = choose|step: SmallestStepView| #[trigger]
                    add.goes_on(config, reply, millis, step) && next == after_smallest(step);
                assert(add.goes_on(config, reply, millis, step));
            }
        },
        SessionView::Joining { cause, team, table } => {
            if let EventView::Voice(seating) = event {
                let join = choose|join: TableJoinView| #[trigger]
                    planned(config, seating, team, table, join) && next == after_move(
                        cause,
                        team,
                        table,
                        join,
                    );
                assert(planned(config, seating, team, table, join));
            }
        },
        _ => {},
    }
}

/// A user whom it was tried to move into a voice channel.
pub struct Attempt {
    pub user: u64,
    pub channel: u64,
    pub moved: bool,
}

/// The attempt to move someone, if any, that `request` with the outcome
/// `event` is.
pub open spec fn attempted(request: RequestView, event: EventView) -> Seq<Attempt> {
    match (request, event) {
        (RequestView::Move { user, channel }, EventView::Moved(moved)) => seq![
            Attempt { user, channel, moved },
        ],
        _ => Seq::empty(),
    }
}

/// Whether a dialogue that stands at `turn` may end with the given answer (none
/// if the command is ignored), turning the store from `before` into `after`,
/// with the given attempts to move people, in their order.  People sit as
/// `seating` says when they are looked up, and `millis` is the time at which a
/// team is added.
pub open spec fn moving_dialogue(
    config: ConfigView,
    turn: TurnView,
    seating: Map<i64, Set<u64>>,
    millis: i64,
    before: Store,
    after: Store,
    answer: Option<Seq<char>>,
    attempts: Seq<Attempt>,
) -> bool
    decreases phase(turn), moves_left(turn),
{
    match turn {
        TurnView::Ignore => answer is None && after == before && attempts.len() == 0,
        TurnView::Reply(text) => answer == Some(text) && after == before && attempts.len() == 0,
        TurnView::Ask(session, request) => exists|event: EventView, middle: Store, next: TurnView|
            {
                &&& #[trigger] happens(request, seating, before, event, middle)
                &&& #[trigger] session.goes_on(config, event, millis, next)
                &&& session.accepts(config, event)
                &&& (phase(next) < phase(turn) || phase(next) == phase(turn) && moves_left(next)
                    < moves_left(turn))
                &&& attempted(request, event).is_prefix_of(attempts)
                &&& moving_dialogue(
                    config,
                    next,
                    seating,
                    millis,
                    middle,
                    after,
                    answer,
                    attempts.skip(attempted(request, event).len() as int),
                )
            },
    }
}

/// Whether a dialogue that stands at `turn` may end with the given answer,
/// turning the store from `before` into `after`, whoever is moved.
pub open spec fn dialogue(
    config: ConfigView,
    turn: TurnView,
    seating: Map<i64, Set<u64>>,
    millis: i64,
    before: Store,
    after: Store,
    answer: Option<Seq<char>>,
) -> bool {
    exists|attempts: Seq<Attempt>| #[trigger]
        moving_dialogue(config, turn, seating, millis, before, after, answer, attempts)
}

/// The next event of a dialogue, with what comes of it.
proof fn next_exchange(
    config: ConfigView,
    session: SessionView,
    request: RequestView,
    seating: Map<i64, Set<u64>>,
    millis: i64,
    before: Store,
    after: Store,
    answer: Option<Seq<char>>,
    attempts: Seq<Attempt>,
) -> (came: (EventView, Store, TurnView))
    requires
        moving_dialogue(
            config,
            TurnView::Ask(session, request),
            seating,
            millis,
            before,
            after,
            answer,
            attempts,
        ),
    ensures
        happens(request, seating, before, came.0, came.1),
        session.accepts(config, came.0),
        session.goes_on(config, came.0, millis, came.2),
        attempted(request, came.0).is_prefix_of(attempts),
        moving_dialogue(
            config,
            came.2,
            seating,
            millis,
            came.1,
            after,
            answer,
            attempts.skip(attempted(request, came.0).len() as int),
        ),
{
    let turn = TurnView::Ask(session, request);
    choose|event: EventView, middle: Store, next: TurnView|
        {
            &&& #[trigger] happens(request, seating, before, event, middle)
            &&& #[trigger] session.goes_on(config, event, millis, next)
            &&& session.accepts(config, event)
            &&& (phase(next) < phase(turn) || phase(next) == phase(turn) && moves_left(next)
                < moves_left(turn))
            &&& attempted(request, event).is_prefix_of(attempts)
            &&& moving_dialogue(
                config,
                next,
                seating,
                millis,
                middle,
                after,
                answer,
                attempts.skip(attempted(request, event).len() as int),
            )
        }
}

/// The next event of a dialogue, with what comes of it, whoever is moved.
proof fn next_event(
    config: ConfigView,
    session: SessionView,
    request: RequestView,
    seating: Map<i64, Set<u64>>,
    millis: i64,
    before: Store,
    after: Store,
    answer: Option<Seq<char>>,
) -> (came: (EventView, Store, TurnView))
    requires
        dialogue(
            config,
            TurnView::Ask(session, request),
            seating,
            millis,
            before,
            after,
            answer,
        ),
    ensures
        happens(request, seating, before, came.0, came.1),
        session.accepts(config, came.0),
        session.goes_on(config, came.0, millis, came.2),
        dialogue(config, came.2, seating, millis, came.1, after, answer),
{
    let attempts = choose|attempts: Seq<Attempt>| #[trigger]
        moving_dialogue(
            config,
            TurnView::Ask(session, request),
            seating,
            millis,
            before,
            after,
            answer,
            attempts,
        );
    next_exchange(config, session, request, seating, millis, before, after, answer, attempts)
}

/// The answer that tells to which queue a team was added, and lists it.
pub open spec fn added_text(config: ConfigView, table: i64, queue: Seq<i64>) -> Seq<char> {
    "Enqueued to table "@ + decimal(table as int) + "\n"@ + queue_text(config, queue)
}

/// Whether `answer` reports that a team was added to the queue of `table`, with
/// a listing of the queue as the store has it.
pub open spec fn reports_added(
    config: ConfigView,
    store: Store,
    table: i64,
    answer: Option<Seq<char>>,
) -> bool {
    exists|queue: Seq<i64>| #[trigger]
        store.lists(table, queue) && all_named(config, queue) && answer == Some(
            added_text(config, table, queue),
        )
}

proof fn lemma_showing(
    config: ConfigView,
    table: i64,
    seating: Map<i64, Set<u64>>,
    millis: i64,
    before: Store,
    after: Store,
    answer: Option<Seq<char>>,
)
    requires
        dialogue(config, showing(table), seating, millis, before, after, answer),
    ensures
        after == before,
        reports_added(config, before, table, answer),
{
    let (event, middle, next) = next_event(
        config,
        SessionView::Showing { table },
        RequestView::Store(StoreCommand::Zrange { table }),
        seating,
        millis,
        before,
        after,
        answer,
    );
    let queue = event->Stored_0->Teams_0;
    assert(before.lists(table, queue));
    assert(next == TurnView::Reply(added_text(config, table, queue)));
    assert(dialogue(config, next, seating, millis, middle, after, answer));
}

/// What adding a team that is not waiting does, from the point where that was
/// found out.
proof fn lemma_assigning(
    config: ConfigView,
    session: SessionView,
    seating: Map<i64, Set<u64>>,
    millis: i64,
    before: Store,
    after: Store,
    answer: Option<Seq<char>>,
    table: i64,
    team: i64,
)
    requires
        ({
            let add = AddToQueue::Assigning { table, team };
            ||| session == SessionView::EnqueueingFaster {
                add: AddToSmallestQueue::Adding { table, add },
            }
            ||| session matches SessionView::Enqueueing { table: t, add: a, .. } && t == table && a
                == add
        }),
        dialogue(
            config,
            TurnView::Ask(session, RequestView::Store(StoreCommand::Hset { team, table })),
            seating,
            millis,
            before,
            after,
            answer,
        ),
    ensures
        after == before.with(table, team, millis),
        reports_added(config, after, table, answer),
{
    let (event1, middle1, next1) = next_event(
        config,
        session,
        RequestView::Store(StoreCommand::Hset { team, table }),
        seating,
        millis,
        before,
        after,
        answer,
    );
    let zadd = RequestView::Store(StoreCommand::Zadd { table, team, millis });
    let adding = match session {
        SessionView::Enqueueing { own, .. } => SessionView::Enqueueing {
            own,
            table,
            add: AddToQueue::Adding,
        },
        _ => SessionView::EnqueueingFaster {
            add: AddToSmallestQueue::Adding { table, add: AddToQueue::Adding },
        },
    };
    assert(next1 == TurnView::Ask(adding, zadd));
    let (event2, middle2, next2) = next_event(
        config,
        adding,
        zadd,
        seating,
        millis,
        middle1,
        after,
        answer,
    );
    assert(next2 == showing(table));
    assert(middle2 =~= before.with(table, team, millis));
    lemma_showing(config, table, seating, millis, middle2, after, answer);
}

proof fn lemma_enqueue(
    config: ConfigView,
    own: bool,
    team: i64,
    seating: Map<i64, Set<u64>>,
    millis: i64,
    before: Store,
    after: Store,
    answer: Option<Seq<char>>,
)
    requires
        dialogue(config, enqueue_turn(own, team), seating, millis, before, after, answer),
    ensures
        before.assigned.contains_key(team) ==> after == before && answer == Some(
            if own {
                "You are already enqueued somewhere!"@
            } else {
                "They are already enqueued somewhere!"@
            },
        ),
        !before.assigned.contains_key(team) ==> {
            &&& after == before.with(default_table(team), team, millis)
            &&& reports_added(config, after, default_table(team), answer)
        },
{
    let table = default_table(team);
    let checking = SessionView::Enqueueing { own, table, add: AddToQueue::Checking { table, team } };
    let (event, middle, next) = next_event(
        config,
        checking,
        RequestView::Store(StoreCommand::Hexists { team }),
        seating,
        millis,
        before,
        after,
        answer,
    );
    assert(dialogue(config, next, seating, millis, middle, after, answer));
    if !before.assigned.contains_key(team) {
        let assigning = SessionView::Enqueueing {
            own,
            table,
            add: AddToQueue::Assigning { table, team },
        };
        assert(next == TurnView::Ask(
            assigning,
            RequestView::Store(StoreCommand::Hset { team, table }),
        ));
        lemma_assigning(config, assigning, seating, millis, before, after, answer, table, team);
    }
}

/// A command from another guild is not answered and changes nothing.
pub proof fn law_other_guilds_are_ignored(
    config: ConfigView,
    invocation: InvocationView,
    seating: Map<i64, Set<u64>>,
    millis: i64,
    before: Store,
    after: Store,
    answer: Option<Seq<char>>,
)
    requires
        invocation.guild_id != Some(config.guild_id),
        dialogue(config, invocation.first_turn(config), seating, millis, before, after, answer),
    ensures
        answer is None,
        after == before,
{
}

/// A privileged command is refused to whoever is not blessed, whatever its
/// options: nothing is asked of anyone, and nothing changes.
pub proof fn law_privileged_commands_are_refused(
    config: ConfigView,
    invocation: InvocationView,
    seating: Map<i64, Set<u64>>,
    millis: i64,
    before: Store,
    after: Store,
    answer: Option<Seq<char>>,
)
    requires
        invocation.guild_id == Some(config.guild_id),
        command_named(invocation.name).privileged(),
        !config.blessed_users.contains(invocation.user_id),
        dialogue(config, invocation.first_turn(config), seating, millis, before, after, answer),
    ensures
        invocation.well_formed(config),
        invocation.first_turn(config) == TurnView::Reply(
            "You should be blessed by the gods to do this"@,
        ),
        answer == Some("You should be blessed by the gods to do this"@),
        after == before,
{
}

/// Someone without a team can neither enter nor leave a queue.
pub proof fn law_strangers_have_no_queue(
    config: ConfigView,
    invocation: InvocationView,
    seating: Map<i64, Set<u64>>,
    millis: i64,
    before: Store,
    after: Store,
    answer: Option<Seq<char>>,
)
    requires
        invocation.guild_id == Some(config.guild_id),
        ({
            let command = command_named(invocation.name);
            command is EnqueueMe || command is EnqueueMeFaster || command is UnqueueMe
        }),
        config.user_team(invocation.user_id) is None,
        dialogue(config, invocation.first_turn(config), seating, millis, before, after, answer),
    ensures
        answer == Some("Cannot determine your team. Are you a participant?"@),
        after == before,
{
}

/// `/enqueue_me` adds the user's team to the queue of its table, unless the
/// team is waiting already.
pub proof fn law_enqueue_me(
    config: ConfigView,
    invocation: InvocationView,
    seating: Map<i64, Set<u64>>,
    millis: i64,
    before: Store,
    after: Store,
    answer: Option<Seq<char>>,
    team: i64,
)
    requires
        invocation.guild_id == Some(config.guild_id),
        command_named(invocation.name) is EnqueueMe,
        config.user_team(invocation.user_id) == Some(team),
        dialogue(config, invocation.first_turn(config), seating, millis, before, after, answer),
    ensures
        before.assigned.contains_key(team) ==> after == before && answer == Some(
            "You are already enqueued somewhere!"@,
        ),
        !before.assigned.contains_key(team) ==> {
            &&& after == before.with(default_table(team), team, millis)
            &&& reports_added(config, after, default_table(team), answer)
        },
{
    lemma_enqueue(config, true, team, seating, millis, before, after, answer);
}

/// `/enqueue` does the same for the team of the user who is named.
pub proof fn law_enqueue(
    config: ConfigView,
    invocation: InvocationView,
    seating: Map<i64, Set<u64>>,
    millis: i64,
    before: Store,
    after: Store,
    answer: Option<Seq<char>>,
    user: ResolvedView,
)
    requires
        invocation.guild_id == Some(config.guild_id),
        command_named(invocation.name) is Enqueue,
        config.blessed_users.contains(invocation.user_id),
        invocation.options.len() == 1,
        invocation.options[0].resolved == Some(user),
        dialogue(config, invocation.first_turn(config), seating, millis, before, after, answer),
    ensures
        match user {
            ResolvedView::User { id, .. } => match config.user_team(id) {
                Some(team) => {
                    &&& before.assigned.contains_key(team) ==> after == before && answer == Some(
                        "They are already enqueued somewhere!"@,
                    )
                    &&& !before.assigned.contains_key(team) ==> {
                        &&& after == before.with(default_table(team), team, millis)
                        &&& reports_added(config, after, default_table(team), answer)
                    }
                },
                None => after == before && answer == Some(
                    "Cannot determine the team of the user"@,
                ),
            },
            ResolvedView::Other => after == before && answer == Some(
                "Please provide a valid user"@,
            ),
        },
{
    if let ResolvedView::User { id, .. } = user {
        if let Some(team) = config.user_team(id) {
            lemma_enqueue(config, false, team, seating, millis, before, after, answer);
        }
    }
}

/// Whether `table` has a queue, and no other has a shorter one.
pub open spec fn has_shortest_queue(config: ConfigView, store: Store, table: i64) -> bool {
    &&& config.tables.contains_key(table)
    &&& table != DUMMY_TABLE
    &&& forall|other: i64|
        config.tables.contains_key(other) && other != DUMMY_TABLE ==> store.queue(table).len() <= (
        #[trigger] store.queue(other)).len()
}

/// `/enqueue_me_faster` adds the user's team to a queue that no other is
/// shorter than, unless the team is waiting already.
pub proof fn law_enqueue_me_faster(
    config: ConfigView,
    invocation: InvocationView,
    seating: Map<i64, Set<u64>>,
    millis: i64,
    before: Store,
    after: Store,
    answer: Option<Seq<char>>,
    team: i64,
)
    requires
        invocation.guild_id == Some(config.guild_id),
        command_named(invocation.name) is EnqueueMeFaster,
        config.user_team(invocation.user_id) == Some(team),
        dialogue(config, invocation.first_turn(config), seating, millis, before, after, answer),
    ensures
        before.assigned.contains_key(team) ==> after == before && answer == Some(
            "You are already enqueued somewhere!"@,
        ),
        !before.assigned.contains_key(team) ==> exists|table: i64|
            {
                &&& #[trigger] has_shortest_queue(config, before, table)
                &&& after == before.with(table, team, millis)
                &&& reports_added(config, after, table, answer)
            },
{
    let checking = SessionView::EnqueueingFaster { add: AddToSmallestQueue::Checking { team } };
    let (event, middle, next) = next_event(
        config,
        checking,
        RequestView::Store(StoreCommand::Hexists { team }),
        seating,
        millis,
        before,
        after,
        answer,
    );
    let reply = event->Stored_0;
    let step = choose|step: SmallestStepView| #[trigger]
        (AddToSmallestQueue::Checking { team }).goes_on(config, reply, millis, step) && next
            == after_smallest(step);
    assert(dialogue(config, next, seating, millis, middle, after, answer));
    if !before.assigned.contains_key(team) {
        let tables = step->Count_1;
        assert(lists_queues(config, tables));
        let counting = AddToSmallestQueue::Counting { team };
        assert(next == TurnView::Ask(
            SessionView::EnqueueingFaster { add: counting },
            RequestView::Count(tables),
        ));
        let (event1, middle1, next1) = next_event(
            config,
            SessionView::EnqueueingFaster { add: counting },
            RequestView::Count(tables),
            seating,
            millis,
            before,
            after,
            answer,
        );
        let counts = event1->Counted_0;
        let table = smallest(counts);
        lemma_smallest_is_shortest(config, before, tables, counts);
        let rechecking = SessionView::EnqueueingFaster {
            add: AddToSmallestQueue::Adding { table, add: AddToQueue::Checking { table, team } },
        };
        let (event2, middle2, next2) = next_event(
            config,
            rechecking,
            RequestView::Store(StoreCommand::Hexists { team }),
            seating,
            millis,
            before,
            after,
            answer,
        );
        let assigning = SessionView::EnqueueingFaster {
            add: AddToSmallestQueue::Adding { table, add: AddToQueue::Assigning { table, team } },
        };
        assert(next2 == TurnView::Ask(
            assigning,
            RequestView::Store(StoreCommand::Hset { team, table }),
        ));
        lemma_assigning(config, assigning, seating, millis, before, after, answer, table, team);
    }
}

/// The smallest of the lengths of all queues is that of a shortest queue.
pub proof fn lemma_smallest_is_shortest(
    config: ConfigView,
    store: Store,
    tables: Seq<i64>,
    counts: Seq<(i64, i64)>,
)
    requires
        lists_queues(config, tables),
        counts_queues(store, tables, counts),
        counts.len() > 0,
    ensures
        has_shortest_queue(config, store, smallest(counts)),
{
    lemma_smallest(counts);
    let table = smallest(counts);
    let at = choose|i: int| is_first_smallest(counts, i);
    assert(counts[at].0 == tables[at]);
    assert(tables.to_set().contains(tables[at]));
    assert forall|other: i64|
        config.tables.contains_key(other) && other != DUMMY_TABLE implies store.queue(table).len()
        <= (#[trigger] store.queue(other)).len() by {
        assert(tables.to_set().contains(other));
        let i = choose|i: int| 0 <= i < tables.len() && tables[i] == other;
        assert(counts[i].0 == tables[i]);
    }
}

proof fn lemma_smallest(counts: Seq<(i64, i64)>)
    requires
        counts.len() > 0,
    ensures
        exists|i: int| is_first_smallest(counts, i),
    decreases counts.len(),
{
    let last = counts.len() - 1;
    if counts.len() == 1 {
        assert(is_first_smallest(counts, 0));
    } else {
        let shorter = counts.drop_last();
        lemma_smallest(shorter);
        let best = choose|i: int| is_first_smallest(shorter, i);
        assert(counts[best] == shorter[best]);
        if counts[last].1 < counts[best].1 {
            assert forall|j: int| 0 <= j < counts.len() implies counts[last].1 <= (
            #[trigger] counts[j]).1 by {
                if j < last {
                    assert(shorter[j] == counts[j]);
                }
            }
            assert forall|j: int| 0 <= j < last implies counts[last].1 < (#[trigger] counts[j]).1 by {
                assert(shorter[j] == counts[j]);
            }
            assert(is_first_smallest(counts, last));
        } else {
            assert forall|j: int| 0 <= j < counts.len() implies counts[best].1 <= (
            #[trigger] counts[j]).1 by {
                if j < last {
                    assert(shorter[j] == counts[j]);
                }
            }
            assert forall|j: int| 0 <= j < best implies counts[best].1 < (#[trigger] counts[j]).1 by {
                assert(shorter[j] == counts[j]);
            }
            assert(is_first_smallest(counts, best));
        }
    }
}

/// `/unqueue_me` takes the user's team out of the queue that holds it.
pub proof fn law_unqueue_me(
    config: ConfigView,
    invocation: InvocationView,
    seating: Map<i64, Set<u64>>,
    millis: i64,
    before: Store,
    after: Store,
    answer: Option<Seq<char>>,
    team: i64,
)
    requires
        invocation.guild_id == Some(config.guild_id),
        command_named(invocation.name) is UnqueueMe,
        config.user_team(invocation.user_id) == Some(team),
        dialogue(config, invocation.first_turn(config), seating, millis, before, after, answer),
    ensures
        !before.assigned.contains_key(team) ==> after == before && answer == Some(
            "You don't seem to be enqueued!"@,
        ),
        before.assigned.contains_key(team) ==> {
            let table = before.assigned[team];
            &&& after == before.without(table, team)
            &&& answer == Some("Successfully unqueued from table "@ + decimal(table as int))
        },
{
    let (event, middle, next) = next_event(
        config,
        SessionView::Unqueueing { op: Unqueue::Looking { team } },
        RequestView::Store(StoreCommand::Hget { team }),
        seating,
        millis,
        before,
        after,
        answer,
    );
    assert(dialogue(config, next, seating, millis, middle, after, answer));
    if before.assigned.contains_key(team) {
        let table = before.assigned[team];
        let (event1, middle1, next1) = next_event(
            config,
            SessionView::Unqueueing { op: Unqueue::Removing { team, table } },
            RequestView::Store(StoreCommand::Zrem { table, team }),
            seating,
            millis,
            before,
            after,
            answer,
        );
        let (event2, middle2, next2) = next_event(
            config,
            SessionView::Unqueueing { op: Unqueue::Forgetting { table } },
            RequestView::Store(StoreCommand::Hdel { team }),
            seating,
            millis,
            middle1,
            after,
            answer,
        );
        assert(dialogue(config, next2, seating, millis, middle2, after, answer));
        assert(after =~= before.without(table, team));
    }
}

/// `/queue` lists the queues of both tables and changes nothing.
pub proof fn law_queue(
    config: ConfigView,
    invocation: InvocationView,
    seating: Map<i64, Set<u64>>,
    millis: i64,
    before: Store,
    after: Store,
    answer: Option<Seq<char>>,
)
    requires
        invocation.guild_id == Some(config.guild_id),
        command_named(invocation.name) is Queue,
        dialogue(config, invocation.first_turn(config), seating, millis, before, after, answer),
    ensures
        after == before,
        exists|first: Seq<i64>, second: Seq<i64>|
            {
                &&& #[trigger] before.lists(1, first)
                &&& #[trigger] before.lists(2, second)
                &&& answer == Some(
                    "Table 1:\n"@ + queue_text(config, first) + "\n\nTable 2:\n"@ + queue_text(
                        config,
                        second,
                    ),
                )
            },
{
    let (event, middle, next) = next_event(
        config,
        SessionView::FirstQueue,
        RequestView::Store(StoreCommand::Zrange { table: 1 }),
        seating,
        millis,
        before,
        after,
        answer,
    );
    let first = event->Stored_0->Teams_0;
    let (event1, middle1, next1) = next_event(
        config,
        SessionView::SecondQueue { first },
        RequestView::Store(StoreCommand::Zrange { table: 2 }),
        seating,
        millis,
        before,
        after,
        answer,
    );
    let second = event1->Stored_0->Teams_0;
    assert(dialogue(config, next1, seating, millis, middle1, after, answer));
    assert(before.lists(1, first));
    assert(before.lists(2, second));
}

/// Whether `answer` reports how bringing a team to a table went: its moves were
/// planned for the seating at hand, and each was tried once.
pub open spec fn reports_join(
    config: ConfigView,
    seating: Map<i64, Set<u64>>,
    cause: Cause,
    team: i64,
    table: i64,
    answer: Option<Seq<char>>,
) -> bool {
    exists|attempts: Seq<Attempt>| #[trigger]
        carries_out(config, seating, cause, team, table, attempts, answer)
}

/// How the attempts went.
pub open spec fn outcomes(attempts: Seq<Attempt>) -> Seq<bool> {
    attempts.map_values(|attempt: Attempt| attempt.moved)
}

/// Whether the attempts are exactly the moves of `plan`, in their order.
pub open spec fn follows(attempts: Seq<Attempt>, plan: TableJoinView) -> bool {
    &&& attempts.len() == plan.moves.len()
    &&& forall|i: int|
        0 <= i < attempts.len() ==> (#[trigger] attempts[i]).user == plan.moves[i].user
            && attempts[i].channel == plan.moves[i].channel
}

/// Whether the attempts are exactly the moves that were planned to bring a team
/// to a table for the seating at hand, in their order, and `answer` reports how
/// they went.
pub open spec fn carries_out(
    config: ConfigView,
    seating: Map<i64, Set<u64>>,
    cause: Cause,
    team: i64,
    table: i64,
    attempts: Seq<Attempt>,
    answer: Option<Seq<char>>,
) -> bool {
    exists|plan: TableJoinView|
        {
            &&& #[trigger] planned(config, seating, team, table, plan)
            &&& follows(attempts, plan)
            &&& answer == Some(
                join_text(cause, team, table, after_outcomes(plan, outcomes(attempts))),
            )
        }
}

/// What is left to do of a plan once the first moves have been tried.
proof fn lemma_moving(
    config: ConfigView,
    cause: Cause,
    team: i64,
    table: i64,
    plan: TableJoinView,
    all: Seq<Attempt>,
    done: int,
    seating: Map<i64, Set<u64>>,
    millis: i64,
    before: Store,
    after: Store,
    answer: Option<Seq<char>>,
)
    requires
        plan.done == 0,
        0 <= done <= all.len(),
        done <= plan.moves.len(),
        forall|i: int|
            0 <= i < done ==> (#[trigger] all[i]).user == plan.moves[i].user && all[i].channel
                == plan.moves[i].channel,
        after_outcomes(plan, outcomes(all.take(done))).moves == plan.moves,
        after_outcomes(plan, outcomes(all.take(done))).done == done,
        moving_dialogue(
            config,
            after_move(cause, team, table, after_outcomes(plan, outcomes(all.take(done)))),
            seating,
            millis,
            before,
            after,
            answer,
            all.skip(done),
        ),
    ensures
        after == before,
        follows(all, plan),
        answer == Some(join_text(cause, team, table, after_outcomes(plan, outcomes(all)))),
    decreases plan.moves.len() - done,
{
    let join = after_outcomes(plan, outcomes(all.take(done)));
    if done == plan.moves.len() {
        assert(all.skip(done).len() == 0);
        assert(all.take(done) =~= all);
    } else {
        let relocation = join.next_move()->0;
        let request = RequestView::Move { user: relocation.user, channel: relocation.channel };
        let (event, middle, next) = next_exchange(
            config,
            SessionView::Moving { cause, team, table, join },
            request,
            seating,
            millis,
            before,
            after,
            answer,
            all.skip(done),
        );
        let moved = event->Moved_0;
        assert(attempted(request, event).len() == 1);
        assert(all.skip(done)[0] == attempted(request, event)[0]);
        assert(all[done] == all.skip(done)[0]);
        assert(all.skip(done).skip(1) =~= all.skip(done + 1));
        let more = outcomes(all.take(done + 1));
        assert(more.drop_last() =~= outcomes(all.take(done)));
        assert(after_outcomes(plan, more) == join.record(moved));
        lemma_moving(
            config,
            cause,
            team,
            table,
            plan,
            all,
            done + 1,
            seating,
            millis,
            before,
            after,
            answer,
        );
    }
}

proof fn lemma_joining(
    config: ConfigView,
    cause: Cause,
    team: i64,
    table: i64,
    seating: Map<i64, Set<u64>>,
    millis: i64,
    before: Store,
    after: Store,
    answer: Option<Seq<char>>,
    attempts: Seq<Attempt>,
)
    requires
        moving_dialogue(
            config,
            TurnView::Ask(SessionView::Joining { cause, team, table }, RequestView::Voice),
            seating,
            millis,
            before,
            after,
            answer,
            attempts,
        ),
    ensures
        after == before,
        carries_out(config, seating, cause, team, table, attempts, answer),
{
    let (event, middle, next) = next_exchange(
        config,
        SessionView::Joining { cause, team, table },
        RequestView::Voice,
        seating,
        millis,
        before,
        after,
        answer,
        attempts,
    );
    let plan = choose|join: TableJoinView| #[trigger]
        planned(config, seating, team, table, join) && next == after_move(
            cause,
            team,
            table,
            join,
        );
    assert(outcomes(attempts.take(0)) =~= Seq::<bool>::empty());
    assert(after_outcomes(plan, Seq::<bool>::empty()) == plan);
    lemma_moving(
        config,
        cause,
        team,
        table,
        plan,
        attempts,
        0,
        seating,
        millis,
        before,
        after,
        answer,
    );
    assert(planned(config, seating, team, table, plan));
}

/// What a dialogue that brings a team to a table reports, whoever is moved.
proof fn lemma_join_reported(
    config: ConfigView,
    cause: Cause,
    team: i64,
    table: i64,
    seating: Map<i64, Set<u64>>,
    millis: i64,
    before: Store,
    after: Store,
    answer: Option<Seq<char>>,
)
    requires
        dialogue(
            config,
            TurnView::Ask(SessionView::Joining { cause, team, table }, RequestView::Voice),
            seating,
            millis,
            before,
            after,
            answer,
        ),
    ensures
        after == before,
        reports_join(config, seating, cause, team, table, answer),
{
    let attempts = choose|attempts: Seq<Attempt>| #[trigger]
        moving_dialogue(
            config,
            TurnView::Ask(SessionView::Joining { cause, team, table }, RequestView::Voice),
            seating,
            millis,
            before,
            after,
            answer,
            attempts,
        );
    lemma_joining(
        config,
        cause,
        team,
        table,
        seating,
        millis,
        before,
        after,
        answer,
        attempts,
    );
}

/// `/tjoin` brings the given team to the given table and reports how it went;
/// the queues stay as they are.
pub proof fn law_tjoin(
    config: ConfigView,
    invocation: InvocationView,
    seating: Map<i64, Set<u64>>,
    millis: i64,
    before: Store,
    after: Store,
    answer: Option<Seq<char>>,
)
    requires
        invocation.guild_id == Some(config.guild_id),
        command_named(invocation.name) is Tjoin,
        config.blessed_users.contains(invocation.user_id),
        invocation.well_formed(config),
        dialogue(config, invocation.first_turn(config), seating, millis, before, after, answer),
    ensures
        after == before,
        reports_join(
            config,
            seating,
            Cause::Join,
            invocation.options[1].value->0,
            invocation.options[0].value->0,
            answer,
        ),
{
    lemma_join_reported(
        config,
        Cause::Join,
        invocation.options[1].value->0,
        invocation.options[0].value->0,
        seating,
        millis,
        before,
        after,
        answer,
    );
}

/// `/tkick` brings the empty team to the given table.
pub proof fn law_tkick(
    config: ConfigView,
    invocation: InvocationView,
    seating: Map<i64, Set<u64>>,
    millis: i64,
    before: Store,
    after: Store,
    answer: Option<Seq<char>>,
)
    requires
        invocation.guild_id == Some(config.guild_id),
        command_named(invocation.name) is Tkick,
        config.blessed_users.contains(invocation.user_id),
        invocation.well_formed(config),
        dialogue(config, invocation.first_turn(config), seating, millis, before, after, answer),
    ensures
        after == before,
        reports_join(
            config,
            seating,
            Cause::Kick,
            DUMMY_TEAM,
            invocation.options[0].value->0,
            answer,
        ),
{
    lemma_join_reported(
        config,
        Cause::Kick,
        DUMMY_TEAM,
        invocation.options[0].value->0,
        seating,
        millis,
        before,
        after,
        answer,
    );
}

/// `/dequeue` and `/dequeue_nojoin` take the team that stands first out of the
/// queue of the given table; the former also brings it there.
pub proof fn law_dequeue(
    config: ConfigView,
    invocation: InvocationView,
    seating: Map<i64, Set<u64>>,
    millis: i64,
    before: Store,
    after: Store,
    answer: Option<Seq<char>>,
)
    requires
        invocation.guild_id == Some(config.guild_id),
        command_named(invocation.name) is Dequeue || command_named(
            invocation.name,
        ) is DequeueNojoin,
        config.blessed_users.contains(invocation.user_id),
        invocation.well_formed(config),
        dialogue(config, invocation.first_turn(config), seating, millis, before, after, answer),
    ensures
        ({
            let table = invocation.options[0].value->0;
            ||| {
                &&& forall|team: i64| !before.waits(table, team)
                &&& after == before
                &&& answer == Some(
                    "The queue for table "@ + decimal(table as int) + " is empty"@,
                )
            }
            ||| exists|team: i64|
                {
                    &&& #[trigger] before.is_first(table, team)
                    &&& after == before.without(table, team)
                    &&& if command_named(invocation.name) is Dequeue {
                        reports_join(config, seating, Cause::Dequeue, team, table, answer)
                    } else {
                        answer == Some(
                            "Deqeued team "@ + decimal(team as int) + " -> /dev/null"@,
                        )
                    }
                }
        }),
{
    let table = invocation.options[0].value->0;
    let join = command_named(invocation.name) is Dequeue;
    let (event, middle, next) = next_event(
        config,
        SessionView::Dequeueing { table, join, op: Dequeue::Popping },
        RequestView::Store(StoreCommand::Zpopmin { table }),
        seating,
        millis,
        before,
        after,
        answer,
    );
    let popped = event->Stored_0->Popped_0;
    assert(dialogue(config, next, seating, millis, middle, after, answer));
    if let Some(team) = popped.team() {
        let (event1, middle1, next1) = next_event(
            config,
            SessionView::Dequeueing { table, join, op: Dequeue::Forgetting { team } },
            RequestView::Store(StoreCommand::Hdel { team }),
            seating,
            millis,
            middle,
            after,
            answer,
        );
        assert(dialogue(config, next1, seating, millis, middle1, after, answer));
        assert(middle1 =~= before.without(table, team));
        if join {
            lemma_join_reported(
                config,
                Cause::Dequeue,
                team,
                table,
                seating,
                millis,
                middle1,
                after,
                answer,
            );
        }
        assert(before.is_first(table, team));
    }
}

/// Whether nobody is moved in what is left of a dialogue.
spec fn moves_nobody(turn: TurnView) -> bool {
    match turn {
        TurnView::Ask(session, request) => request !is Move && match session {
            SessionView::Joining { .. } => false,
            SessionView::Moving { .. } => false,
            SessionView::Dequeueing { join, .. } => !join,
            _ => true,
        },
        _ => true,
    }
}

proof fn lemma_nobody_is_moved(
    config: ConfigView,
    turn: TurnView,
    seating: Map<i64, Set<u64>>,
    millis: i64,
    before: Store,
    after: Store,
    answer: Option<Seq<char>>,
    attempts: Seq<Attempt>,
)
    requires
        moves_nobody(turn),
        moving_dialogue(config, turn, seating, millis, before, after, answer, attempts),
    ensures
        attempts.len() == 0,
    decreases phase(turn), moves_left(turn),
{
    if let TurnView::Ask(session, request) = turn {
        let (event, middle, next) = next_exchange(
            config,
            session,
            request,
            seating,
            millis,
            before,
            after,
            answer,
            attempts,
        );
        law_dialogues_progress(config, session, request, event, millis, next);
        assert(attempts.skip(0) =~= attempts);
        lemma_nobody_is_moved(config, next, seating, millis, middle, after, answer, attempts);
    }
}

/// The moves that a command makes, from its first turn to its answer, are
/// exactly those of the plan, in their order: `/tjoin` makes those that bring
/// the given team to the given table, `/tkick` those that bring the empty team
/// there, and `/dequeue` those that bring the first team of the queue there.
/// No other command moves anyone, nor does one that is refused or ignored.
pub proof fn law_moves_follow_the_plan(
    config: ConfigView,
    invocation: InvocationView,
    seating: Map<i64, Set<u64>>,
    millis: i64,
    before: Store,
    after: Store,
    answer: Option<Seq<char>>,
    attempts: Seq<Attempt>,
)
    requires
        invocation.well_formed(config),
        moving_dialogue(
            config,
            invocation.first_turn(config),
            seating,
            millis,
            before,
            after,
            answer,
            attempts,
        ),
    ensures
        ({
            let table = invocation.options[0].value->0;
            let runs = invocation.guild_id == Some(config.guild_id)
                && config.blessed_users.contains(invocation.user_id);
            match command_named(invocation.name) {
                Command::Tjoin if runs => carries_out(
                    config,
                    seating,
                    Cause::Join,
                    invocation.options[1].value->0,
                    table,
                    attempts,
                    answer,
                ),
                Command::Tkick if runs => carries_out(
                    config,
                    seating,
                    Cause::Kick,
                    DUMMY_TEAM,
                    table,
                    attempts,
                    answer,
                ),
                Command::Dequeue if runs => {
                    ||| attempts.len() == 0 && forall|team: i64| !before.waits(table, team)
                    ||| exists|team: i64| #[trigger]
                        before.is_first(table, team) && carries_out(
                            config,
                            seating,
                            Cause::Dequeue,
                            team,
                            table,
                            attempts,
                            answer,
                        )
                },
                _ => attempts.len() == 0,
            }
        }),
{
    let turn = invocation.first_turn(config);
    let table = invocation.options[0].value->0;
    let runs = invocation.guild_id == Some(config.guild_id) && config.blessed_users.contains(
        invocation.user_id,
    );
    let command = command_named(invocation.name);
    if runs && command is Tjoin {
        lemma_joining(
            config,
            Cause::Join,
            invocation.options[1].value->0,
            table,
            seating,
            millis,
            before,
            after,
            answer,
            attempts,
        );
    } else if runs && command is Tkick {
        lemma_joining(
            config,
            Cause::Kick,
            DUMMY_TEAM,
            table,
            seating,
            millis,
            before,
            after,
            answer,
            attempts,
        );
    } else if runs && command is Dequeue {
        let (event, middle, next) = next_exchange(
            config,
            SessionView::Dequeueing { table, join: true, op: Dequeue::Popping },
            RequestView::Store(StoreCommand::Zpopmin { table }),
            seating,
            millis,
            before,
            after,
            answer,
            attempts,
        );
        assert(attempts.skip(0) =~= attempts);
        let popped = event->Stored_0->Popped_0;
        if let Some(team) = popped.team() {
            let (event1, middle1, next1) = next_exchange(
                config,
                SessionView::Dequeueing { table, join: true, op: Dequeue::Forgetting { team } },
                RequestView::Store(StoreCommand::Hdel { team }),
                seating,
                millis,
                middle,
                after,
                answer,
                attempts,
            );
            lemma_joining(
                config,
                Cause::Dequeue,
                team,
                table,
                seating,
                millis,
                middle1,
                after,
                answer,
                attempts,
            );
            assert(before.is_first(table, team));
        } else {
            assert(next is Reply);
            assert(moving_dialogue(config, next, seating, millis, middle, after, answer, attempts));
        }
    } else {
        lemma_nobody_is_moved(
            config,
            turn,
            seating,
            millis,
            before,
            after,
            answer,
            attempts,
        );
    }
}

/// Adding a team that does not wait keeps every team in exactly one queue.
pub proof fn law_adding_keeps_consistency(store: Store, table: i64, team: i64, millis: i64)
    requires
        store.consistent(),
        !store.assigned.contains_key(team),
    ensures
        store.with(table, team, millis).consistent(),
{
    let after = store.with(table, team, millis);
    assert forall|t: i64, other: i64| #[trigger]
        after.waits(t, other) <==> after.assigned.contains_key(other) && after.assigned[other]
            == t by {
        assert(store.waits(t, other) <==> store.assigned.contains_key(other)
            && store.assigned[other] == t);
        assert(!store.waits(table, team));
    }
}

/// Taking a team out of its queue keeps every other in exactly one.
pub proof fn law_removing_keeps_consistency(store: Store, table: i64, team: i64)
    requires
        store.consistent(),
        store.waits(table, team),
    ensures
        store.without(table, team).consistent(),
{
    let after = store.without(table, team);
    assert forall|t: i64, other: i64| #[trigger]
        after.waits(t, other) <==> after.assigned.contains_key(other) && after.assigned[other]
            == t by {
        assert(store.waits(t, other) <==> store.assigned.contains_key(other)
            && store.assigned[other] == t);
        assert(store.waits(table, team));
    }
}

/// Whatever command is given, each waiting team stays in exactly one queue.
pub proof fn law_commands_keep_consistency(
    config: ConfigView,
    invocation: InvocationView,
    seating: Map<i64, Set<u64>>,
    millis: i64,
    before: Store,
    after: Store,
    answer: Option<Seq<char>>,
)
    requires
        before.consistent(),
        invocation.well_formed(config),
        dialogue(config, invocation.first_turn(config), seating, millis, before, after, answer),
    ensures
        after.consistent(),
{
    let command = command_named(invocation.name);
    let ours = invocation.guild_id == Some(config.guild_id);
    let allowed = !command.privileged() || config.blessed_users.contains(invocation.user_id);
    if ours && allowed {
        let own = config.user_team(invocation.user_id);
        match command {
            Command::Tjoin => {
                law_tjoin(config, invocation, seating, millis, before, after, answer);
            },
            Command::Tkick => {
                law_tkick(config, invocation, seating, millis, before, after, answer);
            },
            Command::Queue => {
                law_queue(config, invocation, seating, millis, before, after, answer);
            },
            Command::Enqueue => {
                let user = invocation.options[0].resolved->0;
                law_enqueue(config, invocation, seating, millis, before, after, answer, user);
                if let ResolvedView::User { id, .. } = user {
                    if let Some(team) = config.user_team(id) {
                        if !before.assigned.contains_key(team) {
                            law_adding_keeps_consistency(
                                before,
                                default_table(team),
                                team,
                                millis,
                            );
                        }
                    }
                }
            },
            Command::EnqueueMe => {
                if let Some(team) = own {
                    law_enqueue_me(
                        config,
                        invocation,
                        seating,
                        millis,
                        before,
                        after,
                        answer,
                        team,
                    );
                    if !before.assigned.contains_key(team) {
                        law_adding_keeps_consistency(before, default_table(team), team, millis);
                    }
                }
            },
            Command::EnqueueMeFaster => {
                if let Some(team) = own {
                    law_enqueue_me_faster(
                        config,
                        invocation,
                        seating,
                        millis,
                        before,
                        after,
                        answer,
                        team,
                    );
                    if !before.assigned.contains_key(team) {
                        let table = choose|table: i64| #[trigger]
                            has_shortest_queue(config, before, table) && after == before.with(
                                table,
                                team,
                                millis,
                            );
                        law_adding_keeps_consistency(before, table, team, millis);
                    }
                }
            },
            Command::UnqueueMe => {
                if let Some(team) = own {
                    law_unqueue_me(
                        config,
                        invocation,
                        seating,
                        millis,
                        before,
                        after,
                        answer,
                        team,
                    );
                    if before.assigned.contains_key(team) {
                        let table = before.assigned[team];
                        assert(before.waits(table, team));
                        law_removing_keeps_consistency(before, table, team);
                    }
                }
            },
            Command::Dequeue | Command::DequeueNojoin => {
                law_dequeue(config, invocation, seating, millis, before, after, answer);
                if after != before {
                    let table = invocation.options[0].value->0;
                    let team = choose|team: i64| #[trigger]
                        before.is_first(table, team) && after == before.without(table, team);
                    law_removing_keeps_consistency(before, table, team);
                }
            },
            _ => {},
        }
    }
}

/// Whether a command asks for `team` to be enqueued: a member asks for it, or a
/// blessed user names a member.
pub open spec fn enqueues(config: ConfigView, invocation: InvocationView, team: i64) -> bool {
    &&& invocation.guild_id == Some(config.guild_id)
    &&& match command_named(invocation.name) {
        Command::EnqueueMe | Command::EnqueueMeFaster => config.user_team(invocation.user_id)
            == Some(team),
        Command::Enqueue => {
            &&& config.blessed_users.contains(invocation.user_id)
            &&& invocation.options.len() == 1
            &&& invocation.options[0].resolved matches Some(ResolvedView::User { id, .. })
            &&& config.user_team(id) == Some(team)
        },
        _ => false,
    }
}

/// Whether `table` is one to whose queue the command adds `team`: that of the
/// team or, for `/enqueue_me_faster`, one that no other has a shorter queue than.
pub open spec fn may_choose(
    config: ConfigView,
    invocation: InvocationView,
    store: Store,
    team: i64,
    table: i64,
) -> bool {
    if command_named(invocation.name) is EnqueueMeFaster {
        has_shortest_queue(config, store, table)
    } else {
        table == default_table(team)
    }
}

/// The answer to a command that asks for a team to be enqueued that waits
/// already.
pub open spec fn already_enqueued(invocation: InvocationView) -> Seq<char> {
    if command_named(invocation.name) is Enqueue {
        "They are already enqueued somewhere!"@
    } else {
        "You are already enqueued somewhere!"@
    }
}

/// Every command that asks for a team to be enqueued adds it to the queue of one
/// table and lists that queue, or is refused because the team waits already.
pub proof fn law_enqueueing(
    config: ConfigView,
    invocation: InvocationView,
    seating: Map<i64, Set<u64>>,
    millis: i64,
    before: Store,
    after: Store,
    answer: Option<Seq<char>>,
    team: i64,
)
    requires
        enqueues(config, invocation, team),
        dialogue(config, invocation.first_turn(config), seating, millis, before, after, answer),
    ensures
        before.assigned.contains_key(team) ==> after == before && answer == Some(
            already_enqueued(invocation),
        ),
        !before.assigned.contains_key(team) ==> exists|table: i64|
            {
                &&& #[trigger] may_choose(config, invocation, before, team, table)
                &&& after == before.with(table, team, millis)
                &&& reports_added(config, after, table, answer)
            },
{
    let command = command_named(invocation.name);
    if command is EnqueueMe {
        law_enqueue_me(config, invocation, seating, millis, before, after, answer, team);
        assert(may_choose(config, invocation, before, team, default_table(team)));
    } else if command is Enqueue {
        let user = invocation.options[0].resolved->0;
        law_enqueue(config, invocation, seating, millis, before, after, answer, user);
        assert(may_choose(config, invocation, before, team, default_table(team)));
    } else {
        law_enqueue_me_faster(config, invocation, seating, millis, before, after, answer, team);
        if !before.assigned.contains_key(team) {
            let table = choose|table: i64|
                {
                    &&& #[trigger] has_shortest_queue(config, before, table)
                    &&& after == before.with(table, team, millis)
                    &&& reports_added(config, after, table, answer)
                };
            assert(may_choose(config, invocation, before, team, table));
        }
    }
}

/// `/unqueue_me` undoes every way of enqueueing: after a team that did not wait
/// was enqueued, by one of its own or by someone blessed, and one of its own
/// unqueued it, the store is what it was.
pub proof fn law_unqueue_undoes_enqueue(
    config: ConfigView,
    enqueue: InvocationView,
    unqueue: InvocationView,
    seating: Map<i64, Set<u64>>,
    added_at: i64,
    removed_at: i64,
    before: Store,
    between: Store,
    after: Store,
    first_answer: Option<Seq<char>>,
    second_answer: Option<Seq<char>>,
    team: i64,
)
    requires
        before.consistent(),
        !before.assigned.contains_key(team),
        enqueues(config, enqueue, team),
        unqueue.guild_id == Some(config.guild_id),
        command_named(unqueue.name) is UnqueueMe,
        config.user_team(unqueue.user_id) == Some(team),
        dialogue(
            config,
            enqueue.first_turn(config),
            seating,
            added_at,
            before,
            between,
            first_answer,
        ),
        dialogue(
            config,
            unqueue.first_turn(config),
            seating,
            removed_at,
            between,
            after,
            second_answer,
        ),
    ensures
        after == before,
        exists|table: i64| #[trigger]
            may_choose(config, enqueue, before, team, table) && second_answer == Some(
                "Successfully unqueued from table "@ + decimal(table as int),
            ),
{
    law_enqueueing(config, enqueue, seating, added_at, before, between, first_answer, team);
    law_unqueue_me(config, unqueue, seating, removed_at, between, after, second_answer, team);
    let table = choose|table: i64|
        {
            &&& #[trigger] may_choose(config, enqueue, before, team, table)
            &&& between == before.with(table, team, added_at)
            &&& reports_added(config, between, table, first_answer)
        };
    assert(!before.waits(table, team));
    assert(after =~= before);
}

/// A team cannot be enqueued twice: once it waits, every command that asks for
/// it to be enqueued is refused and changes nothing.
pub proof fn law_no_team_waits_twice(
    config: ConfigView,
    first: InvocationView,
    second: InvocationView,
    seating: Map<i64, Set<u64>>,
    added_at: i64,
    again_at: i64,
    before: Store,
    between: Store,
    after: Store,
    first_answer: Option<Seq<char>>,
    second_answer: Option<Seq<char>>,
    team: i64,
)
    requires
        enqueues(config, first, team),
        enqueues(config, second, team),
        dialogue(
            config,
            first.first_turn(config),
            seating,
            added_at,
            before,
            between,
            first_answer,
        ),
        dialogue(
            config,
            second.first_turn(config),
            seating,
            again_at,
            between,
            after,
            second_answer,
        ),
    ensures
        after == between,
        second_answer == Some(already_enqueued(second)),
{
    law_enqueueing(config, first, seating, added_at, before, between, first_answer, team);
    assert(between.assigned.contains_key(team));
    law_enqueueing(config, second, seating, again_at, between, after, second_answer, team);
}

/// First come, first served: a team that is added later than all who wait at a
/// table is not taken out of the queue before them, and stands last where the
/// queue is listed.
pub proof fn law_first_come_first_served(
    store: Store,
    table: i64,
    team: i64,
    millis: i64,
    listing: Seq<i64>,
)
    requires
        store.consistent(),
        !store.assigned.contains_key(team),
        forall|other: i64| #[trigger]
            store.waits(table, other) ==> store.waiting[(table, other)] < millis,
        store.with(table, team, millis).lists(table, listing),
    ensures
        forall|other: i64| #[trigger]
            store.waits(table, other) ==> !store.with(table, team, millis).is_first(table, team),
        listing.contains(team) ==> listing.last() == team,
        listing.len() <= LAST_SHOWN ==> listing.contains(team),
{
    let after = store.with(table, team, millis);
    assert(!store.waits(table, team));
    assert(after.waits(table, team));
    assert(after.waiting[(table, team)] == millis);
    assert forall|other: i64| #[trigger] store.waits(table, other) implies !after.is_first(
        table,
        team,
    ) by {
        assert(after.waits(table, other));
    }
    if listing.contains(team) {
        let i = choose|i: int| 0 <= i < listing.len() && listing[i] == team;
        let last = listing.len() - 1;
        assert(after.waits(table, listing[last]));
        if listing[last] != team {
            assert(store.waits(table, listing[last]));
            assert(after.waiting[(table, listing[i])] <= after.waiting[(table, listing[last])]);
        }
    }
}

} // verus!
