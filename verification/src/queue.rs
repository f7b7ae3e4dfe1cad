//! The operations on the queues.  Each is a dialogue with the store: it asks
//! one command at a time and goes on with the reply.

use vstd::prelude::*;
use vstd::string::*;

use crate::config::{Config, ConfigView, DUMMY_TABLE};
use crate::store::{exact_score, PopReply, PopReplyView, StoreCommand};
use crate::text::{append_i64, decimal};
use crate::walk::{lemma_filter_lists, lemma_filter_step, lists, map_keys};

verus! {

/// The reply of the store to a command.
#[derive(Debug)]
pub enum StoreReply {
    Flag(bool),
    Done,
    Table(Option<i64>),
    Popped(PopReply),
    Teams(Vec<i64>),
}

/// The mathematical content of a [`StoreReply`].
pub enum StoreReplyView {
    Flag(bool),
    Done,
    Table(Option<i64>),
    Popped(PopReplyView),
    Teams(Seq<i64>),
}

impl View for StoreReply {
    type V = StoreReplyView;

    open spec fn view(&self) -> StoreReplyView {
        match self {
            StoreReply::Flag(flag) => StoreReplyView::Flag(*flag),
            StoreReply::Done => StoreReplyView::Done,
            StoreReply::Table(table) => StoreReplyView::Table(*table),
            StoreReply::Popped(reply) => StoreReplyView::Popped(reply@),
            StoreReply::Teams(teams) => StoreReplyView::Teams(teams@),
        }
    }
}

/// Where an operation stands: it waits for the reply to a command, or has
/// ended with a result.
#[derive(Debug)]
pub enum Step<S, R> {
    Ask(S, StoreCommand),
    Done(R),
}

/// Adding a team to the queue of a table.  The result tells whether it was
/// added; a team that waits anywhere already is not.
#[derive(Clone, Copy, Debug, PartialEq, Eq, Structural)]
pub enum AddToQueue {
    Checking { table: i64, team: i64 },
    Assigning { table: i64, team: i64 },
    Adding,
}

/// The first step of adding a team to the queue of a table.
pub open spec fn add_start(table: i64, team: i64) -> Step<AddToQueue, bool> {
    Step::Ask(AddToQueue::Checking { table, team }, StoreCommand::Hexists { team })
}

impl AddToQueue {
    /// Whether `reply` is of the kind that is waited for.
    pub open spec fn accepts(self, reply: StoreReplyView) -> bool {
        match self {
            AddToQueue::Checking { .. } => reply is Flag,
            AddToQueue::Assigning { .. } => reply is Done,
            AddToQueue::Adding => reply is Done,
        }
    }

    /// What follows on `reply`, received at the time `millis`.
    pub open spec fn next(self, reply: StoreReplyView, millis: i64) -> Step<AddToQueue, bool> {
        match self {
            AddToQueue::Checking { table, team } => if reply->Flag_0 {
                Step::Done(false)
            } else {
                Step::Ask(
                    AddToQueue::Assigning { table, team },
                    StoreCommand::Hset { team, table },
                )
            },
            AddToQueue::Assigning { table, team } => Step::Ask(
                AddToQueue::Adding,
                StoreCommand::Zadd { table, team, millis },
            ),
            AddToQueue::Adding => Step::Done(true),
        }
    }

    /// Whether `reply` is of the kind that is waited for.
    pub fn can_resume(&self, reply: &StoreReply) -> (can: bool)
        ensures
            can == self.accepts(reply@),
    {
        match (self, reply) {
            (AddToQueue::Checking { .. }, StoreReply::Flag(_)) => true,
            (AddToQueue::Assigning { .. }, StoreReply::Done) => true,
            (AddToQueue::Adding, StoreReply::Done) => true,
            _ => false,
        }
    }

    /// Goes on with `reply`, received at the time `millis`, in milliseconds
    /// since the epoch.
    pub fn resume(self, reply: &StoreReply, millis: i64) -> (step: Step<AddToQueue, bool>)
        requires
            self.accepts(reply@),
        ensures
            step == self.next(reply@, millis),
    {
        match self {
            AddToQueue::Checking { table, team } => {
                let taken = match reply {
                    StoreReply::Flag(flag) => *flag,
                    _ => true,
                };
                if taken {
                    Step::Done(false)
                } else {
                    Step::Ask(
                        AddToQueue::Assigning { table, team },
                        StoreCommand::Hset { team, table },
                    )
                }
            },
            AddToQueue::Assigning { table, team } => Step::Ask(
                AddToQueue::Adding,
                StoreCommand::Zadd { table, team, millis },
            ),
            AddToQueue::Adding => Step::Done(true),
        }
    }
}

/// Starts adding `team_id` to the queue of `table_id`.
pub fn add_to_queue(table_id: i64, team_id: i64) -> (step: Step<AddToQueue, bool>)
    ensures
        step == add_start(table_id, team_id),
{
    Step::Ask(
        AddToQueue::Checking { table: table_id, team: team_id },
        StoreCommand::Hexists { team: team_id },
    )
}

/// Adding a team to the shortest queue.  The result is the table of that
/// queue; there is none for a team that waits anywhere already.
#[derive(Clone, Copy, Debug, PartialEq, Eq, Structural)]
pub enum AddToSmallestQueue {
    Checking { team: i64 },
    Counting { team: i64 },
    Adding { table: i64, add: AddToQueue },
}

/// Where [`AddToSmallestQueue`] stands.
#[derive(Debug)]
pub enum SmallestStep {
    Ask(AddToSmallestQueue, StoreCommand),
    /// It waits for the lengths of the queues of these tables.
    Count(AddToSmallestQueue, Vec<i64>),
    Done(Option<i64>),
}

/// The mathematical content of a [`SmallestStep`].
pub enum SmallestStepView {
    Ask(AddToSmallestQueue, StoreCommand),
    Count(AddToSmallestQueue, Seq<i64>),
    Done(Option<i64>),
}

impl View for SmallestStep {
    type V = SmallestStepView;

    open spec fn view(&self) -> SmallestStepView {
        match self {
            SmallestStep::Ask(state, command) => SmallestStepView::Ask(*state, *command),
            SmallestStep::Count(state, tables) => SmallestStepView::Count(*state, tables@),
            SmallestStep::Done(table) => SmallestStepView::Done(*table),
        }
    }
}

/// Whether `tables` lists the tables that have a queue, each once.
pub open spec fn lists_queues(config: ConfigView, tables: Seq<i64>) -> bool {
    lists(tables, config.tables.dom().remove(DUMMY_TABLE))
}

/// Whether the entry at `i` is the first among those with the lowest count.
pub open spec fn is_first_smallest(counts: Seq<(i64, i64)>, i: int) -> bool {
    &&& 0 <= i < counts.len()
    &&& forall|j: int| 0 <= j < counts.len() ==> counts[i].1 <= (#[trigger] counts[j]).1
    &&& forall|j: int| 0 <= j < i ==> counts[i].1 < (#[trigger] counts[j]).1
}

/// The table of the first entry with the lowest count.
pub open spec fn smallest(counts: Seq<(i64, i64)>) -> i64 {
    counts[choose|i: int| is_first_smallest(counts, i)].0
}

/// The table with the lowest count; the first of them, where there are
/// several.
pub fn smallest_queue(counts: &Vec<(i64, i64)>) -> (table: i64)
    requires
        counts@.len() > 0,
    ensures
        exists|i: int| is_first_smallest(counts@, i) && table == (#[trigger] counts@[i]).0,
        table == smallest(counts@),
{
    let mut best: usize = 0;
    let mut i: usize = 1;
    while i < counts.len()
        invariant
            best < i <= counts.len(),
            forall|j: int| 0 <= j < i ==> counts@[best as int].1 <= (#[trigger] counts@[j]).1,
            forall|j: int| 0 <= j < best ==> counts@[best as int].1 < (#[trigger] counts@[j]).1,
        decreases counts.len() - i,
    {
        if counts[i].1 < counts[best].1 {
            best = i;
        }
        i += 1;
    }
    proof {
        assert(is_first_smallest(counts@, best as int));
        let chosen = choose|i: int| is_first_smallest(counts@, i);
        if chosen < best {
            assert(counts@[best as int].1 < counts@[chosen].1);
        }
        if best < chosen {
            assert(counts@[chosen].1 < counts@[best as int].1);
        }
    }
    counts[best].0
}

impl AddToSmallestQueue {
    /// Whether `reply` can be gone on with: it is of the kind that is waited
    /// for, and nobody has added the team since it was found to be free.
    pub open spec fn accepts(self, reply: StoreReplyView) -> bool {
        match self {
            AddToSmallestQueue::Checking { .. } => reply is Flag,
            AddToSmallestQueue::Counting { .. } => false,
            AddToSmallestQueue::Adding { add, .. } => add.accepts(reply) && (add is Checking ==>
                reply == StoreReplyView::Flag(false)),
        }
    }

    /// What follows on `reply`, received at the time `millis`.  The tables
    /// with a queue come in any order.
    pub open spec fn goes_on(
        self,
        config: ConfigView,
        reply: StoreReplyView,
        millis: i64,
        step: SmallestStepView,
    ) -> bool {
        match self {
            AddToSmallestQueue::Checking { team } => if reply->Flag_0 {
                step == SmallestStepView::Done(None)
            } else {
                exists|tables: Seq<i64>| #[trigger]
                    lists_queues(config, tables) && step == SmallestStepView::Count(
                        AddToSmallestQueue::Counting { team },
                        tables,
                    )
            },
            AddToSmallestQueue::Counting { .. } => false,
            AddToSmallestQueue::Adding { table, add } => step == match add.next(reply, millis) {
                Step::Ask(add, command) => SmallestStepView::Ask(
                    AddToSmallestQueue::Adding { table, add },
                    command,
                ),
                Step::Done(_) => SmallestStepView::Done(Some(table)),
            },
        }
    }

    /// What follows on the lengths of the queues.
    pub open spec fn counted(self, counts: Seq<(i64, i64)>) -> SmallestStepView {
        let table = smallest(counts);
        let team = self->Counting_team;
        SmallestStepView::Ask(
            AddToSmallestQueue::Adding { table, add: AddToQueue::Checking { table, team } },
            StoreCommand::Hexists { team },
        )
    }

    /// Whether [`AddToSmallestQueue::resume`] can go on with `reply`.
    pub fn can_resume(&self, reply: &StoreReply) -> (can: bool)
        ensures
            can == self.accepts(reply@),
    {
        match (self, reply) {
            (AddToSmallestQueue::Checking { .. }, StoreReply::Flag(_)) => true,
            (
                AddToSmallestQueue::Adding { add: AddToQueue::Checking { .. }, .. },
                StoreReply::Flag(taken),
            ) => !*taken,
            (AddToSmallestQueue::Adding { add, .. }, reply) => add.can_resume(reply),
            _ => false,
        }
    }

    /// Goes on with `reply`, received at the time `millis`, in milliseconds
    /// since the epoch.
    pub fn resume(self, config: &Config, reply: &StoreReply, millis: i64) -> (step: SmallestStep)
        requires
            self.accepts(reply@),
        ensures
            self.goes_on(config@, reply@, millis, step@),
    {
        match self {
            AddToSmallestQueue::Checking { team } => {
                let taken = match reply {
                    StoreReply::Flag(flag) => *flag,
                    _ => true,
                };
                if taken {
                    SmallestStep::Done(None)
                } else {
                    SmallestStep::Count(
                        AddToSmallestQueue::Counting { team },
                        queue_tables(config),
                    )
                }
            },
            AddToSmallestQueue::Counting { .. } => SmallestStep::Done(None),
            AddToSmallestQueue::Adding { table, add } => match add.resume(reply, millis) {
                Step::Ask(add, command) => SmallestStep::Ask(
                    AddToSmallestQueue::Adding { table, add },
                    command,
                ),
                Step::Done(_) => SmallestStep::Done(Some(table)),
            },
        }
    }

    /// Goes on with the lengths of the queues, each beside its table.
    pub fn resume_with_counts(self, counts: &Vec<(i64, i64)>) -> (step: SmallestStep)
        requires
            self is Counting,
            counts@.len() > 0,
        ensures
            step@ == self.counted(counts@),
    {
        match self {
            AddToSmallestQueue::Counting { team } => {
                let table = smallest_queue(counts);
                match add_to_queue(table, team) {
                    Step::Ask(add, command) => SmallestStep::Ask(
                        AddToSmallestQueue::Adding { table, add },
                        command,
                    ),
                    Step::Done(_) => SmallestStep::Done(None),
                }
            },
            _ => SmallestStep::Done(None),
        }
    }
}

/// The tables that have a queue, in the order in which the settings are
/// walked.
pub fn queue_tables(config: &Config) -> (tables: Vec<i64>)
    ensures
        lists_queues(config@, tables@),
{
    let all = map_keys(&config.tables);
    let ghost kept = |table: i64| table != DUMMY_TABLE;
    let mut tables: Vec<i64> = Vec::new();
    let mut i: usize = 0;
    assert(all@.take(0).filter(kept) =~= Seq::empty()) by {
        reveal(Seq::filter);
    }
    while i < all.len()
        invariant
            i <= all.len(),
            kept == |table: i64| table != DUMMY_TABLE,
            tables@ == all@.take(i as int).filter(kept),
        decreases all.len() - i,
    {
        let table = all[i];
        if table != DUMMY_TABLE {
            tables.push(table);
        }
        proof {
            lemma_filter_step(all@, kept, i as int);
        }
        i += 1;
    }
    proof {
        assert(all@.take(i as int) =~= all@);
        let dom = config@.tables.dom();
        lemma_filter_lists(all@, kept, dom, dom.remove(DUMMY_TABLE));
    }
    tables
}

/// The first step of adding a team to the shortest queue.
pub open spec fn smallest_start(team: i64) -> SmallestStepView {
    SmallestStepView::Ask(AddToSmallestQueue::Checking { team }, StoreCommand::Hexists { team })
}

/// Starts adding `team_id` to the shortest queue.
pub fn add_to_smallest_queue(team_id: i64) -> (step: SmallestStep)
    ensures
        step@ == smallest_start(team_id),
{
    SmallestStep::Ask(
        AddToSmallestQueue::Checking { team: team_id },
        StoreCommand::Hexists { team: team_id },
    )
}

/// Taking a team out of the queue that holds it.  The result is the table of
/// that queue, if there is one.
#[derive(Clone, Copy, Debug, PartialEq, Eq, Structural)]
pub enum Unqueue {
    Looking { team: i64 },
    Removing { team: i64, table: i64 },
    Forgetting { table: i64 },
}

/// The first step of taking a team out of its queue.
pub open spec fn unqueue_start(team: i64) -> Step<Unqueue, Option<i64>> {
    Step::Ask(Unqueue::Looking { team }, StoreCommand::Hget { team })
}

impl Unqueue {
    /// Whether `reply` is of the kind that is waited for.
    pub open spec fn accepts(self, reply: StoreReplyView) -> bool {
        match self {
            Unqueue::Looking { .. } => reply is Table,
            Unqueue::Removing { .. } => reply is Done,
            Unqueue::Forgetting { .. } => reply is Done,
        }
    }

    /// What follows on `reply`.
    pub open spec fn next(self, reply: StoreReplyView) -> Step<Unqueue, Option<i64>> {
        match self {
            Unqueue::Looking { team } => match reply->Table_0 {
                Some(table) => Step::Ask(
                    Unqueue::Removing { team, table },
                    StoreCommand::Zrem { table, team },
                ),
                None => Step::Done(None),
            },
            Unqueue::Removing { team, table } => Step::Ask(
                Unqueue::Forgetting { table },
                StoreCommand::Hdel { team },
            ),
            Unqueue::Forgetting { table } => Step::Done(Some(table)),
        }
    }

    /// Whether `reply` is of the kind that is waited for.
    pub fn can_resume(&self, reply: &StoreReply) -> (can: bool)
        ensures
            can == self.accepts(reply@),
    {
        match (self, reply) {
            (Unqueue::Looking { .. }, StoreReply::Table(_)) => true,
            (Unqueue::Removing { .. }, StoreReply::Done) => true,
            (Unqueue::Forgetting { .. }, StoreReply::Done) => true,
            _ => false,
        }
    }

    /// Goes on with `reply`.
    pub fn resume(self, reply: &StoreReply) -> (step: Step<Unqueue, Option<i64>>)
        requires
            self.accepts(reply@),
        ensures
            step == self.next(reply@),
    {
        match self {
            Unqueue::Looking { team } => {
                let table = match reply {
                    StoreReply::Table(table) => *table,
                    _ => None,
                };
                match table {
                    Some(table) => Step::Ask(
                        Unqueue::Removing { team, table },
                        StoreCommand::Zrem { table, team },
                    ),
                    None => Step::Done(None),
                }
            },
            Unqueue::Removing { team, table } => Step::Ask(
                Unqueue::Forgetting { table },
                StoreCommand::Hdel { team },
            ),
            Unqueue::Forgetting { table } => Step::Done(Some(table)),
        }
    }
}

/// Starts taking `team_id` out of the queue that holds it.
pub fn unqueue(team_id: i64) -> (step: Step<Unqueue, Option<i64>>)
    ensures
        step == unqueue_start(team_id),
{
    Step::Ask(Unqueue::Looking { team: team_id }, StoreCommand::Hget { team: team_id })
}

/// Taking the first team out of the queue of a table.  The result is the team,
/// if the queue holds one.
#[derive(Clone, Copy, Debug, PartialEq, Eq, Structural)]
pub enum Dequeue {
    Popping,
    Forgetting { team: i64 },
}

/// The first step of taking the first team out of the queue of a table.
pub open spec fn dequeue_start(table: i64) -> Step<Dequeue, Option<i64>> {
    Step::Ask(Dequeue::Popping, StoreCommand::Zpopmin { table })
}

impl Dequeue {
    /// Whether `reply` can be gone on with.
    pub open spec fn accepts(self, reply: StoreReplyView) -> bool {
        match self {
            Dequeue::Popping => reply matches StoreReplyView::Popped(popped) && popped.readable(),
            Dequeue::Forgetting { .. } => reply is Done,
        }
    }

    /// What follows on `reply`.
    pub open spec fn next(self, reply: StoreReplyView) -> Step<Dequeue, Option<i64>> {
        match self {
            Dequeue::Popping => match reply->Popped_0.team() {
                Some(team) => Step::Ask(
                    Dequeue::Forgetting { team },
                    StoreCommand::Hdel { team },
                ),
                None => Step::Done(None),
            },
            Dequeue::Forgetting { team } => Step::Done(Some(team)),
        }
    }

    /// Whether [`Dequeue::resume`] can go on with `reply`.
    pub fn can_resume(&self, reply: &StoreReply) -> (can: bool)
        ensures
            can == self.accepts(reply@),
    {
        match (self, reply) {
            (Dequeue::Popping, StoreReply::Popped(popped)) => popped.is_readable(),
            (Dequeue::Forgetting { .. }, StoreReply::Done) => true,
            _ => false,
        }
    }

    /// Goes on with `reply`.
    pub fn resume(self, reply: &StoreReply) -> (step: Step<Dequeue, Option<i64>>)
        requires
            self.accepts(reply@),
        ensures
            step == self.next(reply@),
    {
        match self {
            Dequeue::Popping => {
                let team = match reply {
                    StoreReply::Popped(popped) => popped.team(),
                    _ => None,
                };
                match team {
                    Some(team) => Step::Ask(
                        Dequeue::Forgetting { team },
                        StoreCommand::Hdel { team },
                    ),
                    None => Step::Done(None),
                }
            },
            Dequeue::Forgetting { team } => Step::Done(Some(team)),
        }
    }
}

/// Starts taking the first team out of the queue of `table_id`.
pub fn dequeue(table_id: i64) -> (step: Step<Dequeue, Option<i64>>)
    ensures
        step == dequeue_start(table_id),
{
    Step::Ask(Dequeue::Popping, StoreCommand::Zpopmin { table: table_id })
}

/// The command that lists the queue of `table_id`.
pub fn get_queue(table_id: i64) -> (command: StoreCommand)
    ensures
        command == (StoreCommand::Zrange { table: table_id }),
{
    StoreCommand::Zrange { table: table_id }
}

/// Whether every team of a queue has a name.
pub open spec fn all_named(config: ConfigView, queue: Seq<i64>) -> bool {
    forall|i: int| 0 <= i < queue.len() ==> config.team_names.contains_key(#[trigger] queue[i])
}

/// One line for each team of a queue.
pub open spec fn queue_lines(names: Map<i64, Seq<char>>, queue: Seq<i64>) -> Seq<char>
    decreases queue.len(),
{
    if queue.len() == 0 {
        Seq::empty()
    } else {
        queue_lines(names, queue.drop_last()) + "  team "@ + decimal(queue.last() as int) + ": "@
            + names[queue.last()] + "\n"@
    }
}

/// A queue as shown to users.
pub open spec fn queue_text(config: ConfigView, queue: Seq<i64>) -> Seq<char> {
    if queue.len() == 0 {
        "  (empty)"@
    } else {
        queue_lines(config.team_names, queue)
    }
}

/// Whether every team of `queue` has a name.
pub fn queue_is_named(config: &Config, queue: &Vec<i64>) -> (named: bool)
    ensures
        named == all_named(config@, queue@),
{
    let mut i: usize = 0;
    while i < queue.len()
        invariant
            i <= queue.len(),
            forall|j: int| 0 <= j < i ==> config@.team_names.contains_key(#[trigger] queue@[j]),
        decreases queue.len() - i,
    {
        if !config.team_names.contains_key(&queue[i]) {
            return false;
        }
        i += 1;
    }
    true
}

/// A queue as shown to users.
pub fn format_queue(config: &Config, queue: &Vec<i64>) -> (text: String)
    requires
        all_named(config@, queue@),
    ensures
        text@ == queue_text(config@, queue@),
{
    if queue.is_empty() {
        return "  (empty)".to_string();
    }
    let mut text = String::new();
    let mut i: usize = 0;
    while i < queue.len()
        invariant
            i <= queue.len(),
            all_named(config@, queue@),
            text@ == queue_lines(config@.team_names, queue@.take(i as int)),
        decreases queue.len() - i,
    {
        let team_id = queue[i];
        assert(config@.team_names.contains_key(queue@[i as int]));
        let name = config.team_names.get(&team_id).unwrap();
        text.append("  team ");
        append_i64(&mut text, team_id);
        text.append(": ");
        text.append(name);
        text.append("\n");
        assert(queue@.take(i + 1).drop_last() =~= queue@.take(i as int));
        i += 1;
    }
    assert(queue@.take(i as int) =~= queue@);
    text
}

/// Calls `chrono::Utc::now` and `timestamp_millis` on what it gives: the
/// system clock in milliseconds since the epoch.  All that is claimed of the
/// value is that it fits into 53 bits, as every date does that `chrono` can
/// hold, the years to 262142; the rest depends on when the call is made.  The
/// call panics where the clock stands before the epoch or beyond those years.
#[verifier::external_body]
pub(crate) fn now_millis() -> (millis: i64)
    ensures
        exact_score(millis),
{
    chrono::Utc::now().timestamp_millis()
}

/// Whether `millis` is what a reading of the clock gave.
pub closed spec fn clock_reading(millis: i64) -> bool {
    call_ensures(now_millis, (), millis)
}

/// A reading of the clock is what `now_millis` gave, nothing made of it.
pub(crate) proof fn law_clock_readings_are_of_the_clock(millis: i64)
    ensures
        clock_reading(millis) <==> call_ensures(now_millis, (), millis),
        clock_reading(millis) ==> exact_score(millis),
{
}

/// Calls `clock`.
fn observe<C: Fn() -> i64>(clock: C) -> (millis: i64)
    requires
        clock.requires(()),
    ensures
        clock.ensures((), millis),
{
    clock()
}

/// Reads the clock: milliseconds since the epoch.
pub(crate) fn read_clock() -> (millis: i64)
    ensures
        clock_reading(millis),
        exact_score(millis),
{
    observe(now_millis)
}

} // verus!
