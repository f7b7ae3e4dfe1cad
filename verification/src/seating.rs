//! Moving a team to a table.

use std::collections::HashSet;

use vstd::prelude::*;

use crate::config::{Config, ConfigView, DUMMY_TABLE, DUMMY_TEAM};
use crate::voice::{
    moves as voice_moves, participants_only, seat, seated_at, unseat, user_updated,
    TableVoiceState, VoiceReport,
};
use crate::walk::{lemma_filter_lists, lemma_filter_step, lists, set_elements};

verus! {

/// One user to be moved into one voice channel.
#[derive(Clone, Copy, Debug, PartialEq, Eq, Structural)]
pub struct Relocation {
    pub user: u64,
    pub channel: u64,
    /// Whether this sends the user away from the table, as opposed to bringing
    /// them to it.
    pub kick: bool,
}

/// The moves that bring a team to a table, and how those made so far went.
#[derive(Debug)]
pub struct TableJoin {
    pub moves: Vec<Relocation>,
    /// How many of the moves have been tried.
    pub done: usize,
    pub people_in: usize,
    pub people_out: usize,
    pub people_fail: usize,
}

/// The mathematical content of a [`TableJoin`].
#[verifier::ext_equal]
pub struct TableJoinView {
    pub moves: Seq<Relocation>,
    pub done: nat,
    pub people_in: nat,
    pub people_out: nat,
    pub people_fail: nat,
}

impl View for TableJoin {
    type V = TableJoinView;

    open spec fn view(&self) -> TableJoinView {
        TableJoinView {
            moves: self.moves@,
            done: self.done as nat,
            people_in: self.people_in as nat,
            people_out: self.people_out as nat,
            people_fail: self.people_fail as nat,
        }
    }
}

impl TableJoinView {
    /// Every move tried so far is counted once.
    pub open spec fn balanced(self) -> bool {
        &&& self.done <= self.moves.len()
        &&& self.people_in + self.people_out + self.people_fail == self.done
    }

    /// The next move to try, if any is left.
    pub open spec fn next_move(self) -> Option<Relocation> {
        if self.done < self.moves.len() {
            Some(self.moves[self.done as int])
        } else {
            None
        }
    }

    /// What follows when the next move succeeds or fails.
    pub open spec fn record(self, moved: bool) -> TableJoinView {
        let kick = self.moves[self.done as int].kick;
        TableJoinView {
            moves: self.moves,
            done: self.done + 1,
            people_in: self.people_in + if moved && !kick {
                1nat
            } else {
                0
            },
            people_out: self.people_out + if moved && kick {
                1nat
            } else {
                0
            },
            people_fail: self.people_fail + if moved {
                0nat
            } else {
                1
            },
        }
    }
}

/// The users who have to leave a table for a team: the participants there who
/// are not in the team.
pub open spec fn to_kick(
    config: ConfigView,
    seating: Map<i64, Set<u64>>,
    team_id: i64,
    table_id: i64,
) -> Set<u64> {
    seated_at(seating, table_id).intersect(config.participants).difference(config.teams[team_id])
}

/// The users who have to come to a table for a team: the members who are not
/// there.
pub open spec fn to_join(
    config: ConfigView,
    seating: Map<i64, Set<u64>>,
    team_id: i64,
    table_id: i64,
) -> Set<u64> {
    config.teams[team_id].difference(seated_at(seating, table_id))
}

/// Whether the team can be brought to the table: team, table and neutral table
/// are known, and so is where those who have to leave return to.
pub open spec fn can_join(
    config: ConfigView,
    seating: Map<i64, Set<u64>>,
    team_id: i64,
    table_id: i64,
) -> bool {
    &&& config.teams.contains_key(team_id)
    &&& config.tables.contains_key(table_id)
    &&& config.tables.contains_key(DUMMY_TABLE)
    &&& forall|user: u64| #[trigger]
        to_kick(config, seating, team_id, table_id).contains(user) ==> config.has_home(user)
}

/// `users` sent back to the channels of their teams.
pub open spec fn departures(config: ConfigView, users: Seq<u64>) -> Seq<Relocation> {
    users.map_values(
        |user: u64| Relocation { user, channel: config.home_channel(user), kick: true },
    )
}

/// `users` brought to the channel of a table.
pub open spec fn arrivals(config: ConfigView, users: Seq<u64>, table_id: i64) -> Seq<Relocation> {
    users.map_values(
        |user: u64| Relocation { user, channel: config.tables[table_id], kick: false },
    )
}

/// The moves, none of them tried: first everyone who has to leave the table,
/// back to the channel of their own team, then everyone who has to come.
pub open spec fn planned(
    config: ConfigView,
    seating: Map<i64, Set<u64>>,
    team_id: i64,
    table_id: i64,
    join: TableJoinView,
) -> bool {
    &&& join.done == 0
    &&& join.people_in == 0
    &&& join.people_out == 0
    &&& join.people_fail == 0
    &&& exists|leaving: Seq<u64>, coming: Seq<u64>|
        #![trigger departures(config, leaving), arrivals(config, coming, table_id)]
        lists(leaving, to_kick(config, seating, team_id, table_id)) && lists(
            coming,
            to_join(config, seating, team_id, table_id),
        ) && join.moves == departures(config, leaving) + arrivals(config, coming, table_id)
}

/// The users of `all` that are in `keep` (if given) and not in `drop`, in the
/// order in which the set is walked.
fn select(all: &HashSet<u64>, keep: Option<&HashSet<u64>>, drop: &HashSet<u64>) -> (users: Vec<u64>)
    ensures
        lists(
            users@,
            match keep {
                Some(set) => all@.intersect(set@).difference(drop@),
                None => all@.difference(drop@),
            },
        ),
{
    let everyone = set_elements(all);
    let ghost kept = |user: u64|
        (match keep {
            Some(set) => set@.contains(user),
            None => true,
        }) && !drop@.contains(user);
    let mut users: Vec<u64> = Vec::new();
    let mut i: usize = 0;
    assert(everyone@.take(0).filter(kept) =~= Seq::empty()) by {
        reveal(Seq::filter);
    }
    while i < everyone.len()
        invariant
            i <= everyone.len(),
            kept == |user: u64|
                (match keep {
                    Some(set) => set@.contains(user),
                    None => true,
                }) && !drop@.contains(user),
            users@ == everyone@.take(i as int).filter(kept),
        decreases everyone.len() - i,
    {
        let user = everyone[i];
        let wanted = match keep {
            Some(set) => set.contains(&user),
            None => true,
        };
        if wanted && !drop.contains(&user) {
            users.push(user);
        }
        proof {
            lemma_filter_step(everyone@, kept, i as int);
        }
        i += 1;
    }
    proof {
        assert(everyone@.take(i as int) =~= everyone@);
        lemma_filter_lists(
            everyone@,
            kept,
            all@,
            match keep {
                Some(set) => all@.intersect(set@).difference(drop@),
                None => all@.difference(drop@),
            },
        );
    }
    users
}

impl TableJoin {
    /// Whether [`TableJoin::plan`] can make a plan.
    pub fn is_possible(
        config: &Config,
        voice: &TableVoiceState,
        team_id: i64,
        table_id: i64,
    ) -> (possible: bool)
        ensures
            possible == can_join(config@, voice@, team_id, table_id),
    {
        let nobody: HashSet<u64> = HashSet::new();
        let members = match voice.members.get(&table_id) {
            Some(members) => members,
            None => &nobody,
        };
        match config.teams.get(&team_id) {
            None => false,
            Some(team) => {
                if !config.tables.contains_key(&table_id) || !config.tables.contains_key(
                    &DUMMY_TABLE,
                ) {
                    return false;
                }
                let leaving = select(members, Some(&config.participants), team);
                let mut i: usize = 0;
                while i < leaving.len()
                    invariant
                        i <= leaving.len(),
                        forall|j: int| 0 <= j < i ==> config@.has_home(#[trigger] leaving@[j]),
                        leaving@.to_set() == to_kick(config@, voice@, team_id, table_id),
                    decreases leaving.len() - i,
                {
                    let home = match config.user_team(leaving[i]) {
                        Some(team) => config.team_voice_rooms.contains_key(&team),
                        None => false,
                    };
                    if !home {
                        assert(leaving@.to_set().contains(leaving@[i as int]));
                        return false;
                    }
                    i += 1;
                }
                assert forall|user: u64| #[trigger]
                    to_kick(config@, voice@, team_id, table_id).contains(
                        user,
                    ) implies config@.has_home(user) by {
                    assert(leaving@.contains(user));
                }
                true
            },
        }
    }

    /// The moves that bring `team_id` to `table_id`.
    pub fn plan(
        config: &Config,
        voice: &TableVoiceState,
        team_id: i64,
        table_id: i64,
    ) -> (join: TableJoin)
        requires
            can_join(config@, voice@, team_id, table_id),
        ensures
            planned(config@, voice@, team_id, table_id, join@),
    {
        let nobody: HashSet<u64> = HashSet::new();
        let members = match voice.members.get(&table_id) {
            Some(members) => members,
            None => &nobody,
        };
        let team = config.teams.get(&team_id).unwrap();
        let table = *config.tables.get(&table_id).unwrap();
        let leaving = select(members, Some(&config.participants), team);
        let coming = select(team, None, members);
        let mut moves: Vec<Relocation> = Vec::new();
        let mut i: usize = 0;
        while i < leaving.len()
            invariant
                i <= leaving.len(),
                can_join(config@, voice@, team_id, table_id),
                leaving@.to_set() == to_kick(config@, voice@, team_id, table_id),
                moves@ == departures(config@, leaving@.take(i as int)),
            decreases leaving.len() - i,
        {
            let user = leaving[i];
            assert(leaving@.to_set().contains(user));
            let home = config.user_team(user).unwrap();
            let channel = *config.team_voice_rooms.get(&home).unwrap();
            moves.push(Relocation { user, channel, kick: true });
            i += 1;
            assert(moves@ =~= departures(config@, leaving@.take(i as int)));
        }
        assert(leaving@.take(i as int) =~= leaving@);
        let mut k: usize = 0;
        while k < coming.len()
            invariant
                k <= coming.len(),
                table == config@.tables[table_id],
                moves@ == departures(config@, leaving@) + arrivals(
                    config@,
                    coming@.take(k as int),
                    table_id,
                ),
            decreases coming.len() - k,
        {
            moves.push(Relocation { user: coming[k], channel: table, kick: false });
            k += 1;
            assert(moves@ =~= departures(config@, leaving@) + arrivals(
                config@,
                coming@.take(k as int),
                table_id,
            ));
        }
        assert(coming@.take(k as int) =~= coming@);
        TableJoin { moves, done: 0, people_in: 0, people_out: 0, people_fail: 0 }
    }

    /// The next move to try, if any is left.
    pub fn next_move(&self) -> (next: Option<Relocation>)
        ensures
            next == self@.next_move(),
    {
        if self.done < self.moves.len() {
            Some(self.moves[self.done])
        } else {
            None
        }
    }

    /// Whether every move tried so far is counted once.
    pub fn is_balanced(&self) -> (balanced: bool)
        ensures
            balanced == self@.balanced(),
    {
        self.done <= self.moves.len() && self.people_in <= self.done && self.people_out
            <= self.done - self.people_in && self.people_fail == self.done - self.people_in
            - self.people_out
    }

    /// Counts the outcome of the next move.
    pub fn record(&mut self, moved: bool)
        requires
            old(self)@.balanced(),
            old(self)@.next_move() is Some,
        ensures
            final(self)@ == old(self)@.record(moved),
            final(self)@.balanced(),
    {
        let total: usize = self.moves.len();
        assert(self.done < total);
        if !moved {
            self.people_fail += 1;
        } else if self.moves[self.done].kick {
            self.people_out += 1;
        } else {
            self.people_in += 1;
        }
        self.done += 1;
    }
}

/// Who is at a table after the given moves, if all of them succeed.
pub open spec fn after_moves(present: Set<u64>, moves: Seq<Relocation>) -> Set<u64>
    decreases moves.len(),
{
    if moves.len() == 0 {
        present
    } else {
        let earlier = after_moves(present, moves.drop_last());
        if moves.last().kick {
            earlier.remove(moves.last().user)
        } else {
            earlier.insert(moves.last().user)
        }
    }
}

/// A join after the next moves went as `outcomes` says.
pub open spec fn after_outcomes(join: TableJoinView, outcomes: Seq<bool>) -> TableJoinView
    decreases outcomes.len(),
{
    if outcomes.len() == 0 {
        join
    } else {
        after_outcomes(join, outcomes.drop_last()).record(outcomes.last())
    }
}

/// Those who leave and those who come in a plan, in the order of its moves.
proof fn leavers_and_comers(
    config: ConfigView,
    seating: Map<i64, Set<u64>>,
    team_id: i64,
    table_id: i64,
    join: TableJoinView,
) -> (users: (Seq<u64>, Seq<u64>))
    requires
        planned(config, seating, team_id, table_id, join),
    ensures
        lists(users.0, to_kick(config, seating, team_id, table_id)),
        lists(users.1, to_join(config, seating, team_id, table_id)),
        join.moves == departures(config, users.0) + arrivals(config, users.1, table_id),
{
    choose|leaving: Seq<u64>, coming: Seq<u64>|
        #![trigger departures(config, leaving), arrivals(config, coming, table_id)]
        lists(leaving, to_kick(config, seating, team_id, table_id)) && lists(
            coming,
            to_join(config, seating, team_id, table_id),
        ) && join.moves == departures(config, leaving) + arrivals(config, coming, table_id)
}

proof fn lemma_after_departures(config: ConfigView, present: Set<u64>, users: Seq<u64>)
    ensures
        after_moves(present, departures(config, users)) == present.difference(users.to_set()),
    decreases users.len(),
{
    let moves = departures(config, users);
    if users.len() > 0 {
        assert(moves.drop_last() =~= departures(config, users.drop_last()));
        lemma_after_departures(config, present, users.drop_last());
        assert(users.to_set() =~= users.drop_last().to_set().insert(users.last())) by {
            assert(users =~= users.drop_last().push(users.last()));
            assert forall|u: u64| users.contains(u) implies users.drop_last().contains(u) || u
                == users.last() by {
                let i = choose|i: int| 0 <= i < users.len() && users[i] == u;
                if i < users.len() - 1 {
                    assert(users.drop_last()[i] == u);
                }
            }
            assert forall|u: u64| users.drop_last().contains(u) implies users.contains(u) by {
                let i = choose|i: int|
                    0 <= i < users.drop_last().len() && users.drop_last()[i] == u;
                assert(users[i] == u);
            }
            assert(users.contains(users.last()));
        }
        assert(after_moves(present, moves) =~= present.difference(users.to_set()));
    } else {
        assert(after_moves(present, moves) =~= present.difference(users.to_set()));
    }
}

proof fn lemma_after_arrivals(
    config: ConfigView,
    present: Set<u64>,
    first: Seq<Relocation>,
    users: Seq<u64>,
    table_id: i64,
)
    ensures
        after_moves(present, first + arrivals(config, users, table_id)) == after_moves(
            present,
            first,
        ).union(users.to_set()),
    decreases users.len(),
{
    let moves = first + arrivals(config, users, table_id);
    if users.len() > 0 {
        assert(moves.drop_last() =~= first + arrivals(config, users.drop_last(), table_id));
        assert(moves.last() == arrivals(config, users, table_id).last());
        lemma_after_arrivals(config, present, first, users.drop_last(), table_id);
        assert forall|u: u64| #[trigger] users.to_set().contains(u) implies users.drop_last().contains(u)
            || u == users.last() by {
            let i = choose|i: int| 0 <= i < users.len() && users[i] == u;
            if i < users.len() - 1 {
                assert(users.drop_last()[i] == u);
            }
        }
        assert forall|u: u64| #[trigger] users.drop_last().contains(u) implies users.contains(u) by {
            let i = choose|i: int| 0 <= i < users.drop_last().len() && users.drop_last()[i] == u;
            assert(users[i] == u);
        }
        assert(users.contains(users.last()));
        assert(after_moves(present, moves) =~= after_moves(present, first).union(users.to_set()));
    } else {
        assert(moves =~= first);
        assert(after_moves(present, moves) =~= after_moves(present, first).union(users.to_set()));
    }
}

/// Once all moves of a plan have been made, the table holds the team, and
/// besides it only people who are not participants.
pub proof fn law_plan_seats_team(
    config: ConfigView,
    seating: Map<i64, Set<u64>>,
    team_id: i64,
    table_id: i64,
    join: TableJoinView,
)
    requires
        planned(config, seating, team_id, table_id, join),
    ensures
        after_moves(seated_at(seating, table_id), join.moves) == config.teams[team_id].union(
            seated_at(seating, table_id).difference(config.participants),
        ),
        participants_only(config, seating) ==> after_moves(
            seated_at(seating, table_id),
            join.moves,
        ) == config.teams[team_id],
{
    let present = seated_at(seating, table_id);
    let team = config.teams[team_id];
    let (leaving, coming) = leavers_and_comers(config, seating, team_id, table_id, join);
    lemma_after_departures(config, present, leaving);
    lemma_after_arrivals(config, present, departures(config, leaving), coming, table_id);
    assert(after_moves(present, join.moves) =~= team.union(present.difference(config.participants)));
    if participants_only(config, seating) {
        assert forall|user: u64| present.contains(user) implies config.participants.contains(
            user,
        ) by {
            assert(seated_at(seating, table_id).contains(user));
        }
        assert(after_moves(present, join.moves) =~= team);
    }
}

/// Where all of a team sit at a table, and no other participant does, nobody has
/// to move.
pub proof fn law_seated_team_stays(
    config: ConfigView,
    seating: Map<i64, Set<u64>>,
    team_id: i64,
    table_id: i64,
    join: TableJoinView,
)
    requires
        planned(config, seating, team_id, table_id, join),
        config.teams[team_id].subset_of(seated_at(seating, table_id)),
        seated_at(seating, table_id).intersect(config.participants).subset_of(
            config.teams[team_id],
        ),
    ensures
        join.moves.len() == 0,
{
    let (leaving, coming) = leavers_and_comers(config, seating, team_id, table_id, join);
    let present = seated_at(seating, table_id);
    if leaving.len() > 0 {
        assert(leaving.to_set().contains(leaving[0]));
        assert(present.intersect(config.participants).contains(leaving[0]));
    }
    if coming.len() > 0 {
        assert(coming.to_set().contains(coming[0]));
    }
}

/// The moves of a plan, one by one: exactly the participants at the table who
/// are not in the team, and the members who are not at the table, are moved,
/// each once; the former first, to the room of their own team, and then the
/// latter, to the channel of the table.
pub proof fn law_moves_of_a_plan(
    config: ConfigView,
    seating: Map<i64, Set<u64>>,
    team_id: i64,
    table_id: i64,
    join: TableJoinView,
)
    requires
        planned(config, seating, team_id, table_id, join),
    ensures
        join.done == 0 && join.people_in == 0 && join.people_out == 0 && join.people_fail == 0,
        forall|i: int, j: int|
            0 <= i < j < join.moves.len() ==> (#[trigger] join.moves[i]).user != (
            #[trigger] join.moves[j]).user && (config.teams[team_id].contains(join.moves[i].user)
                ==> config.teams[team_id].contains(join.moves[j].user)),
        forall|user: u64|
            #![trigger config.teams[team_id].contains(user)]
            (exists|i: int| 0 <= i < join.moves.len() && (#[trigger] join.moves[i]).user == user)
                <==> {
                let at_table = seating.contains_key(table_id) && seating[table_id].contains(user);
                let in_team = config.teams[team_id].contains(user);
                at_table && config.participants.contains(user) && !in_team || in_team && !at_table
            },
        forall|i: int|
            0 <= i < join.moves.len() ==> if config.teams[team_id].contains(
                (#[trigger] join.moves[i]).user,
            ) {
                !join.moves[i].kick && join.moves[i].channel == config.tables[table_id]
            } else {
                join.moves[i].kick && join.moves[i].channel
                    == config.team_voice_rooms[config.user_teams[join.moves[i].user]]
            },
{
    let (leaving, coming) = leavers_and_comers(config, seating, team_id, table_id, join);
    let n = leaving.len() as int;
    let moves = join.moves;
    assert forall|i: int| 0 <= i < moves.len() implies if i < n {
        moves[i] == departures(config, leaving)[i] && moves[i].user == leaving[i]
            && !config.teams[team_id].contains((#[trigger] moves[i]).user)
    } else {
        moves[i] == arrivals(config, coming, table_id)[i - n] && moves[i].user == coming[i - n]
            && config.teams[team_id].contains(moves[i].user)
    } by {
        if i < n {
            assert(moves[i] == departures(config, leaving)[i]);
            assert(leaving.to_set().contains(leaving[i]));
        } else {
            assert(moves[i] == arrivals(config, coming, table_id)[i - n]);
            assert(coming.to_set().contains(coming[i - n]));
        }
    }
    assert forall|user: u64|
        #![trigger config.teams[team_id].contains(user)]
        (exists|i: int| 0 <= i < moves.len() && (#[trigger] moves[i]).user == user) <==> {
            let at_table = seating.contains_key(table_id) && seating[table_id].contains(user);
            let in_team = config.teams[team_id].contains(user);
            at_table && config.participants.contains(user) && !in_team || in_team && !at_table
        } by {
        assert(leaving.to_set().contains(user) <==> leaving.contains(user));
        assert(coming.to_set().contains(user) <==> coming.contains(user));
        if leaving.contains(user) {
            let i = choose|i: int| 0 <= i < leaving.len() && leaving[i] == user;
            assert(moves[i].user == user);
        }
        if coming.contains(user) {
            let i = choose|i: int| 0 <= i < coming.len() && coming[i] == user;
            assert(moves[n + i].user == user);
        }
        if exists|i: int| 0 <= i < moves.len() && (#[trigger] moves[i]).user == user {
            let i = choose|i: int| 0 <= i < moves.len() && (#[trigger] moves[i]).user == user;
            if i < n {
                assert(leaving[i] == user);
            } else {
                assert(coming[i - n] == user);
            }
        }
    }
}

/// The voice state of a user who was moved.
pub open spec fn arrival(relocation: Relocation) -> VoiceReport {
    VoiceReport { user: relocation.user, channel: Some(relocation.channel) }
}

/// Whether `previous` is what the chat service can give as the state in which
/// the user was before a move: if they were sent away from a table, they were in
/// its channel.
pub open spec fn was_before(
    config: ConfigView,
    table_id: i64,
    relocation: Relocation,
    previous: Option<VoiceReport>,
) -> bool {
    if relocation.kick {
        previous == Some(
            VoiceReport { user: relocation.user, channel: Some(config.tables[table_id]) },
        )
    } else {
        previous matches Some(report) ==> report.user == relocation.user
    }
}

/// Whether each of the moves succeeded and was reported as a voice state update:
/// `stages` is the seating before the first report and after each of them, and
/// `previous` what the reports give as the earlier state.
pub open spec fn all_reported(
    config: ConfigView,
    table_id: i64,
    moves: Seq<Relocation>,
    previous: Seq<Option<VoiceReport>>,
    stages: Seq<Map<i64, Set<u64>>>,
) -> bool {
    &&& previous.len() == moves.len()
    &&& stages.len() == moves.len() + 1
    &&& forall|i: int|
        0 <= i < moves.len() ==> was_before(config, table_id, #[trigger] moves[i], previous[i])
            && user_updated(
            config,
            Some(config.guild_id),
            previous[i],
            arrival(moves[i]),
            stages[i],
            stages[i + 1],
        )
}

/// The reports of the first moves seat and unseat people as the moves do.
proof fn lemma_reported_moves(
    config: ConfigView,
    table_id: i64,
    moves: Seq<Relocation>,
    previous: Seq<Option<VoiceReport>>,
    stages: Seq<Map<i64, Set<u64>>>,
    n: int,
)
    requires
        config.distinct_channels(),
        config.tables.contains_key(table_id),
        all_reported(config, table_id, moves, previous, stages),
        forall|i: int|
            0 <= i < moves.len() ==> config.participants.contains((#[trigger] moves[i]).user)
                && (moves[i].kick <==> moves[i].channel != config.tables[table_id]),
        0 <= n <= moves.len(),
    ensures
        seated_at(stages[n], table_id) == after_moves(
            seated_at(stages[0], table_id),
            moves.take(n),
        ),
    decreases n,
{
    if n == 0 {
        assert(moves.take(0).len() == 0);
    } else {
        let at = n - 1;
        lemma_reported_moves(config, table_id, moves, previous, stages, at);
        let made = moves[at];
        let before = stages[at];
        assert(was_before(config, table_id, made, previous[at]));
        assert(moves.take(n).drop_last() =~= moves.take(at));
        assert(moves.take(n).last() == made);
        let (from, to) = choose|from: Option<i64>, to: Option<i64>| #[trigger]
            voice_moves(config, previous[at], arrival(made), from, to) && stages[at + 1] == seat(
                unseat(before, from, made.user),
                to,
                made.user,
            );
        assert(voice_moves(config, previous[at], arrival(made), from, to));
        let between = unseat(before, from, made.user);
        assert(config.is_table_channel(table_id, config.tables[table_id]));
        if made.kick {
            assert(from == Some(table_id)) by {
                if let Some(t) = from {
                    assert(config.tables[t] == config.tables[table_id]);
                }
            }
            assert(to != Some(table_id));
            assert(seated_at(stages[n], table_id) =~= seated_at(before, table_id).remove(
                made.user,
            ));
        } else {
            assert(to == Some(table_id)) by {
                if let Some(t) = to {
                    assert(config.tables[t] == config.tables[table_id]);
                }
            }
            assert(seated_at(stages[n], table_id) =~= seated_at(before, table_id).insert(
                made.user,
            ));
        }
    }
}

/// A second join moves nobody: once every move of a plan succeeded and was
/// reported, a plan for the same team and table has no moves.  Those who leave
/// must not have the table's own channel to return to.
pub proof fn law_second_join_moves_nobody(
    config: ConfigView,
    team_id: i64,
    table_id: i64,
    join: TableJoinView,
    previous: Seq<Option<VoiceReport>>,
    stages: Seq<Map<i64, Set<u64>>>,
    again: TableJoinView,
)
    requires
        config.coherent(),
        config.teams.contains_key(team_id),
        config.tables.contains_key(table_id),
        planned(config, stages[0], team_id, table_id, join),
        forall|user: u64| #[trigger]
            to_kick(config, stages[0], team_id, table_id).contains(user) ==> config.home_channel(
                user,
            ) != config.tables[table_id],
        all_reported(config, table_id, join.moves, previous, stages),
        planned(config, stages.last(), team_id, table_id, again),
    ensures
        again.moves.len() == 0,
{
    let seating = stages[0];
    let moves = join.moves;
    let (leaving, coming) = leavers_and_comers(config, seating, team_id, table_id, join);
    assert forall|i: int| 0 <= i < moves.len() implies config.participants.contains(
        (#[trigger] moves[i]).user,
    ) && (moves[i].kick <==> moves[i].channel != config.tables[table_id]) by {
        if i < leaving.len() {
            assert(moves[i] == departures(config, leaving)[i]);
            assert(leaving.to_set().contains(leaving[i]));
            assert(to_kick(config, seating, team_id, table_id).contains(leaving[i]));
        } else {
            let user = coming[i - leaving.len()];
            assert(moves[i] == arrivals(config, coming, table_id)[i - leaving.len()]);
            assert(coming.to_set().contains(user));
            assert(config.teams[team_id].contains(user));
            assert(config.user_team(user) == Some(team_id));
            assert(config.user_teams.dom().contains(user));
        }
    }
    lemma_reported_moves(config, table_id, moves, previous, stages, moves.len() as int);
    assert(moves.take(moves.len() as int) =~= moves);
    law_plan_seats_team(config, seating, team_id, table_id, join);
    law_seated_team_stays(config, stages.last(), team_id, table_id, again);
}

/// Seating the empty team brings nobody in and sends every participant away.
pub proof fn law_empty_team_clears_table(
    config: ConfigView,
    seating: Map<i64, Set<u64>>,
    table_id: i64,
)
    requires
        config.teams[DUMMY_TEAM] == Set::<u64>::empty(),
    ensures
        to_join(config, seating, DUMMY_TEAM, table_id) == Set::<u64>::empty(),
        to_kick(config, seating, DUMMY_TEAM, table_id) == seated_at(seating, table_id).intersect(
            config.participants,
        ),
{
    assert(to_join(config, seating, DUMMY_TEAM, table_id) =~= Set::<u64>::empty());
    assert(to_kick(config, seating, DUMMY_TEAM, table_id) =~= seated_at(
        seating,
        table_id,
    ).intersect(config.participants));
}

/// With coherent settings, every team can be brought to every table.
pub proof fn law_coherent_settings_allow_joins(
    config: ConfigView,
    seating: Map<i64, Set<u64>>,
    team_id: i64,
    table_id: i64,
)
    requires
        config.coherent(),
        config.teams.contains_key(team_id),
        config.tables.contains_key(table_id),
    ensures
        can_join(config, seating, team_id, table_id),
{
    assert forall|user: u64| #[trigger]
        to_kick(config, seating, team_id, table_id).contains(user) implies config.has_home(user) by {
        let team = config.user_teams[user];
        assert(config.user_teams.contains_key(user));
        assert(config.user_team(user) == Some(team));
        assert(config.teams[team].contains(user));
        assert(config.teams.contains_key(team));
        assert(config.team_voice_rooms.dom().contains(team));
    }
}

proof fn lemma_after_outcomes(join: TableJoinView, outcomes: Seq<bool>)
    requires
        join.balanced(),
        join.done + outcomes.len() <= join.moves.len(),
    ensures
        after_outcomes(join, outcomes).balanced(),
        after_outcomes(join, outcomes).moves == join.moves,
        after_outcomes(join, outcomes).done == join.done + outcomes.len(),
    decreases outcomes.len(),
{
    if outcomes.len() > 0 {
        lemma_after_outcomes(join, outcomes.drop_last());
    }
}

/// The three counts of a finished join add up to the number of its moves, and
/// it has no move left.
pub proof fn law_counts_add_up(
    config: ConfigView,
    seating: Map<i64, Set<u64>>,
    team_id: i64,
    table_id: i64,
    join: TableJoinView,
    outcomes: Seq<bool>,
)
    requires
        planned(config, seating, team_id, table_id, join),
        outcomes.len() == join.moves.len(),
    ensures
        ({
            let end = after_outcomes(join, outcomes);
            &&& end.next_move() is None
            &&& end.people_in + end.people_out + end.people_fail == join.moves.len()
        }),
{
    lemma_after_outcomes(join, outcomes);
}

proof fn lemma_full_success(join: TableJoinView, kicks: nat, outcomes: Seq<bool>)
    requires
        join.done == 0,
        join.people_in == 0,
        join.people_out == 0,
        join.people_fail == 0,
        kicks <= join.moves.len(),
        forall|i: int| 0 <= i < join.moves.len() ==> (#[trigger] join.moves[i]).kick == (i < kicks),
        outcomes.len() <= join.moves.len(),
        forall|i: int| 0 <= i < outcomes.len() ==> #[trigger] outcomes[i],
    ensures
        ({
            let end = after_outcomes(join, outcomes);
            let n = outcomes.len();
            &&& end.moves == join.moves
            &&& end.done == n
            &&& end.people_out == if n < kicks {
                n
            } else {
                kicks
            }
            &&& end.people_in == n - end.people_out
            &&& end.people_fail == 0
        }),
    decreases outcomes.len(),
{
    if outcomes.len() > 0 {
        lemma_full_success(join, kicks, outcomes.drop_last());
        assert(outcomes[outcomes.len() - 1]);
        assert(join.moves[outcomes.len() - 1].kick == (outcomes.len() - 1 < kicks));
    }
}

/// When every move succeeds, the counts are the numbers of those who came and
/// those who left.
pub proof fn law_success_counts(
    config: ConfigView,
    seating: Map<i64, Set<u64>>,
    team_id: i64,
    table_id: i64,
    join: TableJoinView,
    outcomes: Seq<bool>,
)
    requires
        planned(config, seating, team_id, table_id, join),
        outcomes.len() == join.moves.len(),
        forall|i: int| 0 <= i < outcomes.len() ==> #[trigger] outcomes[i],
    ensures
        ({
            let end = after_outcomes(join, outcomes);
            &&& end.people_in == to_join(config, seating, team_id, table_id).len()
            &&& end.people_out == to_kick(config, seating, team_id, table_id).len()
            &&& end.people_fail == 0
        }),
{
    let (leaving, coming) = leavers_and_comers(config, seating, team_id, table_id, join);
    leaving.unique_seq_to_set();
    coming.unique_seq_to_set();
    assert forall|i: int| 0 <= i < join.moves.len() implies (#[trigger] join.moves[i]).kick == (i
        < leaving.len()) by {
        if i < leaving.len() {
            assert(join.moves[i] == departures(config, leaving)[i]);
        } else {
            assert(join.moves[i] == arrivals(config, coming, table_id)[i - leaving.len()]);
        }
    }
    lemma_full_success(join, leaving.len(), outcomes);
}

} // verus!
