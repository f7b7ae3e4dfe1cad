//! Which participants sit in the voice channel of which table.

use std::collections::{HashMap, HashSet};

use vstd::prelude::*;

use crate::config::{Config, ConfigView};

verus! {

/// The voice channel that a user is in, if any, as the chat service reports it.
#[derive(Clone, Copy, Debug, PartialEq, Eq, Structural)]
pub struct VoiceReport {
    pub user: u64,
    pub channel: Option<u64>,
}

/// The participants in the voice channel of each table.
pub struct TableVoiceState {
    pub members: HashMap<i64, HashSet<u64>>,
}

impl View for TableVoiceState {
    type V = Map<i64, Set<u64>>;

    open spec fn view(&self) -> Map<i64, Set<u64>> {
        self.members@.map_values(|members: HashSet<u64>| members@)
    }
}

/// The users at a table.
pub open spec fn seated_at(seating: Map<i64, Set<u64>>, table: i64) -> Set<u64> {
    if seating.contains_key(table) {
        seating[table]
    } else {
        Set::empty()
    }
}

/// `seating` with `user` at `table`, if a table is given.
pub open spec fn seat(seating: Map<i64, Set<u64>>, table: Option<i64>, user: u64) -> Map<
    i64,
    Set<u64>,
> {
    match table {
        Some(t) => seating.insert(t, seated_at(seating, t).insert(user)),
        None => seating,
    }
}

/// `seating` with `user` not at `table`, if a table is given.
pub open spec fn unseat(seating: Map<i64, Set<u64>>, table: Option<i64>, user: u64) -> Map<
    i64,
    Set<u64>,
> {
    match table {
        Some(t) => seating.insert(t, seated_at(seating, t).remove(user)),
        None => seating,
    }
}

impl VoiceReport {
    /// Whether `table` is a lookup of the table whose channel the user is in.
    pub open spec fn is_at(self, config: ConfigView, table: Option<i64>) -> bool {
        match self.channel {
            Some(channel) => config.is_table_of(channel, table),
            None => table is None,
        }
    }
}

/// `seating` after the given reports, where `tables` says at which table each
/// of them puts its user.
pub open spec fn seat_all(
    seating: Map<i64, Set<u64>>,
    reports: Seq<VoiceReport>,
    tables: Seq<Option<i64>>,
) -> Map<i64, Set<u64>>
    decreases reports.len(),
{
    if reports.len() == 0 {
        seating
    } else {
        seat(
            seat_all(seating, reports.drop_last(), tables.drop_last()),
            tables.last(),
            reports.last().user,
        )
    }
}

/// Whether `tables` looks up the table of each report, leaving out those of
/// other people than participants.
pub open spec fn looks_up(
    config: ConfigView,
    reports: Seq<VoiceReport>,
    tables: Seq<Option<i64>>,
) -> bool {
    &&& tables.len() == reports.len()
    &&& forall|i: int|
        0 <= i < reports.len() ==> if config.participants.contains(reports[i].user) {
            reports[i].is_at(config, #[trigger] tables[i])
        } else {
            tables[i] is None
        }
}

/// How the seating changes when the state of a guild is first reported.
pub open spec fn guild_reported(
    config: ConfigView,
    guild: u64,
    reports: Seq<VoiceReport>,
    before: Map<i64, Set<u64>>,
    after: Map<i64, Set<u64>>,
) -> bool {
    if guild == config.guild_id {
        exists|tables: Seq<Option<i64>>| #[trigger]
            looks_up(config, reports, tables) && after == seat_all(before, reports, tables)
    } else {
        after == before
    }
}

/// Whether an update concerns the seating: it is about a participant in the
/// configured guild.
pub open spec fn update_counts(
    config: ConfigView,
    guild: Option<u64>,
    current: VoiceReport,
) -> bool {
    guild == Some(config.guild_id) && config.participants.contains(current.user)
}

/// Whether the user leaves `from` and sits down at `to`, where a table is
/// given.
pub open spec fn moves(
    config: ConfigView,
    previous: Option<VoiceReport>,
    current: VoiceReport,
    from: Option<i64>,
    to: Option<i64>,
) -> bool {
    &&& match previous {
        Some(report) => report.is_at(config, from),
        None => from is None,
    }
    &&& current.is_at(config, to)
}

/// How the seating changes when the voice state of a user is updated.
pub open spec fn user_updated(
    config: ConfigView,
    guild: Option<u64>,
    previous: Option<VoiceReport>,
    current: VoiceReport,
    before: Map<i64, Set<u64>>,
    after: Map<i64, Set<u64>>,
) -> bool {
    if update_counts(config, guild, current) {
        exists|from: Option<i64>, to: Option<i64>| #[trigger]
            moves(config, previous, current, from, to) && after == seat(
                unseat(before, from, current.user),
                to,
                current.user,
            )
    } else {
        after == before
    }
}

impl TableVoiceState {
    /// Nobody at any table.
    pub fn new() -> (state: TableVoiceState)
        ensures
            state@ == Map::<i64, Set<u64>>::empty(),
    {
        let state = TableVoiceState { members: HashMap::new() };
        assert(state@ =~= Map::<i64, Set<u64>>::empty());
        state
    }

    fn seat_at(&mut self, table: i64, user: u64)
        ensures
            final(self)@ == seat(old(self)@, Some(table), user),
    {
        let members = self.members.entry(table).or_insert(HashSet::new());
        members.insert(user);
        assert(self@ =~= seat(old(self)@, Some(table), user));
    }

    fn unseat_from(&mut self, table: i64, user: u64)
        ensures
            final(self)@ == unseat(old(self)@, Some(table), user),
    {
        let members = self.members.entry(table).or_insert(HashSet::new());
        members.remove(&user);
        assert(self@ =~= unseat(old(self)@, Some(table), user));
    }

    /// Takes in the voice states of a guild: each participant who is in the
    /// channel of a table is seated there.  Other guilds are ignored.
    pub fn guild_create(&mut self, config: &Config, guild: u64, voice_states: &Vec<VoiceReport>)
        ensures
            guild_reported(config@, guild, voice_states@, old(self)@, final(self)@),
    {
        if guild != config.guild_id {
            return;
        }
        let ghost before = self@;
        let ghost mut tables: Seq<Option<i64>> = Seq::empty();
        let mut i: usize = 0;
        while i < voice_states.len()
            invariant
                i <= voice_states.len(),
                looks_up(config@, voice_states@.take(i as int), tables),
                self@ == seat_all(before, voice_states@.take(i as int), tables),
            decreases voice_states.len() - i,
        {
            let report = voice_states[i];
            let mut table: Option<i64> = None;
            if config.participants.contains(&report.user) {
                if let Some(channel) = report.channel {
                    table = config.table_of_channel(channel);
                    if let Some(t) = table {
                        self.seat_at(t, report.user);
                    }
                }
            }
            proof {
                let done = voice_states@.take(i as int);
                let next = voice_states@.take(i + 1);
                assert(next.drop_last() =~= done);
                assert(tables.push(table).drop_last() =~= tables);
                assert forall|j: int| 0 <= j < next.len() implies if config@.participants.contains(
                    next[j].user,
                ) {
                    next[j].is_at(config@, #[trigger] tables.push(table)[j])
                } else {
                    tables.push(table)[j] is None
                } by {
                    if j < i {
                        assert(done[j] == next[j]);
                        assert(tables.push(table)[j] == tables[j]);
                    }
                }
                tables = tables.push(table);
            }
            i += 1;
        }
        assert(voice_states@.take(i as int) =~= voice_states@);
    }

    /// Whether an update concerns the seating: it is about a participant in
    /// the configured guild.
    pub fn concerns(config: &Config, guild: Option<u64>, current: &VoiceReport) -> (counts: bool)
        ensures
            counts == update_counts(config@, guild, *current),
    {
        let ours = match guild {
            Some(id) => id == config.guild_id,
            None => false,
        };
        ours && config.participants.contains(&current.user)
    }

    /// Takes in a change of one user's voice state: a participant leaves the
    /// table of their previous channel and sits down at that of the current
    /// one.  Updates of other people, or from other guilds, are ignored.
    pub fn voice_state_update(
        &mut self,
        config: &Config,
        guild: Option<u64>,
        previous: Option<VoiceReport>,
        current: VoiceReport,
    )
        requires
            update_counts(config@, guild, current) ==> (previous matches Some(report) ==>
                report.user == current.user),
        ensures
            user_updated(config@, guild, previous, current, old(self)@, final(self)@),
    {
        if !TableVoiceState::concerns(config, guild, &current) {
            return;
        }
        let mut from: Option<i64> = None;
        if let Some(report) = previous {
            if let Some(channel) = report.channel {
                from = config.table_of_channel(channel);
                if let Some(table) = from {
                    self.unseat_from(table, report.user);
                }
            }
        }
        let mut to: Option<i64> = None;
        if let Some(channel) = current.channel {
            to = config.table_of_channel(channel);
            if let Some(table) = to {
                self.seat_at(table, current.user);
            }
        }
        assert(moves(config@, previous, current, from, to));
    }
}

/// Whether only participants are seated.
pub open spec fn participants_only(config: ConfigView, seating: Map<i64, Set<u64>>) -> bool {
    forall|table: i64, user: u64| #[trigger]
        seated_at(seating, table).contains(user) ==> config.participants.contains(user)
}

/// The voice channels of users after one more report.
pub open spec fn relocate(whereabouts: Map<u64, u64>, report: VoiceReport) -> Map<u64, u64> {
    match report.channel {
        Some(channel) => whereabouts.insert(report.user, channel),
        None => whereabouts.remove(report.user),
    }
}

/// The voice channels of users according to the given reports.
pub open spec fn located(reports: Seq<VoiceReport>) -> Map<u64, u64>
    decreases reports.len(),
{
    if reports.len() == 0 {
        Map::empty()
    } else {
        relocate(located(reports.drop_last()), reports.last())
    }
}

/// Whether the seating agrees with where users are: exactly the participants
/// in the channel of a table are seated at it.
pub open spec fn tracks(
    config: ConfigView,
    seating: Map<i64, Set<u64>>,
    whereabouts: Map<u64, u64>,
) -> bool {
    forall|table: i64, user: u64| #[trigger]
        seated_at(seating, table).contains(user) <==> config.participants.contains(user)
            && whereabouts.contains_key(user) && config.is_table_channel(table, whereabouts[user])
}

proof fn lemma_seat_all_participants(
    config: ConfigView,
    reports: Seq<VoiceReport>,
    tables: Seq<Option<i64>>,
    before: Map<i64, Set<u64>>,
)
    requires
        participants_only(config, before),
        looks_up(config, reports, tables),
    ensures
        participants_only(config, seat_all(before, reports, tables)),
    decreases reports.len(),
{
    if reports.len() > 0 {
        let shorter = seat_all(before, reports.drop_last(), tables.drop_last());
        assert(looks_up(config, reports.drop_last(), tables.drop_last())) by {
            assert forall|i: int|
                0 <= i < reports.drop_last().len() implies if config.participants.contains(
                reports.drop_last()[i].user,
            ) {
                reports.drop_last()[i].is_at(config, #[trigger] tables.drop_last()[i])
            } else {
                tables.drop_last()[i] is None
            } by {
                assert(tables.drop_last()[i] == tables[i]);
            }
        }
        lemma_seat_all_participants(config, reports.drop_last(), tables.drop_last(), before);
        let last = reports.len() - 1;
        assert(tables[last] == tables.last());
        assert forall|table: i64, user: u64| #[trigger]
            seated_at(seat_all(before, reports, tables), table).contains(
                user,
            ) implies config.participants.contains(user) by {
            if !seated_at(shorter, table).contains(user) {
                assert(tables.last() == Some(table));
            }
        }
    }
}

/// A guild report never seats anyone but participants.
pub proof fn law_guild_report_keeps_participants(
    config: ConfigView,
    guild: u64,
    reports: Seq<VoiceReport>,
    before: Map<i64, Set<u64>>,
    after: Map<i64, Set<u64>>,
)
    requires
        guild_reported(config, guild, reports, before, after),
        participants_only(config, before),
    ensures
        participants_only(config, after),
{
    if guild == config.guild_id {
        let tables = choose|tables: Seq<Option<i64>>| #[trigger]
            looks_up(config, reports, tables) && after == seat_all(before, reports, tables);
        lemma_seat_all_participants(config, reports, tables, before);
    }
}

/// A voice state update never seats anyone but participants.
pub proof fn law_update_keeps_participants(
    config: ConfigView,
    guild: Option<u64>,
    previous: Option<VoiceReport>,
    current: VoiceReport,
    before: Map<i64, Set<u64>>,
    after: Map<i64, Set<u64>>,
)
    requires
        user_updated(config, guild, previous, current, before, after),
        participants_only(config, before),
    ensures
        participants_only(config, after),
{
    if update_counts(config, guild, current) {
        let (from, to) = choose|from: Option<i64>, to: Option<i64>| #[trigger]
            moves(config, previous, current, from, to) && after == seat(
                unseat(before, from, current.user),
                to,
                current.user,
            );
        let between = unseat(before, from, current.user);
        assert forall|table: i64, user: u64| #[trigger]
            seated_at(after, table).contains(user) implies config.participants.contains(user) by {
            if user != current.user {
                assert(seated_at(between, table).contains(user));
                assert(seated_at(before, table).contains(user));
            }
        }
    }
}

proof fn lemma_seat_all_tracks(
    config: ConfigView,
    reports: Seq<VoiceReport>,
    tables: Seq<Option<i64>>,
    before: Map<i64, Set<u64>>,
)
    requires
        config.distinct_channels(),
        looks_up(config, reports, tables),
        tracks(config, before, Map::empty()),
        forall|i: int, j: int|
            0 <= i < j < reports.len() ==> (#[trigger] reports[i]).user != (
            #[trigger] reports[j]).user,
    ensures
        tracks(config, seat_all(before, reports, tables), located(reports)),
        forall|user: u64| #[trigger]
            located(reports).contains_key(user) ==> exists|i: int|
                0 <= i < reports.len() && (#[trigger] reports[i]).user == user,
    decreases reports.len(),
{
    if reports.len() > 0 {
        let early = reports.drop_last();
        let early_tables = tables.drop_last();
        let last = reports.last();
        assert(looks_up(config, early, early_tables)) by {
            assert forall|i: int| 0 <= i < early.len() implies if config.participants.contains(
                early[i].user,
            ) {
                early[i].is_at(config, #[trigger] early_tables[i])
            } else {
                early_tables[i] is None
            } by {
                assert(early_tables[i] == tables[i]);
            }
        }
        lemma_seat_all_tracks(config, early, early_tables, before);
        let shorter = seat_all(before, early, early_tables);
        let after = seat_all(before, reports, tables);
        assert(tables[reports.len() - 1] == tables.last());
        assert(reports[reports.len() - 1] == last);
        assert(!located(early).contains_key(last.user)) by {
            if located(early).contains_key(last.user) {
                let i = choose|i: int|
                    0 <= i < early.len() && (#[trigger] early[i]).user == last.user;
                assert(reports[i] == early[i]);
            }
        }
        assert forall|user: u64| #[trigger] located(reports).contains_key(user) implies exists|
            i: int,
        |
            0 <= i < reports.len() && (#[trigger] reports[i]).user == user by {
            if user == last.user {
                assert(reports[reports.len() - 1].user == user);
            } else {
                assert(located(early).contains_key(user));
                let i = choose|i: int| 0 <= i < early.len() && (#[trigger] early[i]).user == user;
                assert(reports[i].user == user);
            }
        }
        assert forall|table: i64, user: u64| #[trigger]
            seated_at(after, table).contains(user) <==> config.participants.contains(user)
                && located(reports).contains_key(user) && config.is_table_channel(
                table,
                located(reports)[user],
            ) by {
            assert(seated_at(shorter, table).contains(user) <==> config.participants.contains(user)
                && located(early).contains_key(user) && config.is_table_channel(
                table,
                located(early)[user],
            ));
            if user == last.user && config.participants.contains(user) {
                if let Some(channel) = last.channel {
                    assert(config.is_table_of(channel, tables.last()));
                    if config.is_table_channel(table, channel) {
                        let t = tables.last()->0;
                        assert(config.tables[t] == config.tables[table]);
                    }
                }
            }
        }
    }
}

/// After the first report of a guild, the seating agrees with where its users
/// are.
pub proof fn law_guild_report_tracks(
    config: ConfigView,
    guild: u64,
    reports: Seq<VoiceReport>,
    before: Map<i64, Set<u64>>,
    after: Map<i64, Set<u64>>,
)
    requires
        config.distinct_channels(),
        guild == config.guild_id,
        guild_reported(config, guild, reports, before, after),
        forall|table: i64| seated_at(before, table) == Set::<u64>::empty(),
        forall|i: int, j: int|
            0 <= i < j < reports.len() ==> (#[trigger] reports[i]).user != (
            #[trigger] reports[j]).user,
    ensures
        tracks(config, after, located(reports)),
{
    let tables = choose|tables: Seq<Option<i64>>| #[trigger]
        looks_up(config, reports, tables) && after == seat_all(before, reports, tables);
    assert(tracks(config, before, Map::empty())) by {
        assert forall|table: i64, user: u64| !#[trigger] seated_at(before, table).contains(
            user,
        ) by {
            assert(seated_at(before, table) == Set::<u64>::empty());
        }
    }
    lemma_seat_all_tracks(config, reports, tables, before);
}

/// A voice state update keeps the seating in agreement with where users are,
/// provided it names the channel that the user was in.
pub proof fn law_update_tracks(
    config: ConfigView,
    previous: Option<VoiceReport>,
    current: VoiceReport,
    before: Map<i64, Set<u64>>,
    after: Map<i64, Set<u64>>,
    whereabouts: Map<u64, u64>,
)
    requires
        config.distinct_channels(),
        tracks(config, before, whereabouts),
        config.participants.contains(current.user),
        user_updated(config, Some(config.guild_id), previous, current, before, after),
        match previous {
            Some(report) => report.user == current.user && report.channel == whereabouts.get(
                current.user,
            ),
            None => !whereabouts.contains_key(current.user),
        },
    ensures
        tracks(config, after, relocate(whereabouts, current)),
{
    let (from, to) = choose|from: Option<i64>, to: Option<i64>| #[trigger]
        moves(config, previous, current, from, to) && after == seat(
            unseat(before, from, current.user),
            to,
            current.user,
        );
    let between = unseat(before, from, current.user);
    let now = relocate(whereabouts, current);
    assert forall|table: i64, user: u64| #[trigger]
        seated_at(after, table).contains(user) <==> config.participants.contains(user)
            && now.contains_key(user) && config.is_table_channel(table, now[user]) by {
        assert(seated_at(before, table).contains(user) <==> config.participants.contains(user)
            && whereabouts.contains_key(user) && config.is_table_channel(table, whereabouts[user]));
        if user == current.user {
            assert(!seated_at(between, table).contains(user)) by {
                if seated_at(before, table).contains(user) {
                    assert(config.is_table_of(whereabouts[user], from));
                    let t = from->0;
                    assert(config.tables[t] == config.tables[table]);
                }
            }
            if let Some(channel) = current.channel {
                if config.is_table_channel(table, channel) {
                    let t = to->0;
                    assert(config.tables[t] == config.tables[table]);
                }
            }
        }
    }
}

/// An update, user by user and table by table: the participant whom it is about
/// comes to sit at the table whose channel they are in now and no longer sits at
/// the one whose channel they were in before; everyone else stays, and everyone
/// does on an update from another guild or about someone else.
pub proof fn law_update_for_each_user(
    config: ConfigView,
    guild: Option<u64>,
    previous: Option<VoiceReport>,
    current: VoiceReport,
    before: Map<i64, Set<u64>>,
    after: Map<i64, Set<u64>>,
    table: i64,
    user: u64,
)
    requires
        config.distinct_channels(),
        user_updated(config, guild, previous, current, before, after),
    ensures
        ({
            let sat = before.contains_key(table) && before[table].contains(user);
            let sits = after.contains_key(table) && after[table].contains(user);
            let comes = config.tables.contains_key(table) && current.channel == Some(
                config.tables[table],
            );
            let goes = previous is Some && config.tables.contains_key(table)
                && previous->0.channel == Some(config.tables[table]);
            if guild == Some(config.guild_id) && config.participants.contains(user) && user
                == current.user {
                sits <==> comes || sat && !goes
            } else {
                sits <==> sat
            }
        }),
{
    if update_counts(config, guild, current) {
        let (from, to) = choose|from: Option<i64>, to: Option<i64>| #[trigger]
            moves(config, previous, current, from, to) && after == seat(
                unseat(before, from, current.user),
                to,
                current.user,
            );
        assert(moves(config, previous, current, from, to));
        if config.tables.contains_key(table) {
            assert(config.is_table_channel(table, config.tables[table]));
            if let Some(t) = from {
                assert(config.tables[t] == config.tables[table] ==> t == table);
            }
            if let Some(t) = to {
                assert(config.tables[t] == config.tables[table] ==> t == table);
            }
        }
    }
}

/// An update where tables may share channels: others stay where they are, the
/// user comes to sit at a table with the channel they are in now, if there is
/// one, and nothing changes at tables whose channel they neither were in nor
/// are in.
pub proof fn law_update_with_shared_channels(
    config: ConfigView,
    guild: Option<u64>,
    previous: Option<VoiceReport>,
    current: VoiceReport,
    before: Map<i64, Set<u64>>,
    after: Map<i64, Set<u64>>,
)
    requires
        user_updated(config, guild, previous, current, before, after),
    ensures
        guild != Some(config.guild_id) || !config.participants.contains(current.user) ==> after
            == before,
        forall|table: i64, user: u64|
            #![trigger seated_at(after, table).contains(user)]
            user != current.user ==> (seated_at(after, table).contains(user) <==> seated_at(
                before,
                table,
            ).contains(user)),
        forall|table: i64|
            #![trigger seated_at(after, table)]
            (current.channel is Some ==> !config.is_table_channel(table, current.channel->0)) && (
            previous is Some && previous->0.channel is Some ==> !config.is_table_channel(
                table,
                previous->0.channel->0,
            )) ==> seated_at(after, table) == seated_at(before, table),
        guild == Some(config.guild_id) && config.participants.contains(current.user)
            && current.channel is Some && (exists|table: i64|
            config.is_table_channel(table, current.channel->0)) ==> exists|table: i64|
            config.is_table_channel(table, current.channel->0) && #[trigger] seated_at(
                after,
                table,
            ).contains(current.user),
{
    if update_counts(config, guild, current) {
        let (from, to) = choose|from: Option<i64>, to: Option<i64>| #[trigger]
            moves(config, previous, current, from, to) && after == seat(
                unseat(before, from, current.user),
                to,
                current.user,
            );
        assert(moves(config, previous, current, from, to));
        if let Some(table) = to {
            assert(seated_at(after, table).contains(current.user));
        }
    }
}

proof fn lemma_seat_all_for_each_user(
    config: ConfigView,
    reports: Seq<VoiceReport>,
    tables: Seq<Option<i64>>,
    before: Map<i64, Set<u64>>,
    table: i64,
    user: u64,
)
    requires
        config.distinct_channels(),
        looks_up(config, reports, tables),
    ensures
        ({
            let after = seat_all(before, reports, tables);
            let sat = before.contains_key(table) && before[table].contains(user);
            let sits = after.contains_key(table) && after[table].contains(user);
            sits <==> sat || config.participants.contains(user) && config.tables.contains_key(
                table,
            ) && exists|i: int|
                0 <= i < reports.len() && (#[trigger] reports[i]).user == user && reports[i].channel
                    == Some(config.tables[table])
        }),
    decreases reports.len(),
{
    if reports.len() > 0 {
        let shorter = reports.drop_last();
        let fewer = tables.drop_last();
        let last = reports.last();
        assert forall|i: int| 0 <= i < shorter.len() implies if config.participants.contains(
            shorter[i].user,
        ) {
            shorter[i].is_at(config, #[trigger] fewer[i])
        } else {
            fewer[i] is None
        } by {
            assert(tables[i] == fewer[i]);
        }
        lemma_seat_all_for_each_user(config, shorter, fewer, before, table, user);
        let to = tables[reports.len() - 1];
        assert(to == tables.last());
        if config.tables.contains_key(table) {
            assert(config.is_table_channel(table, config.tables[table]));
            if let Some(t) = to {
                if config.participants.contains(last.user) {
                    assert(config.tables[t] == config.tables[table] ==> t == table);
                }
            }
        }
        let named = |list: Seq<VoiceReport>| exists|i: int|
            0 <= i < list.len() && (#[trigger] list[i]).user == user && list[i].channel == Some(
                config.tables[table],
            );
        assert(named(reports) <==> named(shorter) || last.user == user && last.channel == Some(
            config.tables[table],
        )) by {
            if named(reports) {
                let i = choose|i: int|
                    0 <= i < reports.len() && (#[trigger] reports[i]).user == user
                        && reports[i].channel == Some(config.tables[table]);
                if i < shorter.len() {
                    assert(shorter[i] == reports[i]);
                }
            }
            if named(shorter) {
                let i = choose|i: int|
                    0 <= i < shorter.len() && (#[trigger] shorter[i]).user == user
                        && shorter[i].channel == Some(config.tables[table]);
                assert(reports[i] == shorter[i]);
            }
            if last.user == user && last.channel == Some(config.tables[table]) {
                assert(reports[reports.len() - 1] == last);
            }
        }
    }
}

/// The first report of the configured guild, user by user and table by table:
/// the participants whom it places in the channel of a table sit there, besides
/// those who sat there before; other guilds' reports change nothing.
pub proof fn law_guild_report_for_each_user(
    config: ConfigView,
    guild: u64,
    reports: Seq<VoiceReport>,
    before: Map<i64, Set<u64>>,
    after: Map<i64, Set<u64>>,
    table: i64,
    user: u64,
)
    requires
        config.distinct_channels(),
        guild_reported(config, guild, reports, before, after),
    ensures
        ({
            let sat = before.contains_key(table) && before[table].contains(user);
            let sits = after.contains_key(table) && after[table].contains(user);
            sits <==> sat || guild == config.guild_id && config.participants.contains(user)
                && config.tables.contains_key(table) && exists|i: int|
                0 <= i < reports.len() && (#[trigger] reports[i]).user == user && reports[i].channel
                    == Some(config.tables[table])
        }),
{
    if guild == config.guild_id {
        let tables = choose|tables: Seq<Option<i64>>| #[trigger]
            looks_up(config, reports, tables) && after == seat_all(before, reports, tables);
        lemma_seat_all_for_each_user(config, reports, tables, before, table, user);
    }
}

} // verus!
