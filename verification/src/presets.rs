//! The settings of the two deployments.

use std::collections::{HashMap, HashSet};

use vstd::prelude::*;
use vstd::string::*;

use crate::config::{Config, ConfigView, DUMMY_TABLE, DUMMY_TEAM};

verus! {

/// A team: its number, its members, and the voice channel to which they
/// return.
#[derive(Debug)]
pub struct TeamEntry {
    pub id: i64,
    pub members: Vec<u64>,
    pub room: u64,
}

/// The mathematical content of a [`TeamEntry`].
#[verifier::ext_equal]
pub struct TeamEntryView {
    pub id: i64,
    pub members: Seq<u64>,
    pub room: u64,
}

impl View for TeamEntry {
    type V = TeamEntryView;

    open spec fn view(&self) -> TeamEntryView {
        TeamEntryView { id: self.id, members: self.members@, room: self.room }
    }
}

/// The mathematical content of a list of teams.
pub open spec fn entries_view(entries: Seq<TeamEntry>) -> Seq<TeamEntryView> {
    entries.map_values(|entry: TeamEntry| entry@)
}

/// The mathematical content of a list of named teams.
pub open spec fn names_view(names: Seq<(i64, &str)>) -> Seq<(i64, Seq<char>)> {
    names.map_values(|name: (i64, &str)| (name.0, name.1@))
}

/// The map with the given entries; the last one counts for each key.
pub open spec fn map_of<K, V>(entries: Seq<(K, V)>) -> Map<K, V>
    decreases entries.len(),
{
    if entries.len() == 0 {
        Map::empty()
    } else {
        map_of(entries.drop_last()).insert(entries.last().0, entries.last().1)
    }
}

/// Each team with its members.
pub open spec fn member_sets(entries: Seq<TeamEntryView>) -> Seq<(i64, Set<u64>)> {
    entries.map_values(|entry: TeamEntryView| (entry.id, entry.members.to_set()))
}

/// Each team with its voice channel.
pub open spec fn home_rooms(entries: Seq<TeamEntryView>) -> Seq<(i64, u64)> {
    entries.map_values(|entry: TeamEntryView| (entry.id, entry.room))
}

/// The members of all teams.
pub open spec fn participants_of(entries: Seq<TeamEntryView>) -> Set<u64>
    decreases entries.len(),
{
    if entries.len() == 0 {
        Set::empty()
    } else {
        participants_of(entries.drop_last()).union(entries.last().members.to_set())
    }
}

/// The team of each user; the last one, for a user who is listed in several.
pub open spec fn user_teams_of(entries: Seq<TeamEntryView>) -> Map<u64, i64>
    decreases entries.len(),
{
    if entries.len() == 0 {
        Map::empty()
    } else {
        user_teams_of(entries.drop_last()).union_prefer_right(
            Map::new(
                |user: u64| entries.last().members.contains(user),
                |user: u64| entries.last().id,
            ),
        )
    }
}

/// The settings that follow from lists of teams, tables and so on.
pub open spec fn assembled(
    environment: Seq<char>,
    token: Seq<char>,
    app_id: u64,
    guild_id: u64,
    tables: Seq<(i64, u64)>,
    entries: Seq<TeamEntryView>,
    names: Seq<(i64, Seq<char>)>,
    blessed: Seq<u64>,
) -> ConfigView {
    ConfigView {
        environment,
        token,
        app_id,
        guild_id,
        tables: map_of(tables),
        teams: map_of(member_sets(entries)),
        team_names: map_of(names),
        user_teams: user_teams_of(entries),
        team_voice_rooms: map_of(home_rooms(entries)),
        participants: participants_of(entries),
        blessed_users: blessed.to_set(),
    }
}

fn id_set(ids: &Vec<u64>) -> (set: HashSet<u64>)
    ensures
        set@ == ids@.to_set(),
{
    let mut set: HashSet<u64> = HashSet::new();
    let mut i: usize = 0;
    while i < ids.len()
        invariant
            i <= ids.len(),
            set@ == ids@.take(i as int).to_set(),
        decreases ids.len() - i,
    {
        set.insert(ids[i]);
        proof {
            lemma_to_set_step(ids@, i as int);
        }
        i += 1;
    }
    assert(ids@.take(i as int) =~= ids@);
    set
}

proof fn lemma_to_set_step(ids: Seq<u64>, i: int)
    requires
        0 <= i < ids.len(),
    ensures
        ids.take(i + 1).to_set() == ids.take(i).to_set().insert(ids[i]),
{
    let longer = ids.take(i + 1);
    let shorter = ids.take(i);
    assert forall|id: u64| #[trigger] longer.contains(id) <==> shorter.contains(id) || id
        == ids[i] by {
        if longer.contains(id) {
            let k = choose|k: int| 0 <= k < longer.len() && longer[k] == id;
            if k < i {
                assert(shorter[k] == id);
            }
        }
        if shorter.contains(id) {
            let k = choose|k: int| 0 <= k < shorter.len() && shorter[k] == id;
            assert(longer[k] == id);
        }
        if id == ids[i] {
            assert(longer[i] == id);
        }
    }
    assert(longer.to_set() =~= shorter.to_set().insert(ids[i]));
}

fn channel_map(tables: &Vec<(i64, u64)>) -> (map: HashMap<i64, u64>)
    ensures
        map@ == map_of(tables@),
{
    let mut map: HashMap<i64, u64> = HashMap::new();
    let mut i: usize = 0;
    while i < tables.len()
        invariant
            i <= tables.len(),
            map@ == map_of(tables@.take(i as int)),
        decreases tables.len() - i,
    {
        map.insert(tables[i].0, tables[i].1);
        assert(tables@.take(i + 1).drop_last() =~= tables@.take(i as int));
        i += 1;
    }
    assert(tables@.take(i as int) =~= tables@);
    map
}

fn name_map(names: &Vec<(i64, &str)>) -> (map: HashMap<i64, String>)
    ensures
        map@.map_values(|name: String| name@) == map_of(names_view(names@)),
{
    let mut map: HashMap<i64, String> = HashMap::new();
    let mut i: usize = 0;
    assert(map@.map_values(|name: String| name@) =~= Map::<i64, Seq<char>>::empty());
    while i < names.len()
        invariant
            i <= names.len(),
            map@.map_values(|name: String| name@) == map_of(names_view(names@).take(i as int)),
        decreases names.len() - i,
    {
        let ghost before = map@;
        let name = names[i].1.to_string();
        map.insert(names[i].0, name);
        proof {
            assert(names_view(names@).take(i + 1).drop_last() =~= names_view(names@).take(
                i as int,
            ));
            assert(map@.map_values(|name: String| name@) =~= before.map_values(
                |name: String| name@,
            ).insert(names@[i as int].0, name@));
        }
        i += 1;
    }
    assert(names_view(names@).take(i as int) =~= names_view(names@));
    map
}

impl Config {
    /// Settings from lists: the participants are the members of the teams, and
    /// each belongs to the team that lists them.
    pub fn assemble(
        environment: String,
        token: String,
        app_id: u64,
        guild_id: u64,
        tables: &Vec<(i64, u64)>,
        entries: &Vec<TeamEntry>,
        names: &Vec<(i64, &str)>,
        blessed: &Vec<u64>,
    ) -> (config: Config)
        ensures
            config@ == assembled(
                environment@,
                token@,
                app_id,
                guild_id,
                tables@,
                entries_view(entries@),
                names_view(names@),
                blessed@,
            ),
    {
        let ghost view = entries_view(entries@);
        let mut teams: HashMap<i64, HashSet<u64>> = HashMap::new();
        let mut user_teams: HashMap<u64, i64> = HashMap::new();
        let mut rooms: HashMap<i64, u64> = HashMap::new();
        let mut participants: HashSet<u64> = HashSet::new();
        let mut i: usize = 0;
        assert(teams@.map_values(|members: HashSet<u64>| members@) =~= Map::<
            i64,
            Set<u64>,
        >::empty());
        while i < entries.len()
            invariant
                i <= entries.len(),
                view == entries_view(entries@),
                teams@.map_values(|members: HashSet<u64>| members@) == map_of(
                    member_sets(view.take(i as int)),
                ),
                user_teams@ == user_teams_of(view.take(i as int)),
                rooms@ == map_of(home_rooms(view.take(i as int))),
                participants@ == participants_of(view.take(i as int)),
            decreases entries.len() - i,
        {
            let entry = &entries[i];
            let ghost teams_before = teams@;
            let ghost users_before = user_teams@;
            let ghost participants_before = participants@;
            let members = id_set(&entry.members);
            let ghost member_set = members@;
            let mut k: usize = 0;
            while k < entry.members.len()
                invariant
                    k <= entry.members.len(),
                    participants@ == participants_before.union(
                        entry.members@.take(k as int).to_set(),
                    ),
                    user_teams@ == users_before.union_prefer_right(
                        Map::new(
                            |user: u64| entry.members@.take(k as int).contains(user),
                            |user: u64| entry.id,
                        ),
                    ),
                decreases entry.members.len() - k,
            {
                let user = entry.members[k];
                participants.insert(user);
                user_teams.insert(user, entry.id);
                proof {
                    lemma_to_set_step(entry.members@, k as int);
                    let longer = entry.members@.take(k + 1);
                    let shorter = entry.members@.take(k as int);
                    assert(participants@ =~= participants_before.union(longer.to_set()));
                    assert forall|u: u64| #[trigger] longer.contains(u) <==> shorter.contains(u)
                        || u == user by {
                        assert(longer.to_set().contains(u) <==> longer.contains(u));
                        assert(shorter.to_set().contains(u) <==> shorter.contains(u));
                    }
                    assert(user_teams@ =~= users_before.union_prefer_right(
                        Map::new(|u: u64| longer.contains(u), |u: u64| entry.id),
                    ));
                }
                k += 1;
            }
            teams.insert(entry.id, members);
            rooms.insert(entry.id, entry.room);
            proof {
                assert(entry.members@.take(k as int) =~= entry.members@);
                let shorter = view.take(i as int);
                let longer = view.take(i + 1);
                assert(longer.drop_last() =~= shorter);
                assert(longer.last() == entry@);
                assert(member_sets(longer).drop_last() =~= member_sets(shorter));
                assert(home_rooms(longer).drop_last() =~= home_rooms(shorter));
                assert(teams@.map_values(|members: HashSet<u64>| members@)
                    =~= teams_before.map_values(|members: HashSet<u64>| members@).insert(
                    entry.id,
                    member_set,
                ));
            }
            i += 1;
        }
        assert(view.take(i as int) =~= view);
        Config {
            environment,
            token,
            app_id,
            guild_id,
            tables: channel_map(tables),
            teams,
            team_names: name_map(names),
            user_teams,
            team_voice_rooms: rooms,
            participants,
            blessed_users: id_set(blessed),
        }
    }
}

/// A key is in the map exactly if an entry has it.
pub proof fn lemma_map_of_keys<K, V>(entries: Seq<(K, V)>)
    ensures
        forall|key: K| #[trigger]
            map_of(entries).contains_key(key) <==> exists|i: int|
                0 <= i < entries.len() && (#[trigger] entries[i]).0 == key,
    decreases entries.len(),
{
    if entries.len() > 0 {
        let shorter = entries.drop_last();
        lemma_map_of_keys(shorter);
        assert forall|key: K| #[trigger] map_of(entries).contains_key(key) <==> exists|i: int|
            0 <= i < entries.len() && (#[trigger] entries[i]).0 == key by {
            if map_of(entries).contains_key(key) {
                if key == entries.last().0 {
                    assert(entries[entries.len() - 1].0 == key);
                } else {
                    assert(map_of(shorter).contains_key(key));
                    let i = choose|i: int|
                        0 <= i < shorter.len() && (#[trigger] shorter[i]).0 == key;
                    assert(entries[i].0 == key);
                }
            }
            if exists|i: int| 0 <= i < entries.len() && (#[trigger] entries[i]).0 == key {
                let i = choose|i: int| 0 <= i < entries.len() && (#[trigger] entries[i]).0 == key;
                if i < shorter.len() {
                    assert(shorter[i].0 == key);
                    assert(map_of(shorter).contains_key(key));
                }
            }
        }
    }
}

/// Where no key has two entries, the map holds every entry.
pub proof fn lemma_map_of_values<K, V>(entries: Seq<(K, V)>)
    requires
        forall|i: int, j: int|
            0 <= i < j < entries.len() ==> (#[trigger] entries[i]).0 != (#[trigger] entries[j]).0,
    ensures
        forall|i: int|
            0 <= i < entries.len() ==> map_of(entries)[(#[trigger] entries[i]).0] == entries[i].1,
    decreases entries.len(),
{
    if entries.len() > 0 {
        let shorter = entries.drop_last();
        assert forall|i: int, j: int| 0 <= i < j < shorter.len() implies (#[trigger] shorter[i]).0
            != (#[trigger] shorter[j]).0 by {
            assert(entries[i].0 != entries[j].0);
        }
        lemma_map_of_values(shorter);
        assert forall|i: int| 0 <= i < entries.len() implies map_of(entries)[(
        #[trigger] entries[i]).0] == entries[i].1 by {
            if i < shorter.len() {
                assert(shorter[i] == entries[i]);
                assert(entries[i].0 != entries[entries.len() - 1].0);
            }
        }
    }
}

/// Whether `entries` lists each team once, and no user in two teams.
pub open spec fn partitioned(entries: Seq<TeamEntryView>) -> bool {
    &&& forall|i: int, j: int|
        0 <= i < j < entries.len() ==> (#[trigger] entries[i]).id != (#[trigger] entries[j]).id
    &&& forall|i: int, j: int, user: u64|
        0 <= i < j < entries.len() && #[trigger] entries[i].members.contains(user)
            ==> !#[trigger] entries[j].members.contains(user)
}

pub proof fn lemma_user_teams(entries: Seq<TeamEntryView>)
    requires
        partitioned(entries),
    ensures
        user_teams_of(entries).dom() == participants_of(entries),
        forall|i: int, user: u64|
            0 <= i < entries.len() && #[trigger] entries[i].members.contains(user)
                ==> user_teams_of(entries).contains_key(user) && user_teams_of(entries)[user]
                == entries[i].id,
        forall|user: u64| #[trigger]
            user_teams_of(entries).contains_key(user) ==> exists|i: int|
                0 <= i < entries.len() && #[trigger] entries[i].members.contains(user)
                    && user_teams_of(entries)[user] == entries[i].id,
    decreases entries.len(),
{
    if entries.len() == 0 {
        assert(user_teams_of(entries).dom() =~= participants_of(entries));
    } else {
        let shorter = entries.drop_last();
        let last = entries.len() - 1;
        assert(partitioned(shorter)) by {
            assert forall|i: int, j: int| 0 <= i < j < shorter.len() implies (
            #[trigger] shorter[i]).id != (#[trigger] shorter[j]).id by {
                assert(entries[i].id != entries[j].id);
            }
            assert forall|i: int, j: int, user: u64|
                0 <= i < j < shorter.len() && #[trigger] shorter[i].members.contains(
                    user,
                ) implies !#[trigger] shorter[j].members.contains(user) by {
                assert(entries[i].members.contains(user));
                assert(!entries[j].members.contains(user));
            }
        }
        lemma_user_teams(shorter);
        assert(user_teams_of(entries).dom() =~= participants_of(entries));
        assert forall|i: int, user: u64|
            0 <= i < entries.len() && #[trigger] entries[i].members.contains(
                user,
            ) implies user_teams_of(entries).contains_key(user) && user_teams_of(entries)[user]
            == entries[i].id by {
            if i < last {
                assert(shorter[i].members.contains(user));
                assert(!entries[last].members.contains(user));
            }
        }
        assert forall|user: u64| #[trigger] user_teams_of(entries).contains_key(
            user,
        ) implies exists|i: int|
            0 <= i < entries.len() && #[trigger] entries[i].members.contains(user)
                && user_teams_of(entries)[user] == entries[i].id by {
            if entries[last].members.contains(user) {
            } else {
                assert(user_teams_of(shorter).contains_key(user));
                let i = choose|i: int|
                    0 <= i < shorter.len() && #[trigger] shorter[i].members.contains(user)
                        && user_teams_of(shorter)[user] == shorter[i].id;
                assert(entries[i].members.contains(user));
            }
        }
    }
}

/// Settings from lists are coherent if the lists are: each team and each table
/// listed once, no user in two teams, the teams and no others named, the empty
/// team and the neutral table among them, and no channel given to two tables.
pub proof fn law_assembled_settings_are_coherent(
    environment: Seq<char>,
    token: Seq<char>,
    app_id: u64,
    guild_id: u64,
    tables: Seq<(i64, u64)>,
    entries: Seq<TeamEntryView>,
    names: Seq<(i64, Seq<char>)>,
    blessed: Seq<u64>,
    neutral: int,
    empty: int,
)
    requires
        partitioned(entries),
        0 <= empty < entries.len(),
        entries[empty].id == DUMMY_TEAM,
        entries[empty].members.len() == 0,
        0 <= neutral < tables.len(),
        tables[neutral].0 == DUMMY_TABLE,
        forall|i: int, j: int|
            0 <= i < j < tables.len() ==> (#[trigger] tables[i]).0 != (#[trigger] tables[j]).0
                && tables[i].1 != tables[j].1,
        names.len() == entries.len(),
        forall|i: int| 0 <= i < names.len() ==> (#[trigger] names[i]).0 == entries[i].id,
    ensures
        assembled(
            environment,
            token,
            app_id,
            guild_id,
            tables,
            entries,
            names,
            blessed,
        ).coherent(),
{
    let config = assembled(
        environment,
        token,
        app_id,
        guild_id,
        tables,
        entries,
        names,
        blessed,
    );
    let teams = member_sets(entries);
    let rooms = home_rooms(entries);
    assert forall|i: int, j: int| 0 <= i < j < teams.len() implies (#[trigger] teams[i]).0 != (
    #[trigger] teams[j]).0 by {
        assert(entries[i].id != entries[j].id);
    }
    assert(config.tables.contains_key(DUMMY_TABLE) && config.distinct_channels()) by {
        lemma_map_of_keys(tables);
        lemma_map_of_values(tables);
        assert(tables[neutral].0 == DUMMY_TABLE);
        assert forall|s: i64, t: i64|
            #![trigger config.tables[s], config.tables[t]]
            config.tables.contains_key(s) && config.tables.contains_key(t) && config.tables[s]
                == config.tables[t] implies s == t by {
            let i = choose|i: int| 0 <= i < tables.len() && (#[trigger] tables[i]).0 == s;
            let j = choose|j: int| 0 <= j < tables.len() && (#[trigger] tables[j]).0 == t;
            assert(config.tables[tables[i].0] == tables[i].1);
            assert(config.tables[tables[j].0] == tables[j].1);
            if i < j {
                assert(tables[i].1 != tables[j].1);
            } else if j < i {
                assert(tables[j].1 != tables[i].1);
            }
        }
    }
    assert(config.teams.contains_key(DUMMY_TEAM) && config.teams[DUMMY_TEAM] == Set::<
        u64,
    >::empty()) by {
        lemma_map_of_keys(teams);
        lemma_map_of_values(teams);
        assert(teams[empty].0 == DUMMY_TEAM);
        assert(config.teams[teams[empty].0] == teams[empty].1);
        assert(config.teams[DUMMY_TEAM] =~= Set::<u64>::empty());
    }
    assert(config.team_voice_rooms.dom() == config.teams.dom()) by {
        lemma_map_of_keys(teams);
        lemma_map_of_keys(rooms);
        assert forall|id: i64| config.teams.contains_key(id) <==> #[trigger]
            config.team_voice_rooms.contains_key(id) by {
            if config.teams.contains_key(id) {
                let i = choose|i: int| 0 <= i < teams.len() && (#[trigger] teams[i]).0 == id;
                assert(rooms[i].0 == id);
            }
            if config.team_voice_rooms.contains_key(id) {
                let i = choose|i: int| 0 <= i < rooms.len() && (#[trigger] rooms[i]).0 == id;
                assert(teams[i].0 == id);
            }
        }
        assert(config.team_voice_rooms.dom() =~= config.teams.dom());
    }
    assert(config.team_names.dom() == config.teams.dom()) by {
        lemma_map_of_keys(teams);
        lemma_map_of_keys(names);
        assert forall|id: i64| config.teams.contains_key(id) <==> #[trigger]
            config.team_names.contains_key(id) by {
            if config.teams.contains_key(id) {
                let i = choose|i: int| 0 <= i < teams.len() && (#[trigger] teams[i]).0 == id;
                assert(names[i].0 == id);
            }
            if config.team_names.contains_key(id) {
                let i = choose|i: int| 0 <= i < names.len() && (#[trigger] names[i]).0 == id;
                assert(teams[i].0 == id);
            }
        }
        assert(config.team_names.dom() =~= config.teams.dom());
    }
    lemma_user_teams(entries);
    assert forall|user: u64, team: i64|
        #![trigger config.user_team(user), config.teams.contains_key(team)]
        (config.teams.contains_key(team) && config.teams[team].contains(user)) == (config.user_team(
            user,
        ) == Some(team)) by {
        lemma_map_of_keys(teams);
        lemma_map_of_values(teams);
        if config.teams.contains_key(team) && config.teams[team].contains(user) {
            let i = choose|i: int| 0 <= i < teams.len() && (#[trigger] teams[i]).0 == team;
            assert(config.teams[teams[i].0] == teams[i].1);
            assert(entries[i].members.contains(user));
        }
        if config.user_team(user) == Some(team) {
            assert(user_teams_of(entries).contains_key(user));
            let i = choose|i: int|
                0 <= i < entries.len() && #[trigger] entries[i].members.contains(user)
                    && user_teams_of(entries)[user] == entries[i].id;
            assert(teams[i].0 == team);
            assert(config.teams[teams[i].0] == teams[i].1);
        }
    }
}

/// Every value of the map is that of an entry.
pub proof fn lemma_map_of_entries<K, V>(entries: Seq<(K, V)>)
    ensures
        forall|key: K| #[trigger]
            map_of(entries).contains_key(key) ==> exists|i: int|
                0 <= i < entries.len() && #[trigger] entries[i] == (key, map_of(entries)[key]),
    decreases entries.len(),
{
    if entries.len() > 0 {
        let shorter = entries.drop_last();
        lemma_map_of_entries(shorter);
        assert forall|key: K| #[trigger] map_of(entries).contains_key(key) implies exists|i: int|
            0 <= i < entries.len() && #[trigger] entries[i] == (key, map_of(entries)[key]) by {
            if key == entries.last().0 {
                assert(entries[entries.len() - 1] == (key, map_of(entries)[key]));
            } else {
                assert(map_of(shorter).contains_key(key));
                let i = choose|i: int|
                    0 <= i < shorter.len() && #[trigger] shorter[i] == (key, map_of(shorter)[key]);
                assert(entries[i] == (key, map_of(entries)[key]));
            }
        }
    }
}

/// Settings from lists keep rooms and tables apart if the lists do, leaving
/// aside the rooms of teams without members.
pub proof fn law_assembled_rooms_are_apart(
    environment: Seq<char>,
    token: Seq<char>,
    app_id: u64,
    guild_id: u64,
    tables: Seq<(i64, u64)>,
    entries: Seq<TeamEntryView>,
    names: Seq<(i64, Seq<char>)>,
    blessed: Seq<u64>,
)
    requires
        partitioned(entries),
        forall|i: int, k: int|
            0 <= i < entries.len() && 0 <= k < tables.len() && entries[i].members.len() > 0 ==> (
            #[trigger] entries[i]).room != (#[trigger] tables[k]).1,
    ensures
        assembled(
            environment,
            token,
            app_id,
            guild_id,
            tables,
            entries,
            names,
            blessed,
        ).rooms_apart(),
{
    let config = assembled(
        environment,
        token,
        app_id,
        guild_id,
        tables,
        entries,
        names,
        blessed,
    );
    let rooms = home_rooms(entries);
    lemma_user_teams(entries);
    lemma_map_of_entries(tables);
    assert forall|i: int, j: int| 0 <= i < j < rooms.len() implies (#[trigger] rooms[i]).0 != (
    #[trigger] rooms[j]).0 by {
        assert(entries[i].id != entries[j].id);
    }
    lemma_map_of_values(rooms);
    assert forall|user: u64, table: i64|
        #![trigger config.home_channel(user), config.tables[table]]
        config.participants.contains(user) && config.tables.contains_key(
            table,
        ) implies config.home_channel(user) != config.tables[table] by {
        assert(user_teams_of(entries).dom().contains(user));
        assert(user_teams_of(entries).contains_key(user));
        let i = choose|i: int|
            0 <= i < entries.len() && #[trigger] entries[i].members.contains(user)
                && user_teams_of(entries)[user] == entries[i].id;
        assert(map_of(rooms)[rooms[i].0] == rooms[i].1);
        let k = choose|k: int|
            0 <= k < tables.len() && #[trigger] tables[k] == (table, map_of(tables)[table]);
        assert(entries[i].room != tables[k].1);
    }
}

/// The tables of the production deployment and their voice channels.
pub open spec fn prod_tables() -> Seq<(i64, u64)> {
    seq![
        (DUMMY_TABLE, 952884153827885117),
        (1, 952984861306662942),
        (2, 952984899734868048),
    ]
}

/// The teams of the production deployment.
pub open spec fn prod_teams() -> Seq<TeamEntryView> {
    seq![
        TeamEntryView {
            id: DUMMY_TEAM,
            members: Seq::empty(),
            room: 952884153827885117,
        },
        TeamEntryView {
            id: 1,
            members: seq![
                418486856410202122,
                306113516522307587,
            ],
            room: 951851992093962260,
        },
        TeamEntryView {
            id: 2,
            members: seq![
                531852139262377984,
                694190982022955060,
                759419298212216854,
            ],
            room: 951879383633772605,
        },
        TeamEntryView {
            id: 3,
            members: seq![
                702202171088961556,
                885147305831989299,
            ],
            room: 951851768680153118,
        },
        TeamEntryView {
            id: 4,
            members: seq![
                301247761209360385,
                237181815973085185,
                365920311688036365,
            ],
            room: 952185897992990751,
        },
        TeamEntryView {
            id: 5,
            members: seq![
                900079911056855040,
                504667829463941130,
                690915090999935056,
            ],
            room: 951879222224367656,
        },
        TeamEntryView {
            id: 6,
            members: seq![
                511157552734797834,
                934479210590908459,
                606083910602063872,
            ],
            room: 952071024369872896,
        },
        TeamEntryView {
            id: 7,
            members: seq![
                690896591648981003,
                696261215873400862,
                691935292604809236,
            ],
            room: 952185981413507082,
        },
        TeamEntryView {
            id: 8,
            members: seq![
                640621404148203566,
                492763298333196298,
                577939594822025229,
            ],
            room: 951879112933400676,
        },
        TeamEntryView {
            id: 9,
            members: seq![
                559926713346162688,
                461761081539428363,
                441870970895073300,
            ],
            room: 951851550081429514,
        },
        TeamEntryView {
            id: 10,
            members: seq![
                543072830552801280,
                568165784719982604,
            ],
            room: 951852461604356147,
        },
        TeamEntryView {
            id: 11,
            members: seq![
                510848390981222400,
                534011922534629386,
            ],
            room: 952188351295926302,
        },
        TeamEntryView {
            id: 12,
            members: Seq::empty(),
            room: 952884153827885117,
        },
    ]
}

/// The names of the teams of the production deployment.
pub open spec fn prod_names() -> Seq<(i64, Seq<char>)> {
    seq![
        (DUMMY_TEAM, "Dummy team"@),
        (1, "Волновая Интерференция"@),
        (2, "Future Gadget Lab v4"@),
        (3, "КомандаБ"@),
        (4, "Шелезяка"@),
        (5, "PythonVSc--"@),
        (6, "Gazebo one love"@),
        (7, "Skills Building"@),
        (8, "team-name"@),
        (9, "Безынтеллектуальные человеческие единицы"@),
        (10, "Ушки Газебы"@),
        (11, "ClosedCV"@),
        (12, "[REDACTED]"@),
    ]
}

/// The blessed users of the production deployment.
pub open spec fn prod_blessed() -> Seq<u64> {
    seq![
        352172373774041102,
        246300672734003211,
        952881541325930518,
        743031905200635925,
    ]
}

/// The settings of the production deployment.
pub open spec fn prod_settings(token: Seq<char>) -> ConfigView {
    assembled(
        "prod"@,
        token,
        952960685787193374,
        951447764837990400,
        prod_tables(),
        prod_teams(),
        prod_names(),
        prod_blessed(),
    )
}

/// The settings of the production deployment, with the given token.
pub fn prod_config(token: String) -> (config: Config)
    ensures
        config@ == prod_settings(token@),
        config@.coherent(),
{
    let tables: Vec<(i64, u64)> = vec![
        (DUMMY_TABLE, 952884153827885117),
        (1, 952984861306662942),
        (2, 952984899734868048),
    ];
    let teams: Vec<TeamEntry> = vec![
        TeamEntry {
            id: DUMMY_TEAM,
            members: Vec::new(),
            room: 952884153827885117,
        },
        TeamEntry {
            id: 1,
            members: vec![
                418486856410202122,
                306113516522307587,
            ],
            room: 951851992093962260,
        },
        TeamEntry {
            id: 2,
            members: vec![
                531852139262377984,
                694190982022955060,
                759419298212216854,
            ],
            room: 951879383633772605,
        },
        TeamEntry {
            id: 3,
            members: vec![
                702202171088961556,
                885147305831989299,
            ],
            room: 951851768680153118,
        },
        TeamEntry {
            id: 4,
            members: vec![
                301247761209360385,
                237181815973085185,
                365920311688036365,
            ],
            room: 952185897992990751,
        },
        TeamEntry {
            id: 5,
            members: vec![
                900079911056855040,
                504667829463941130,
                690915090999935056,
            ],
            room: 951879222224367656,
        },
        TeamEntry {
            id: 6,
            members: vec![
                511157552734797834,
                934479210590908459,
                606083910602063872,
            ],
            room: 952071024369872896,
        },
        TeamEntry {
            id: 7,
            members: vec![
                690896591648981003,
                696261215873400862,
                691935292604809236,
            ],
            room: 952185981413507082,
        },
        TeamEntry {
            id: 8,
            members: vec![
                640621404148203566,
                492763298333196298,
                577939594822025229,
            ],
            room: 951879112933400676,
        },
        TeamEntry {
            id: 9,
            members: vec![
                559926713346162688,
                461761081539428363,
                441870970895073300,
            ],
            room: 951851550081429514,
        },
        TeamEntry {
            id: 10,
            members: vec![
                543072830552801280,
                568165784719982604,
            ],
            room: 951852461604356147,
        },
        TeamEntry {
            id: 11,
            members: vec![
                510848390981222400,
                534011922534629386,
            ],
            room: 952188351295926302,
        },
        TeamEntry {
            id: 12,
            members: Vec::new(),
            room: 952884153827885117,
        },
    ];
    let names: Vec<(i64, &str)> = vec![
        (DUMMY_TEAM, "Dummy team"),
        (1, "Волновая Интерференция"),
        (2, "Future Gadget Lab v4"),
        (3, "КомандаБ"),
        (4, "Шелезяка"),
        (5, "PythonVSc--"),
        (6, "Gazebo one love"),
        (7, "Skills Building"),
        (8, "team-name"),
        (9, "Безынтеллектуальные человеческие единицы"),
        (10, "Ушки Газебы"),
        (11, "ClosedCV"),
        (12, "[REDACTED]"),
    ];
    let blessed: Vec<u64> = vec![
        352172373774041102,
        246300672734003211,
        952881541325930518,
        743031905200635925,
    ];
    proof {
        assert(tables@ =~= prod_tables());
        assert(entries_view(teams@) =~~= prod_teams());
        assert(names_view(names@) =~= prod_names());
        assert(blessed@ =~= prod_blessed());
        law_prod_settings_are_coherent(token@);
    }
    Config::assemble(
        "prod".to_string(),
        token,
        952960685787193374,
        951447764837990400,
        &tables,
        &teams,
        &names,
        &blessed,
    )
}

/// The tables of the test deployment and their voice channels.
pub open spec fn test_tables() -> Seq<(i64, u64)> {
    seq![
        (DUMMY_TABLE, 452137106609799168),
        (1, 952970394070036582),
        (2, 953042225984585829),
    ]
}

/// The teams of the test deployment.
pub open spec fn test_teams() -> Seq<TeamEntryView> {
    seq![
        TeamEntryView {
            id: DUMMY_TEAM,
            members: Seq::empty(),
            room: 452137106609799168,
        },
        TeamEntryView {
            id: 1,
            members: seq![
                352172373774041102,
            ],
            room: 953387785845358602,
        },
        TeamEntryView {
            id: 2,
            members: seq![
                246300672734003211,
            ],
            room: 953387949540638880,
        },
        TeamEntryView {
            id: 3,
            members: Seq::empty(),
            room: 452137106609799168,
        },
        TeamEntryView {
            id: 4,
            members: Seq::empty(),
            room: 452137106609799168,
        },
        TeamEntryView {
            id: 5,
            members: Seq::empty(),
            room: 452137106609799168,
        },
        TeamEntryView {
            id: 6,
            members: Seq::empty(),
            room: 452137106609799168,
        },
        TeamEntryView {
            id: 7,
            members: Seq::empty(),
            room: 452137106609799168,
        },
        TeamEntryView {
            id: 8,
            members: Seq::empty(),
            room: 452137106609799168,
        },
        TeamEntryView {
            id: 9,
            members: Seq::empty(),
            room: 452137106609799168,
        },
        TeamEntryView {
            id: 10,
            members: Seq::empty(),
            room: 452137106609799168,
        },
        TeamEntryView {
            id: 11,
            members: Seq::empty(),
            room: 452137106609799168,
        },
        TeamEntryView {
            id: 12,
            members: Seq::empty(),
            room: 452137106609799168,
        },
    ]
}

/// The names of the teams of the test deployment.
pub open spec fn test_names() -> Seq<(i64, Seq<char>)> {
    seq![
        (DUMMY_TEAM, "Dummy team"@),
        (1, "team nikita"@),
        (2, "team slava"@),
        (3, "n/a"@),
        (4, "n/a"@),
        (5, "n/a"@),
        (6, "n/a"@),
        (7, "n/a"@),
        (8, "n/a"@),
        (9, "n/a"@),
        (10, "n/a"@),
        (11, "n/a"@),
        (12, "n/a"@),
    ]
}

/// The blessed users of the test deployment.
pub open spec fn test_blessed() -> Seq<u64> {
    seq![
        352172373774041102,
        246300672734003211,
    ]
}

/// The settings of the test deployment.
pub open spec fn test_settings(token: Seq<char>) -> ConfigView {
    assembled(
        "test"@,
        token,
        952960685787193374,
        377441849134284812,
        test_tables(),
        test_teams(),
        test_names(),
        test_blessed(),
    )
}

/// The settings of the test deployment, with the given token.
pub fn test_config(token: String) -> (config: Config)
    ensures
        config@ == test_settings(token@),
        config@.coherent(),
{
    let tables: Vec<(i64, u64)> = vec![
        (DUMMY_TABLE, 452137106609799168),
        (1, 952970394070036582),
        (2, 953042225984585829),
    ];
    let teams: Vec<TeamEntry> = vec![
        TeamEntry {
            id: DUMMY_TEAM,
            members: Vec::new(),
            room: 452137106609799168,
        },
        TeamEntry {
            id: 1,
            members: vec![
                352172373774041102,
            ],
            room: 953387785845358602,
        },
        TeamEntry {
            id: 2,
            members: vec![
                246300672734003211,
            ],
            room: 953387949540638880,
        },
        TeamEntry {
            id: 3,
            members: Vec::new(),
            room: 452137106609799168,
        },
        TeamEntry {
            id: 4,
            members: Vec::new(),
            room: 452137106609799168,
        },
        TeamEntry {
            id: 5,
            members: Vec::new(),
            room: 452137106609799168,
        },
        TeamEntry {
            id: 6,
            members: Vec::new(),
            room: 452137106609799168,
        },
        TeamEntry {
            id: 7,
            members: Vec::new(),
            room: 452137106609799168,
        },
        TeamEntry {
            id: 8,
            members: Vec::new(),
            room: 452137106609799168,
        },
        TeamEntry {
            id: 9,
            members: Vec::new(),
            room: 452137106609799168,
        },
        TeamEntry {
            id: 10,
            members: Vec::new(),
            room: 452137106609799168,
        },
        TeamEntry {
            id: 11,
            members: Vec::new(),
            room: 452137106609799168,
        },
        TeamEntry {
            id: 12,
            members: Vec::new(),
            room: 452137106609799168,
        },
    ];
    let names: Vec<(i64, &str)> = vec![
        (DUMMY_TEAM, "Dummy team"),
        (1, "team nikita"),
        (2, "team slava"),
        (3, "n/a"),
        (4, "n/a"),
        (5, "n/a"),
        (6, "n/a"),
        (7, "n/a"),
        (8, "n/a"),
        (9, "n/a"),
        (10, "n/a"),
        (11, "n/a"),
        (12, "n/a"),
    ];
    let blessed: Vec<u64> = vec![
        352172373774041102,
        246300672734003211,
    ];
    proof {
        assert(tables@ =~= test_tables());
        assert(entries_view(teams@) =~~= test_teams());
        assert(names_view(names@) =~= test_names());
        assert(blessed@ =~= test_blessed());
        law_test_settings_are_coherent(token@);
    }
    Config::assemble(
        "test".to_string(),
        token,
        952960685787193374,
        377441849134284812,
        &tables,
        &teams,
        &names,
        &blessed,
    )
}

/// The settings of the production deployment are coherent.
pub proof fn law_prod_settings_are_coherent(token: Seq<char>)
    ensures
        prod_settings(token).coherent(),
{
    let entries = prod_teams();
    assert(partitioned(entries));
    law_assembled_settings_are_coherent(
        prod_settings(token).environment,
        token,
        prod_settings(token).app_id,
        prod_settings(token).guild_id,
        prod_tables(),
        entries,
        prod_names(),
        prod_blessed(),
        0,
        0,
    );
}

/// The settings of the test deployment are coherent.
pub proof fn law_test_settings_are_coherent(token: Seq<char>)
    ensures
        test_settings(token).coherent(),
{
    let entries = test_teams();
    assert(partitioned(entries));
    law_assembled_settings_are_coherent(
        test_settings(token).environment,
        token,
        test_settings(token).app_id,
        test_settings(token).guild_id,
        test_tables(),
        entries,
        test_names(),
        test_blessed(),
        0,
        0,
    );
}

/// No participant of the production deployment returns to the channel of a table.
pub proof fn law_prod_rooms_are_apart(token: Seq<char>)
    ensures
        prod_settings(token).rooms_apart(),
{
    law_assembled_rooms_are_apart(
        prod_settings(token).environment,
        token,
        prod_settings(token).app_id,
        prod_settings(token).guild_id,
        prod_tables(),
        prod_teams(),
        prod_names(),
        prod_blessed(),
    );
}

/// No participant of the test deployment returns to the channel of a table.
pub proof fn law_test_rooms_are_apart(token: Seq<char>)
    ensures
        test_settings(token).rooms_apart(),
{
    law_assembled_rooms_are_apart(
        test_settings(token).environment,
        token,
        test_settings(token).app_id,
        test_settings(token).guild_id,
        test_tables(),
        test_teams(),
        test_names(),
        test_blessed(),
    );
}

} // verus!
