//! Who plays in which team, and where teams, tables and queues are found.

use std::collections::{HashMap, HashSet};

use vstd::prelude::*;
use vstd::string::*;

use crate::text::{append_i64, decimal, law_decimal_is_injective, lemma_decimal_characters};

verus! {

/// The team without members.  Seating it at a table empties the table.
pub const DUMMY_TEAM: i64 = -1;

/// The table that stands for the neutral channel.  It has no queue.
pub const DUMMY_TABLE: i64 = 0;

/// The settings of one deployment.  Users, channels and guilds are given by
/// their numeric identifiers.
pub struct Config {
    /// Prefix of every store key, so that deployments can share a store.
    pub environment: String,
    pub token: String,
    pub app_id: u64,
    pub guild_id: u64,
    /// The voice channel of each table.
    pub tables: HashMap<i64, u64>,
    /// The members of each team.
    pub teams: HashMap<i64, HashSet<u64>>,
    pub team_names: HashMap<i64, String>,
    /// The team of each user.
    pub user_teams: HashMap<u64, i64>,
    /// The voice channel to which the members of a team return.
    pub team_voice_rooms: HashMap<i64, u64>,
    pub participants: HashSet<u64>,
    /// The users who may run the privileged commands.
    pub blessed_users: HashSet<u64>,
}

/// The mathematical content of a [`Config`].
#[verifier::ext_equal]
pub struct ConfigView {
    pub environment: Seq<char>,
    pub token: Seq<char>,
    pub app_id: u64,
    pub guild_id: u64,
    pub tables: Map<i64, u64>,
    pub teams: Map<i64, Set<u64>>,
    pub team_names: Map<i64, Seq<char>>,
    pub user_teams: Map<u64, i64>,
    pub team_voice_rooms: Map<i64, u64>,
    pub participants: Set<u64>,
    pub blessed_users: Set<u64>,
}

impl View for Config {
    type V = ConfigView;

    open spec fn view(&self) -> ConfigView {
        ConfigView {
            environment: self.environment@,
            token: self.token@,
            app_id: self.app_id,
            guild_id: self.guild_id,
            tables: self.tables@,
            teams: self.teams@.map_values(|members: HashSet<u64>| members@),
            team_names: self.team_names@.map_values(|name: String| name@),
            user_teams: self.user_teams@,
            team_voice_rooms: self.team_voice_rooms@,
            participants: self.participants@,
            blessed_users: self.blessed_users@,
        }
    }
}

impl ConfigView {
    /// The team of `user`, if they are in one.
    pub open spec fn user_team(self, user: u64) -> Option<i64> {
        if self.user_teams.contains_key(user) {
            Some(self.user_teams[user])
        } else {
            None
        }
    }

    /// Whether `channel` is the voice channel of `table`.
    pub open spec fn is_table_channel(self, table: i64, channel: u64) -> bool {
        self.tables.contains_key(table) && self.tables[table] == channel
    }

    /// Whether `table` is a lookup of the table behind `channel`: a table with
    /// that channel, or none where no table has it.
    pub open spec fn is_table_of(self, channel: u64, table: Option<i64>) -> bool {
        match table {
            Some(t) => self.is_table_channel(t, channel),
            None => forall|t: i64| !self.is_table_channel(t, channel),
        }
    }

    /// The channel to which a member of some team returns.
    pub open spec fn home_channel(self, user: u64) -> u64 {
        self.team_voice_rooms[self.user_teams[user]]
    }

    /// Whether a user has a team whose voice channel is known.
    pub open spec fn has_home(self, user: u64) -> bool {
        self.user_teams.contains_key(user) && self.team_voice_rooms.contains_key(
            self.user_teams[user],
        )
    }

    /// No participant returns to the channel of a table.
    pub open spec fn rooms_apart(self) -> bool {
        forall|user: u64, table: i64|
            #![trigger self.home_channel(user), self.tables[table]]
            self.participants.contains(user) && self.tables.contains_key(table)
                ==> self.home_channel(user) != self.tables[table]
    }

    /// No two tables share a channel.
    pub open spec fn distinct_channels(self) -> bool {
        forall|s: i64, t: i64|
            #![trigger self.tables[s], self.tables[t]]
            self.tables.contains_key(s) && self.tables.contains_key(t) && self.tables[s]
                == self.tables[t] ==> s == t
    }

    /// The settings fit together: the neutral table and the empty team exist,
    /// every team has a room and a name, the members of the teams are the
    /// participants, each in exactly one team, and tables do not share
    /// channels.
    pub open spec fn coherent(self) -> bool {
        &&& self.tables.contains_key(DUMMY_TABLE)
        &&& self.teams.contains_key(DUMMY_TEAM)
        &&& self.teams[DUMMY_TEAM] == Set::<u64>::empty()
        &&& self.team_voice_rooms.dom() == self.teams.dom()
        &&& self.team_names.dom() == self.teams.dom()
        &&& self.user_teams.dom() == self.participants
        &&& forall|user: u64, team: i64|
            #![trigger self.teams[team].contains(user)]
            self.teams.contains_key(team) && self.teams[team].contains(user) <==> self.user_team(
                user,
            ) == Some(team)
        &&& self.distinct_channels()
    }
}

/// The table at which a team is seated by default.
pub open spec fn default_table(team_id: i64) -> i64 {
    if 1 <= team_id <= 5 {
        1
    } else if 6 <= team_id <= 11 {
        2
    } else {
        DUMMY_TEAM
    }
}

/// The store key of the queue of a table.
pub open spec fn queue_key(environment: Seq<char>, table_id: i64) -> Seq<char> {
    environment + ":queue:"@ + decimal(table_id as int)
}

/// The store key of the map from teams to the queues that hold them.
pub open spec fn team_to_queue_key(environment: Seq<char>) -> Seq<char> {
    environment + ":team_to_queue"@
}

impl Config {
    /// The team of `user`, if they are in one.
    pub fn user_team(&self, user: u64) -> (team: Option<i64>)
        ensures
            team == self@.user_team(user),
            match team {
                Some(id) => self.user_teams@.contains_key(user) && self.user_teams@[user] == id,
                None => !self.user_teams@.contains_key(user),
            },
    {
        match self.user_teams.get(&user) {
            Some(team) => Some(*team),
            None => None,
        }
    }

    /// The table at which `team_id` is seated by default.
    pub fn team_table(&self, team_id: i64) -> (table: i64)
        ensures
            table == default_table(team_id),
            1 <= team_id <= 5 ==> table == 1,
            6 <= team_id <= 11 ==> table == 2,
            team_id < 1 || team_id > 11 ==> table == -1,
    {
        if team_id >= 1 && team_id <= 5 {
            1
        } else if team_id >= 6 && team_id <= 11 {
            2
        } else {
            DUMMY_TEAM
        }
    }

    /// The store key of the queue of `table_id`.
    pub fn queue_name(&self, table_id: i64) -> (name: String)
        ensures
            name@ == queue_key(self.environment@, table_id),
            name@ == self.environment@ + ":queue:"@ + decimal(table_id as int),
    {
        let mut name = self.environment.clone();
        name.append(":queue:");
        append_i64(&mut name, table_id);
        name
    }

    /// The store key of the map from teams to the queues that hold them.
    pub fn team_to_queue_name(&self) -> (name: String)
        ensures
            name@ == team_to_queue_key(self.environment@),
            name@ == self.environment@ + ":team_to_queue"@,
    {
        let mut name = self.environment.clone();
        name.append(":team_to_queue");
        name
    }

    /// A table whose voice channel is `channel`, if there is one.
    pub fn table_of_channel(&self, channel: u64) -> (table: Option<i64>)
        ensures
            self@.is_table_of(channel, table),
            match table {
                Some(id) => self.tables@.contains_key(id) && self.tables@[id] == channel,
                None => forall|id: i64| #[trigger]
                    self.tables@.contains_key(id) ==> self.tables@[id] != channel,
            },
    {
        let mut found: Option<i64> = None;
        for entry in iter: self.tables.iter()
            invariant
                found matches Some(t) ==> self@.is_table_channel(t, channel),
                found is None ==> forall|i: int|
                    0 <= i < iter.index() ==> *(#[trigger] iter.seq()[i]).1 != channel,
        {
            if found.is_none() && *entry.1 == channel {
                found = Some(*entry.0);
            }
        }
        found
    }
}

proof fn lemma_queue_key_suffix(e1: Seq<char>, t1: i64, e2: Seq<char>, t2: i64)
    requires
        queue_key(e1, t1) == queue_key(e2, t2),
    ensures
        decimal(t1 as int).len() >= decimal(t2 as int).len(),
{
    reveal_strlit(":queue:");
    let key = queue_key(e1, t1);
    let d1 = decimal(t1 as int);
    let d2 = decimal(t2 as int);
    lemma_decimal_characters(t2 as int);
    if d1.len() < d2.len() {
        let at = key.len() - d1.len() - 1;
        assert(key[at] == ":queue:"@[6]);
        assert(queue_key(e2, t2)[at] == d2[d2.len() - d1.len() - 1]);
    }
}

/// A queue key tells both the deployment and the table: no two queues share a
/// key, not even across deployments.
pub proof fn law_queue_keys_are_distinct(e1: Seq<char>, t1: i64, e2: Seq<char>, t2: i64)
    requires
        queue_key(e1, t1) == queue_key(e2, t2),
    ensures
        e1 == e2,
        t1 == t2,
{
    lemma_queue_key_suffix(e1, t1, e2, t2);
    lemma_queue_key_suffix(e2, t2, e1, t1);
    let key = queue_key(e1, t1);
    let d1 = decimal(t1 as int);
    let d2 = decimal(t2 as int);
    assert(d1 =~= key.skip(key.len() - d1.len()));
    assert(d2 =~= key.skip(key.len() - d2.len()));
    law_decimal_is_injective(t1, t2);
    assert(e1.len() == e2.len());
    assert(e1 =~= key.take(e1.len() as int));
    assert(e2 =~= key.take(e2.len() as int));
}

/// The map from teams to queues never shares a key with a queue.
pub proof fn law_map_key_is_no_queue_key(e1: Seq<char>, e2: Seq<char>, table: i64)
    ensures
        team_to_queue_key(e1) != queue_key(e2, table),
{
    reveal_strlit(":team_to_queue");
    lemma_decimal_characters(table as int);
    assert(queue_key(e2, table).last() == decimal(table as int).last());
    assert(team_to_queue_key(e1).last() == ":team_to_queue"@[13]);
}

/// Deployments with different names keep different maps from teams to queues.
pub proof fn law_map_keys_are_distinct(e1: Seq<char>, e2: Seq<char>)
    requires
        team_to_queue_key(e1) == team_to_queue_key(e2),
    ensures
        e1 == e2,
{
    let key = team_to_queue_key(e1);
    assert(key.len() == e1.len() + ":team_to_queue"@.len());
    assert(team_to_queue_key(e2).len() == e2.len() + ":team_to_queue"@.len());
    assert(e1 =~= key.take(e1.len() as int));
    assert(e2 =~= key.take(e2.len() as int));
}

} // verus!
