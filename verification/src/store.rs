//! The commands that the bot sends to its key-value store, and the replies.

use vstd::prelude::*;
use vstd::utf8::*;

use crate::config::{
    law_map_keys_are_distinct, law_queue_keys_are_distinct, queue_key, team_to_queue_key, Config,
};
use crate::text::{decimal, law_decimal_is_injective, parse_i64};

verus! {

/// A command on the queues.  Each table has a sorted set of teams, scored by
/// the time at which they were added; one hash maps each waiting team to the
/// table whose queue holds it.
#[derive(Clone, Copy, Debug, PartialEq, Eq, Structural)]
pub enum StoreCommand {
    /// Is the team in the hash?
    Hexists { team: i64 },
    /// Put the team into the hash, under a table.
    Hset { team: i64, table: i64 },
    /// The table under which the team is in the hash.
    Hget { team: i64 },
    /// Take the team out of the hash.
    Hdel { team: i64 },
    /// Add the team to the queue of a table, unless it is there already.
    Zadd { table: i64, team: i64, millis: i64 },
    /// Take the team out of the queue of a table.
    Zrem { table: i64, team: i64 },
    /// Take the team with the lowest score out of the queue of a table.
    Zpopmin { table: i64 },
    /// The teams in the queue of a table, lowest scores first.
    Zrange { table: i64 },
    /// The number of teams in the queue of a table.
    Zcount { table: i64 },
}

/// The index of the last team that a listing of a queue shows.
pub const LAST_SHOWN: isize = 100;

/// Whether the store keeps a score as it is given.  Scores are floating-point
/// numbers, which hold integers of up to 53 bits.
pub open spec fn exact_score(millis: i64) -> bool {
    -0x20_0000_0000_0000 <= millis <= 0x20_0000_0000_0000
}

/// The arguments that a command of the store's protocol holds, its name first.
pub uninterp spec fn command_args(cmd: redis::Cmd) -> Seq<Seq<u8>>;

#[verifier::external_type_specification]
#[verifier::external_body]
pub struct ExCmd(redis::Cmd);

impl StoreCommand {
    /// The place of this command among the kinds of commands.
    spec fn rank(self) -> int {
        match self {
            StoreCommand::Hexists { .. } => 0,
            StoreCommand::Hset { .. } => 1,
            StoreCommand::Hget { .. } => 2,
            StoreCommand::Hdel { .. } => 3,
            StoreCommand::Zadd { .. } => 4,
            StoreCommand::Zrem { .. } => 5,
            StoreCommand::Zpopmin { .. } => 6,
            StoreCommand::Zrange { .. } => 7,
            StoreCommand::Zcount { .. } => 8,
        }
    }

    /// The words of this command as the store's protocol spells it.
    pub open spec fn words(self, environment: Seq<char>) -> Seq<Seq<char>> {
        let map = team_to_queue_key(environment);
        match self {
            StoreCommand::Hexists { team } => seq!["HEXISTS"@, map, decimal(team as int)],
            StoreCommand::Hset { team, table } => seq![
                "HSET"@,
                map,
                decimal(team as int),
                decimal(table as int),
            ],
            StoreCommand::Hget { team } => seq!["HGET"@, map, decimal(team as int)],
            StoreCommand::Hdel { team } => seq!["HDEL"@, map, decimal(team as int)],
            StoreCommand::Zadd { table, team, millis } => seq![
                "ZADD"@,
                queue_key(environment, table),
                "NX"@,
                decimal(millis as int),
                decimal(team as int),
            ],
            StoreCommand::Zrem { table, team } => seq![
                "ZREM"@,
                queue_key(environment, table),
                decimal(team as int),
            ],
            StoreCommand::Zpopmin { table } => seq![
                "ZPOPMIN"@,
                queue_key(environment, table),
                decimal(1),
            ],
            StoreCommand::Zrange { table } => seq![
                "ZRANGE"@,
                queue_key(environment, table),
                decimal(0),
                decimal(LAST_SHOWN as int),
            ],
            StoreCommand::Zcount { table } => seq![
                "ZCOUNT"@,
                queue_key(environment, table),
                "-inf"@,
                "inf"@,
            ],
        }
    }

    /// This command in the store's protocol, with the keys of a deployment.
    pub fn to_cmd(&self, config: &Config) -> (cmd: redis::Cmd)
        ensures
            command_args(cmd) == utf8_words(self.words(config.environment@)),
    {
        let cmd = match *self {
            StoreCommand::Hexists { team } => hexists(&config.team_to_queue_name(), team),
            StoreCommand::Hset { team, table } => hset(&config.team_to_queue_name(), team, table),
            StoreCommand::Hget { team } => hget(&config.team_to_queue_name(), team),
            StoreCommand::Hdel { team } => hdel(&config.team_to_queue_name(), team),
            StoreCommand::Zadd { table, team, millis } => {
                let mut cmd = named_cmd("ZADD");
                add_text(&mut cmd, &config.queue_name(table));
                add_text(&mut cmd, "NX");
                add_integer(&mut cmd, millis);
                add_integer(&mut cmd, team);
                cmd
            },
            StoreCommand::Zrem { table, team } => zrem(&config.queue_name(table), team),
            StoreCommand::Zpopmin { table } => zpopmin(&config.queue_name(table), 1),
            StoreCommand::Zrange { table } => zrange(&config.queue_name(table), 0, LAST_SHOWN),
            StoreCommand::Zcount { table } => zcount(&config.queue_name(table), "-inf", "inf"),
        };
        assert(command_args(cmd) =~= utf8_words(self.words(config.environment@)));
        cmd
    }
}

/// Words as the bytes of their UTF-8 encoding.
pub open spec fn utf8_words(words: Seq<Seq<char>>) -> Seq<Seq<u8>> {
    words.map_values(|word: Seq<char>| encode_utf8(word))
}

/// The names of the commands differ.
proof fn lemma_names_differ()
    ensures
        seq![
            "HEXISTS"@,
            "HSET"@,
            "HGET"@,
            "HDEL"@,
            "ZADD"@,
            "ZREM"@,
            "ZPOPMIN"@,
            "ZRANGE"@,
            "ZCOUNT"@,
        ].no_duplicates(),
{
    reveal_strlit("HEXISTS");
    reveal_strlit("HSET");
    reveal_strlit("HGET");
    reveal_strlit("HDEL");
    reveal_strlit("ZADD");
    reveal_strlit("ZREM");
    reveal_strlit("ZPOPMIN");
    reveal_strlit("ZRANGE");
    reveal_strlit("ZCOUNT");
    assert("HEXISTS"@.len() == 7 && "ZPOPMIN"@.len() == 7);
    assert("HSET"@.len() == 4 && "HGET"@.len() == 4 && "HDEL"@.len() == 4);
    assert("ZADD"@.len() == 4 && "ZREM"@.len() == 4);
    assert("ZRANGE"@.len() == 6 && "ZCOUNT"@.len() == 6);
    assert("HEXISTS"@[0] == 'H' && "ZPOPMIN"@[0] == 'Z');
    assert("HSET"@[1] == 'S' && "HGET"@[1] == 'G' && "HDEL"@[1] == 'D');
    assert("ZADD"@[1] == 'A' && "ZREM"@[1] == 'R');
    assert("ZRANGE"@[1] == 'R' && "ZCOUNT"@[1] == 'C');
}

/// What is sent to the store tells both the deployment and the command: no two
/// commands are sent alike, not even by different deployments.
pub proof fn law_what_is_sent_tells_the_command(
    e1: Seq<char>,
    a: StoreCommand,
    e2: Seq<char>,
    b: StoreCommand,
)
    requires
        utf8_words(a.words(e1)) == utf8_words(b.words(e2)),
    ensures
        a == b,
        e1 == e2,
{
    let ours = a.words(e1);
    let theirs = b.words(e2);
    assert(ours.len() == utf8_words(ours).len());
    assert forall|i: int| 0 <= i < ours.len() implies #[trigger] ours[i] == theirs[i] by {
        assert(utf8_words(ours)[i] == encode_utf8(ours[i]));
        assert(utf8_words(theirs)[i] == encode_utf8(theirs[i]));
        encode_utf8_decode_utf8(ours[i]);
        encode_utf8_decode_utf8(theirs[i]);
    }
    let names = seq![
        "HEXISTS"@,
        "HSET"@,
        "HGET"@,
        "HDEL"@,
        "ZADD"@,
        "ZREM"@,
        "ZPOPMIN"@,
        "ZRANGE"@,
        "ZCOUNT"@,
    ];
    lemma_names_differ();
    assert(ours[0] == names[a.rank()]);
    assert(theirs[0] == names[b.rank()]);
    assert(ours[0] == theirs[0]);
    assert(a.rank() == b.rank());
    assert(ours[1] == theirs[1]);
    match (a, b) {
        (StoreCommand::Hexists { team }, StoreCommand::Hexists { team: other })
        | (StoreCommand::Hget { team }, StoreCommand::Hget { team: other })
        | (StoreCommand::Hdel { team }, StoreCommand::Hdel { team: other }) => {
            law_map_keys_are_distinct(e1, e2);
            assert(ours[2] == theirs[2]);
            law_decimal_is_injective(team, other);
        },
        (
            StoreCommand::Hset { team, table },
            StoreCommand::Hset { team: other, table: place },
        ) => {
            law_map_keys_are_distinct(e1, e2);
            assert(ours[2] == theirs[2] && ours[3] == theirs[3]);
            law_decimal_is_injective(team, other);
            law_decimal_is_injective(table, place);
        },
        (
            StoreCommand::Zadd { table, team, millis },
            StoreCommand::Zadd { table: place, team: other, millis: time },
        ) => {
            law_queue_keys_are_distinct(e1, table, e2, place);
            assert(ours[3] == theirs[3] && ours[4] == theirs[4]);
            law_decimal_is_injective(millis, time);
            law_decimal_is_injective(team, other);
        },
        (
            StoreCommand::Zrem { table, team },
            StoreCommand::Zrem { table: place, team: other },
        ) => {
            law_queue_keys_are_distinct(e1, table, e2, place);
            assert(ours[2] == theirs[2]);
            law_decimal_is_injective(team, other);
        },
        (StoreCommand::Zpopmin { table }, StoreCommand::Zpopmin { table: place })
        | (StoreCommand::Zrange { table }, StoreCommand::Zrange { table: place })
        | (StoreCommand::Zcount { table }, StoreCommand::Zcount { table: place }) => {
            law_queue_keys_are_distinct(e1, table, e2, place);
        },
        _ => {},
    }
}

/// Calls `redis::cmd`: a command that holds its name and nothing else.
#[verifier::external_body]
fn named_cmd(name: &str) -> (cmd: redis::Cmd)
    ensures
        command_args(cmd) == utf8_words(seq![name@]),
{
    redis::cmd(name)
}

/// Calls `redis::Cmd::arg` with text: the text becomes one more argument, in
/// UTF-8, after those that are there.
#[verifier::external_body]
fn add_text(cmd: &mut redis::Cmd, text: &str)
    ensures
        command_args(*final(cmd)) == command_args(*old(cmd)).push(encode_utf8(text@)),
{
    cmd.arg(text);
}

/// Calls `redis::Cmd::arg` with an integer: its decimal text becomes one more
/// argument after those that are there.
#[verifier::external_body]
fn add_integer(cmd: &mut redis::Cmd, n: i64)
    ensures
        command_args(*final(cmd)) == command_args(*old(cmd)).push(encode_utf8(decimal(n as int))),
{
    cmd.arg(n);
}

/// Calls `redis::Cmd::hexists`: the command name, the key, and the field in
/// decimal.
#[verifier::external_body]
fn hexists(key: &str, field: i64) -> (cmd: redis::Cmd)
    ensures
        command_args(cmd) == utf8_words(seq!["HEXISTS"@, key@, decimal(field as int)]),
{
    redis::Cmd::hexists(key, field)
}

/// Calls `redis::Cmd::hset`: the command name, the key, and the field and the
/// value in decimal.
#[verifier::external_body]
fn hset(key: &str, field: i64, value: i64) -> (cmd: redis::Cmd)
    ensures
        command_args(cmd) == utf8_words(
            seq!["HSET"@, key@, decimal(field as int), decimal(value as int)],
        ),
{
    redis::Cmd::hset(key, field, value)
}

/// Calls `redis::Cmd::hget` with one field: the command name, the key, and the
/// field in decimal.
#[verifier::external_body]
fn hget(key: &str, field: i64) -> (cmd: redis::Cmd)
    ensures
        command_args(cmd) == utf8_words(seq!["HGET"@, key@, decimal(field as int)]),
{
    redis::Cmd::hget(key, field)
}

/// Calls `redis::Cmd::hdel`: the command name, the key, and the field in
/// decimal.
#[verifier::external_body]
fn hdel(key: &str, field: i64) -> (cmd: redis::Cmd)
    ensures
        command_args(cmd) == utf8_words(seq!["HDEL"@, key@, decimal(field as int)]),
{
    redis::Cmd::hdel(key, field)
}

/// Calls `redis::Cmd::zrem`: the command name, the key, and the member in
/// decimal.
#[verifier::external_body]
fn zrem(key: &str, member: i64) -> (cmd: redis::Cmd)
    ensures
        command_args(cmd) == utf8_words(seq!["ZREM"@, key@, decimal(member as int)]),
{
    redis::Cmd::zrem(key, member)
}

/// Calls `redis::Cmd::zpopmin`: the command name, the key, and the count in
/// decimal.
#[verifier::external_body]
fn zpopmin(key: &str, count: isize) -> (cmd: redis::Cmd)
    ensures
        command_args(cmd) == utf8_words(seq!["ZPOPMIN"@, key@, decimal(count as int)]),
{
    redis::Cmd::zpopmin(key, count)
}

/// Calls `redis::Cmd::zrange`: the command name, the key, and both indices in
/// decimal.
#[verifier::external_body]
fn zrange(key: &str, start: isize, stop: isize) -> (cmd: redis::Cmd)
    ensures
        command_args(cmd) == utf8_words(
            seq!["ZRANGE"@, key@, decimal(start as int), decimal(stop as int)],
        ),
{
    redis::Cmd::zrange(key, start, stop)
}

/// Calls `redis::Cmd::zcount` with textual bounds: the command name, the key,
/// and the bounds as they are.
#[verifier::external_body]
fn zcount(key: &str, min: &str, max: &str) -> (cmd: redis::Cmd)
    ensures
        command_args(cmd) == utf8_words(seq!["ZCOUNT"@, key@, min@, max@]),
{
    redis::Cmd::zcount(key, min, max)
}

/// The raw reply to [`StoreCommand::Zpopmin`].
#[derive(Debug)]
pub enum PopReply {
    /// A list of strings: nothing, or the popped member and its score.
    Bulk(Vec<Vec<u8>>),
    /// Anything else.
    Other,
}

/// The mathematical content of a [`PopReply`].
pub enum PopReplyView {
    Bulk(Seq<Seq<u8>>),
    Other,
}

impl View for PopReply {
    type V = PopReplyView;

    open spec fn view(&self) -> PopReplyView {
        match self {
            PopReply::Bulk(items) => PopReplyView::Bulk(
                items@.map_values(|item: Vec<u8>| item@),
            ),
            PopReply::Other => PopReplyView::Other,
        }
    }
}

impl PopReplyView {
    /// Whether the reply is one that a pop can give: if it lists anything, it
    /// lists a team and its score.
    pub open spec fn readable(self) -> bool {
        match self {
            PopReplyView::Bulk(items) => items.len() == 0 || items.len() == 2 && parse_i64(
                items[0],
            ) is Some,
            PopReplyView::Other => true,
        }
    }

    /// The team that was popped, if any.
    pub open spec fn team(self) -> Option<i64> {
        match self {
            PopReplyView::Bulk(items) => if items.len() == 0 {
                None
            } else {
                parse_i64(items[0])
            },
            PopReplyView::Other => None,
        }
    }
}

/// Calls `redis::from_redis_value` on a list of strings, for a pair whose
/// first component is an `i64` and whose second is taken as it is.  It
/// succeeds exactly on two strings of which the first is the text of an
/// `i64`, which it gives.
#[verifier::external_body]
fn pair_with_integer(items: &Vec<Vec<u8>>) -> (first: Option<i64>)
    ensures
        first == if items@.len() == 2 {
            parse_i64(items@[0]@)
        } else {
            None
        },
{
    let list = items.iter().map(|item| redis::Value::Data(item.clone())).collect();
    let pair: redis::RedisResult<(i64, redis::Value)> = redis::from_redis_value(
        &redis::Value::Bulk(list),
    );
    pair.ok().map(|pair| pair.0)
}

impl PopReply {
    /// Whether [`PopReply::team`] can read this reply.
    pub fn is_readable(&self) -> (readable: bool)
        ensures
            readable == self@.readable(),
    {
        match self {
            PopReply::Bulk(items) => items.len() == 0 || pair_with_integer(items).is_some(),
            PopReply::Other => true,
        }
    }

    /// The team that was popped, if any.
    pub fn team(&self) -> (team: Option<i64>)
        requires
            self@.readable(),
        ensures
            team == self@.team(),
    {
        match self {
            PopReply::Bulk(items) => if items.len() == 0 {
                None
            } else {
                pair_with_integer(items)
            },
            PopReply::Other => None,
        }
    }
}

} // verus!
