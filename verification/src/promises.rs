//! What users and operators can rely on, in plain names, texts and numbers.

use vstd::prelude::*;
use vstd::utf8::*;

use crate::commands::lemma_names_are_distinct;
use crate::config::{
    default_table, queue_key, team_to_queue_key, ConfigView, DUMMY_TABLE, DUMMY_TEAM,
};
use crate::interaction::{
    command_named, join_text, Cause, EventView, InvocationView, RequestView, ResolvedView, SessionView,
    TurnView,
};
use crate::laws::{
    added_text, carries_out, dialogue, follows, has_shortest_queue, law_dequeue, law_enqueue, law_enqueue_me,
    law_enqueue_me_faster, law_moves_follow_the_plan, law_queue, law_tjoin, law_tkick,
    law_unqueue_me, lemma_order_is_strict, lemma_order_is_transitive, moving_dialogue, outcomes,
    reports_added, Attempt, Store,
};
use crate::queue::{all_named, is_first_smallest, lists_queues, queue_lines, queue_text, smallest};
use crate::seating::{
    after_outcomes, can_join, law_moves_of_a_plan, law_success_counts, planned, to_kick,
    TableJoinView,
};
use crate::store::{utf8_words, PopReplyView, StoreCommand};
use crate::text::{decimal, law_decimal_reads_back};
use crate::walk::lemma_filter_step;

verus! {

/// Each command goes by one name, and every other name is unknown.
pub proof fn law_each_command_has_one_name(name: Seq<char>)
    ensures
        command_named(name) is Ping <==> name == "ping"@,
        command_named(name) is Id <==> name == "id"@,
        command_named(name) is Tjoin <==> name == "tjoin"@,
        command_named(name) is Tkick <==> name == "tkick"@,
        command_named(name) is Queue <==> name == "queue"@,
        command_named(name) is Enqueue <==> name == "enqueue"@,
        command_named(name) is EnqueueMe <==> name == "enqueue_me"@,
        command_named(name) is EnqueueMeFaster <==> name == "enqueue_me_faster"@,
        command_named(name) is UnqueueMe <==> name == "unqueue_me"@,
        command_named(name) is Dequeue <==> name == "dequeue"@,
        command_named(name) is DequeueNojoin <==> name == "dequeue_nojoin"@,
        command_named(name) is Unknown <==> !seq![
            "ping"@,
            "id"@,
            "tjoin"@,
            "tkick"@,
            "queue"@,
            "enqueue"@,
            "enqueue_me"@,
            "enqueue_me_faster"@,
            "unqueue_me"@,
            "dequeue"@,
            "dequeue_nojoin"@,
        ].contains(name),
{
    lemma_names_are_distinct();
    let names = seq![
        "ping"@,
        "id"@,
        "tjoin"@,
        "tkick"@,
        "queue"@,
        "enqueue"@,
        "enqueue_me"@,
        "enqueue_me_faster"@,
        "unqueue_me"@,
        "dequeue"@,
        "dequeue_nojoin"@,
    ];
    assert(names[0] == "ping"@ && names[1] == "id"@ && names[2] == "tjoin"@);
    assert(names[3] == "tkick"@ && names[4] == "queue"@ && names[5] == "enqueue"@);
    assert(names[6] == "enqueue_me"@ && names[7] == "enqueue_me_faster"@);
    assert(names[8] == "unqueue_me"@ && names[9] == "dequeue"@ && names[10] == "dequeue_nojoin"@);
}

/// Blessing is asked for by `tjoin`, `tkick`, `enqueue`, `dequeue` and
/// `dequeue_nojoin`, and by nothing else.
pub proof fn law_five_commands_are_privileged(name: Seq<char>)
    ensures
        command_named(name).privileged() <==> {
            ||| name == "tjoin"@
            ||| name == "tkick"@
            ||| name == "enqueue"@
            ||| name == "dequeue"@
            ||| name == "dequeue_nojoin"@
        },
{
    law_each_command_has_one_name(name);
}

/// Whoever is not blessed is told so by the five privileged commands, whatever
/// else they say, and nothing happens.
pub proof fn law_the_unblessed_are_refused(
    config: ConfigView,
    invocation: InvocationView,
    seating: Map<i64, Set<u64>>,
    millis: i64,
    before: Store,
    after: Store,
    answer: Option<Seq<char>>,
)
    requires
        invocation.guild_id == Some(config.guild_id),
        invocation.name == "tjoin"@ || invocation.name == "tkick"@ || invocation.name == "enqueue"@
            || invocation.name == "dequeue"@ || invocation.name == "dequeue_nojoin"@,
        !config.blessed_users.contains(invocation.user_id),
        dialogue(config, invocation.first_turn(config), seating, millis, before, after, answer),
    ensures
        answer == Some("You should be blessed by the gods to do this"@),
        after == before,
{
    law_five_commands_are_privileged(invocation.name);
}

/// `/ping`, `/id` and unknown commands answer anyone at once, and change
/// nothing.
pub proof fn law_simple_commands(
    config: ConfigView,
    invocation: InvocationView,
    seating: Map<i64, Set<u64>>,
    millis: i64,
    before: Store,
    after: Store,
    answer: Option<Seq<char>>,
)
    requires
        invocation.guild_id == Some(config.guild_id),
        dialogue(config, invocation.first_turn(config), seating, millis, before, after, answer),
    ensures
        invocation.name == "ping"@ ==> after == before && answer == Some("Hey, I'm alive!"@),
        invocation.name == "id"@ && invocation.options.len() >= 1 ==> after == before && match
            invocation.options[0].resolved {
            Some(ResolvedView::User { id, tag }) => answer == Some(
                tag + "'s id is "@ + decimal(id as int),
            ),
            Some(ResolvedView::Other) => answer == Some("Please provide a valid user"@),
            None => true,
        },
        !seq![
            "ping"@,
            "id"@,
            "tjoin"@,
            "tkick"@,
            "queue"@,
            "enqueue"@,
            "enqueue_me"@,
            "enqueue_me_faster"@,
            "unqueue_me"@,
            "dequeue"@,
            "dequeue_nojoin"@,
        ].contains(invocation.name) ==> after == before && answer == Some("not implemented :("@),
{
    law_each_command_has_one_name(invocation.name);
}

/// What has to be given with a command: nothing in another guild, nothing for
/// whoever is refused, and otherwise a user for `id`, a table and a team for
/// `tjoin`, a table for `tkick`, `dequeue` and `dequeue_nojoin`, someone or
/// something for `enqueue`, and nothing for all others.
pub proof fn law_what_commands_ask_for(config: ConfigView, invocation: InvocationView)
    ensures
        invocation.well_formed(config) <==> {
            let ours = invocation.guild_id == Some(config.guild_id);
            let blessed = config.blessed_users.contains(invocation.user_id);
            let given = invocation.options;
            let name = invocation.name;
            &&& ours && name == "id"@ ==> given.len() >= 1 && given[0].resolved is Some
            &&& ours && blessed && name == "tjoin"@ ==> given.len() == 2 && given[0].value is Some
                && given[1].value is Some
            &&& ours && blessed && (name == "tkick"@ || name == "dequeue"@ || name
                == "dequeue_nojoin"@) ==> given.len() == 1 && given[0].value is Some
            &&& ours && blessed && name == "enqueue"@ ==> given.len() == 1
                && given[0].resolved is Some
        },
{
    law_each_command_has_one_name(invocation.name);
}

/// A queue can be shown if each of its teams has a name.
pub proof fn law_queues_of_named_teams_can_be_shown(config: ConfigView, queue: Seq<i64>)
    ensures
        all_named(config, queue) <==> forall|i: int|
            0 <= i < queue.len() ==> config.team_names.contains_key(#[trigger] queue[i]),
{
}

/// A team can be brought to a table if both exist, and the neutral table does,
/// and everyone who has to leave has a team with a room.
pub proof fn law_when_a_team_can_join(
    config: ConfigView,
    seating: Map<i64, Set<u64>>,
    team: i64,
    table: i64,
)
    ensures
        can_join(config, seating, team, table) <==> {
            &&& config.teams.contains_key(team)
            &&& config.tables.contains_key(table)
            &&& config.tables.contains_key(0)
            &&& forall|user: u64|
                #![trigger config.user_teams.contains_key(user)]
                seating.contains_key(table) && seating[table].contains(user)
                    && config.participants.contains(user) && !config.teams[team].contains(user)
                    ==> config.user_teams.contains_key(user) && config.team_voice_rooms.contains_key(
                    config.user_teams[user],
                )
        },
{
    if can_join(config, seating, team, table) {
        assert forall|user: u64|
            #![trigger config.user_teams.contains_key(user)]
            seating.contains_key(table) && seating[table].contains(user)
                && config.participants.contains(user) && !config.teams[team].contains(
                user,
            ) implies config.user_teams.contains_key(user) && config.team_voice_rooms.contains_key(
            config.user_teams[user],
        ) by {
            assert(to_kick(config, seating, team, table).contains(user));
            assert(config.has_home(user));
        }
    }
    if forall|user: u64|
        #![trigger config.user_teams.contains_key(user)]
        seating.contains_key(table) && seating[table].contains(user)
            && config.participants.contains(user) && !config.teams[team].contains(user)
            ==> config.user_teams.contains_key(user) && config.team_voice_rooms.contains_key(
            config.user_teams[user],
        ) {
        assert forall|user: u64| #[trigger]
            to_kick(config, seating, team, table).contains(user) implies config.has_home(user) by {
            assert(config.user_teams.contains_key(user) || !config.user_teams.contains_key(user));
        }
    }
}

/// Teams 1 to 5 belong to table 1, teams 6 to 11 to table 2, and all others to
/// none.
pub proof fn law_tables_of_teams(team: i64)
    ensures
        1 <= team <= 5 ==> default_table(team) == 1,
        6 <= team <= 11 ==> default_table(team) == 2,
        team < 1 || team > 11 ==> default_table(team) == -1,
{
}

/// The neutral table is table 0, and the empty team is team -1.
pub proof fn law_neutral_table_and_empty_team()
    ensures
        DUMMY_TABLE == 0,
        DUMMY_TEAM == -1,
{
}

/// A queue is shown as one line for each team, in order and with none left out:
/// one more team is one more line.
pub proof fn law_queue_text_has_a_line_for_each_team(
    config: ConfigView,
    queue: Seq<i64>,
    team: i64,
)
    ensures
        queue_text(config, Seq::empty()) == "  (empty)"@,
        queue_text(config, queue.push(team)) == (if queue.len() == 0 {
            Seq::empty()
        } else {
            queue_text(config, queue)
        }) + "  team "@ + decimal(team as int) + ": "@ + config.team_names[team] + "\n"@,
{
    reveal_with_fuel(queue_lines, 2);
    assert(queue.push(team).drop_last() =~= queue);
    assert(queue.len() == 0 ==> queue_lines(config.team_names, queue) =~= Seq::empty());
}

/// Decimal text: a digit is its character, a longer number its leading digits
/// followed by its last, and a negative number its absolute value behind a
/// minus sign.
pub proof fn law_decimal_text(n: int)
    ensures
        0 <= n < 10 ==> decimal(n).len() == 1 && decimal(n)[0] as int == 48 + n,
        n >= 10 ==> decimal(n) == decimal(n / 10) + decimal(n % 10),
        n < 0 ==> decimal(n) == seq!['-'] + decimal(-n),
{
}

/// The keys of a deployment: its name, a colon, and what the key is of.
pub proof fn law_texts_of_keys(environment: Seq<char>, table: i64)
    ensures
        queue_key(environment, table) == environment + ":queue:"@ + decimal(table as int),
        team_to_queue_key(environment) == environment + ":team_to_queue"@,
{
}

/// All commands on the hash name one and the same key of the deployment, and
/// the same field for the same team; all commands on a queue name one and the
/// same key for the same table, and the same member for the same team.
pub proof fn law_commands_share_their_keys(
    environment: Seq<char>,
    team: i64,
    table: i64,
    other: i64,
    millis: i64,
)
    ensures
        ({
            let check = (StoreCommand::Hexists { team }).words(environment);
            let get = (StoreCommand::Hget { team }).words(environment);
            let put = (StoreCommand::Hset { team, table }).words(environment);
            let forget = (StoreCommand::Hdel { team }).words(environment);
            let elsewhere = (StoreCommand::Hget { team: other }).words(environment);
            let add = (StoreCommand::Zadd { table, team, millis }).words(environment);
            let remove = (StoreCommand::Zrem { table, team }).words(environment);
            let pop = (StoreCommand::Zpopmin { table }).words(environment);
            let list = (StoreCommand::Zrange { table }).words(environment);
            let count = (StoreCommand::Zcount { table }).words(environment);
            &&& check[1] == get[1] && put[1] == get[1] && forget[1] == get[1]
            &&& elsewhere[1] == get[1]
            &&& check[2] == get[2] && put[2] == get[2] && forget[2] == get[2]
            &&& add[1] == list[1] && remove[1] == list[1] && pop[1] == list[1]
            &&& count[1] == list[1]
            &&& add.last() == get[2] && remove.last() == get[2]
        }),
{
}

/// What each command sends, word by word.
pub proof fn law_words_of_commands(
    environment: Seq<char>,
    team: i64,
    table: i64,
    millis: i64,
)
    ensures
        ({
            let hash = environment + ":team_to_queue"@;
            let queue = environment + ":queue:"@ + decimal(table as int);
            let t = decimal(team as int);
            &&& (StoreCommand::Hexists { team }).words(environment) =~= seq!["HEXISTS"@, hash, t]
            &&& (StoreCommand::Hget { team }).words(environment) =~= seq!["HGET"@, hash, t]
            &&& (StoreCommand::Hdel { team }).words(environment) =~= seq!["HDEL"@, hash, t]
            &&& (StoreCommand::Hset { team, table }).words(environment) =~= seq![
                "HSET"@,
                hash,
                t,
                decimal(table as int),
            ]
            &&& (StoreCommand::Zadd { table, team, millis }).words(environment) =~= seq![
                "ZADD"@,
                queue,
                "NX"@,
                decimal(millis as int),
                t,
            ]
            &&& (StoreCommand::Zrem { table, team }).words(environment) =~= seq!["ZREM"@, queue, t]
            &&& (StoreCommand::Zpopmin { table }).words(environment) =~= seq![
                "ZPOPMIN"@,
                queue,
                decimal(1),
            ]
            &&& (StoreCommand::Zrange { table }).words(environment) =~= seq![
                "ZRANGE"@,
                queue,
                decimal(0),
                decimal(100),
            ]
            &&& (StoreCommand::Zcount { table }).words(environment) =~= seq![
                "ZCOUNT"@,
                queue,
                "-inf"@,
                "inf"@,
            ]
        }),
{
}

/// Words are sent as the bytes of their text, each by itself and in order.
pub proof fn law_words_are_sent_as_their_bytes(words: Seq<Seq<char>>)
    ensures
        utf8_words(words).len() == words.len(),
        forall|i: int|
            0 <= i < words.len() ==> #[trigger] utf8_words(words)[i] == encode_utf8(words[i]),
{
}

/// A pop that gives a member and a score is read as the team whose number the
/// member is the text of; one that gives an empty list, or no list, as no team.
/// A list of any other length, or with another first item, is not read.
pub proof fn law_popped_teams_are_read(team: i64, score: Seq<u8>, items: Seq<Seq<u8>>)
    ensures
        ({
            let reply = PopReplyView::Bulk(seq![encode_utf8(decimal(team as int)), score]);
            reply.readable() && reply.team() == Some(team)
        }),
        PopReplyView::Other.readable() && PopReplyView::Other.team() is None,
        items.len() == 0 ==> PopReplyView::Bulk(items).readable() && PopReplyView::Bulk(
            items,
        ).team() is None,
        PopReplyView::Bulk(items).readable() ==> items.len() == 0 || items.len() == 2,
{
    law_decimal_reads_back(team);
}

/// The queues that are counted are those of all tables but table 0, each once.
pub proof fn law_all_queues_are_counted(config: ConfigView, tables: Seq<i64>, table: i64)
    requires
        lists_queues(config, tables),
    ensures
        tables.contains(table) <==> config.tables.contains_key(table) && table != 0,
        forall|i: int, j: int|
            0 <= i < j < tables.len() ==> #[trigger] tables[i] != #[trigger] tables[j],
{
    assert(tables.to_set().contains(table) <==> tables.contains(table));
}

/// The choice among counted queues is the first that has the lowest count.
pub proof fn law_the_first_smallest_is_chosen(counts: Seq<(i64, i64)>, at: int)
    requires
        0 <= at < counts.len(),
        forall|j: int| 0 <= j < counts.len() ==> counts[at].1 <= (#[trigger] counts[j]).1,
        forall|j: int| 0 <= j < at ==> counts[at].1 < (#[trigger] counts[j]).1,
    ensures
        smallest(counts) == counts[at].0,
{
    assert(is_first_smallest(counts, at));
    let chosen = choose|i: int| is_first_smallest(counts, i);
    if chosen < at {
        assert(counts[at].1 < counts[chosen].1);
    } else if at < chosen {
        assert(counts[chosen].1 < counts[at].1);
    }
}

/// `/enqueue_me` adds the user's team to the queue of table 1 if it is one of
/// teams 1 to 5, of table 2 if it is one of teams 6 to 11, and otherwise to that
/// of table -1, at the time it is given, and shows that queue; a team that waits
/// anywhere is not added again.
pub proof fn law_enqueue_me_uses_the_table_of_the_team(
    config: ConfigView,
    invocation: InvocationView,
    seating: Map<i64, Set<u64>>,
    millis: i64,
    before: Store,
    after: Store,
    answer: Option<Seq<char>>,
    team: i64,
    table: i64,
)
    requires
        invocation.guild_id == Some(config.guild_id),
        invocation.name == "enqueue_me"@,
        config.user_teams.contains_key(invocation.user_id),
        config.user_teams[invocation.user_id] == team,
        1 <= team <= 5 ==> table == 1,
        6 <= team <= 11 ==> table == 2,
        team < 1 || team > 11 ==> table == -1,
        dialogue(config, invocation.first_turn(config), seating, millis, before, after, answer),
    ensures
        before.assigned.contains_key(team) ==> after == before && answer == Some(
            "You are already enqueued somewhere!"@,
        ),
        !before.assigned.contains_key(team) ==> {
            &&& after.assigned == before.assigned.insert(team, table)
            &&& after.waiting == if before.waiting.contains_key((table, team)) {
                before.waiting
            } else {
                before.waiting.insert((table, team), millis)
            }
            &&& exists|queue: Seq<i64>| #[trigger]
                after.lists(table, queue) && answer == Some(
                    "Enqueued to table "@ + decimal(table as int) + "\n"@ + queue_text(config, queue),
                )
        },
{
    law_each_command_has_one_name(invocation.name);
    law_enqueue_me(config, invocation, seating, millis, before, after, answer, team);
    if !before.assigned.contains_key(team) {
        assert(table == default_table(team));
        let queue = choose|queue: Seq<i64>| #[trigger]
            after.lists(table, queue) && all_named(config, queue) && answer == Some(
                added_text(config, table, queue),
            );
        assert(after.lists(table, queue));
    }
}

/// `/enqueue` does the same for the team of the user who is named.
pub proof fn law_enqueue_uses_the_table_of_the_team(
    config: ConfigView,
    invocation: InvocationView,
    seating: Map<i64, Set<u64>>,
    millis: i64,
    before: Store,
    after: Store,
    answer: Option<Seq<char>>,
    team: i64,
    id: u64,
    table: i64,
)
    requires
        invocation.guild_id == Some(config.guild_id),
        invocation.name == "enqueue"@,
        config.blessed_users.contains(invocation.user_id),
        invocation.options.len() == 1,
        invocation.options[0].resolved matches Some(ResolvedView::User { id: named, .. }) && named
            == id,
        1 <= team <= 5 ==> table == 1,
        6 <= team <= 11 ==> table == 2,
        team < 1 || team > 11 ==> table == -1,
        dialogue(config, invocation.first_turn(config), seating, millis, before, after, answer),
    ensures
        !config.user_teams.contains_key(id) ==> after == before && answer == Some(
            "Cannot determine the team of the user"@,
        ),
        config.user_teams.contains_key(id) && config.user_teams[id] == team
            && before.assigned.contains_key(team) ==> after == before && answer == Some(
            "They are already enqueued somewhere!"@,
        ),
        config.user_teams.contains_key(id) && config.user_teams[id] == team
            && !before.assigned.contains_key(team) ==> {
            &&& after.assigned == before.assigned.insert(team, table)
            &&& after.waiting == if before.waiting.contains_key((table, team)) {
                before.waiting
            } else {
                before.waiting.insert((table, team), millis)
            }
            &&& exists|queue: Seq<i64>| #[trigger]
                after.lists(table, queue) && answer == Some(
                    "Enqueued to table "@ + decimal(table as int) + "\n"@ + queue_text(config, queue),
                )
        },
{
    law_each_command_has_one_name(invocation.name);
    let user = invocation.options[0].resolved->0;
    law_enqueue(config, invocation, seating, millis, before, after, answer, user);
    if config.user_team(id) == Some(team) && !before.assigned.contains_key(team) {
        assert(table == default_table(team));
        let queue = choose|queue: Seq<i64>| #[trigger]
            after.lists(table, queue) && all_named(config, queue) && answer == Some(
                added_text(config, table, queue),
            );
        assert(after.lists(table, queue));
    }
}

/// `/enqueue_me_faster` adds the user's team to the queue of a table other than
/// table 0 that no such table has a shorter queue than, and shows that queue.
pub proof fn law_enqueue_me_faster_uses_a_shortest_queue(
    config: ConfigView,
    invocation: InvocationView,
    seating: Map<i64, Set<u64>>,
    millis: i64,
    before: Store,
    after: Store,
    answer: Option<Seq<char>>,
    team: i64,
)
    requires
        invocation.guild_id == Some(config.guild_id),
        invocation.name == "enqueue_me_faster"@,
        config.user_teams.contains_key(invocation.user_id),
        config.user_teams[invocation.user_id] == team,
        dialogue(config, invocation.first_turn(config), seating, millis, before, after, answer),
    ensures
        before.assigned.contains_key(team) ==> after == before && answer == Some(
            "You are already enqueued somewhere!"@,
        ),
        !before.assigned.contains_key(team) ==> exists|table: i64|
            {
                &&& #[trigger] config.tables.contains_key(table)
                &&& table != 0
                &&& forall|other: i64|
                    config.tables.contains_key(other) && other != 0 ==> before.queue(table).len()
                        <= (#[trigger] before.queue(other)).len()
                &&& after.assigned == before.assigned.insert(team, table)
                &&& after.waiting == if before.waiting.contains_key((table, team)) {
                    before.waiting
                } else {
                    before.waiting.insert((table, team), millis)
                }
                &&& exists|queue: Seq<i64>| #[trigger]
                    after.lists(table, queue) && answer == Some(
                        "Enqueued to table "@ + decimal(table as int) + "\n"@ + queue_text(config, queue),
                    )
            },
{
    law_each_command_has_one_name(invocation.name);
    law_enqueue_me_faster(config, invocation, seating, millis, before, after, answer, team);
    if !before.assigned.contains_key(team) {
        let table = choose|table: i64|
            {
                &&& #[trigger] has_shortest_queue(config, before, table)
                &&& after == before.with(table, team, millis)
                &&& reports_added(config, after, table, answer)
            };
        assert(config.tables.contains_key(table));
    }
}

/// `/unqueue_me` takes the user's team out of the queue that holds it and out of
/// the hash, so that it waits nowhere, and names the table; a team that does not
/// wait is told so.
pub proof fn law_unqueue_me_forgets_the_team(
    config: ConfigView,
    invocation: InvocationView,
    seating: Map<i64, Set<u64>>,
    millis: i64,
    before: Store,
    after: Store,
    answer: Option<Seq<char>>,
    team: i64,
)
    requires
        invocation.guild_id == Some(config.guild_id),
        invocation.name == "unqueue_me"@,
        config.user_teams.contains_key(invocation.user_id),
        config.user_teams[invocation.user_id] == team,
        dialogue(config, invocation.first_turn(config), seating, millis, before, after, answer),
    ensures
        !before.assigned.contains_key(team) ==> after == before && answer == Some(
            "You don't seem to be enqueued!"@,
        ),
        before.assigned.contains_key(team) ==> {
            let table = before.assigned[team];
            &&& after.assigned == before.assigned.remove(team)
            &&& after.waiting == before.waiting.remove((table, team))
            &&& answer == Some("Successfully unqueued from table "@ + decimal(table as int))
        },
{
    law_each_command_has_one_name(invocation.name);
    law_unqueue_me(config, invocation, seating, millis, before, after, answer, team);
}

/// Whoever has no team is told so by the three commands on their own team.
pub proof fn law_only_participants_have_a_team(
    config: ConfigView,
    invocation: InvocationView,
    seating: Map<i64, Set<u64>>,
    millis: i64,
    before: Store,
    after: Store,
    answer: Option<Seq<char>>,
)
    requires
        invocation.guild_id == Some(config.guild_id),
        invocation.name == "enqueue_me"@ || invocation.name == "enqueue_me_faster"@
            || invocation.name == "unqueue_me"@,
        !config.user_teams.contains_key(invocation.user_id),
        dialogue(config, invocation.first_turn(config), seating, millis, before, after, answer),
    ensures
        after == before,
        answer == Some("Cannot determine your team. Are you a participant?"@),
{
    law_each_command_has_one_name(invocation.name);
}

/// `/queue` shows the queues of tables 1 and 2, in this order, to anyone.
pub proof fn law_queue_shows_both_tables(
    config: ConfigView,
    invocation: InvocationView,
    seating: Map<i64, Set<u64>>,
    millis: i64,
    before: Store,
    after: Store,
    answer: Option<Seq<char>>,
)
    requires
        invocation.guild_id == Some(config.guild_id),
        invocation.name == "queue"@,
        dialogue(config, invocation.first_turn(config), seating, millis, before, after, answer),
    ensures
        after == before,
        exists|first: Seq<i64>, second: Seq<i64>|
            {
                &&& #[trigger] before.lists(1, first)
                &&& #[trigger] before.lists(2, second)
                &&& answer == Some(
                    "Table 1:\n"@ + queue_text(config, first) + "\n\nTable 2:\n"@ + queue_text(
                        config,
                        second,
                    ),
                )
            },
{
    law_each_command_has_one_name(invocation.name);
    law_queue(config, invocation, seating, millis, before, after, answer);
}

/// `/dequeue_nojoin` takes the first team out of the queue of the table and out
/// of the hash, and moves nobody.
pub proof fn law_dequeue_nojoin_takes_the_first(
    config: ConfigView,
    invocation: InvocationView,
    seating: Map<i64, Set<u64>>,
    millis: i64,
    before: Store,
    after: Store,
    answer: Option<Seq<char>>,
)
    requires
        invocation.guild_id == Some(config.guild_id),
        invocation.name == "dequeue_nojoin"@,
        config.blessed_users.contains(invocation.user_id),
        invocation.options.len() == 1,
        invocation.options[0].value is Some,
        dialogue(config, invocation.first_turn(config), seating, millis, before, after, answer),
    ensures
        ({
            let table = invocation.options[0].value->0;
            ||| {
                &&& forall|team: i64| !before.waiting.contains_key((table, team))
                &&& after == before
                &&& answer == Some("The queue for table "@ + decimal(table as int) + " is empty"@)
            }
            ||| exists|team: i64|
                {
                    &&& #[trigger] before.is_first(table, team)
                    &&& after.assigned == before.assigned.remove(team)
                    &&& after.waiting == before.waiting.remove((table, team))
                    &&& answer == Some("Deqeued team "@ + decimal(team as int) + " -> /dev/null"@)
                }
        }),
{
    let table = invocation.options[0].value->0;
    law_each_command_has_one_name(invocation.name);
    law_dequeue(config, invocation, seating, millis, before, after, answer);
    if forall|team: i64| !before.waits(table, team) {
        assert forall|team: i64| !before.waiting.contains_key((table, team)) by {
            assert(!before.waits(table, team));
        }
    }
}

/// The counts of a join, by who was to be moved.
proof fn lemma_counts_by_user(
    plan: TableJoinView,
    attempts: Seq<Attempt>,
    team: Set<u64>,
    n: int,
)
    requires
        plan.done == 0 && plan.people_in == 0 && plan.people_out == 0 && plan.people_fail == 0,
        0 <= n <= attempts.len(),
        attempts.len() == plan.moves.len(),
        forall|i: int|
            0 <= i < attempts.len() ==> (#[trigger] attempts[i]).user == plan.moves[i].user && (
            plan.moves[i].kick <==> !team.contains(plan.moves[i].user)),
    ensures
        ({
            let end = after_outcomes(plan, outcomes(attempts.take(n)));
            &&& end.moves == plan.moves
            &&& end.done == n
            &&& end.people_in == attempts.take(n).filter(
                |a: Attempt| a.moved && team.contains(a.user),
            ).len()
            &&& end.people_out == attempts.take(n).filter(
                |a: Attempt| a.moved && !team.contains(a.user),
            ).len()
            &&& end.people_fail == attempts.take(n).filter(|a: Attempt| !a.moved).len()
        }),
    decreases n,
{
    let came = |a: Attempt| a.moved && team.contains(a.user);
    let left = |a: Attempt| a.moved && !team.contains(a.user);
    let failed = |a: Attempt| !a.moved;
    if n == 0 {
        reveal(Seq::filter);
        assert(outcomes(attempts.take(0)).len() == 0);
    } else {
        lemma_counts_by_user(plan, attempts, team, n - 1);
        assert(attempts[n - 1].user == plan.moves[n - 1].user);
        lemma_filter_step(attempts, came, n - 1);
        lemma_filter_step(attempts, left, n - 1);
        lemma_filter_step(attempts, failed, n - 1);
        assert(outcomes(attempts.take(n)).drop_last() =~= outcomes(attempts.take(n - 1)));
        assert(outcomes(attempts.take(n)).last() == attempts[n - 1].moved);
    }
}

/// What was tried and what was reported, where the moves of a plan were carried
/// out.
proof fn lemma_carried_out(
    config: ConfigView,
    seating: Map<i64, Set<u64>>,
    cause: Cause,
    team: i64,
    table: i64,
    attempts: Seq<Attempt>,
    answer: Option<Seq<char>>,
) -> (counts: (nat, nat, nat))
    requires
        carries_out(config, seating, cause, team, table, attempts, answer),
    ensures
        ({
            let came = attempts.filter(
                |a: Attempt| a.moved && config.teams[team].contains(a.user),
            ).len();
            let left = attempts.filter(
                |a: Attempt| a.moved && !config.teams[team].contains(a.user),
            ).len();
            let failed = attempts.filter(|a: Attempt| !a.moved).len();
            let present = if seating.contains_key(table) {
                seating[table]
            } else {
                Set::empty()
            };
            &&& counts == (came, left, failed)
            &&& answer == Some(
                (match cause {
                    Cause::Join => "Done team "@ + decimal(team as int) + " -> table "@ + decimal(
                        table as int,
                    ),
                    Cause::Kick => "Done kicking from table "@ + decimal(table as int),
                    Cause::Dequeue => "Deqeued team "@ + decimal(team as int) + " -> table "@
                        + decimal(table as int),
                }) + ": "@ + decimal(came as int) + " people in, "@ + decimal(left as int)
                    + " people out, "@ + decimal(failed as int) + " people failed"@,
            )
            &&& (forall|i: int| 0 <= i < attempts.len() ==> (#[trigger] attempts[i]).moved)
                ==> came == config.teams[team].difference(present).len() && left
                == present.intersect(config.participants).difference(config.teams[team]).len()
                && failed == 0
            &&& forall|i: int|
                0 <= i < attempts.len() ==> (#[trigger] attempts[i]).channel
                    == if config.teams[team].contains(attempts[i].user) {
                    config.tables[table]
                } else {
                    config.team_voice_rooms[config.user_teams[attempts[i].user]]
                }
            &&& forall|i: int, j: int|
                0 <= i < j < attempts.len() ==> (#[trigger] attempts[i]).user != (
                #[trigger] attempts[j]).user && (config.teams[team].contains(attempts[i].user)
                    ==> config.teams[team].contains(attempts[j].user))
            &&& forall|user: u64|
                #![trigger config.teams[team].contains(user)]
                (exists|i: int| 0 <= i < attempts.len() && (#[trigger] attempts[i]).user == user)
                    <==> {
                    let in_team = config.teams[team].contains(user);
                    present.contains(user) && config.participants.contains(user) && !in_team
                        || in_team && !present.contains(user)
                }
        }),
{
    let plan = choose|plan: TableJoinView|
        {
            &&& #[trigger] planned(config, seating, team, table, plan)
            &&& follows(attempts, plan)
            &&& answer == Some(
                join_text(cause, team, table, after_outcomes(plan, outcomes(attempts))),
            )
        };
    let members = config.teams[team];
    let present = if seating.contains_key(table) {
        seating[table]
    } else {
        Set::empty()
    };
    law_moves_of_a_plan(config, seating, team, table, plan);
    assert forall|i: int| 0 <= i < attempts.len() implies (#[trigger] attempts[i]).user
        == plan.moves[i].user && (plan.moves[i].kick <==> !members.contains(
        plan.moves[i].user,
    )) by {}
    lemma_counts_by_user(plan, attempts, members, attempts.len() as int);
    assert(attempts.take(attempts.len() as int) =~= attempts);
    let end = after_outcomes(plan, outcomes(attempts));
    if forall|i: int| 0 <= i < attempts.len() ==> (#[trigger] attempts[i]).moved {
        assert forall|i: int| 0 <= i < outcomes(attempts).len() implies #[trigger] outcomes(
            attempts,
        )[i] by {
            assert(attempts[i].moved);
        }
        law_success_counts(config, seating, team, table, plan, outcomes(attempts));
    }
    assert forall|i: int, j: int| 0 <= i < j < attempts.len() implies (#[trigger] attempts[i]).user
        != (#[trigger] attempts[j]).user && (members.contains(attempts[i].user)
        ==> members.contains(attempts[j].user)) by {
        assert(plan.moves[i].user != plan.moves[j].user);
    }
    assert forall|user: u64|
        #![trigger members.contains(user)]
        (exists|i: int| 0 <= i < attempts.len() && (#[trigger] attempts[i]).user == user) <==> {
            let in_team = members.contains(user);
            present.contains(user) && config.participants.contains(user) && !in_team || in_team
                && !present.contains(user)
        } by {
        if exists|i: int| 0 <= i < attempts.len() && (#[trigger] attempts[i]).user == user {
            let i = choose|i: int| 0 <= i < attempts.len() && (#[trigger] attempts[i]).user == user;
            assert(plan.moves[i].user == user);
        }
        if exists|i: int| 0 <= i < plan.moves.len() && (#[trigger] plan.moves[i]).user == user {
            let i = choose|i: int|
                0 <= i < plan.moves.len() && (#[trigger] plan.moves[i]).user == user;
            assert(attempts[i].user == user);
        }
    }
    (end.people_in, end.people_out, end.people_fail)
}

/// `/tjoin` moves the team to the table: the members who are not there come, and
/// the other participants who are there leave for their own teams' rooms.  The
/// answer tells how many members came, how many others left, and how many moves
/// failed.
pub proof fn law_tjoin_reports_who_came_and_who_left(
    config: ConfigView,
    invocation: InvocationView,
    seating: Map<i64, Set<u64>>,
    millis: i64,
    before: Store,
    after: Store,
    answer: Option<Seq<char>>,
    attempts: Seq<Attempt>,
)
    requires
        invocation.guild_id == Some(config.guild_id),
        config.blessed_users.contains(invocation.user_id),
        invocation.name == "tjoin"@,
        invocation.options.len() == 2,
        invocation.options[0].value is Some,
        invocation.options[1].value is Some,
        moving_dialogue(
            config,
            invocation.first_turn(config),
            seating,
            millis,
            before,
            after,
            answer,
            attempts,
        ),
    ensures
        after == before,
        ({
            let table = invocation.options[0].value->0;
            let team = invocation.options[1].value->0;
            let came = attempts.filter(
                |a: Attempt| a.moved && config.teams[team].contains(a.user),
            ).len();
            let left = attempts.filter(
                |a: Attempt| a.moved && !config.teams[team].contains(a.user),
            ).len();
            let failed = attempts.filter(|a: Attempt| !a.moved).len();
            let present = if seating.contains_key(table) {
                seating[table]
            } else {
                Set::empty()
            };
            &&& answer == Some(
                "Done team "@ + decimal(team as int) + " -> table "@ + decimal(table as int)
                    + ": "@ + decimal(came as int) + " people in, "@ + decimal(left as int)
                    + " people out, "@ + decimal(failed as int) + " people failed"@,
            )
            &&& (forall|i: int| 0 <= i < attempts.len() ==> (#[trigger] attempts[i]).moved) ==> came
                == config.teams[team].difference(present).len() && left == present.intersect(
                config.participants,
            ).difference(config.teams[team]).len() && failed == 0
            &&& forall|i: int|
                0 <= i < attempts.len() ==> (#[trigger] attempts[i]).channel == if config.teams[team].contains(
                    attempts[i].user,
                ) {
                    config.tables[table]
                } else {
                    config.team_voice_rooms[config.user_teams[attempts[i].user]]
                }
            &&& forall|i: int, j: int|
                0 <= i < j < attempts.len() ==> (#[trigger] attempts[i]).user != (
                #[trigger] attempts[j]).user && (config.teams[team].contains(attempts[i].user)
                    ==> config.teams[team].contains(attempts[j].user))
            &&& forall|user: u64|
                #![trigger config.teams[team].contains(user)]
                (exists|i: int| 0 <= i < attempts.len() && (#[trigger] attempts[i]).user == user) <==> {
                    let in_team = config.teams[team].contains(user);
                    present.contains(user) && config.participants.contains(user) && !in_team || in_team
                        && !present.contains(user)
                }
        }),
{
    law_each_command_has_one_name(invocation.name);
    law_moves_follow_the_plan(
        config,
        invocation,
        seating,
        millis,
        before,
        after,
        answer,
        attempts,
    );
    assert(dialogue(config, invocation.first_turn(config), seating, millis, before, after, answer));
    law_tjoin(config, invocation, seating, millis, before, after, answer);
    let counts = lemma_carried_out(
        config,
        seating,
        Cause::Join,
        invocation.options[1].value->0,
        invocation.options[0].value->0,
        attempts,
        answer,
    );
}

/// `/tkick` moves everyone who is to leave the table to their own team's room, as
/// if the empty team, team -1, were to come.
pub proof fn law_tkick_reports_who_left(
    config: ConfigView,
    invocation: InvocationView,
    seating: Map<i64, Set<u64>>,
    millis: i64,
    before: Store,
    after: Store,
    answer: Option<Seq<char>>,
    attempts: Seq<Attempt>,
)
    requires
        invocation.guild_id == Some(config.guild_id),
        config.blessed_users.contains(invocation.user_id),
        invocation.name == "tkick"@,
        invocation.options.len() == 1,
        invocation.options[0].value is Some,
        moving_dialogue(
            config,
            invocation.first_turn(config),
            seating,
            millis,
            before,
            after,
            answer,
            attempts,
        ),
    ensures
        after == before,
        ({
            let table = invocation.options[0].value->0;
            let team = -1i64;
            let came = attempts.filter(
                |a: Attempt| a.moved && config.teams[team].contains(a.user),
            ).len();
            let left = attempts.filter(
                |a: Attempt| a.moved && !config.teams[team].contains(a.user),
            ).len();
            let failed = attempts.filter(|a: Attempt| !a.moved).len();
            let present = if seating.contains_key(table) {
                seating[table]
            } else {
                Set::empty()
            };
            &&& answer == Some(
                "Done kicking from table "@ + decimal(table as int)
                    + ": "@ + decimal(came as int) + " people in, "@ + decimal(left as int)
                    + " people out, "@ + decimal(failed as int) + " people failed"@,
            )
            &&& (forall|i: int| 0 <= i < attempts.len() ==> (#[trigger] attempts[i]).moved) ==> came
                == config.teams[team].difference(present).len() && left == present.intersect(
                config.participants,
            ).difference(config.teams[team]).len() && failed == 0
            &&& forall|i: int|
                0 <= i < attempts.len() ==> (#[trigger] attempts[i]).channel == if config.teams[team].contains(
                    attempts[i].user,
                ) {
                    config.tables[table]
                } else {
                    config.team_voice_rooms[config.user_teams[attempts[i].user]]
                }
            &&& forall|i: int, j: int|
                0 <= i < j < attempts.len() ==> (#[trigger] attempts[i]).user != (
                #[trigger] attempts[j]).user && (config.teams[team].contains(attempts[i].user)
                    ==> config.teams[team].contains(attempts[j].user))
            &&& forall|user: u64|
                #![trigger config.teams[team].contains(user)]
                (exists|i: int| 0 <= i < attempts.len() && (#[trigger] attempts[i]).user == user) <==> {
                    let in_team = config.teams[team].contains(user);
                    present.contains(user) && config.participants.contains(user) && !in_team || in_team
                        && !present.contains(user)
                }
        }),
{
    law_each_command_has_one_name(invocation.name);
    law_moves_follow_the_plan(
        config,
        invocation,
        seating,
        millis,
        before,
        after,
        answer,
        attempts,
    );
    assert(dialogue(config, invocation.first_turn(config), seating, millis, before, after, answer));
    law_tkick(config, invocation, seating, millis, before, after, answer);
    let counts = lemma_carried_out(
        config,
        seating,
        Cause::Kick,
        DUMMY_TEAM,
        invocation.options[0].value->0,
        attempts,
        answer,
    );
}

/// `/dequeue` takes the first team out of the queue of the table and moves it
/// there as `/tjoin` would; if nobody waits, it says so and moves nobody.
pub proof fn law_dequeue_reports_who_came_and_who_left(
    config: ConfigView,
    invocation: InvocationView,
    seating: Map<i64, Set<u64>>,
    millis: i64,
    before: Store,
    after: Store,
    answer: Option<Seq<char>>,
    attempts: Seq<Attempt>,
)
    requires
        invocation.guild_id == Some(config.guild_id),
        config.blessed_users.contains(invocation.user_id),
        invocation.name == "dequeue"@,
        invocation.options.len() == 1,
        invocation.options[0].value is Some,
        moving_dialogue(
            config,
            invocation.first_turn(config),
            seating,
            millis,
            before,
            after,
            answer,
            attempts,
        ),
    ensures
        ({
            let table = invocation.options[0].value->0;
            ||| {
                &&& forall|team: i64| !before.waiting.contains_key((table, team))
                &&& after == before
                &&& attempts.len() == 0
                &&& answer == Some("The queue for table "@ + decimal(table as int) + " is empty"@)
            }
            ||| exists|team: i64|
                {
                    let came = attempts.filter(
                        |a: Attempt| a.moved && config.teams[team].contains(a.user),
                    ).len();
                    let left = attempts.filter(
                        |a: Attempt| a.moved && !config.teams[team].contains(a.user),
                    ).len();
                    let failed = attempts.filter(|a: Attempt| !a.moved).len();
                    let present = if seating.contains_key(table) {
                        seating[table]
                    } else {
                        Set::empty()
                    };
                    &&& #[trigger] before.is_first(table, team)
                    &&& after.assigned == before.assigned.remove(team)
                    &&& after.waiting == before.waiting.remove((table, team))
                    &&& answer == Some(
                        "Deqeued team "@ + decimal(team as int) + " -> table "@ + decimal(table as int)
                            + ": "@ + decimal(came as int) + " people in, "@ + decimal(left as int)
                            + " people out, "@ + decimal(failed as int) + " people failed"@,
                    )
                    &&& (forall|i: int| 0 <= i < attempts.len() ==> (#[trigger] attempts[i]).moved) ==> came
                        == config.teams[team].difference(present).len() && left == present.intersect(
                        config.participants,
                    ).difference(config.teams[team]).len() && failed == 0
                    &&& forall|i: int|
                        0 <= i < attempts.len() ==> (#[trigger] attempts[i]).channel == if config.teams[team].contains(
                            attempts[i].user,
                        ) {
                            config.tables[table]
                        } else {
                            config.team_voice_rooms[config.user_teams[attempts[i].user]]
                        }
                    &&& forall|i: int, j: int|
                        0 <= i < j < attempts.len() ==> (#[trigger] attempts[i]).user != (
                        #[trigger] attempts[j]).user && (config.teams[team].contains(attempts[i].user)
                            ==> config.teams[team].contains(attempts[j].user))
                    &&& forall|user: u64|
                        #![trigger config.teams[team].contains(user)]
                        (exists|i: int| 0 <= i < attempts.len() && (#[trigger] attempts[i]).user == user) <==> {
                            let in_team = config.teams[team].contains(user);
                            present.contains(user) && config.participants.contains(user) && !in_team || in_team
                                && !present.contains(user)
                        }
                }
        }),
{
    let table = invocation.options[0].value->0;
    law_each_command_has_one_name(invocation.name);
    law_moves_follow_the_plan(
        config,
        invocation,
        seating,
        millis,
        before,
        after,
        answer,
        attempts,
    );
    assert(dialogue(config, invocation.first_turn(config), seating, millis, before, after, answer));
    law_dequeue(config, invocation, seating, millis, before, after, answer);
    if exists|team: i64| before.waits(table, team) {
        let team = choose|team: i64| #[trigger]
            before.is_first(table, team) && carries_out(
                config,
                seating,
                Cause::Dequeue,
                team,
                table,
                attempts,
                answer,
            );
        let other = choose|team: i64| #[trigger]
            before.is_first(table, team) && after == before.without(table, team);
        lemma_only_one_is_first(before, table, team, other);
        let counts = lemma_carried_out(
            config,
            seating,
            Cause::Dequeue,
            team,
            table,
            attempts,
            answer,
        );
        assert(before.is_first(table, team));
    } else {
        assert(!exists|team: i64| before.is_first(table, team));
        assert forall|team: i64| !before.waiting.contains_key((table, team)) by {
            assert(!before.waits(table, team));
        }
    }
}

proof fn lemma_only_one_is_first(store: Store, table: i64, a: i64, b: i64)
    requires
        store.is_first(table, a),
        store.is_first(table, b),
    ensures
        a == b,
{
    if a != b {
        assert(store.waits(table, a) && store.waits(table, b));
        lemma_order_is_transitive(store, table, a, b, a);
        lemma_order_is_strict(store, table, a);
    }
}

/// The score under which a team is added is the time that is noted, nothing
/// made of it: of two teams, the one that is added at a later time never gets a
/// lower score.
pub proof fn law_scores_follow_the_clock(
    config: ConfigView,
    first: SessionView,
    first_event: EventView,
    first_at: i64,
    first_turn: TurnView,
    second: SessionView,
    second_event: EventView,
    second_at: i64,
    second_turn: TurnView,
)
    requires
        first.notes_time(),
        first.accepts(config, first_event),
        first.goes_on(config, first_event, first_at, first_turn),
        second.notes_time(),
        second.accepts(config, second_event),
        second.goes_on(config, second_event, second_at, second_turn),
    ensures
        first_turn matches TurnView::Ask(_, RequestView::Store(StoreCommand::Zadd { millis, .. }))
            && millis == first_at,
        second_turn matches TurnView::Ask(_, RequestView::Store(StoreCommand::Zadd { millis, .. }))
            && millis == second_at,
        first_at <= second_at ==> first_turn->Ask_1->Store_0->Zadd_millis
            <= second_turn->Ask_1->Store_0->Zadd_millis,
{
    lemma_score_is_time(config, first, first_event, first_at, first_turn);
    lemma_score_is_time(config, second, second_event, second_at, second_turn);
}

proof fn lemma_score_is_time(
    config: ConfigView,
    session: SessionView,
    event: EventView,
    at: i64,
    turn: TurnView,
)
    requires
        session.notes_time(),
        session.accepts(config, event),
        session.goes_on(config, event, at, turn),
    ensures
        turn matches TurnView::Ask(_, RequestView::Store(StoreCommand::Zadd { millis, .. }))
            && millis == at,
{
}

} // verus!
