//! The settings of the two deployments, entry by entry, and how settings follow
//! from lists.

use vstd::prelude::*;

use crate::presets::{
    assembled, home_rooms, law_prod_settings_are_coherent, law_test_settings_are_coherent,
    lemma_map_of_keys, lemma_map_of_values, lemma_user_teams, map_of, member_sets, partitioned,
    prod_blessed, prod_names, prod_settings, prod_tables, prod_teams, test_blessed, test_names,
    test_settings, test_tables, test_teams, user_teams_of, TeamEntryView,
};

verus! {

/// Settings from lists, entry by entry: every table has the channel that is
/// listed for it, every team the members, the room and the name, every member
/// the team, and exactly the listed users are participants or blessed.
pub proof fn law_assembled_settings_hold_their_entries(
    environment: Seq<char>,
    token: Seq<char>,
    app_id: u64,
    guild_id: u64,
    tables: Seq<(i64, u64)>,
    entries: Seq<TeamEntryView>,
    names: Seq<(i64, Seq<char>)>,
    blessed: Seq<u64>,
    user: u64,
)
    requires
        forall|i: int, j: int|
            0 <= i < j < entries.len() ==> (#[trigger] entries[i]).id != (#[trigger] entries[j]).id,
        forall|i: int, j: int, u: u64|
            0 <= i < j < entries.len() && #[trigger] entries[i].members.contains(u)
                ==> !#[trigger] entries[j].members.contains(u),
        forall|i: int, j: int|
            0 <= i < j < tables.len() ==> (#[trigger] tables[i]).0 != (#[trigger] tables[j]).0,
        forall|i: int, j: int|
            0 <= i < j < names.len() ==> (#[trigger] names[i]).0 != (#[trigger] names[j]).0,
    ensures
        ({
            let config = assembled(
                environment,
                token,
                app_id,
                guild_id,
                tables,
                entries,
                names,
                blessed,
            );
            &&& config.environment == environment
            &&& config.token == token
            &&& config.app_id == app_id
            &&& config.guild_id == guild_id
            &&& forall|i: int|
                0 <= i < tables.len() ==> config.tables.contains_key((#[trigger] tables[i]).0)
                    && config.tables[tables[i].0] == tables[i].1
            &&& forall|table: i64| #[trigger]
                config.tables.contains_key(table) ==> exists|i: int|
                    0 <= i < tables.len() && (#[trigger] tables[i]).0 == table
            &&& forall|i: int|
                0 <= i < names.len() ==> config.team_names.contains_key((#[trigger] names[i]).0)
                    && config.team_names[names[i].0] == names[i].1
            &&& forall|team: i64| #[trigger]
                config.team_names.contains_key(team) ==> exists|i: int|
                    0 <= i < names.len() && (#[trigger] names[i]).0 == team
            &&& forall|i: int|
                0 <= i < entries.len() ==> {
                    let team = (#[trigger] entries[i]).id;
                    &&& config.teams.contains_key(team)
                    &&& config.teams[team].contains(user) <==> entries[i].members.contains(user)
                    &&& config.team_voice_rooms.contains_key(team)
                    &&& config.team_voice_rooms[team] == entries[i].room
                    &&& entries[i].members.contains(user) ==> config.user_teams.contains_key(user)
                        && config.user_teams[user] == team
                }
            &&& forall|team: i64| #[trigger]
                config.teams.contains_key(team) ==> exists|i: int|
                    0 <= i < entries.len() && (#[trigger] entries[i]).id == team
            &&& forall|team: i64| #[trigger]
                config.team_voice_rooms.contains_key(team) ==> exists|i: int|
                    0 <= i < entries.len() && (#[trigger] entries[i]).id == team
            &&& config.user_teams.contains_key(user) <==> exists|i: int|
                0 <= i < entries.len() && (#[trigger] entries[i]).members.contains(user)
            &&& config.participants.contains(user) <==> exists|i: int|
                0 <= i < entries.len() && (#[trigger] entries[i]).members.contains(user)
            &&& config.blessed_users.contains(user) <==> blessed.contains(user)
        }),
{
    let config = assembled(
        environment,
        token,
        app_id,
        guild_id,
        tables,
        entries,
        names,
        blessed,
    );
    assert(partitioned(entries));
    let teams = member_sets(entries);
    let rooms = home_rooms(entries);
    assert forall|i: int, j: int| 0 <= i < j < teams.len() implies (#[trigger] teams[i]).0 != (
    #[trigger] teams[j]).0 by {
        assert(entries[i].id != entries[j].id);
    }
    assert forall|i: int, j: int| 0 <= i < j < rooms.len() implies (#[trigger] rooms[i]).0 != (
    #[trigger] rooms[j]).0 by {
        assert(entries[i].id != entries[j].id);
    }
    lemma_map_of_keys(tables);
    lemma_map_of_values(tables);
    lemma_map_of_keys(names);
    lemma_map_of_values(names);
    lemma_map_of_keys(teams);
    lemma_map_of_values(teams);
    lemma_map_of_keys(rooms);
    lemma_map_of_values(rooms);
    lemma_user_teams(entries);
    assert forall|i: int| 0 <= i < entries.len() implies {
        let team = (#[trigger] entries[i]).id;
        &&& config.teams.contains_key(team)
        &&& config.teams[team].contains(user) <==> entries[i].members.contains(user)
        &&& config.team_voice_rooms.contains_key(team)
        &&& config.team_voice_rooms[team] == entries[i].room
        &&& entries[i].members.contains(user) ==> config.user_teams.contains_key(user)
            && config.user_teams[user] == team
    } by {
        assert(teams[i].0 == entries[i].id);
        assert(map_of(teams)[teams[i].0] == teams[i].1);
        assert(rooms[i].0 == entries[i].id);
        assert(map_of(rooms)[rooms[i].0] == rooms[i].1);
        assert(teams[i].1.contains(user) <==> entries[i].members.contains(user));
    }
    assert forall|team: i64| #[trigger] config.teams.contains_key(team) implies exists|i: int|
        0 <= i < entries.len() && (#[trigger] entries[i]).id == team by {
        let i = choose|i: int| 0 <= i < teams.len() && (#[trigger] teams[i]).0 == team;
        assert(entries[i].id == team);
    }
    assert forall|team: i64| #[trigger]
        config.team_voice_rooms.contains_key(team) implies exists|i: int|
        0 <= i < entries.len() && (#[trigger] entries[i]).id == team by {
        let i = choose|i: int| 0 <= i < rooms.len() && (#[trigger] rooms[i]).0 == team;
        assert(entries[i].id == team);
    }
    assert forall|i: int| 0 <= i < tables.len() implies config.tables.contains_key(
        (#[trigger] tables[i]).0,
    ) && config.tables[tables[i].0] == tables[i].1 by {}
    assert forall|i: int| 0 <= i < names.len() implies config.team_names.contains_key(
        (#[trigger] names[i]).0,
    ) && config.team_names[names[i].0] == names[i].1 by {}
    assert(config.user_teams.contains_key(user) <==> exists|i: int|
        0 <= i < entries.len() && (#[trigger] entries[i]).members.contains(user)) by {
        if config.user_teams.contains_key(user) {
            let i = choose|i: int|
                0 <= i < entries.len() && #[trigger] entries[i].members.contains(user)
                    && user_teams_of(entries)[user] == entries[i].id;
            assert(entries[i].members.contains(user));
        }
    }
    assert(user_teams_of(entries).dom().contains(user) <==> user_teams_of(entries).contains_key(
        user,
    ));
}

/// The production deployment, entry by entry.
pub proof fn law_prod_settings_entry_by_entry(token: Seq<char>, user: u64, id: i64)
    ensures
        ({
            let config = prod_settings(token);
            &&& config.environment == "prod"@
            &&& config.token == token
            &&& config.app_id == 952960685787193374
            &&& config.guild_id == 951447764837990400
            &&& config.tables.contains_key(id) <==> 0 <= id <= 2
            &&& config.tables[0] == 952884153827885117
            &&& config.tables[1] == 952984861306662942
            &&& config.tables[2] == 952984899734868048
            &&& config.teams.contains_key(id) <==> id == -1 || 1 <= id <= 12
            &&& config.team_names.contains_key(id) <==> id == -1 || 1 <= id <= 12
            &&& config.team_voice_rooms.contains_key(id) <==> id == -1 || 1 <= id <= 12
            &&& config.team_voice_rooms[-1i64] == 952884153827885117
            &&& config.team_voice_rooms[1] == 951851992093962260
            &&& config.team_voice_rooms[2] == 951879383633772605
            &&& config.team_voice_rooms[3] == 951851768680153118
            &&& config.team_voice_rooms[4] == 952185897992990751
            &&& config.team_voice_rooms[5] == 951879222224367656
            &&& config.team_voice_rooms[6] == 952071024369872896
            &&& config.team_voice_rooms[7] == 952185981413507082
            &&& config.team_voice_rooms[8] == 951879112933400676
            &&& config.team_voice_rooms[9] == 951851550081429514
            &&& config.team_voice_rooms[10] == 951852461604356147
            &&& config.team_voice_rooms[11] == 952188351295926302
            &&& config.team_voice_rooms[12] == 952884153827885117
            &&& config.team_names[-1i64] == "Dummy team"@
            &&& config.team_names[1] == "Волновая Интерференция"@
            &&& config.team_names[2] == "Future Gadget Lab v4"@
            &&& config.team_names[3] == "КомандаБ"@
            &&& config.team_names[4] == "Шелезяка"@
            &&& config.team_names[5] == "PythonVSc--"@
            &&& config.team_names[6] == "Gazebo one love"@
            &&& config.team_names[7] == "Skills Building"@
            &&& config.team_names[8] == "team-name"@
            &&& config.team_names[9] == "Безынтеллектуальные человеческие единицы"@
            &&& config.team_names[10] == "Ушки Газебы"@
            &&& config.team_names[11] == "ClosedCV"@
            &&& config.team_names[12] == "[REDACTED]"@
            &&& config.user_team(user) != Some(-1i64)
            &&& config.user_team(user) == Some(1i64) <==> user == 418486856410202122
                || user == 306113516522307587
            &&& config.user_team(user) == Some(2i64) <==> user == 531852139262377984
                || user == 694190982022955060
                || user == 759419298212216854
            &&& config.user_team(user) == Some(3i64) <==> user == 702202171088961556
                || user == 885147305831989299
            &&& config.user_team(user) == Some(4i64) <==> user == 301247761209360385
                || user == 237181815973085185
                || user == 365920311688036365
            &&& config.user_team(user) == Some(5i64) <==> user == 900079911056855040
                || user == 504667829463941130
                || user == 690915090999935056
            &&& config.user_team(user) == Some(6i64) <==> user == 511157552734797834
                || user == 934479210590908459
                || user == 606083910602063872
            &&& config.user_team(user) == Some(7i64) <==> user == 690896591648981003
                || user == 696261215873400862
                || user == 691935292604809236
            &&& config.user_team(user) == Some(8i64) <==> user == 640621404148203566
                || user == 492763298333196298
                || user == 577939594822025229
            &&& config.user_team(user) == Some(9i64) <==> user == 559926713346162688
                || user == 461761081539428363
                || user == 441870970895073300
            &&& config.user_team(user) == Some(10i64) <==> user == 543072830552801280
                || user == 568165784719982604
            &&& config.user_team(user) == Some(11i64) <==> user == 510848390981222400
                || user == 534011922534629386
            &&& config.user_team(user) != Some(12i64)
            &&& config.user_team(user) is Some <==> config.participants.contains(user)
            &&& config.user_team(user) matches Some(team) ==> team == -1 || 1 <= team <= 12
            &&& config.teams.contains_key(id) ==> (config.teams[id].contains(user)
                <==> config.user_team(user) == Some(id))
            &&& config.blessed_users.contains(user) <==> user == 352172373774041102
                || user == 246300672734003211
                || user == 952881541325930518
                || user == 743031905200635925
        }),
{
    let entries = prod_teams();
    let names = prod_names();
    let tables = prod_tables();
    let blessed = prod_blessed();
    let config = prod_settings(token);
    assert(partitioned(entries));
    law_prod_settings_are_coherent(token);
    law_assembled_settings_hold_their_entries(
        config.environment,
        token,
        config.app_id,
        config.guild_id,
        tables,
        entries,
        names,
        blessed,
        user,
    );
    assert(tables[0] == (0i64, 952884153827885117u64));
    assert(tables[1] == (1i64, 952984861306662942u64));
    assert(tables[2] == (2i64, 952984899734868048u64));
    assert(entries[0].id == -1 && entries[0].room == 952884153827885117);
    assert(!entries[0].members.contains(user));
    assert(entries[1].id == 1 && entries[1].room == 951851992093962260);
    assert(entries[1].members.contains(user) <==> user == 418486856410202122
        || user == 306113516522307587) by {
        assert(entries[1].members[0] == 418486856410202122);
        assert(entries[1].members[1] == 306113516522307587);
    }
    assert(entries[2].id == 2 && entries[2].room == 951879383633772605);
    assert(entries[2].members.contains(user) <==> user == 531852139262377984
        || user == 694190982022955060
        || user == 759419298212216854) by {
        assert(entries[2].members[0] == 531852139262377984);
        assert(entries[2].members[1] == 694190982022955060);
        assert(entries[2].members[2] == 759419298212216854);
    }
    assert(entries[3].id == 3 && entries[3].room == 951851768680153118);
    assert(entries[3].members.contains(user) <==> user == 702202171088961556
        || user == 885147305831989299) by {
        assert(entries[3].members[0] == 702202171088961556);
        assert(entries[3].members[1] == 885147305831989299);
    }
    assert(entries[4].id == 4 && entries[4].room == 952185897992990751);
    assert(entries[4].members.contains(user) <==> user == 301247761209360385
        || user == 237181815973085185
        || user == 365920311688036365) by {
        assert(entries[4].members[0] == 301247761209360385);
        assert(entries[4].members[1] == 237181815973085185);
        assert(entries[4].members[2] == 365920311688036365);
    }
    assert(entries[5].id == 5 && entries[5].room == 951879222224367656);
    assert(entries[5].members.contains(user) <==> user == 900079911056855040
        || user == 504667829463941130
        || user == 690915090999935056) by {
        assert(entries[5].members[0] == 900079911056855040);
        assert(entries[5].members[1] == 504667829463941130);
        assert(entries[5].members[2] == 690915090999935056);
    }
    assert(entries[6].id == 6 && entries[6].room == 952071024369872896);
    assert(entries[6].members.contains(user) <==> user == 511157552734797834
        || user == 934479210590908459
        || user == 606083910602063872) by {
        assert(entries[6].members[0] == 511157552734797834);
        assert(entries[6].members[1] == 934479210590908459);
        assert(entries[6].members[2] == 606083910602063872);
    }
    assert(entries[7].id == 7 && entries[7].room == 952185981413507082);
    assert(entries[7].members.contains(user) <==> user == 690896591648981003
        || user == 696261215873400862
        || user == 691935292604809236) by {
        assert(entries[7].members[0] == 690896591648981003);
        assert(entries[7].members[1] == 696261215873400862);
        assert(entries[7].members[2] == 691935292604809236);
    }
    assert(entries[8].id == 8 && entries[8].room == 951879112933400676);
    assert(entries[8].members.contains(user) <==> user == 640621404148203566
        || user == 492763298333196298
        || user == 577939594822025229) by {
        assert(entries[8].members[0] == 640621404148203566);
        assert(entries[8].members[1] == 492763298333196298);
        assert(entries[8].members[2] == 577939594822025229);
    }
    assert(entries[9].id == 9 && entries[9].room == 951851550081429514);
    assert(entries[9].members.contains(user) <==> user == 559926713346162688
        || user == 461761081539428363
        || user == 441870970895073300) by {
        assert(entries[9].members[0] == 559926713346162688);
        assert(entries[9].members[1] == 461761081539428363);
        assert(entries[9].members[2] == 441870970895073300);
    }
    assert(entries[10].id == 10 && entries[10].room == 951852461604356147);
    assert(entries[10].members.contains(user) <==> user == 543072830552801280
        || user == 568165784719982604) by {
        assert(entries[10].members[0] == 543072830552801280);
        assert(entries[10].members[1] == 568165784719982604);
    }
    assert(entries[11].id == 11 && entries[11].room == 952188351295926302);
    assert(entries[11].members.contains(user) <==> user == 510848390981222400
        || user == 534011922534629386) by {
        assert(entries[11].members[0] == 510848390981222400);
        assert(entries[11].members[1] == 534011922534629386);
    }
    assert(entries[12].id == 12 && entries[12].room == 952884153827885117);
    assert(!entries[12].members.contains(user));
    assert(names[0] == (-1i64, "Dummy team"@));
    assert(names[1] == (1i64, "Волновая Интерференция"@));
    assert(names[2] == (2i64, "Future Gadget Lab v4"@));
    assert(names[3] == (3i64, "КомандаБ"@));
    assert(names[4] == (4i64, "Шелезяка"@));
    assert(names[5] == (5i64, "PythonVSc--"@));
    assert(names[6] == (6i64, "Gazebo one love"@));
    assert(names[7] == (7i64, "Skills Building"@));
    assert(names[8] == (8i64, "team-name"@));
    assert(names[9] == (9i64, "Безынтеллектуальные человеческие единицы"@));
    assert(names[10] == (10i64, "Ушки Газебы"@));
    assert(names[11] == (11i64, "ClosedCV"@));
    assert(names[12] == (12i64, "[REDACTED]"@));
    assert(blessed.contains(user) <==> user == 352172373774041102
        || user == 246300672734003211
        || user == 952881541325930518
        || user == 743031905200635925) by {
        assert(blessed[0] == 352172373774041102);
        assert(blessed[1] == 246300672734003211);
        assert(blessed[2] == 952881541325930518);
        assert(blessed[3] == 743031905200635925);
    }
    if config.user_team(user) is Some {
        let i = choose|i: int|
            0 <= i < entries.len() && (#[trigger] entries[i]).members.contains(user);
        assert(entries[i].members.contains(user));
    }
}

/// The test deployment, entry by entry.
pub proof fn law_test_settings_entry_by_entry(token: Seq<char>, user: u64, id: i64)
    ensures
        ({
            let config = test_settings(token);
            &&& config.environment == "test"@
            &&& config.token == token
            &&& config.app_id == 952960685787193374
            &&& config.guild_id == 377441849134284812
            &&& config.tables.contains_key(id) <==> 0 <= id <= 2
            &&& config.tables[0] == 452137106609799168
            &&& config.tables[1] == 952970394070036582
            &&& config.tables[2] == 953042225984585829
            &&& config.teams.contains_key(id) <==> id == -1 || 1 <= id <= 12
            &&& config.team_names.contains_key(id) <==> id == -1 || 1 <= id <= 12
            &&& config.team_voice_rooms.contains_key(id) <==> id == -1 || 1 <= id <= 12
            &&& config.team_voice_rooms[-1i64] == 452137106609799168
            &&& config.team_voice_rooms[1] == 953387785845358602
            &&& config.team_voice_rooms[2] == 953387949540638880
            &&& config.team_voice_rooms[3] == 452137106609799168
            &&& config.team_voice_rooms[4] == 452137106609799168
            &&& config.team_voice_rooms[5] == 452137106609799168
            &&& config.team_voice_rooms[6] == 452137106609799168
            &&& config.team_voice_rooms[7] == 452137106609799168
            &&& config.team_voice_rooms[8] == 452137106609799168
            &&& config.team_voice_rooms[9] == 452137106609799168
            &&& config.team_voice_rooms[10] == 452137106609799168
            &&& config.team_voice_rooms[11] == 452137106609799168
            &&& config.team_voice_rooms[12] == 452137106609799168
            &&& config.team_names[-1i64] == "Dummy team"@
            &&& config.team_names[1] == "team nikita"@
            &&& config.team_names[2] == "team slava"@
            &&& config.team_names[3] == "n/a"@
            &&& config.team_names[4] == "n/a"@
            &&& config.team_names[5] == "n/a"@
            &&& config.team_names[6] == "n/a"@
            &&& config.team_names[7] == "n/a"@
            &&& config.team_names[8] == "n/a"@
            &&& config.team_names[9] == "n/a"@
            &&& config.team_names[10] == "n/a"@
            &&& config.team_names[11] == "n/a"@
            &&& config.team_names[12] == "n/a"@
            &&& config.user_team(user) != Some(-1i64)
            &&& config.user_team(user) == Some(1i64) <==> user == 352172373774041102
            &&& config.user_team(user) == Some(2i64) <==> user == 246300672734003211
            &&& config.user_team(user) != Some(3i64)
            &&& config.user_team(user) != Some(4i64)
            &&& config.user_team(user) != Some(5i64)
            &&& config.user_team(user) != Some(6i64)
            &&& config.user_team(user) != Some(7i64)
            &&& config.user_team(user) != Some(8i64)
            &&& config.user_team(user) != Some(9i64)
            &&& config.user_team(user) != Some(10i64)
            &&& config.user_team(user) != Some(11i64)
            &&& config.user_team(user) != Some(12i64)
            &&& config.user_team(user) is Some <==> config.participants.contains(user)
            &&& config.user_team(user) matches Some(team) ==> team == -1 || 1 <= team <= 12
            &&& config.teams.contains_key(id) ==> (config.teams[id].contains(user)
                <==> config.user_team(user) == Some(id))
            &&& config.blessed_users.contains(user) <==> user == 352172373774041102
                || user == 246300672734003211
        }),
{
    let entries = test_teams();
    let names = test_names();
    let tables = test_tables();
    let blessed = test_blessed();
    let config = test_settings(token);
    assert(partitioned(entries));
    law_test_settings_are_coherent(token);
    law_assembled_settings_hold_their_entries(
        config.environment,
        token,
        config.app_id,
        config.guild_id,
        tables,
        entries,
        names,
        blessed,
        user,
    );
    assert(tables[0] == (0i64, 452137106609799168u64));
    assert(tables[1] == (1i64, 952970394070036582u64));
    assert(tables[2] == (2i64, 953042225984585829u64));
    assert(entries[0].id == -1 && entries[0].room == 452137106609799168);
    assert(!entries[0].members.contains(user));
    assert(entries[1].id == 1 && entries[1].room == 953387785845358602);
    assert(entries[1].members.contains(user) <==> user == 352172373774041102) by {
        assert(entries[1].members[0] == 352172373774041102);
    }
    assert(entries[2].id == 2 && entries[2].room == 953387949540638880);
    assert(entries[2].members.contains(user) <==> user == 246300672734003211) by {
        assert(entries[2].members[0] == 246300672734003211);
    }
    assert(entries[3].id == 3 && entries[3].room == 452137106609799168);
    assert(!entries[3].members.contains(user));
    assert(entries[4].id == 4 && entries[4].room == 452137106609799168);
    assert(!entries[4].members.contains(user));
    assert(entries[5].id == 5 && entries[5].room == 452137106609799168);
    assert(!entries[5].members.contains(user));
    assert(entries[6].id == 6 && entries[6].room == 452137106609799168);
    assert(!entries[6].members.contains(user));
    assert(entries[7].id == 7 && entries[7].room == 452137106609799168);
    assert(!entries[7].members.contains(user));
    assert(entries[8].id == 8 && entries[8].room == 452137106609799168);
    assert(!entries[8].members.contains(user));
    assert(entries[9].id == 9 && entries[9].room == 452137106609799168);
    assert(!entries[9].members.contains(user));
    assert(entries[10].id == 10 && entries[10].room == 452137106609799168);
    assert(!entries[10].members.contains(user));
    assert(entries[11].id == 11 && entries[11].room == 452137106609799168);
    assert(!entries[11].members.contains(user));
    assert(entries[12].id == 12 && entries[12].room == 452137106609799168);
    assert(!entries[12].members.contains(user));
    assert(names[0] == (-1i64, "Dummy team"@));
    assert(names[1] == (1i64, "team nikita"@));
    assert(names[2] == (2i64, "team slava"@));
    assert(names[3] == (3i64, "n/a"@));
    assert(names[4] == (4i64, "n/a"@));
    assert(names[5] == (5i64, "n/a"@));
    assert(names[6] == (6i64, "n/a"@));
    assert(names[7] == (7i64, "n/a"@));
    assert(names[8] == (8i64, "n/a"@));
    assert(names[9] == (9i64, "n/a"@));
    assert(names[10] == (10i64, "n/a"@));
    assert(names[11] == (11i64, "n/a"@));
    assert(names[12] == (12i64, "n/a"@));
    assert(blessed.contains(user) <==> user == 352172373774041102
        || user == 246300672734003211) by {
        assert(blessed[0] == 352172373774041102);
        assert(blessed[1] == 246300672734003211);
    }
    if config.user_team(user) is Some {
        let i = choose|i: int|
            0 <= i < entries.len() && (#[trigger] entries[i]).members.contains(user);
        assert(entries[i].members.contains(user));
    }
}

} // verus!
