//! The slash commands that are offered to the guild.

use vstd::prelude::*;
use vstd::string::*;

use crate::config::{Config, ConfigView};
use crate::interaction::{command_named, Command, CommandOptionView, InvocationView};
use crate::presets::{prod_names, prod_settings, test_names, test_settings};
use crate::text::{append_i64, decimal};

verus! {

/// The kind of value that a parameter takes.
#[derive(Clone, Copy, Debug, PartialEq, Eq, Structural)]
pub enum ParameterKind {
    Integer,
    User,
}

/// A value that can be chosen for a parameter, and the name it is shown under.
#[derive(Debug)]
pub struct Choice {
    pub name: String,
    pub value: i32,
}

/// A parameter of a slash command.
#[derive(Debug)]
pub struct Parameter {
    pub name: String,
    pub description: String,
    pub kind: ParameterKind,
    /// The smallest and the largest value, where the values are bounded.
    pub bounds: Option<(i32, i32)>,
    /// The values to choose from; none, if any value will do.
    pub choices: Vec<Choice>,
    pub required: bool,
}

/// A slash command as it is offered.
#[derive(Debug)]
pub struct CommandOffer {
    pub name: String,
    pub description: String,
    pub parameters: Vec<Parameter>,
}

/// The mathematical content of a [`Choice`].
#[verifier::ext_equal]
pub struct ChoiceView {
    pub name: Seq<char>,
    pub value: i32,
}

/// The mathematical content of a [`Parameter`].
#[verifier::ext_equal]
pub struct ParameterView {
    pub name: Seq<char>,
    pub description: Seq<char>,
    pub kind: ParameterKind,
    pub bounds: Option<(i32, i32)>,
    pub choices: Seq<ChoiceView>,
    pub required: bool,
}

/// The mathematical content of a [`CommandOffer`].
#[verifier::ext_equal]
pub struct CommandOfferView {
    pub name: Seq<char>,
    pub description: Seq<char>,
    pub parameters: Seq<ParameterView>,
}

impl View for Choice {
    type V = ChoiceView;

    open spec fn view(&self) -> ChoiceView {
        ChoiceView { name: self.name@, value: self.value }
    }
}

impl View for Parameter {
    type V = ParameterView;

    open spec fn view(&self) -> ParameterView {
        ParameterView {
            name: self.name@,
            description: self.description@,
            kind: self.kind,
            bounds: self.bounds,
            choices: self.choices@.map_values(|choice: Choice| choice@),
            required: self.required,
        }
    }
}

impl View for CommandOffer {
    type V = CommandOfferView;

    open spec fn view(&self) -> CommandOfferView {
        CommandOfferView {
            name: self.name@,
            description: self.description@,
            parameters: self.parameters@.map_values(|parameter: Parameter| parameter@),
        }
    }
}

/// The mathematical content of a list of commands.
pub open spec fn offers_view(offers: Seq<CommandOffer>) -> Seq<CommandOfferView> {
    offers.map_values(|offer: CommandOffer| offer@)
}

/// The number of teams among which `tjoin` lets one choose.
pub const OFFERED_TEAMS: i64 = 12;

/// The parameter that selects a table.
pub open spec fn table_parameter() -> ParameterView {
    ParameterView {
        name: "table"@,
        description: "A table id (1 or 2)"@,
        kind: ParameterKind::Integer,
        bounds: None,
        choices: seq![
            ChoiceView { name: "Table #1"@, value: 1 },
            ChoiceView { name: "Table #2"@, value: 2 },
        ],
        required: true,
    }
}

/// The teams that are offered, each with its number and name.
pub open spec fn team_choices(names: Map<i64, Seq<char>>) -> Seq<ChoiceView> {
    Seq::new(
        OFFERED_TEAMS as nat,
        |i: int|
            ChoiceView {
                name: "#"@ + decimal(i + 1) + ": "@ + names[(i + 1) as i64],
                value: (i + 1) as i32,
            },
    )
}

/// The parameter that selects a team.
pub open spec fn team_parameter(names: Map<i64, Seq<char>>) -> ParameterView {
    ParameterView {
        name: "team_id"@,
        description: "Team id (1-12)"@,
        kind: ParameterKind::Integer,
        bounds: Some((1, 12)),
        choices: team_choices(names),
        required: true,
    }
}

/// The parameter that selects a user.
pub open spec fn user_parameter() -> ParameterView {
    ParameterView {
        name: "user"@,
        description: "The user to enqueue"@,
        kind: ParameterKind::User,
        bounds: None,
        choices: Seq::empty(),
        required: true,
    }
}

/// A command with the given name, description and parameters.
pub open spec fn offer(
    name: Seq<char>,
    description: Seq<char>,
    parameters: Seq<ParameterView>,
) -> CommandOfferView {
    CommandOfferView { name, description, parameters }
}

/// The commands that are offered where the teams have the given names.
pub open spec fn offered_commands(names: Map<i64, Seq<char>>) -> Seq<CommandOfferView> {
    seq![
        offer("ping"@, "A ping command"@, Seq::empty()),
        offer(
            "tjoin"@,
            "Move the team to the table"@,
            seq![table_parameter(), team_parameter(names)],
        ),
        offer("tkick"@, "Kick the team currently at the table"@, seq![table_parameter()]),
        offer("enqueue"@, "Enqueue another person to the table"@, seq![user_parameter()]),
        offer("enqueue_me"@, "Enqueue my team for the trial runs please"@, Seq::empty()),
        offer(
            "enqueue_me_faster"@,
            "Enqueue my team, use the table with the smallest queue"@,
            Seq::empty(),
        ),
        offer(
            "unqueue_me"@,
            "Unqueue my team, I don't want to be called to trial runs"@,
            Seq::empty(),
        ),
        offer("queue"@, "Show the current state of the queue"@, Seq::empty()),
        offer(
            "dequeue"@,
            "Dequeue the team from the specified table queue & move them to the table"@,
            seq![table_parameter()],
        ),
        offer(
            "dequeue_nojoin"@,
            "Dequeue the team from the specified table queue, but do NOT move them to the table"@,
            seq![table_parameter()],
        ),
    ]
}

/// Whether every team that is offered has a name.
pub open spec fn names_offered_teams(names: Map<i64, Seq<char>>) -> bool {
    forall|team: i64| 1 <= team <= OFFERED_TEAMS ==> #[trigger] names.contains_key(team)
}

/// Whether every team that is offered has a name.
pub fn offered_teams_are_named(config: &Config) -> (named: bool)
    ensures
        named == names_offered_teams(config@.team_names),
{
    let mut team: i64 = 1;
    while team <= OFFERED_TEAMS
        invariant
            1 <= team <= OFFERED_TEAMS + 1,
            forall|t: i64| 1 <= t < team ==> #[trigger] config@.team_names.contains_key(t),
        decreases OFFERED_TEAMS + 1 - team,
    {
        if !config.team_names.contains_key(&team) {
            assert(!config@.team_names.contains_key(team));
            return false;
        }
        assert(config@.team_names.contains_key(team));
        team += 1;
    }
    true
}

/// The parameter that selects a table.
pub fn table_option() -> (parameter: Parameter)
    ensures
        parameter@ == table_parameter(),
{
    let choices: Vec<Choice> = vec![
        Choice { name: "Table #1".to_string(), value: 1 },
        Choice { name: "Table #2".to_string(), value: 2 },
    ];
    assert(choices@.map_values(|choice: Choice| choice@) =~= table_parameter().choices);
    Parameter {
        name: "table".to_string(),
        description: "A table id (1 or 2)".to_string(),
        kind: ParameterKind::Integer,
        bounds: None,
        choices,
        required: true,
    }
}

fn team_option(config: &Config) -> (parameter: Parameter)
    requires
        names_offered_teams(config@.team_names),
    ensures
        parameter@ == team_parameter(config@.team_names),
{
    let ghost expected = team_choices(config@.team_names);
    let mut choices: Vec<Choice> = Vec::new();
    let mut team: i64 = 1;
    while team <= OFFERED_TEAMS
        invariant
            1 <= team <= OFFERED_TEAMS + 1,
            names_offered_teams(config@.team_names),
            expected == team_choices(config@.team_names),
            choices@.map_values(|choice: Choice| choice@) == expected.take(team - 1),
        decreases OFFERED_TEAMS + 1 - team,
    {
        assert(config@.team_names.contains_key(team));
        let ghost before = choices@;
        let mut name: String = "#".to_string();
        append_i64(&mut name, team);
        name.append(": ");
        match config.team_names.get(&team) {
            Some(team_name) => {
                name.append(team_name.as_str());
            },
            None => {},
        }
        choices.push(Choice { name, value: team as i32 });
        proof {
            assert(before.map_values(|choice: Choice| choice@).len() == team - 1);
            assert(choices@[team - 1]@ == expected[team - 1]);
            assert(choices@.map_values(|choice: Choice| choice@) =~= before.map_values(
                |choice: Choice| choice@,
            ).push(expected[team - 1]));
            assert(expected.take(team as int) =~= expected.take(team - 1).push(expected[team - 1]));
        }
        team += 1;
    }
    assert(expected.take(team - 1) =~= expected);
    Parameter {
        name: "team_id".to_string(),
        description: "Team id (1-12)".to_string(),
        kind: ParameterKind::Integer,
        bounds: Some((1, 12)),
        choices,
        required: true,
    }
}

fn user_option() -> (parameter: Parameter)
    ensures
        parameter@ == user_parameter(),
{
    let parameter = Parameter {
        name: "user".to_string(),
        description: "The user to enqueue".to_string(),
        kind: ParameterKind::User,
        bounds: None,
        choices: Vec::new(),
        required: true,
    };
    assert(parameter@.choices =~= Seq::empty());
    parameter
}

fn command(name: &str, description: &str, parameters: Vec<Parameter>) -> (result: CommandOffer)
    ensures
        result@ == offer(
            name@,
            description@,
            parameters@.map_values(|parameter: Parameter| parameter@),
        ),
{
    CommandOffer { name: name.to_string(), description: description.to_string(), parameters }
}

fn plain_command(name: &str, description: &str) -> (result: CommandOffer)
    ensures
        result@ == offer(name@, description@, Seq::empty()),
{
    let result = command(name, description, Vec::new());
    assert(result@.parameters =~= Seq::empty());
    result
}

fn command_with(name: &str, description: &str, parameter: Parameter) -> (result: CommandOffer)
    ensures
        result@ == offer(name@, description@, seq![parameter@]),
{
    let result = command(name, description, vec![parameter]);
    assert(result@.parameters =~= seq![parameter@]);
    result
}

/// The commands to offer to the guild, in their order.
pub fn application_commands(config: &Config) -> (offers: Vec<CommandOffer>)
    requires
        names_offered_teams(config@.team_names),
    ensures
        offers_view(offers@) == offered_commands(config@.team_names),
{
    let join = command(
        "tjoin",
        "Move the team to the table",
        vec![table_option(), team_option(config)],
    );
    assert(join@.parameters =~= seq![table_parameter(), team_parameter(config@.team_names)]);
    let offers: Vec<CommandOffer> = vec![
        plain_command("ping", "A ping command"),
        join,
        command_with("tkick", "Kick the team currently at the table", table_option()),
        command_with("enqueue", "Enqueue another person to the table", user_option()),
        plain_command("enqueue_me", "Enqueue my team for the trial runs please"),
        plain_command(
            "enqueue_me_faster",
            "Enqueue my team, use the table with the smallest queue",
        ),
        plain_command(
            "unqueue_me",
            "Unqueue my team, I don't want to be called to trial runs",
        ),
        plain_command("queue", "Show the current state of the queue"),
        command_with(
            "dequeue",
            "Dequeue the team from the specified table queue & move them to the table",
            table_option(),
        ),
        command_with(
            "dequeue_nojoin",
            "Dequeue the team from the specified table queue, but do NOT move them to the table",
            table_option(),
        ),
    ];
    assert(offers_view(offers@) =~= offered_commands(config@.team_names));
    offers
}

/// Whether `options` are values for `parameters`, one for each.
pub open spec fn fits(options: Seq<CommandOptionView>, parameters: Seq<ParameterView>) -> bool {
    &&& options.len() == parameters.len()
    &&& forall|i: int|
        0 <= i < options.len() ==> match (#[trigger] parameters[i]).kind {
            ParameterKind::Integer => options[i].value is Some,
            ParameterKind::User => options[i].resolved matches Some(resolved)
                && resolved is User,
        }
}

/// Every command that is offered is one that is answered: its name is known,
/// and with a value for each of its parameters it is well formed, in every
/// guild and for every user.
pub proof fn law_offered_commands_are_handled(
    config: ConfigView,
    at: int,
    invocation: InvocationView,
)
    requires
        0 <= at < offered_commands(config.team_names).len(),
        invocation.name == offered_commands(config.team_names)[at].name,
        fits(invocation.options, offered_commands(config.team_names)[at].parameters),
    ensures
        command_named(invocation.name) != Command::Unknown,
        invocation.well_formed(config),
{
    lemma_names_are_distinct();
    let parameters = offered_commands(config.team_names)[at].parameters;
    if parameters.len() > 0 {
        assert(parameters[0] == table_parameter() || parameters[0] == user_parameter());
    }
    if parameters.len() > 1 {
        assert(parameters[1] == team_parameter(config.team_names));
    }
}

/// The names of the commands tell them apart.
pub proof fn lemma_names_are_distinct()
    ensures
        command_named("ping"@) == Command::Ping,
        command_named("id"@) == Command::Id,
        command_named("tjoin"@) == Command::Tjoin,
        command_named("tkick"@) == Command::Tkick,
        command_named("queue"@) == Command::Queue,
        command_named("enqueue"@) == Command::Enqueue,
        command_named("enqueue_me"@) == Command::EnqueueMe,
        command_named("enqueue_me_faster"@) == Command::EnqueueMeFaster,
        command_named("unqueue_me"@) == Command::UnqueueMe,
        command_named("dequeue"@) == Command::Dequeue,
        command_named("dequeue_nojoin"@) == Command::DequeueNojoin,
{
    reveal_strlit("ping");
    reveal_strlit("id");
    reveal_strlit("tjoin");
    reveal_strlit("tkick");
    reveal_strlit("queue");
    reveal_strlit("enqueue");
    reveal_strlit("enqueue_me");
    reveal_strlit("enqueue_me_faster");
    reveal_strlit("unqueue_me");
    reveal_strlit("dequeue");
    reveal_strlit("dequeue_nojoin");
    assert("ping"@.len() == 4 && "id"@.len() == 2 && "tjoin"@.len() == 5 && "tkick"@.len() == 5);
    assert("queue"@.len() == 5 && "enqueue"@.len() == 7 && "enqueue_me"@.len() == 10);
    assert("enqueue_me_faster"@.len() == 17 && "unqueue_me"@.len() == 10);
    assert("dequeue"@.len() == 7 && "dequeue_nojoin"@.len() == 14);
    assert("tjoin"@[1] == 'j' && "tkick"@[1] == 'k' && "queue"@[0] == 'q');
    assert("enqueue_me"@[0] == 'e' && "unqueue_me"@[0] == 'u');
    assert("dequeue"@[0] == 'd' && "enqueue"@[0] == 'e');
}

/// No two commands that are offered have the same name.
pub proof fn law_offered_names_are_distinct(names: Map<i64, Seq<char>>, i: int, j: int)
    requires
        0 <= i < j < offered_commands(names).len(),
    ensures
        offered_commands(names)[i].name != offered_commands(names)[j].name,
{
    lemma_names_are_distinct();
}

/// Both deployments name the teams that are offered.
pub proof fn law_deployments_name_offered_teams(token: Seq<char>)
    ensures
        names_offered_teams(prod_settings(token).team_names),
        names_offered_teams(test_settings(token).team_names),
{
    assert forall|team: i64| 1 <= team <= OFFERED_TEAMS implies #[trigger] prod_settings(
        token,
    ).team_names.contains_key(team) by {
        assert(prod_names()[team as int].0 == team);
        crate::presets::lemma_map_of_keys(prod_names());
    }
    assert forall|team: i64| 1 <= team <= OFFERED_TEAMS implies #[trigger] test_settings(
        token,
    ).team_names.contains_key(team) by {
        assert(test_names()[team as int].0 == team);
        crate::presets::lemma_map_of_keys(test_names());
    }
}

/// The commands that are offered, one by one.
pub proof fn law_offers_one_by_one(names: Map<i64, Seq<char>>)
    ensures
        ({
            let offers = offered_commands(names);
            &&& offers.len() == 10
            &&& offers[0].name == "ping"@
            &&& offers[0].description == "A ping command"@
            &&& offers[0].parameters.len() == 0
            &&& offers[1].name == "tjoin"@
            &&& offers[1].description == "Move the team to the table"@
            &&& offers[1].parameters.len() == 2
            &&& offers[2].name == "tkick"@
            &&& offers[2].description == "Kick the team currently at the table"@
            &&& offers[2].parameters.len() == 1
            &&& offers[3].name == "enqueue"@
            &&& offers[3].description == "Enqueue another person to the table"@
            &&& offers[3].parameters.len() == 1
            &&& offers[4].name == "enqueue_me"@
            &&& offers[4].description == "Enqueue my team for the trial runs please"@
            &&& offers[4].parameters.len() == 0
            &&& offers[5].name == "enqueue_me_faster"@
            &&& offers[5].description == "Enqueue my team, use the table with the smallest queue"@
            &&& offers[5].parameters.len() == 0
            &&& offers[6].name == "unqueue_me"@
            &&& offers[6].description == "Unqueue my team, I don't want to be called to trial runs"@
            &&& offers[6].parameters.len() == 0
            &&& offers[7].name == "queue"@
            &&& offers[7].description == "Show the current state of the queue"@
            &&& offers[7].parameters.len() == 0
            &&& offers[8].name == "dequeue"@
            &&& offers[8].description == "Dequeue the team from the specified table queue & move them to the table"@
            &&& offers[8].parameters.len() == 1
            &&& offers[9].name == "dequeue_nojoin"@
            &&& offers[9].description == "Dequeue the team from the specified table queue, but do NOT move them to the table"@
            &&& offers[9].parameters.len() == 1
        }),
{
}

/// Where a command asks for a table, one of tables 1 and 2 has to be chosen.
pub proof fn law_tables_are_chosen_by_number(names: Map<i64, Seq<char>>, at: int)
    requires
        at == 1 || at == 2 || at == 8 || at == 9,
    ensures
        ({
            let table = offered_commands(names)[at].parameters[0];
            &&& table.name == "table"@
            &&& table.description == "A table id (1 or 2)"@
            &&& table.kind is Integer
            &&& table.bounds is None
            &&& table.required
            &&& table.choices.len() == 2
            &&& table.choices[0].name == "Table #1"@ && table.choices[0].value == 1
            &&& table.choices[1].name == "Table #2"@ && table.choices[1].value == 2
        }),
{
}

/// Where a command asks for a team, one of teams 1 to 12 has to be chosen, each
/// shown with its number and name.
pub proof fn law_teams_are_chosen_by_number(names: Map<i64, Seq<char>>, team: i64)
    ensures
        ({
            let parameter = offered_commands(names)[1].parameters[1];
            &&& parameter.name == "team_id"@
            &&& parameter.description == "Team id (1-12)"@
            &&& parameter.kind is Integer
            &&& parameter.bounds == Some((1i32, 12i32))
            &&& parameter.required
            &&& parameter.choices.len() == 12
            &&& 1 <= team <= 12 ==> parameter.choices[team - 1].value == team
                && parameter.choices[team - 1].name == "#"@ + decimal(team as int) + ": "@
                + names[team]
        }),
        names_offered_teams(names) && 1 <= team <= 12 ==> names.contains_key(team),
        (forall|t: i64| 1 <= t <= 12 ==> #[trigger] names.contains_key(t)) ==> names_offered_teams(
            names,
        ),
{
}

/// Where a command asks for a user, any user can be given.
pub proof fn law_users_are_chosen_freely(names: Map<i64, Seq<char>>)
    ensures
        ({
            let user = offered_commands(names)[3].parameters[0];
            &&& user.name == "user"@
            &&& user.description == "The user to enqueue"@
            &&& user.kind is User
            &&& user.bounds is None
            &&& user.required
            &&& user.choices.len() == 0
        }),
{
}

} // verus!
