//! The agent that judges whether modern code does what the legacy code did.
use crate::agents::executor;
use crate::agents::executor::args_for_reading;
use crate::agents::ticket::{
    about_ticket, in_ticket, Agent, StatusModel, Ticket, TicketModel, TicketStatus,
};
use crate::agents::tools;
use crate::agents::tools::{list_schema, object_schema, typed_schema, ChatRequest};
use crate::compose;
use crate::compose::{decimal_text, join_list};
use crate::config::calls::ToolSpec;
use crate::config::client;
use crate::config::client::{StructuredCall, ZeroClawClient};
use crate::config::routing;
use crate::config::routing::TaskKind;
use crate::config::schema;
use crate::failure;
use crate::failure::Failure;
use crate::json;
use crate::json::{object_value, push_entry, Json, JsonValue};
use crate::search;
use crate::skills::graph;
use crate::skills::graph::{
    copy_all, diff_dependency_graphs, AstDiff, AstDiffModel, DependencyGraph,
};
use crate::skills::shadow::{
    DiffModel, ExecutionDiff, ExecutionTarget, FixtureDiff, OutcomeModel, ShadowFixture,
    ShadowTestRequest,
};
use crate::text::{copy_list, same};
use crate::utils::path;
use crate::utils::path::normalize_relative_path as normalize_portable_relative_path;
use vstd::prelude::*;
use vstd::slice::slice_subrange;

verus! {

pub const VERIFIER_NAME: &'static str = "verifier";

pub const DEFAULT_VERIFIER_MODEL: &'static str = "z-ai/glm-5";

/// How many differences, and how many errors, a summary tells.
pub const SUMMARY_LIMIT: usize = 5;

/// What is to be run, and on what.
#[derive(Debug)]
pub struct ShadowFixturePlan {
    pub legacy_target: ExecutionTarget,
    pub modern_target: ExecutionTarget,
    pub fixtures: Vec<ShadowFixture>,
}

impl Clone for ShadowFixturePlan {
    fn clone(&self) -> (res: Self)
        ensures
            res.legacy_target.deep_view() == self.legacy_target.deep_view(),
            res.modern_target.deep_view() == self.modern_target.deep_view(),
            res.fixtures.deep_view() == self.fixtures.deep_view(),
    {
        ShadowFixturePlan {
            legacy_target: self.legacy_target.clone(),
            modern_target: self.modern_target.clone(),
            fixtures: copy_all(self.fixtures.as_slice()),
        }
    }
}

// ---------------------------------------------------------------------------
// Plans
// ---------------------------------------------------------------------------
pub open spec fn plain_path(path: Seq<char>) -> Result<Seq<char>, Seq<Seq<char>>> {
    path::normalized(path, "file path"@)
}

pub fn normalize_relative_path(path: &str) -> (res: Result<String, Failure>)
    ensures
        routing::text_result(res) == plain_path(path@),
{
    normalize_portable_relative_path(path, "file path")
}

/// One of the paths is the given one, once both are normalized.
pub open spec fn is_among(paths: Seq<Seq<char>>, normalized: Seq<char>) -> bool {
    exists|i: int|
        0 <= i < paths.len() && #[trigger] plain_path(paths[i]) == Ok::<Seq<char>, Seq<Seq<char>>>(
            normalized,
        )
}

fn among(paths: &[String], normalized: &str) -> (res: bool)
    ensures
        res == is_among(paths.deep_view(), normalized@),
{
    let ghost all = paths.deep_view();
    let mut i: usize = 0;
    while i < paths.len()
        invariant
            i <= paths.len(),
            all == paths.deep_view(),
            forall|j: int|
                0 <= j < i ==> #[trigger] plain_path(all[j]) != Ok::<Seq<char>, Seq<Seq<char>>>(
                    normalized@,
                ),
        decreases paths.len() - i,
    {
        assert(all[i as int] == paths@[i as int]@);
        if let Ok(path) = normalize_relative_path(paths[i].as_str()) {
            if same(path.as_str(), normalized) {
                assert(plain_path(all[i as int]) == Ok::<Seq<char>, Seq<Seq<char>>>(normalized@));
                return true;
            }
        }
        i += 1;
    }
    false
}

/// What is wrong with a plan for a ticket. The first problem counts.
pub open spec fn plan_problem(ticket: TicketModel, plan: ShadowFixturePlan) -> Option<
    Seq<Seq<char>>,
> {
    match (
        plain_path(plan.legacy_target.relative_path@),
        plain_path(plan.modern_target.relative_path@),
    ) {
        (Err(chain), _) => Some(
            failure::in_context("verifier returned an invalid legacy target path"@, chain),
        ),
        (Ok(_), Err(chain)) => Some(
            failure::in_context("verifier returned an invalid modern target path"@, chain),
        ),
        (Ok(legacy), Ok(modern)) => if plan.fixtures@.len() == 0 {
            Some(
                failure::plain("verifier returned no shadow fixtures for ticket "@ + ticket.id),
            )
        } else if !is_among(ticket.context_files, legacy) {
            Some(
                failure::plain(
                    "verifier selected legacy target `"@ + plan.legacy_target.relative_path@
                        + "` outside the allowed context files for ticket "@ + ticket.id,
                ),
            )
        } else if !is_among(ticket.modern_file_paths, modern) {
            Some(
                failure::plain(
                    "verifier selected modern target `"@ + plan.modern_target.relative_path@
                        + "` outside the allowed modern files for ticket "@ + ticket.id,
                ),
            )
        } else {
            None
        },
    }
}

pub fn validate_shadow_plan(ticket: &Ticket, plan: &ShadowFixturePlan) -> (res: Result<(), Failure>)
    ensures
        plan_problem(ticket@, *plan) == match res {
            Ok(_) => None,
            Err(error) => Some(error@),
        },
{
    let legacy: String = match normalize_relative_path(plan.legacy_target.relative_path.as_str()) {
        Ok(path) => path,
        Err(cause) => {
            return Err(
                cause.context("verifier returned an invalid legacy target path".to_owned()),
            );
        },
    };
    let modern: String = match normalize_relative_path(plan.modern_target.relative_path.as_str()) {
        Ok(path) => path,
        Err(cause) => {
            return Err(
                cause.context("verifier returned an invalid modern target path".to_owned()),
            );
        },
    };
    if plan.fixtures.len() == 0 {
        return Err(
            about_ticket("verifier returned no shadow fixtures for ticket ", ticket.id.as_str()),
        );
    }
    if !among(ticket.context_files.as_slice(), legacy.as_str()) {
        let mut message = "verifier selected legacy target `".to_owned();
        message.append(plan.legacy_target.relative_path.as_str());
        message.append("` outside the allowed context files for ticket ");
        message.append(ticket.id.as_str());
        return Err(Failure::new(message));
    }
    if !among(ticket.modern_file_paths.as_slice(), modern.as_str()) {
        let mut message = "verifier selected modern target `".to_owned();
        message.append(plan.modern_target.relative_path.as_str());
        message.append("` outside the allowed modern files for ticket ");
        message.append(ticket.id.as_str());
        return Err(Failure::new(message));
    }
    Ok(())
}

// ---------------------------------------------------------------------------
// Summaries
// ---------------------------------------------------------------------------
/// The differences of all fixtures.
pub open spec fn all_differences(diffs: Seq<DiffModel>) -> Seq<Seq<char>>
    decreases diffs.len(),
{
    if diffs.len() == 0 {
        Seq::empty()
    } else {
        all_differences(diffs.drop_last()) + diffs.last().differences
    }
}

pub open spec fn at_most(list: Seq<Seq<char>>, limit: nat) -> Seq<Seq<char>> {
    if list.len() <= limit {
        list
    } else {
        list.take(limit as int)
    }
}

pub open spec fn ast_summary(diff: AstDiffModel) -> Seq<char> {
    "ast_diff: missing_functions="@ + compose::decimal(diff.missing_functions.len())
        + ", missing_classes="@ + compose::decimal(diff.missing_classes.len())
        + ", missing_imports="@ + compose::decimal(diff.missing_imports.len())
        + ", missing_branches="@ + compose::decimal(diff.missing_branches.len())
}

pub open spec fn summary_details(execution: OutcomeModel, ast: AstDiffModel) -> Seq<Seq<char>> {
    let observed = at_most(all_differences(execution.fixture_diffs), SUMMARY_LIMIT as nat)
        + at_most(execution.sandbox_execution_errors, SUMMARY_LIMIT as nat);
    if ast == AstDiffModel::blank() {
        observed
    } else {
        observed.push(ast_summary(ast))
    }
}

/// Why the modern code was rejected, in one line.
pub open spec fn failure_summary(execution: OutcomeModel, ast: AstDiffModel) -> Seq<char> {
    let details = summary_details(execution, ast);
    if details.len() == 0 {
        "semantic shadow testing failed without a detailed diff"@
    } else {
        compose::join(details, " | "@)
    }
}

fn collect_differences(diffs: &[FixtureDiff]) -> (res: Vec<String>)
    ensures
        res.deep_view() == all_differences(diffs.deep_view()),
{
    let ghost all = diffs.deep_view();
    let mut out: Vec<String> = Vec::new();
    let mut i: usize = 0;
    assert(out.deep_view() =~= Seq::empty());
    assert(all.take(0) =~= Seq::empty());
    while i < diffs.len()
        invariant
            i <= diffs.len(),
            all == diffs.deep_view(),
            out.deep_view() == all_differences(all.take(i as int)),
        decreases diffs.len() - i,
    {
        proof {
            assert(all.take(i as int + 1).drop_last() == all.take(i as int));
            assert(all.take(i as int + 1).last() == diffs@[i as int].deep_view());
        }
        let ghost before = out.deep_view();
        let mut more: Vec<String> = copy_list(diffs[i].differences.as_slice());
        let ghost added = more.deep_view();
        out.append(&mut more);
        assert(out.deep_view() =~= before + added);
        i += 1;
    }
    assert(all.take(all.len() as int) == all);
    out
}

fn first_few(list: &[String]) -> (res: Vec<String>)
    ensures
        res.deep_view() == at_most(list.deep_view(), SUMMARY_LIMIT as nat),
{
    assert(list.deep_view().len() == list@.len());
    if list.len() <= SUMMARY_LIMIT {
        copy_list(list)
    } else {
        let head = slice_subrange(list, 0, SUMMARY_LIMIT);
        assert(head.deep_view() =~= list.deep_view().take(SUMMARY_LIMIT as int));
        copy_list(head)
    }
}

fn ast_summary_text(diff: &AstDiff) -> (res: String)
    ensures
        res@ == ast_summary(diff.deep_view()),
{
    proof {
        let model = diff.deep_view();
        assert(model.missing_functions.len() == diff.missing_functions@.len());
        assert(model.missing_classes.len() == diff.missing_classes@.len());
        assert(model.missing_imports.len() == diff.missing_imports@.len());
        assert(model.missing_branches.len() == diff.missing_branches@.len());
    }
    let mut out = "ast_diff: missing_functions=".to_owned();
    out.append(decimal_text(diff.missing_functions.len() as u64).as_str());
    out.append(", missing_classes=");
    out.append(decimal_text(diff.missing_classes.len() as u64).as_str());
    out.append(", missing_imports=");
    out.append(decimal_text(diff.missing_imports.len() as u64).as_str());
    out.append(", missing_branches=");
    out.append(decimal_text(diff.missing_branches.len() as u64).as_str());
    out
}

pub fn build_failure_summary(execution_diff: &ExecutionDiff, ast_diff: &AstDiff) -> (res: String)
    ensures
        res@ == failure_summary(execution_diff.deep_view(), ast_diff.deep_view()),
{
    let everything: Vec<String> = collect_differences(execution_diff.fixture_diffs.as_slice());
    let mut details: Vec<String> = first_few(everything.as_slice());
    let ghost seen = details.deep_view();
    let mut errors: Vec<String> = first_few(execution_diff.sandbox_execution_errors.as_slice());
    let ghost noted = errors.deep_view();
    details.append(&mut errors);
    assert(details.deep_view() =~= seen + noted);
    if !ast_diff.is_empty() {
        details.push(ast_summary_text(ast_diff));
        assert(details.deep_view() =~= (seen + noted).push(ast_summary(ast_diff.deep_view())));
    }
    assert(details.deep_view().len() == details@.len());
    if details.len() == 0 {
        "semantic shadow testing failed without a detailed diff".to_owned()
    } else {
        join_list(details.as_slice(), " | ")
    }
}

// ---------------------------------------------------------------------------
// The agent
// ---------------------------------------------------------------------------
/// The agent for the third phase.
#[derive(Debug)]
pub struct VerifierAgent {
    legacy_root: String,
    modern_root: String,
    provider: String,
    model: String,
}

impl Agent for VerifierAgent {
    open spec fn label(&self) -> Seq<char> {
        VERIFIER_NAME@
    }

    closed spec fn model_name(&self) -> Seq<char> {
        self.model@
    }

    fn name(&self) -> (res: &str) {
        VERIFIER_NAME
    }

    fn model(&self) -> (res: &str) {
        self.model.as_str()
    }
}

pub const VERIFIER_RULES: &'static str =
    " migrations.\nYour task is to design shadow-test fixtures that prove whether the modern implementation matches the legacy behavior.\nYou must respond by calling the provided tool exactly once.\nRules:\n1. Select one callable entry point from the supplied legacy files and one callable entry point from the supplied modern files.\n2. Generate JSON fixtures that stress happy paths, boundary values, nullability, malformed inputs, and branch-heavy edge cases.\n3. Every fixture must use positional `args` only.\n4. Prefer fixtures that exercise every branch visible in the legacy AST.\n5. Use only the file paths explicitly provided in the prompt.\n6. Do not emit prose, markdown, or explanations.\n";

pub const MODERN_AST_UNAVAILABLE: &'static str =
    "{\"warning\":\"modern AST unavailable; choose from the provided modern files only\"}";

pub open spec fn system_prompt(framework: Seq<char>) -> Seq<char> {
    "You are an uncompromising semantic equivalence judge for "@ + framework + VERIFIER_RULES@
}

pub open spec fn user_prompt(
    ticket: TicketModel,
    legacy_graph: Seq<char>,
    modern_graph: Option<Seq<char>>,
) -> Seq<char> {
    "Ticket ID: "@ + ticket.id + "\nDescription: "@ + ticket.description + "\nLegacy files: "@
        + compose::join(ticket.context_files, ", "@) + "\nModern files: "@ + compose::join(
        ticket.modern_file_paths,
        ", "@,
    ) + "\nLegacy AST graph JSON:\n"@ + legacy_graph + "\n\nModern AST graph JSON:\n"@ + (
    match modern_graph {
        Some(graph) => graph,
        None => MODERN_AST_UNAVAILABLE@,
    }) + "\n"@
}

pub open spec fn target_schema() -> Json {
    tools::object_of(
        seq![
            ("callable"@, tools::typed("string"@)),
            ("relative_path"@, tools::typed("string"@)),
        ],
        seq!["relative_path"@, "callable"@],
    )
}

pub open spec fn fixture_schema() -> Json {
    tools::object_of(
        seq![
            ("args"@, tools::list_of(Json::Record(Seq::empty()))),
            ("description"@, tools::typed("string"@)),
            ("id"@, tools::typed("string"@)),
        ],
        seq!["id"@, "description"@, "args"@],
    )
}

pub open spec fn plan_schema() -> Json {
    tools::object_of(
        seq![
            ("fixtures"@, tools::list_of(fixture_schema())),
            ("legacy_target"@, target_schema()),
            ("modern_target"@, target_schema()),
        ],
        seq!["legacy_target"@, "modern_target"@, "fixtures"@],
    )
}

pub const FIXTURES_TOOL_DESCRIPTION: &'static str =
    "Select matching execution entry points and generate exhaustive JSON fixtures for semantic shadow testing";

pub fn execution_target_schema() -> (res: JsonValue)
    ensures
        res@ == target_schema(),
{
    let mut fields: Vec<(String, JsonValue)> = Vec::new();
    assert(json::entries_model(fields@) =~= Seq::empty());
    push_entry(&mut fields, "callable", typed_schema("string"));
    push_entry(&mut fields, "relative_path", typed_schema("string"));
    assert(json::entries_model(fields@) =~= seq![
        ("callable"@, tools::typed("string"@)),
        ("relative_path"@, tools::typed("string"@)),
    ]);
    let required: Vec<&'static str> = vec!["relative_path", "callable"];
    assert(tools::names(required@) =~= seq!["relative_path"@, "callable"@]);
    object_schema(fields, &required)
}

fn shadow_fixture_schema() -> (res: JsonValue)
    ensures
        res@ == fixture_schema(),
{
    let nothing: Vec<(String, JsonValue)> = Vec::new();
    assert(json::entries_model(nothing@) =~= Seq::empty());
    let mut fields: Vec<(String, JsonValue)> = Vec::new();
    assert(json::entries_model(fields@) =~= Seq::empty());
    push_entry(&mut fields, "args", list_schema(object_value(nothing)));
    push_entry(&mut fields, "description", typed_schema("string"));
    push_entry(&mut fields, "id", typed_schema("string"));
    assert(json::entries_model(fields@) =~= seq![
        ("args"@, tools::list_of(Json::Record(Seq::empty()))),
        ("description"@, tools::typed("string"@)),
        ("id"@, tools::typed("string"@)),
    ]);
    let required: Vec<&'static str> = vec!["id", "description", "args"];
    assert(tools::names(required@) =~= seq!["id"@, "description"@, "args"@]);
    object_schema(fields, &required)
}

/// What is known of the modern code where it could not be parsed.
pub open spec fn unparsed(files: Seq<Seq<char>>, cause: Seq<char>) -> AstDiffModel {
    AstDiffModel { unsupported_files: files, notes: seq![cause], ..AstDiffModel::blank() }
}

/// The ticket after shadow testing: it is verified exactly where the two targets are equivalent.
pub open spec fn judged(ticket: TicketModel, execution: OutcomeModel, ast: AstDiffModel) -> TicketModel {
    TicketModel {
        last_execution_diff: Some(execution),
        last_ast_diff: Some(ast),
        status: if execution.equivalent {
            StatusModel::Verified
        } else {
            StatusModel::Failed(failure_summary(execution, ast))
        },
        ..ticket
    }
}

/// The ticket after the verifier has worked on it.
pub open spec fn verified(
    ticket: TicketModel,
    outcome: Result<(ExecutionDiff, AstDiff), Failure>,
) -> TicketModel {
    match outcome {
        Ok(diffs) => judged(ticket, diffs.0.deep_view(), diffs.1.deep_view()),
        Err(error) => ticket.now(StatusModel::Failed(error@[0])),
    }
}

impl VerifierAgent {
    pub closed spec fn provider_name(&self) -> Seq<char> {
        self.provider@
    }

    pub closed spec fn legacy(&self) -> Seq<char> {
        self.legacy_root@
    }

    pub closed spec fn modern(&self) -> Seq<char> {
        self.modern_root@
    }

    pub fn new(legacy_root: String, modern_root: String, llm_client: &ZeroClawClient) -> (res: Self)
        ensures
            res.legacy() == legacy_root@,
            res.modern() == modern_root@,
            match client::config_for(llm_client.configs(), TaskKind::Verifier) {
                Some(config) => res.model_name() == config.model && res.provider_name()
                    == config.provider,
                None => res.model_name() == "unconfigured"@ && res.provider_name()
                    == "unconfigured"@,
            },
    {
        VerifierAgent {
            legacy_root,
            modern_root,
            provider: llm_client.provider_for(TaskKind::Verifier).to_owned(),
            model: llm_client.model_for(TaskKind::Verifier).to_owned(),
        }
    }

    pub fn default_model() -> (res: &'static str)
        ensures
            res@ == DEFAULT_VERIFIER_MODEL@,
    {
        DEFAULT_VERIFIER_MODEL
    }

    pub fn provider(&self) -> (res: &str)
        ensures
            res@ == self.provider_name(),
    {
        self.provider.as_str()
    }

    /// A ticket can be verified if it has legacy and modern files.
    pub fn check_ticket(ticket: &Ticket) -> (res: Result<(), Failure>)
        ensures
            if ticket@.context_files.len() == 0 {
                res matches Err(error) && error@ == failure::plain(
                    "ticket "@ + ticket@.id
                        + " does not provide legacy context files for semantic verification"@,
                )
            } else if ticket@.modern_file_paths.len() == 0 {
                res matches Err(error) && error@ == failure::plain(
                    "ticket "@ + ticket@.id
                        + " does not have any generated source files to verify"@,
                )
            } else {
                res is Ok
            },
    {
        assert(ticket@.context_files.len() == ticket.context_files@.len());
        assert(ticket@.modern_file_paths.len() == ticket.modern_file_paths@.len());
        if ticket.context_files.len() == 0 {
            let mut message = "ticket ".to_owned();
            message.append(ticket.id.as_str());
            message.append(" does not provide legacy context files for semantic verification");
            return Err(Failure::new(message));
        }
        if ticket.modern_file_paths.len() == 0 {
            let mut message = "ticket ".to_owned();
            message.append(ticket.id.as_str());
            message.append(" does not have any generated source files to verify");
            return Err(Failure::new(message));
        }
        Ok(())
    }

    /// The arguments for parsing the legacy files of the ticket.
    pub fn legacy_graph_args(&self, ticket: &Ticket) -> (res: Vec<String>)
        ensures
            res.deep_view() == executor::reading_args(self.legacy(), ticket@.context_files),
    {
        args_for_reading(self.legacy_root.as_str(), ticket.context_files.as_slice())
    }

    /// The arguments for parsing the modern files of the ticket.
    pub fn modern_graph_args(&self, ticket: &Ticket) -> (res: Vec<String>)
        ensures
            res.deep_view() == executor::reading_args(self.modern(), ticket@.modern_file_paths),
    {
        args_for_reading(self.modern_root.as_str(), ticket.modern_file_paths.as_slice())
    }

    /// Legacy files have to be parsed.
    pub fn take_legacy_graph(ticket: &Ticket, outcome: Result<String, Failure>) -> (res: Result<
        String,
        Failure,
    >)
        ensures
            match outcome {
                Ok(graph) => res matches Ok(taken) && taken == graph,
                Err(cause) => res matches Err(error) && error@ == failure::in_context(
                    "failed to build legacy AST graph for ticket "@ + ticket@.id,
                    cause@,
                ),
            },
    {
        match outcome {
            Ok(graph) => Ok(graph),
            Err(cause) => Err(
                in_ticket(
                    cause,
                    "failed to build legacy AST graph for ticket ",
                    ticket.id.as_str(),
                ),
            ),
        }
    }

    /// Compares the graphs. Modern files that could not be parsed are noted.
    pub fn compare_graphs(
        ticket: &Ticket,
        legacy: &DependencyGraph,
        modern: &Result<DependencyGraph, Failure>,
    ) -> (res: AstDiff)
        ensures
            res.deep_view() == match *modern {
                Ok(graph) => graph::graph_diff(legacy.deep_view(), graph.deep_view()),
                Err(error) => unparsed(ticket@.modern_file_paths, error@[0]),
            },
    {
        match modern {
            Ok(graph) => diff_dependency_graphs(legacy, graph),
            Err(error) => {
                let mut diff = AstDiff::default();
                diff.unsupported_files = copy_list(ticket.modern_file_paths.as_slice());
                let mut notes: Vec<String> = Vec::new();
                notes.push(error.message());
                assert(notes.deep_view() =~= seq![error@[0]]);
                diff.notes = notes;
                diff
            },
        }
    }

    /// Asks for fixtures.
    pub fn request_fixtures(
        ticket: &Ticket,
        legacy_graph_json: &str,
        modern_graph_json: &Option<String>,
    ) -> (res: ChatRequest)
        ensures
            res.system_prompt@ == system_prompt(ticket@.target_framework),
            res.user_prompt@ == user_prompt(
                ticket@,
                legacy_graph_json@,
                modern_graph_json.deep_view(),
            ),
            res.tool.name@ == "generate_shadow_fixtures"@,
            res.tool.description@ == FIXTURES_TOOL_DESCRIPTION@,
            res.tool.parameters@ == plan_schema(),
    {
        ChatRequest {
            system_prompt: Self::system_prompt(ticket),
            user_prompt: Self::user_prompt(ticket, legacy_graph_json, modern_graph_json),
            tool: Self::generate_shadow_fixtures_tool(),
        }
    }

    pub fn system_prompt(ticket: &Ticket) -> (res: String)
        ensures
            res@ == system_prompt(ticket@.target_framework),
    {
        let mut out = "You are an uncompromising semantic equivalence judge for ".to_owned();
        out.append(ticket.target_framework.as_str());
        out.append(VERIFIER_RULES);
        out
    }

    pub fn user_prompt(
        ticket: &Ticket,
        legacy_graph_json: &str,
        modern_graph_json: &Option<String>,
    ) -> (res: String)
        ensures
            res@ == user_prompt(
                ticket@,
                legacy_graph_json@,
                modern_graph_json.deep_view(),
            ),
    {
        let modern_graph: &str = match modern_graph_json {
            Some(graph) => graph.as_str(),
            None => MODERN_AST_UNAVAILABLE,
        };
        let mut out = "Ticket ID: ".to_owned();
        out.append(ticket.id.as_str());
        out.append("\nDescription: ");
        out.append(ticket.description.as_str());
        out.append("\nLegacy files: ");
        out.append(join_list(ticket.context_files.as_slice(), ", ").as_str());
        out.append("\nModern files: ");
        out.append(join_list(ticket.modern_file_paths.as_slice(), ", ").as_str());
        out.append("\nLegacy AST graph JSON:\n");
        out.append(legacy_graph_json);
        out.append("\n\nModern AST graph JSON:\n");
        out.append(modern_graph);
        out.append("\n");
        out
    }

    pub fn generate_shadow_fixtures_tool() -> (res: ToolSpec)
        ensures
            res.name@ == "generate_shadow_fixtures"@,
            res.description@ == FIXTURES_TOOL_DESCRIPTION@,
            res.parameters@ == plan_schema(),
    {
        let mut fields: Vec<(String, JsonValue)> = Vec::new();
        assert(json::entries_model(fields@) =~= Seq::empty());
        push_entry(&mut fields, "fixtures", list_schema(shadow_fixture_schema()));
        push_entry(&mut fields, "legacy_target", execution_target_schema());
        push_entry(&mut fields, "modern_target", execution_target_schema());
        assert(json::entries_model(fields@) =~= seq![
            ("fixtures"@, tools::list_of(fixture_schema())),
            ("legacy_target"@, target_schema()),
            ("modern_target"@, target_schema()),
        ]);
        let required: Vec<&'static str> = vec!["legacy_target", "modern_target", "fixtures"];
        assert(tools::names(required@) =~= seq![
            "legacy_target"@,
            "modern_target"@,
            "fixtures"@,
        ]);
        ToolSpec {
            name: "generate_shadow_fixtures".to_owned(),
            description: FIXTURES_TOOL_DESCRIPTION.to_owned(),
            parameters: object_schema(fields, &required),
        }
    }

    /// Takes the answer of the model. The ticket pays for it, whatever it holds. `plan` is what
    /// came of reading the arguments of its call.
    pub fn accept_answer(
        ticket: &mut Ticket,
        answer: Result<StructuredCall, Failure>,
        plan: Result<ShadowFixturePlan, String>,
    ) -> (res: Result<ShadowFixturePlan, Failure>)
        ensures
            match answer {
                Err(cause) => final(ticket)@ == old(ticket)@ && (res matches Err(error) && error@
                    == failure::in_context(
                    "verifier model failed for ticket "@ + old(ticket)@.id,
                    cause@,
                )),
                Ok(call) => final(ticket)@ == old(ticket)@.charged(call.usage) && match plan {
                    Err(cause) => res matches Err(error) && error@ == call.unreadable(cause@),
                    Ok(given) => match plan_problem(old(ticket)@, given) {
                        Some(chain) => res matches Err(error) && error@ == chain,
                        None => res matches Ok(taken) && taken == given,
                    },
                },
            },
    {
        let call: StructuredCall = match answer {
            Ok(call) => call,
            Err(cause) => {
                return Err(
                    in_ticket(cause, "verifier model failed for ticket ", ticket.id.as_str()),
                );
            },
        };
        ticket.record_llm_usage(&call.usage);
        let given: ShadowFixturePlan = match call.deserialize_arguments(plan) {
            Ok(given) => given,
            Err(error) => {
                return Err(error);
            },
        };
        match validate_shadow_plan(ticket, &given) {
            Ok(_) => Ok(given),
            Err(error) => Err(error),
        }
    }

    /// The request for the shadow tests of a plan.
    pub fn shadow_request(&self, plan: &ShadowFixturePlan) -> (res: ShadowTestRequest)
        ensures
            res.legacy_root@ == self.legacy(),
            res.modern_root@ == self.modern(),
            res.legacy_target.deep_view() == plan.legacy_target.deep_view(),
            res.modern_target.deep_view() == plan.modern_target.deep_view(),
            res.fixtures.deep_view() == plan.fixtures.deep_view(),
    {
        ShadowTestRequest {
            legacy_root: self.legacy_root.clone(),
            modern_root: self.modern_root.clone(),
            legacy_target: plan.legacy_target.clone(),
            modern_target: plan.modern_target.clone(),
            fixtures: copy_all(plan.fixtures.as_slice()),
        }
    }

    /// Settles what the verifier made of a ticket.
    pub fn process_ticket(ticket: Ticket, outcome: Result<(ExecutionDiff, AstDiff), Failure>) -> (res:
        Ticket)
        ensures
            res@ == verified(ticket@, outcome),
    {
        let mut updated = ticket;
        match outcome {
            Ok((execution_diff, ast_diff)) => {
                if execution_diff.equivalent {
                    updated.status = TicketStatus::Verified;
                } else {
                    updated.status = TicketStatus::Failed(
                        build_failure_summary(&execution_diff, &ast_diff),
                    );
                }
                updated.last_execution_diff = Some(execution_diff);
                updated.last_ast_diff = Some(ast_diff);
            },
            Err(error) => {
                updated.fail(&error);
            },
        }
        updated
    }
}

// ---------------------------------------------------------------------------
// Laws
// ---------------------------------------------------------------------------
/// A plan is accepted exactly where its targets are valid paths, it has fixtures, its legacy target
/// is one of the context files and its modern target is one of the modern files.
pub proof fn lemma_plan_accepted(ticket: TicketModel, plan: ShadowFixturePlan)
    ensures
        plan_problem(ticket, plan) is None <==> {
            &&& plan.fixtures@.len() > 0
            &&& exists|i: int, j: int|
                are_targets(
                    ticket,
                    plan.legacy_target.relative_path@,
                    plan.modern_target.relative_path@,
                    i,
                    j,
                )
        },
{
    let legacy = plan.legacy_target.relative_path@;
    let modern = plan.modern_target.relative_path@;
    if plan_problem(ticket, plan) is None {
        let l = plain_path(legacy)->Ok_0;
        let m = plain_path(modern)->Ok_0;
        let i = choose|i: int|
            0 <= i < ticket.context_files.len() && #[trigger] plain_path(ticket.context_files[i])
                == Ok::<Seq<char>, Seq<Seq<char>>>(l);
        let j = choose|j: int|
            0 <= j < ticket.modern_file_paths.len() && #[trigger] plain_path(
                ticket.modern_file_paths[j],
            ) == Ok::<Seq<char>, Seq<Seq<char>>>(m);
        assert(are_targets(ticket, legacy, modern, i, j));
    }
    if plan.fixtures@.len() > 0 && exists|i: int, j: int|
        are_targets(ticket, legacy, modern, i, j) {
        let (i, j) = choose|i: int, j: int| are_targets(ticket, legacy, modern, i, j);
        let l = plain_path(legacy)->Ok_0;
        let m = plain_path(modern)->Ok_0;
        assert(plain_path(ticket.context_files[i]) == Ok::<Seq<char>, Seq<Seq<char>>>(l));
        assert(plain_path(ticket.modern_file_paths[j]) == Ok::<Seq<char>, Seq<Seq<char>>>(m));
        assert(is_among(ticket.context_files, l));
        assert(is_among(ticket.modern_file_paths, m));
    }
}

/// The paths are valid and name the files of the ticket at the positions.
pub open spec fn are_targets(
    ticket: TicketModel,
    legacy: Seq<char>,
    modern: Seq<char>,
    i: int,
    j: int,
) -> bool {
    &&& 0 <= i < ticket.context_files.len()
    &&& 0 <= j < ticket.modern_file_paths.len()
    &&& plain_path(legacy) is Ok
    &&& plain_path(modern) is Ok
    &&& plain_path(ticket.context_files[i]) == plain_path(legacy)
    &&& plain_path(ticket.modern_file_paths[j]) == plain_path(modern)
}

/// The differences of two lists of fixtures are those of the one and those of the other.
pub proof fn lemma_differences_of_parts(a: Seq<DiffModel>, b: Seq<DiffModel>)
    ensures
        all_differences(a + b) == all_differences(a) + all_differences(b),
    decreases b.len(),
{
    if b.len() == 0 {
        assert(a + b =~= a);
    } else {
        lemma_differences_of_parts(a, b.drop_last());
        assert((a + b).drop_last() =~= a + b.drop_last());
        assert((a + b).last() == b.last());
        assert(all_differences(a) + all_differences(b.drop_last()) + b.last().differences
            =~= all_differences(a) + (all_differences(b.drop_last()) + b.last().differences));
    }
}

/// The differences of one fixture are all of them, in order.
pub proof fn lemma_differences_of_one(diff: DiffModel)
    ensures
        all_differences(seq![diff]) == diff.differences,
{
    assert(seq![diff].drop_last() =~= Seq::<DiffModel>::empty());
    assert(all_differences(Seq::<DiffModel>::empty()) =~= Seq::empty());
}

/// The reason of a failure names the first five differences and the first five errors, and says
/// what is missing where something is.
pub proof fn lemma_summary_tells(execution: OutcomeModel, ast: AstDiffModel)
    ensures
        forall|i: int|
            0 <= i < all_differences(execution.fixture_diffs).len() && i < 5 ==> search::contains(
                failure_summary(execution, ast),
                #[trigger] all_differences(execution.fixture_diffs)[i],
            ),
        forall|i: int|
            0 <= i < execution.sandbox_execution_errors.len() && i < 5 ==> search::contains(
                failure_summary(execution, ast),
                #[trigger] execution.sandbox_execution_errors[i],
            ),
        ast != AstDiffModel::blank() ==> search::contains(
            failure_summary(execution, ast),
            ast_summary(ast),
        ),
{
    let found = all_differences(execution.fixture_diffs);
    let errors = execution.sandbox_execution_errors;
    let details = summary_details(execution, ast);
    let n = at_most(found, SUMMARY_LIMIT as nat).len() as int;
    assert forall|i: int| 0 <= i < found.len() && i < 5 implies search::contains(
        failure_summary(execution, ast),
        #[trigger] found[i],
    ) by {
        assert(details[i] == found[i]);
        compose::lemma_join_holds(details, " | "@, i);
    }
    assert forall|i: int| 0 <= i < errors.len() && i < 5 implies search::contains(
        failure_summary(execution, ast),
        #[trigger] errors[i],
    ) by {
        assert(details[n + i] == errors[i]);
        compose::lemma_join_holds(details, " | "@, n + i);
    }
    if ast != AstDiffModel::blank() {
        let k = details.len() - 1;
        assert(details[k] == ast_summary(ast));
        compose::lemma_join_holds(details, " | "@, k);
    }
}

/// A ticket is verified exactly where the two targets are equivalent; it keeps what was found, and
/// nothing else about it changes.
pub proof fn lemma_judged(ticket: TicketModel, execution: OutcomeModel, ast: AstDiffModel)
    ensures
        ({
            let after = judged(ticket, execution, ast);
            &&& after.status is Verified <==> execution.equivalent
            &&& after.status is Failed <==> !execution.equivalent
            &&& after.last_execution_diff == Some(execution)
            &&& after.last_ast_diff == Some(ast)
            &&& after == (TicketModel {
                status: after.status,
                last_execution_diff: after.last_execution_diff,
                last_ast_diff: after.last_ast_diff,
                ..ticket
            })
        }),
{
}

/// The model is told of the ticket, of all files of both sides and of what they declare.
pub proof fn lemma_prompt_tells(
    ticket: TicketModel,
    legacy_graph: Seq<char>,
    modern_graph: Option<Seq<char>>,
)
    ensures
        ({
            let prompt = user_prompt(ticket, legacy_graph, modern_graph);
            &&& search::contains(prompt, "Ticket ID: "@ + ticket.id)
            &&& search::contains(prompt, "\nDescription: "@ + ticket.description)
            &&& search::contains(
                prompt,
                "\nLegacy files: "@ + compose::join(ticket.context_files, ", "@),
            )
            &&& search::contains(
                prompt,
                "\nModern files: "@ + compose::join(ticket.modern_file_paths, ", "@),
            )
            &&& search::contains(prompt, "\nLegacy AST graph JSON:\n"@ + legacy_graph)
            &&& modern_graph matches Some(graph) ==> search::contains(
                prompt,
                "\n\nModern AST graph JSON:\n"@ + graph,
            )
        }),
{
    search::lemma_parts_found();
    let start = "Ticket ID: "@ + ticket.id;
    assert(Seq::<char>::empty() + start =~= start);
    assert(search::contains(Seq::<char>::empty() + start, start));
}

/// A summary of what is missing tells how much of each kind it is.
pub proof fn lemma_ast_summary_tells(diff: AstDiffModel)
    ensures
        ({
            let summary = ast_summary(diff);
            &&& search::contains(
                summary,
                "ast_diff: missing_functions="@ + compose::decimal(diff.missing_functions.len()),
            )
            &&& search::contains(
                summary,
                ", missing_classes="@ + compose::decimal(diff.missing_classes.len()),
            )
            &&& search::contains(
                summary,
                ", missing_imports="@ + compose::decimal(diff.missing_imports.len()),
            )
            &&& search::contains(
                summary,
                ", missing_branches="@ + compose::decimal(diff.missing_branches.len()),
            )
        }),
{
    search::lemma_parts_found();
    let start = "ast_diff: missing_functions="@ + compose::decimal(diff.missing_functions.len());
    assert(Seq::<char>::empty() + start =~= start);
    assert(search::contains(Seq::<char>::empty() + start, start));
}

/// A plan that is accepted names both targets in full and lists its fixtures.
pub proof fn lemma_plan_demands(value: Json)
    requires
        schema::meets(value, plan_schema()),
    ensures
        value is Record,
        json::entry(value->Record_0, "legacy_target"@) is Some,
        names_target(json::entry(value->Record_0, "legacy_target"@)->0),
        json::entry(value->Record_0, "modern_target"@) is Some,
        names_target(json::entry(value->Record_0, "modern_target"@)->0),
        json::entry(value->Record_0, "fixtures"@) is Some,
        json::entry(value->Record_0, "fixtures"@)->0 is List,
{
    let whole = seq![
        ("fixtures"@, tools::list_of(fixture_schema())),
        ("legacy_target"@, target_schema()),
        ("modern_target"@, target_schema()),
    ];
    let required = seq!["legacy_target"@, "modern_target"@, "fixtures"@];
    assert(plan_schema() == tools::object_of(whole, required));
    assert(required[2] == whole[0].0 && required[0] == whole[1].0 && required[1] == whole[2].0);
    assert(required.contains(required[0]) && required.contains(required[1]));
    assert(required.contains(required[2]));
    tools::lemma_property(value, whole, required, 0);
    tools::lemma_property(value, whole, required, 1);
    tools::lemma_property(value, whole, required, 2);
    tools::lemma_list_of(json::entry(value->Record_0, "fixtures"@)->0, fixture_schema());
    lemma_target_named(json::entry(value->Record_0, "legacy_target"@)->0);
    lemma_target_named(json::entry(value->Record_0, "modern_target"@)->0);
}

/// The object names a file and what is to be called in it.
pub open spec fn names_target(value: Json) -> bool {
    &&& value is Record
    &&& json::has_key(value->Record_0, "relative_path"@)
    &&& json::has_key(value->Record_0, "callable"@)
}

proof fn lemma_target_named(value: Json)
    requires
        schema::meets(value, target_schema()),
    ensures
        names_target(value),
{
    let fields = seq![
        ("callable"@, tools::typed("string"@)),
        ("relative_path"@, tools::typed("string"@)),
    ];
    let required = seq!["relative_path"@, "callable"@];
    tools::lemma_object_of(value, fields, required);
    assert(required[0] == "relative_path"@ && required[1] == "callable"@);
    assert(required.contains(required[0]) && required.contains(required[1]));
}

} // verus!
