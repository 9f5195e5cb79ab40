//! The agent that has failing code repaired.
use crate::agents::executor;
use crate::agents::executor::{args_for_reading, ContextSource};
use crate::agents::ticket::{
    in_ticket, Agent, StatusModel, Ticket, TicketModel, TicketStatus,
};
use crate::compose;
use crate::compose::join_list;
use crate::config::routing;
use crate::config::routing::{
    read_filled_env, ConfigModel, EnvReading, ModelRouter, ReadingModel, TaskKind, TaskModelConfig,
};
use crate::failure;
use crate::failure::Failure;
use crate::search;
use crate::text;
use vstd::prelude::*;

verus! {

pub const SURGEON_NAME: &'static str = "surgeon";

/// The variable with which a deployment names the default model of the surgeon.
pub const SURGEON_DEFAULT_MODEL_ENV: &'static str = "SURGEON_DEFAULT_MODEL";

/// The worker that does the repairs, as a provider and as a model.
pub const SURGEON_WORKER: &'static str = "openhands";

/// The default model that a deployment names, or why there is none.
pub open spec fn deployed_model(deployed: ReadingModel) -> Result<Seq<char>, Seq<Seq<char>>> {
    match routing::filled_env(SURGEON_DEFAULT_MODEL_ENV@, deployed) {
        Ok(Some(name)) => Ok(name),
        Ok(None) => Err(
            failure::plain("`"@ + SURGEON_DEFAULT_MODEL_ENV@ + "` is not configured"@),
        ),
        Err(error) => Err(error),
    }
}

/// The route to the model that is set, or else to the default one.
pub open spec fn surgeon_route(
    deployed: ReadingModel,
    provider: ReadingModel,
    model: ReadingModel,
) -> Result<ConfigModel, Seq<Seq<char>>> {
    match routing::filled_env(TaskKind::Surgeon.prefix() + "_MODEL"@, model) {
        Ok(Some(name)) => routing::routed(TaskKind::Surgeon, name, provider, model),
        Ok(None) => match deployed_model(deployed) {
            Ok(name) => routing::routed(TaskKind::Surgeon, name, provider, model),
            Err(error) => Err(error),
        },
        Err(error) => Err(error),
    }
}

/// The agent for the fourth phase.
#[derive(Debug)]
pub struct SurgeonAgent {
    legacy_root: String,
    modern_root: String,
}

impl Agent for SurgeonAgent {
    open spec fn label(&self) -> Seq<char> {
        SURGEON_NAME@
    }

    open spec fn model_name(&self) -> Seq<char> {
        SURGEON_WORKER@
    }

    fn name(&self) -> (res: &str) {
        SURGEON_NAME
    }

    fn model(&self) -> (res: &str) {
        SURGEON_WORKER
    }
}

pub open spec fn status_name(status: StatusModel) -> Seq<char> {
    match status {
        StatusModel::Todo => "Todo"@,
        StatusModel::InProgress => "InProgress"@,
        StatusModel::Verified => "Verified"@,
        StatusModel::Failed(_) => "Failed"@,
    }
}

/// The reason for which the ticket failed.
pub fn extract_failure_reason(ticket: &Ticket) -> (res: Result<&str, Failure>)
    ensures
        match ticket@.status {
            StatusModel::Failed(reason) => res matches Ok(given) && given@ == reason,
            other => res matches Err(error) && error@ == failure::plain(
                "surgeon expected TicketStatus::Failed but received "@ + status_name(other),
            ),
        },
{
    let received: &'static str = match &ticket.status {
        TicketStatus::Failed(reason) => {
            return Ok(reason.as_str());
        },
        TicketStatus::Todo => "Todo",
        TicketStatus::InProgress => "InProgress",
        TicketStatus::Verified => "Verified",
    };
    let mut message = "surgeon expected TicketStatus::Failed but received ".to_owned();
    message.append(received);
    Err(Failure::new(message))
}

pub const SURGEON_RULES: &'static str =
    " migrations.\nYou will receive legacy code, failing generated source files, failing generated tests, a semantic execution diff, an AST diff, and a verifier failure reason.\nYou must respond by calling the provided tool exactly once.\nRules:\n1. Return corrected versions of the failing generated source files and/or tests only.\n2. Use the exact same relative file paths as the failing generated artifacts.\n3. Do not return markdown fences, prose, or explanations.\n4. Each file `content` must be raw compile-ready source code.\n5. Preserve the intended behavior of the legacy implementation.\n6. Fix the minimum set of files necessary for the behavioral shadow tests to match the legacy outputs.\n7. Use the execution diff and AST diff to repair the exact missing or divergent logic.\n";

pub open spec fn system_prompt(framework: Seq<char>) -> Seq<char> {
    "You are an Expert Debugger and Code Surgeon specializing in "@ + framework + SURGEON_RULES@
}

/// What the surgeon has read.
#[derive(Debug)]
pub struct RepairContext {
    pub legacy: String,
    pub source: String,
    pub tests: String,
    pub execution_diff: String,
    pub ast_diff: String,
}

pub open spec fn user_prompt(
    ticket: TicketModel,
    reason: Seq<char>,
    context: RepairContext,
) -> Seq<char> {
    "Ticket ID: "@ + ticket.id + "\nDescription: "@ + ticket.description
        + "\nTarget framework: "@ + ticket.target_framework + "\nFailing source files: "@
        + compose::join(ticket.modern_file_paths, ", "@) + "\nFailing test files: "@
        + compose::join(ticket.test_file_paths, ", "@) + "\nFailure reason: "@ + reason
        + "\nLegacy code:\n"@ + context.legacy@ + "\n\nGenerated source files:\n"@
        + context.source@ + "\n\nGenerated tests:\n"@ + context.tests@
        + "\n\nExecution diff JSON:\n"@ + context.execution_diff@ + "\n\nAST diff JSON:\n"@
        + context.ast_diff@ + "\n"@
}

/// Everything that the worker is told.
pub open spec fn full_prompt(
    ticket: TicketModel,
    reason: Seq<char>,
    context: RepairContext,
) -> Seq<char> {
    system_prompt(ticket.target_framework) + "\n\n"@ + user_prompt(ticket, reason, context)
        + "\n\nThe shadow tests failed. Use the TerminalTool to run tests if necessary. Use the FileEditorTool to directly edit the failing modern files ("@
        + compose::join(ticket.modern_file_paths, ", "@)
        + ") to fix the behavioral divergence."@
}

pub open spec fn prompt_file(id: Seq<char>) -> Seq<char> {
    ".prompt_surgeon_"@ + id + ".txt"@
}

/// A prompt that is to be written to a file, and the command that hands it to the worker.
#[derive(Debug)]
pub struct RepairPlan {
    pub prompt_file_path: String,
    pub full_prompt: String,
    pub program: String,
    pub args: Vec<String>,
}

/// What can go wrong on the way to a repair.
#[derive(Debug)]
pub enum RepairStage {
    Legacy,
    Source,
    Tests,
    ExecutionDiff,
    AstDiff,
    Prompt,
    PromptFile(String),
    Start,
    Wait,
}

pub open spec fn stage_message(stage: RepairStage, id: Seq<char>) -> Seq<char> {
    match stage {
        RepairStage::Legacy => "failed to read legacy context for ticket "@ + id,
        RepairStage::Source => "failed to read failing modern code for ticket "@ + id,
        RepairStage::Tests => "failed to read failing generated tests for ticket "@ + id,
        RepairStage::ExecutionDiff =>
            "failed to serialize execution diff for surgeon context"@,
        RepairStage::AstDiff => "failed to serialize AST diff for surgeon context"@,
        RepairStage::Prompt => "failed to build surgeon prompt for ticket "@ + id,
        RepairStage::PromptFile(path) => "failed to write temporary prompt file "@ + path@,
        RepairStage::Start => "failed to spawn openhands_worker.py process"@,
        RepairStage::Wait => "failed to wait on openhands_worker.py process"@,
    }
}

/// The failure of a stage.
pub fn repair_failure(ticket: &Ticket, stage: &RepairStage, cause: Failure) -> (res: Failure)
    ensures
        res@ == failure::in_context(stage_message(*stage, ticket@.id), cause@),
{
    let id = ticket.id.as_str();
    match stage {
        RepairStage::Legacy => in_ticket(cause, "failed to read legacy context for ticket ", id),
        RepairStage::Source => in_ticket(
            cause,
            "failed to read failing modern code for ticket ",
            id,
        ),
        RepairStage::Tests => in_ticket(
            cause,
            "failed to read failing generated tests for ticket ",
            id,
        ),
        RepairStage::ExecutionDiff => cause.context(
            "failed to serialize execution diff for surgeon context".to_owned(),
        ),
        RepairStage::AstDiff => cause.context(
            "failed to serialize AST diff for surgeon context".to_owned(),
        ),
        RepairStage::Prompt => in_ticket(cause, "failed to build surgeon prompt for ticket ", id),
        RepairStage::PromptFile(path) => in_ticket(
            cause,
            "failed to write temporary prompt file ",
            path.as_str(),
        ),
        RepairStage::Start => cause.context(
            "failed to spawn openhands_worker.py process".to_owned(),
        ),
        RepairStage::Wait => cause.context(
            "failed to wait on openhands_worker.py process".to_owned(),
        ),
    }
}

/// How the worker ended: whether it succeeded, and its status as text.
#[derive(Debug)]
pub struct WorkerExit {
    pub success: bool,
    pub status: String,
}

pub open spec fn one_more(retries: u8) -> u8 {
    if retries == u8::MAX {
        retries
    } else {
        (retries + 1) as u8
    }
}

/// The ticket after surgery. Every surgery counts, whatever came of it.
pub open spec fn operated(ticket: TicketModel, outcome: Result<WorkerExit, Failure>) -> TicketModel {
    TicketModel {
        retries: one_more(ticket.retries),
        status: match outcome {
            Ok(exit) => if exit.success {
                StatusModel::InProgress
            } else {
                StatusModel::Failed("openhands_worker.py failed with status "@ + exit.status@)
            },
            Err(error) => StatusModel::Failed(error@[0]),
        },
        ..ticket
    }
}

impl SurgeonAgent {
    pub closed spec fn legacy(&self) -> Seq<char> {
        self.legacy_root@
    }

    pub closed spec fn modern(&self) -> Seq<char> {
        self.modern_root@
    }

    pub fn new(legacy_root: String, modern_root: String) -> (res: Self)
        ensures
            res.legacy() == legacy_root@,
            res.modern() == modern_root@,
    {
        SurgeonAgent { legacy_root, modern_root }
    }

    /// The default model of the surgeon: the one that the deployment names. No name is built in,
    /// so that nothing is said of which one it is.
    pub fn default_model(deployed: &EnvReading) -> (res: Result<String, Failure>)
        ensures
            routing::text_result(res) == deployed_model(deployed@),
    {
        match read_filled_env(SURGEON_DEFAULT_MODEL_ENV, deployed) {
            Ok(Some(name)) => Ok(name),
            Ok(None) => {
                let mut message = "`".to_owned();
                message.append(SURGEON_DEFAULT_MODEL_ENV);
                message.append("` is not configured");
                Err(Failure::new(message))
            },
            Err(error) => Err(error),
        }
    }

    /// The route of the surgeon: to the model that is set, or else to the default one.
    pub fn task_route(deployed: &EnvReading, provider: &EnvReading, model: &EnvReading) -> (res:
        Result<TaskModelConfig, Failure>)
        ensures
            surgeon_route(deployed@, provider@, model@) == match res {
                Ok(config) => Ok::<ConfigModel, Seq<Seq<char>>>(config@),
                Err(error) => Err::<ConfigModel, Seq<Seq<char>>>(error@),
            },
    {
        let name: String = match read_filled_env(TaskKind::Surgeon.model_env().as_str(), model) {
            Ok(None) => match Self::default_model(deployed) {
                Ok(name) => name,
                Err(error) => {
                    return Err(error);
                },
            },
            Ok(Some(name)) => name,
            Err(error) => {
                return Err(error);
            },
        };
        ModelRouter::from_env(TaskKind::Surgeon, name.as_str(), provider, model)
    }

    pub fn provider(&self) -> (res: &str)
        ensures
            res@ == SURGEON_WORKER@,
    {
        SURGEON_WORKER
    }

    /// The reason for which the ticket needs surgery. There has to be something to repair.
    pub fn check_ticket(ticket: &Ticket) -> (res: Result<&str, Failure>)
        ensures
            if !ticket@.has_artifacts() {
                res matches Err(error) && error@ == failure::plain(
                    "ticket "@ + ticket@.id
                        + " does not contain any generated artifacts for surgery"@,
                )
            } else {
                match ticket@.status {
                    StatusModel::Failed(reason) => res matches Ok(given) && given@ == reason,
                    other => res matches Err(error) && error@ == failure::plain(
                        "surgeon expected TicketStatus::Failed but received "@ + status_name(
                            other,
                        ),
                    ),
                }
            },
    {
        if !ticket.has_generated_artifacts() {
            let mut message = "ticket ".to_owned();
            message.append(ticket.id.as_str());
            message.append(" does not contain any generated artifacts for surgery");
            return Err(Failure::new(message));
        }
        extract_failure_reason(ticket)
    }

    fn read_files(root: &str, relative_paths: &[String]) -> (res: ContextSource)
        ensures
            if relative_paths@.len() == 0 {
                res matches ContextSource::Inline(text) && text@ == ""@
            } else {
                res matches ContextSource::Files(args) && args.deep_view()
                    == executor::reading_args(root@, relative_paths.deep_view())
            },
    {
        if relative_paths.len() == 0 {
            ContextSource::Inline("".to_owned())
        } else {
            ContextSource::Files(args_for_reading(root, relative_paths))
        }
    }

    /// Where the legacy code comes from.
    pub fn legacy_source(&self, ticket: &Ticket) -> (res: ContextSource)
        ensures
            if ticket@.context_files.len() == 0 {
                res matches ContextSource::Inline(text) && text@ == ""@
            } else {
                res matches ContextSource::Files(args) && args.deep_view()
                    == executor::reading_args(self.legacy(), ticket@.context_files)
            },
    {
        assert(ticket@.context_files.len() == ticket.context_files@.len());
        Self::read_files(self.legacy_root.as_str(), ticket.context_files.as_slice())
    }

    /// Where the generated code comes from.
    pub fn modern_source(&self, ticket: &Ticket) -> (res: ContextSource)
        ensures
            if ticket@.modern_file_paths.len() == 0 {
                res matches ContextSource::Inline(text) && text@ == ""@
            } else {
                res matches ContextSource::Files(args) && args.deep_view()
                    == executor::reading_args(self.modern(), ticket@.modern_file_paths)
            },
    {
        assert(ticket@.modern_file_paths.len() == ticket.modern_file_paths@.len());
        Self::read_files(self.modern_root.as_str(), ticket.modern_file_paths.as_slice())
    }

    /// Where the generated tests come from.
    pub fn test_source(&self, ticket: &Ticket) -> (res: ContextSource)
        ensures
            if ticket@.test_file_paths.len() == 0 {
                res matches ContextSource::Inline(text) && text@ == ""@
            } else {
                res matches ContextSource::Files(args) && args.deep_view()
                    == executor::reading_args(self.modern(), ticket@.test_file_paths)
            },
    {
        assert(ticket@.test_file_paths.len() == ticket.test_file_paths@.len());
        Self::read_files(self.modern_root.as_str(), ticket.test_file_paths.as_slice())
    }

    pub fn system_prompt(ticket: &Ticket) -> (res: String)
        ensures
            res@ == system_prompt(ticket@.target_framework),
    {
        let mut out = "You are an Expert Debugger and Code Surgeon specializing in ".to_owned();
        out.append(ticket.target_framework.as_str());
        out.append(SURGEON_RULES);
        out
    }

    pub fn user_prompt(ticket: &Ticket, failure_reason: &str, context: &RepairContext) -> (res:
        String)
        ensures
            res@ == user_prompt(ticket@, failure_reason@, *context),
    {
        let mut out = "Ticket ID: ".to_owned();
        out.append(ticket.id.as_str());
        out.append("\nDescription: ");
        out.append(ticket.description.as_str());
        out.append("\nTarget framework: ");
        out.append(ticket.target_framework.as_str());
        out.append("\nFailing source files: ");
        out.append(join_list(ticket.modern_file_paths.as_slice(), ", ").as_str());
        out.append("\nFailing test files: ");
        out.append(join_list(ticket.test_file_paths.as_slice(), ", ").as_str());
        out.append("\nFailure reason: ");
        out.append(failure_reason);
        out.append("\nLegacy code:\n");
        out.append(context.legacy.as_str());
        out.append("\n\nGenerated source files:\n");
        out.append(context.source.as_str());
        out.append("\n\nGenerated tests:\n");
        out.append(context.tests.as_str());
        out.append("\n\nExecution diff JSON:\n");
        out.append(context.execution_diff.as_str());
        out.append("\n\nAST diff JSON:\n");
        out.append(context.ast_diff.as_str());
        out.append("\n");
        out
    }

    /// Plans the repair of a ticket.
    pub fn plan_repair(ticket: &Ticket, failure_reason: &str, context: &RepairContext) -> (res:
        RepairPlan)
        ensures
            res.prompt_file_path@ == prompt_file(ticket@.id),
            res.full_prompt@ == full_prompt(ticket@, failure_reason@, *context),
            res.program@ == "uv"@,
            res.args.deep_view() == seq![
                "run"@,
                "python"@,
                "openhands_worker.py"@,
                "--prompt-file"@,
                prompt_file(ticket@.id),
            ],
    {
        let mut prompt = Self::system_prompt(ticket);
        prompt.append("\n\n");
        prompt.append(Self::user_prompt(ticket, failure_reason, context).as_str());
        prompt.append(
            "\n\nThe shadow tests failed. Use the TerminalTool to run tests if necessary. Use the FileEditorTool to directly edit the failing modern files (",
        );
        prompt.append(join_list(ticket.modern_file_paths.as_slice(), ", ").as_str());
        prompt.append(") to fix the behavioral divergence.");
        let mut prompt_file_path = ".prompt_surgeon_".to_owned();
        prompt_file_path.append(ticket.id.as_str());
        prompt_file_path.append(".txt");
        let mut args: Vec<String> = Vec::new();
        args.push("run".to_owned());
        args.push("python".to_owned());
        args.push("openhands_worker.py".to_owned());
        args.push("--prompt-file".to_owned());
        args.push(prompt_file_path.clone());
        assert(args.deep_view() =~= seq![
            "run"@,
            "python"@,
            "openhands_worker.py"@,
            "--prompt-file"@,
            prompt_file(ticket@.id),
        ]);
        RepairPlan { prompt_file_path, full_prompt: prompt, program: "uv".to_owned(), args }
    }

    /// Settles what the surgeon made of a ticket.
    pub fn process_ticket(ticket: Ticket, outcome: Result<WorkerExit, Failure>) -> (res: Ticket)
        ensures
            res@ == operated(ticket@, outcome),
    {
        let mut updated = ticket;
        updated.retries = updated.retries.saturating_add(1);
        match outcome {
            Ok(exit) => {
                if exit.success {
                    updated.status = TicketStatus::InProgress;
                } else {
                    let mut message = "openhands_worker.py failed with status ".to_owned();
                    message.append(exit.status.as_str());
                    updated.status = TicketStatus::Failed(message);
                }
            },
            Err(error) => {
                updated.fail(&error);
            },
        }
        updated
    }
}

// ---------------------------------------------------------------------------
// Laws
// ---------------------------------------------------------------------------
/// Every surgery counts as one more, whatever came of it. A ticket goes on after a successful one
/// and fails after any other, and nothing else about it changes.
pub proof fn lemma_operated(ticket: TicketModel, outcome: Result<WorkerExit, Failure>)
    ensures
        ({
            let after = operated(ticket, outcome);
            let is_done = outcome is Ok && outcome->Ok_0.success;
            &&& ticket.retries < u8::MAX ==> after.retries == ticket.retries + 1
            &&& ticket.retries == u8::MAX ==> after.retries == u8::MAX
            &&& is_done <==> after.status is InProgress
            &&& !is_done <==> after.status is Failed
            &&& outcome matches Err(error) ==> after.status == StatusModel::Failed(error@[0])
            &&& outcome is Ok && !is_done ==> search::ends_with(
                after.status->Failed_0,
                outcome->Ok_0.status@,
            )
            &&& after == (TicketModel {
                status: after.status,
                retries: after.retries,
                ..ticket
            })
        }),
{
    if let Ok(exit) = outcome {
        let reason = "openhands_worker.py failed with status "@ + exit.status@;
        assert(reason.skip(reason.len() - exit.status@.len()) =~= exit.status@);
    }
}

/// The worker is told of the ticket, of the failing files, of the reason of the failure and of all
/// that was read.
pub proof fn lemma_prompt_tells(ticket: TicketModel, reason: Seq<char>, context: RepairContext)
    ensures
        ({
            let prompt = user_prompt(ticket, reason, context);
            &&& search::contains(prompt, "Ticket ID: "@ + ticket.id)
            &&& search::contains(prompt, "\nDescription: "@ + ticket.description)
            &&& search::contains(prompt, "\nTarget framework: "@ + ticket.target_framework)
            &&& search::contains(
                prompt,
                "\nFailing source files: "@ + compose::join(ticket.modern_file_paths, ", "@),
            )
            &&& search::contains(
                prompt,
                "\nFailing test files: "@ + compose::join(ticket.test_file_paths, ", "@),
            )
            &&& search::contains(prompt, "\nFailure reason: "@ + reason)
            &&& search::contains(prompt, "\nLegacy code:\n"@ + context.legacy@)
            &&& search::contains(prompt, "\n\nGenerated source files:\n"@ + context.source@)
            &&& search::contains(prompt, "\n\nGenerated tests:\n"@ + context.tests@)
            &&& search::contains(prompt, "\n\nExecution diff JSON:\n"@ + context.execution_diff@)
            &&& search::contains(prompt, "\n\nAST diff JSON:\n"@ + context.ast_diff@)
        }),
{
    search::lemma_parts_found();
    let start = "Ticket ID: "@ + ticket.id;
    assert(Seq::<char>::empty() + start =~= start);
    assert(search::contains(Seq::<char>::empty() + start, start));
}

/// Everything that the worker is told holds what it is told of its task and of the ticket.
pub proof fn lemma_full_prompt_tells(
    ticket: TicketModel,
    reason: Seq<char>,
    context: RepairContext,
)
    ensures
        ({
            let prompt = full_prompt(ticket, reason, context);
            &&& search::starts_with(prompt, system_prompt(ticket.target_framework))
            &&& search::contains(prompt, user_prompt(ticket, reason, context))
            &&& search::contains(prompt, compose::join(ticket.modern_file_paths, ", "@))
        }),
{
    search::lemma_parts_found();
    let prompt = full_prompt(ticket, reason, context);
    let system = system_prompt(ticket.target_framework);
    assert(prompt.take(system.len() as int) =~= system);
}

/// The surgeon works with the model that is set for it, or else with the one of the deployment;
/// without either there is no route.
pub proof fn lemma_surgeon_route(
    deployed: ReadingModel,
    provider: ReadingModel,
    model: ReadingModel,
)
    ensures
        surgeon_route(deployed, provider, model) matches Ok(config) ==> {
            &&& config.task == TaskKind::Surgeon
            &&& model matches ReadingModel::Value(value) ==> (!text::is_blank(value)
                ==> config.model == value)
            &&& model is Missing ==> (deployed matches ReadingModel::Value(value)
                && config.model == value)
        },
        model is Missing && deployed is Missing ==> surgeon_route(deployed, provider, model) is Err,
        model is Unreadable ==> surgeon_route(deployed, provider, model) is Err,
{
}

} // verus!
