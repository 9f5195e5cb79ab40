//! Tickets: units of migration work, and where they stand.
use crate::config::client;
use crate::config::client::ProjectTokenUsage;
use crate::failure;
use crate::failure::Failure;
use crate::skills::graph::{AstDiff, AstDiffModel, Replica};
use crate::skills::shadow::{ExecutionDiff, OutcomeModel};
use crate::text::copy_list;
use vstd::prelude::*;

verus! {

/// Something that works on tickets, with a model of its own.
pub trait Agent {
    spec fn label(&self) -> Seq<char>;

    spec fn model_name(&self) -> Seq<char>;

    fn name(&self) -> (res: &str)
        ensures
            res@ == self.label(),
    ;

    fn model(&self) -> (res: &str)
        ensures
            res@ == self.model_name(),
    ;
}

/// Where a ticket stands.
#[derive(Debug, PartialEq)]
pub enum TicketStatus {
    Todo,
    InProgress,
    Verified,
    Failed(String),
}

#[verifier::ext_equal]
pub enum StatusModel {
    Todo,
    InProgress,
    Verified,
    Failed(Seq<char>),
}

impl View for TicketStatus {
    type V = StatusModel;

    open spec fn view(&self) -> StatusModel {
        match *self {
            TicketStatus::Todo => StatusModel::Todo,
            TicketStatus::InProgress => StatusModel::InProgress,
            TicketStatus::Verified => StatusModel::Verified,
            TicketStatus::Failed(reason) => StatusModel::Failed(reason@),
        }
    }
}

impl Clone for TicketStatus {
    fn clone(&self) -> (res: Self)
        ensures
            res@ == self@,
    {
        match self {
            TicketStatus::Todo => TicketStatus::Todo,
            TicketStatus::InProgress => TicketStatus::InProgress,
            TicketStatus::Verified => TicketStatus::Verified,
            TicketStatus::Failed(reason) => TicketStatus::Failed(reason.clone()),
        }
    }
}

/// What the requests for a ticket have cost.
#[derive(Debug, Clone, Copy, PartialEq, Eq, Structural)]
pub struct TicketTokenUsage {
    pub llm_calls: u32,
    pub prompt_tokens: u64,
    pub completion_tokens: u64,
    pub total_tokens: u64,
}

/// The sum, or the largest number where the sum is larger.
pub open spec fn capped_count(a: u32, b: u32) -> u32 {
    if a + b > u32::MAX {
        u32::MAX
    } else {
        (a + b) as u32
    }
}

impl TicketTokenUsage {
    pub open spec fn none() -> Self {
        TicketTokenUsage { llm_calls: 0, prompt_tokens: 0, completion_tokens: 0, total_tokens: 0 }
    }

    pub open spec fn plus(self, other: Self) -> Self {
        TicketTokenUsage {
            llm_calls: capped_count(self.llm_calls, other.llm_calls),
            prompt_tokens: client::capped_sum(self.prompt_tokens, other.prompt_tokens),
            completion_tokens: client::capped_sum(
                self.completion_tokens,
                other.completion_tokens,
            ),
            total_tokens: client::capped_sum(self.total_tokens, other.total_tokens),
        }
    }

    /// The cost of one more call.
    pub open spec fn of_call(usage: ProjectTokenUsage) -> Self {
        TicketTokenUsage {
            llm_calls: 1,
            prompt_tokens: usage.prompt_tokens,
            completion_tokens: usage.completion_tokens,
            total_tokens: usage.total_tokens,
        }
    }

    /// Adds the cost of other calls.
    pub fn accumulate(&mut self, other: Self)
        ensures
            *final(self) == old(self).plus(other),
    {
        self.llm_calls = self.llm_calls.saturating_add(other.llm_calls);
        self.prompt_tokens = self.prompt_tokens.saturating_add(other.prompt_tokens);
        self.completion_tokens = self.completion_tokens.saturating_add(other.completion_tokens);
        self.total_tokens = self.total_tokens.saturating_add(other.total_tokens);
    }
}

impl Default for TicketTokenUsage {
    fn default() -> (res: Self)
        ensures
            res == Self::none(),
    {
        TicketTokenUsage { llm_calls: 0, prompt_tokens: 0, completion_tokens: 0, total_tokens: 0 }
    }
}

/// A unit of migration work.
#[derive(Debug)]
pub struct Ticket {
    pub id: String,
    pub description: String,
    pub context_files: Vec<String>,
    pub status: TicketStatus,
    pub legacy_code_snippet: String,
    pub target_framework: String,
    pub dependencies: Vec<String>,
    pub modern_file_paths: Vec<String>,
    pub test_file_paths: Vec<String>,
    pub retries: u8,
    pub token_usage: TicketTokenUsage,
    pub last_execution_diff: Option<ExecutionDiff>,
    pub last_ast_diff: Option<AstDiff>,
}

#[verifier::ext_equal]
pub struct TicketModel {
    pub id: Seq<char>,
    pub description: Seq<char>,
    pub context_files: Seq<Seq<char>>,
    pub status: StatusModel,
    pub legacy_code_snippet: Seq<char>,
    pub target_framework: Seq<char>,
    pub dependencies: Seq<Seq<char>>,
    pub modern_file_paths: Seq<Seq<char>>,
    pub test_file_paths: Seq<Seq<char>>,
    pub retries: u8,
    pub token_usage: TicketTokenUsage,
    pub last_execution_diff: Option<OutcomeModel>,
    pub last_ast_diff: Option<AstDiffModel>,
}

impl DeepView for Ticket {
    type V = TicketModel;

    open spec fn deep_view(&self) -> TicketModel {
        TicketModel {
            id: self.id@,
            description: self.description@,
            context_files: self.context_files.deep_view(),
            status: self.status@,
            legacy_code_snippet: self.legacy_code_snippet@,
            target_framework: self.target_framework@,
            dependencies: self.dependencies.deep_view(),
            modern_file_paths: self.modern_file_paths.deep_view(),
            test_file_paths: self.test_file_paths.deep_view(),
            retries: self.retries,
            token_usage: self.token_usage,
            last_execution_diff: self.last_execution_diff.deep_view(),
            last_ast_diff: self.last_ast_diff.deep_view(),
        }
    }
}

impl View for Ticket {
    type V = TicketModel;

    open spec fn view(&self) -> TicketModel {
        self.deep_view()
    }
}

fn copy_execution_diff(diff: &Option<ExecutionDiff>) -> (res: Option<ExecutionDiff>)
    ensures
        res.deep_view() == diff.deep_view(),
{
    match diff {
        Some(d) => Some(d.clone()),
        None => None,
    }
}

fn copy_ast_diff(diff: &Option<AstDiff>) -> (res: Option<AstDiff>)
    ensures
        res.deep_view() == diff.deep_view(),
{
    match diff {
        Some(d) => Some(d.clone()),
        None => None,
    }
}

impl Clone for Ticket {
    fn clone(&self) -> (res: Self)
        ensures
            res@ == self@,
    {
        Ticket {
            id: self.id.clone(),
            description: self.description.clone(),
            context_files: copy_list(self.context_files.as_slice()),
            status: self.status.clone(),
            legacy_code_snippet: self.legacy_code_snippet.clone(),
            target_framework: self.target_framework.clone(),
            dependencies: copy_list(self.dependencies.as_slice()),
            modern_file_paths: copy_list(self.modern_file_paths.as_slice()),
            test_file_paths: copy_list(self.test_file_paths.as_slice()),
            retries: self.retries,
            token_usage: self.token_usage,
            last_execution_diff: copy_execution_diff(&self.last_execution_diff),
            last_ast_diff: copy_ast_diff(&self.last_ast_diff),
        }
    }
}

impl Replica for Ticket {
    fn replica(&self) -> (res: Self) {
        self.clone()
    }
}

impl TicketModel {
    /// The ticket after a call to a model.
    pub open spec fn charged(self, usage: ProjectTokenUsage) -> TicketModel {
        TicketModel {
            token_usage: self.token_usage.plus(TicketTokenUsage::of_call(usage)),
            ..self
        }
    }

    /// The ticket with another status.
    pub open spec fn now(self, status: StatusModel) -> TicketModel {
        TicketModel { status, ..self }
    }

    /// The executor has left something to work on.
    pub open spec fn has_artifacts(self) -> bool {
        self.modern_file_paths.len() > 0 || self.test_file_paths.len() > 0
    }
}

impl Ticket {
    /// Adds the cost of a call to a model.
    pub fn record_llm_usage(&mut self, usage: &ProjectTokenUsage)
        ensures
            final(self)@ == old(self)@.charged(*usage),
    {
        self.token_usage.accumulate(
            TicketTokenUsage {
                llm_calls: 1,
                prompt_tokens: usage.prompt_tokens,
                completion_tokens: usage.completion_tokens,
                total_tokens: usage.total_tokens,
            },
        );
    }

    /// Marks the ticket as failed for the reason that the failure gives.
    pub fn fail(&mut self, error: &Failure)
        ensures
            final(self)@ == old(self)@.now(StatusModel::Failed(error@[0])),
    {
        self.status = TicketStatus::Failed(error.message());
    }

    pub fn has_generated_artifacts(&self) -> (res: bool)
        ensures
            res == self@.has_artifacts(),
    {
        assert(self@.modern_file_paths.len() == self.modern_file_paths@.len());
        assert(self@.test_file_paths.len() == self.test_file_paths@.len());
        self.modern_file_paths.len() > 0 || self.test_file_paths.len() > 0
    }
}

/// A failure that names the ticket.
pub fn about_ticket(message: &str, id: &str) -> (res: Failure)
    ensures
        res@ == failure::plain(message@ + id@),
{
    let mut out = message.to_owned();
    out.append(id);
    Failure::new(out)
}

/// A failure in the context of a ticket.
pub fn in_ticket(cause: Failure, message: &str, id: &str) -> (res: Failure)
    ensures
        res@ == failure::in_context(message@ + id@, cause@),
{
    let mut out = message.to_owned();
    out.append(id);
    cause.context(out)
}

// ---------------------------------------------------------------------------
// Laws
// ---------------------------------------------------------------------------
/// A call to a model adds one call and its tokens to the cost of a ticket, as far as the counters
/// reach, and changes nothing else.
pub proof fn lemma_charged(ticket: TicketModel, usage: ProjectTokenUsage)
    ensures
        ({
            let before = ticket.token_usage;
            let after = ticket.charged(usage).token_usage;
            &&& before.llm_calls < u32::MAX ==> after.llm_calls == before.llm_calls + 1
            &&& before.llm_calls == u32::MAX ==> after.llm_calls == u32::MAX
            &&& before.prompt_tokens + usage.prompt_tokens <= u64::MAX ==> after.prompt_tokens
                == before.prompt_tokens + usage.prompt_tokens
            &&& before.completion_tokens + usage.completion_tokens <= u64::MAX
                ==> after.completion_tokens == before.completion_tokens + usage.completion_tokens
            &&& before.total_tokens + usage.total_tokens <= u64::MAX ==> after.total_tokens
                == before.total_tokens + usage.total_tokens
            &&& before.prompt_tokens <= after.prompt_tokens
            &&& before.completion_tokens <= after.completion_tokens
            &&& before.total_tokens <= after.total_tokens
        }),
        ticket.charged(usage) == (TicketModel {
            token_usage: ticket.charged(usage).token_usage,
            ..ticket
        }),
{
}

/// What is spent in parts adds up to the same whole, in whatever order the parts come.
pub proof fn lemma_usage_adds_up(a: TicketTokenUsage, b: TicketTokenUsage, c: TicketTokenUsage)
    ensures
        a.plus(b) == b.plus(a),
        a.plus(b).plus(c) == a.plus(b.plus(c)),
{
}

/// Another status is the only change.
pub proof fn lemma_now(ticket: TicketModel, status: StatusModel)
    ensures
        ticket.now(status).status == status,
        ticket.now(status).now(ticket.status) == ticket,
        ticket.now(status).has_artifacts() == ticket.has_artifacts(),
{
}

} // verus!
