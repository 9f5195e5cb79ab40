//! The feedback loop that carries tickets through the agents, and the state it keeps.
use crate::agents::executor;
use crate::agents::executor::PersistedArtifacts;
use crate::agents::judge;
use crate::agents::surgeon;
use crate::agents::surgeon::WorkerExit;
use crate::agents::ticket;
use crate::agents::ticket::{StatusModel, Ticket, TicketModel, TicketStatus, TicketTokenUsage};
use crate::cli::STATE_JSON_FILE;
use crate::compose;
use crate::compose::parse_decimal;
use crate::config::client;
use crate::config::client::ProjectTokenUsage;
use crate::config::routing::{EnvReading, ReadingModel};
use crate::failure;
use crate::failure::Failure;
use crate::skills::graph::AstDiff;
use crate::skills::shadow::ExecutionDiff;
use crate::text;
use crate::text::{blank, same};
use vstd::prelude::*;

verus! {

/// How often a ticket is operated on.
pub const MAX_SURGERY_RETRIES: u8 = 3;

/// Where the tickets are stored.
pub const STATE_FILE: &'static str = STATE_JSON_FILE;

pub const MAX_CONCURRENT_TICKETS_ENV: &'static str = "MAX_CONCURRENT_TICKETS";

pub const DEFAULT_MAX_CONCURRENT_TICKETS: usize = 3;

pub const PIPELINE_TARGET_FRAMEWORK_ENV: &'static str = "PIPELINE_TARGET_FRAMEWORK";

pub const DEFAULT_TARGET_FRAMEWORK: &'static str = "TypeScript on Node.js LTS";

// ---------------------------------------------------------------------------
// The start
// ---------------------------------------------------------------------------
/// How far the start of the pipeline has come: whether the tickets are known, which they are, and
/// how many of them are stored.
#[verifier::ext_equal]
pub struct StartModel {
    pub known: bool,
    pub tickets: Seq<TicketModel>,
    pub stored: nat,
}

/// A start without stored tickets.
pub open spec fn fresh_start() -> StartModel {
    StartModel { known: false, tickets: Seq::empty(), stored: 0 }
}

/// A start from stored tickets.
pub open spec fn resumed_start(tickets: Seq<TicketModel>) -> StartModel {
    StartModel { known: true, tickets, stored: tickets.len() }
}

pub enum StartStepModel {
    Plan,
    Save(TicketModel),
    Process(Seq<TicketModel>),
}

impl StartModel {
    /// Tickets are planned where none are known. Then each of them is stored, and only then are
    /// they processed.
    pub open spec fn step(self) -> StartStepModel {
        if !self.known {
            StartStepModel::Plan
        } else if self.stored < self.tickets.len() {
            StartStepModel::Save(self.tickets[self.stored as int])
        } else {
            StartStepModel::Process(self.tickets)
        }
    }

    /// The start once the tickets are planned.
    pub open spec fn with_plan(self, tickets: Seq<TicketModel>) -> StartModel {
        StartModel { known: true, tickets, stored: 0 }
    }

    /// The start once the next ticket is stored.
    pub open spec fn with_save(self) -> StartModel {
        StartModel { stored: self.stored + 1, ..self }
    }

    /// The step of this start was taken, and led to the next one.
    pub open spec fn leads_to(self, next: StartModel) -> bool {
        match self.step() {
            StartStepModel::Plan => next == self.with_plan(next.tickets),
            StartStepModel::Save(_) => next == self.with_save(),
            StartStepModel::Process(_) => false,
        }
    }
}

/// The start of the pipeline, from the stored tickets to the point where tickets are processed.
#[derive(Debug)]
pub struct Startup {
    known: bool,
    tickets: Vec<Ticket>,
    stored: usize,
}

/// What the start asks for.
#[derive(Debug)]
pub enum StartStep<'a> {
    Plan,
    Save(&'a Ticket),
    Process(&'a Vec<Ticket>),
}

impl<'a> View for StartStep<'a> {
    type V = StartStepModel;

    open spec fn view(&self) -> StartStepModel {
        match *self {
            StartStep::Plan => StartStepModel::Plan,
            StartStep::Save(ticket) => StartStepModel::Save(ticket@),
            StartStep::Process(tickets) => StartStepModel::Process(tickets.deep_view()),
        }
    }
}

impl View for Startup {
    type V = StartModel;

    closed spec fn view(&self) -> StartModel {
        StartModel {
            known: self.known,
            tickets: self.tickets.deep_view(),
            stored: self.stored as nat,
        }
    }
}

impl Startup {
    /// Starts from what was loaded. Stored tickets are resumed.
    pub fn new(loaded: Option<Vec<Ticket>>) -> (res: Self)
        ensures
            res@ == match loaded {
                Some(tickets) => resumed_start(tickets.deep_view()),
                None => fresh_start(),
            },
    {
        match loaded {
            Some(tickets) => {
                let stored: usize = tickets.len();
                Startup { known: true, tickets, stored }
            },
            None => {
                let tickets: Vec<Ticket> = Vec::new();
                assert(tickets.deep_view() =~= Seq::empty());
                Startup { known: false, tickets, stored: 0 }
            },
        }
    }

    /// What is to be done next.
    pub fn next_step(&self) -> (res: StartStep<'_>)
        ensures
            res@ == self@.step(),
    {
        if !self.known {
            StartStep::Plan
        } else if self.stored < self.tickets.len() {
            assert(self.tickets.deep_view()[self.stored as int] == self.tickets@[self.stored as int]@);
            StartStep::Save(&self.tickets[self.stored])
        } else {
            StartStep::Process(&self.tickets)
        }
    }

    /// Goes on with the tickets that were planned.
    pub fn record_plan(self, tickets: Vec<Ticket>) -> (res: Self)
        requires
            self@.step() is Plan,
        ensures
            res@ == self@.with_plan(tickets.deep_view()),
    {
        Startup { known: true, tickets, stored: 0 }
    }

    /// Goes on once the ticket that was to be stored is stored.
    pub fn record_save(self) -> (res: Self)
        requires
            self@.step() is Save,
        ensures
            res@ == self@.with_save(),
    {
        assert(self.stored < self.tickets@.len());
        let count: usize = self.tickets.len();
        assert(self.stored < count);
        Startup { known: self.known, tickets: self.tickets, stored: self.stored + 1 }
    }
}

/// The starts follow each other, from the one without stored tickets on.
pub open spec fn is_fresh_run(run: Seq<StartModel>) -> bool {
    &&& run.len() > 0
    &&& run[0] == fresh_start()
    &&& forall|i: int| 0 <= i < run.len() - 1 ==> (#[trigger] run[i]).leads_to(run[i + 1])
}

proof fn lemma_run_counts(run: Seq<StartModel>, i: int)
    requires
        is_fresh_run(run),
        1 <= i < run.len(),
    ensures
        run[i].known,
        run[i].tickets == run[1].tickets,
        run[i].stored == i - 1,
        i - 1 <= run[i].tickets.len(),
    decreases i,
{
    if i == 1 {
        assert(run[0].leads_to(run[1]));
    } else {
        lemma_run_counts(run, i - 1);
        assert(run[i - 1].leads_to(run[i]));
    }
}

/// No planned ticket is processed before all of them are stored: where a run that began without
/// stored tickets comes to process tickets, each of them was saved in an earlier step.
pub proof fn lemma_saved_before_processed(run: Seq<StartModel>, k: int)
    requires
        is_fresh_run(run),
        run.last().step() is Process,
        0 <= k < run.last().tickets.len(),
    ensures
        exists|j: int|
            0 <= j < run.len() - 1 && (#[trigger] run[j]).step() == StartStepModel::Save(
                run.last().tickets[k],
            ),
{
    let last = run.len() - 1;
    if last == 0 {
        assert(run.last() == fresh_start());
    } else {
        lemma_run_counts(run, last);
        assert(run[last].stored == run[last].tickets.len());
        lemma_run_counts(run, k + 1);
        assert(run[k + 1].step() == StartStepModel::Save(run.last().tickets[k]));
    }
}

/// Stored tickets are resumed as they are: nothing is planned or saved before they are processed.
pub proof fn lemma_stored_tickets_are_resumed(tickets: Seq<TicketModel>)
    ensures
        resumed_start(tickets).step() == StartStepModel::Process(tickets),
{
}

// ---------------------------------------------------------------------------
// Settings
// ---------------------------------------------------------------------------
/// The value of a variable, or a default where it is not set, blank or unreadable.
pub open spec fn value_or(reading: ReadingModel, default: Seq<char>) -> Seq<char> {
    match reading {
        ReadingModel::Value(value) => if text::is_blank(value) {
            default
        } else {
            value
        },
        _ => default,
    }
}

pub fn env_value_or(reading: &EnvReading, default: &str) -> (res: String)
    ensures
        res@ == value_or(reading@, default@),
{
    match reading {
        EnvReading::Value(value) => if blank(value.as_str()) {
            default.to_owned()
        } else {
            value.clone()
        },
        _ => default.to_owned(),
    }
}

pub fn target_framework_from_env(reading: &EnvReading) -> (res: String)
    ensures
        res@ == value_or(reading@, DEFAULT_TARGET_FRAMEWORK@),
{
    env_value_or(reading, DEFAULT_TARGET_FRAMEWORK)
}

/// How many tickets are worked on at a time.
pub open spec fn concurrency(reading: ReadingModel) -> Result<nat, Seq<Seq<char>>> {
    match reading {
        ReadingModel::Missing => Ok(DEFAULT_MAX_CONCURRENT_TICKETS as nat),
        ReadingModel::Unreadable(error) => Err(
            failure::plain("failed to read `MAX_CONCURRENT_TICKETS`: "@ + error),
        ),
        ReadingModel::Value(value) => if text::is_blank(value) {
            Ok(DEFAULT_MAX_CONCURRENT_TICKETS as nat)
        } else {
            match compose::parsed_decimal(value, usize::MAX as nat) {
                Err(cause) => Err(
                    failure::in_context(
                        "`MAX_CONCURRENT_TICKETS` must be a positive integer, received `"@ + value
                            + "`"@,
                        failure::plain(cause),
                    ),
                ),
                Ok(n) => if n == 0 {
                    Err(
                        failure::plain("`MAX_CONCURRENT_TICKETS` must be greater than zero"@),
                    )
                } else {
                    Ok(n)
                },
            }
        },
    }
}

pub fn max_concurrent_tickets_from_env(reading: &EnvReading) -> (res: Result<usize, Failure>)
    ensures
        concurrency(reading@) == match res {
            Ok(n) => Ok::<nat, Seq<Seq<char>>>(n as nat),
            Err(error) => Err::<nat, Seq<Seq<char>>>(error@),
        },
{
    let value: &String = match reading {
        EnvReading::Missing => {
            return Ok(DEFAULT_MAX_CONCURRENT_TICKETS);
        },
        EnvReading::Unreadable(error) => {
            let mut message = "failed to read `MAX_CONCURRENT_TICKETS`: ".to_owned();
            message.append(error.as_str());
            return Err(Failure::new(message));
        },
        EnvReading::Value(value) => value,
    };
    if blank(value.as_str()) {
        return Ok(DEFAULT_MAX_CONCURRENT_TICKETS);
    }
    match parse_decimal(value.as_str(), usize::MAX as u64) {
        Err(cause) => {
            let mut message =
                "`MAX_CONCURRENT_TICKETS` must be a positive integer, received `".to_owned();
            message.append(value.as_str());
            message.append("`");
            Err(Failure::new(cause.to_owned()).context(message))
        },
        Ok(n) => if n == 0 {
            Err(
                Failure::new("`MAX_CONCURRENT_TICKETS` must be greater than zero".to_owned()),
            )
        } else {
            Ok(n as usize)
        },
    }
}

// ---------------------------------------------------------------------------
// The feedback loop
// ---------------------------------------------------------------------------
/// Why a ticket leaves the loop.
#[derive(Debug, Clone, Copy, PartialEq, Eq, Structural)]
pub enum Ending {
    Verified,
    NothingToRepair,
    OutOfRetries,
}

/// What is to be done with a ticket.
#[derive(Debug, Clone, Copy, PartialEq, Eq, Structural)]
pub enum NextStep {
    Execute,
    Verify,
    Operate,
    Stop(Ending),
}

/// Failed tickets are operated on while there are retries left and there is something to
/// repair.
pub open spec fn step_for(ticket: TicketModel) -> NextStep {
    match ticket.status {
        StatusModel::Todo => NextStep::Execute,
        StatusModel::InProgress => NextStep::Verify,
        StatusModel::Verified => NextStep::Stop(Ending::Verified),
        StatusModel::Failed(_) => if ticket.retries >= MAX_SURGERY_RETRIES {
            NextStep::Stop(Ending::OutOfRetries)
        } else if !ticket.has_artifacts() {
            NextStep::Stop(Ending::NothingToRepair)
        } else {
            NextStep::Operate
        },
    }
}

pub fn next_step(ticket: &Ticket) -> (res: NextStep)
    ensures
        res == step_for(ticket@),
{
    match &ticket.status {
        TicketStatus::Todo => NextStep::Execute,
        TicketStatus::InProgress => NextStep::Verify,
        TicketStatus::Verified => NextStep::Stop(Ending::Verified),
        TicketStatus::Failed(_) => if ticket.retries >= MAX_SURGERY_RETRIES {
            NextStep::Stop(Ending::OutOfRetries)
        } else if !ticket_has_generated_artifacts(ticket) {
            NextStep::Stop(Ending::NothingToRepair)
        } else {
            NextStep::Operate
        },
    }
}

pub fn ticket_has_generated_artifacts(ticket: &Ticket) -> (res: bool)
    ensures
        res == ticket@.has_artifacts(),
{
    ticket.has_generated_artifacts()
}

/// The ticket, after a call to a model or before it.
pub open spec fn paid(ticket: TicketModel, usage: Option<ProjectTokenUsage>) -> TicketModel {
    match usage {
        Some(usage) => ticket.charged(usage),
        None => ticket,
    }
}

/// `after` is what an agent can make of the ticket `before`, where the loop hands it to one.
pub open spec fn follows(before: TicketModel, after: TicketModel) -> bool {
    match step_for(before) {
        NextStep::Execute => exists|
            usage: Option<ProjectTokenUsage>,
            outcome: Result<PersistedArtifacts, Failure>,
        |
            after == #[trigger] executor::executed(paid(before, usage), outcome),
        NextStep::Verify => exists|
            usage: Option<ProjectTokenUsage>,
            outcome: Result<(ExecutionDiff, AstDiff), Failure>,
        |
            after == #[trigger] judge::verified(paid(before, usage), outcome),
        NextStep::Operate => exists|outcome: Result<WorkerExit, Failure>|
            after == #[trigger] surgeon::operated(before, outcome),
        NextStep::Stop(_) => false,
    }
}

/// The tickets that the loop passes through, one after another.
pub open spec fn is_trace(trace: Seq<TicketModel>) -> bool {
    trace.len() > 0 && forall|i: int|
        0 < i < trace.len() ==> follows(trace[i - 1], #[trigger] trace[i])
}

/// How many surgeries a ticket has left.
pub open spec fn surgeries_left(ticket: TicketModel) -> int {
    if ticket.retries < MAX_SURGERY_RETRIES {
        MAX_SURGERY_RETRIES - ticket.retries
    } else {
        0
    }
}

/// How many steps a ticket has left at most.
pub open spec fn steps_left(ticket: TicketModel) -> int {
    match ticket.status {
        StatusModel::Verified => 0,
        StatusModel::Failed(_) => 2 * surgeries_left(ticket),
        StatusModel::InProgress => 2 * surgeries_left(ticket) + 1,
        StatusModel::Todo => 2 * surgeries_left(ticket) + 2,
    }
}

/// Each step brings a ticket closer to the end of the loop, keeps its identity, and uses up a
/// surgery exactly where it is one.
pub proof fn lemma_step(before: TicketModel, after: TicketModel)
    requires
        follows(before, after),
    ensures
        0 <= steps_left(after) < steps_left(before),
        surgeries_left(after) == surgeries_left(before) - (if step_for(before)
            == NextStep::Operate {
            1int
        } else {
            0
        }),
        after.id == before.id,
        after.context_files == before.context_files,
        after.target_framework == before.target_framework,
{
}

/// How many steps of a trace are surgeries.
pub open spec fn surgeries(trace: Seq<TicketModel>) -> int
    decreases trace.len(),
{
    if trace.len() <= 1 {
        0
    } else {
        surgeries(trace.drop_last()) + (if step_for(trace[trace.len() - 2]) == NextStep::Operate {
            1int
        } else {
            0
        })
    }
}

/// The loop ends, after at most eight steps, and operates on a ticket at most as often as the
/// ticket has surgeries left.
pub proof fn lemma_loop_ends(trace: Seq<TicketModel>)
    requires
        is_trace(trace),
    ensures
        trace.len() + steps_left(trace.last()) <= 1 + steps_left(trace[0]),
        trace.len() <= 9,
        surgeries(trace) == surgeries_left(trace[0]) - surgeries_left(trace.last()),
        surgeries(trace) <= surgeries_left(trace[0]) <= MAX_SURGERY_RETRIES,
    decreases trace.len(),
{
    if trace.len() > 1 {
        let rest = trace.drop_last();
        assert forall|i: int| 0 < i < rest.len() implies follows(
            rest[i - 1],
            #[trigger] rest[i],
        ) by {
            assert(follows(trace[i - 1], trace[i]));
        }
        lemma_loop_ends(rest);
        assert(follows(trace[trace.len() - 2], trace[trace.len() - 1]));
        lemma_step(trace[trace.len() - 2], trace[trace.len() - 1]);
        assert(rest.last() == trace[trace.len() - 2]);
    }
}

/// A ticket that the loop verifies has an execution diff that says that both targets are
/// equivalent.
pub proof fn lemma_verified_means_equivalent(trace: Seq<TicketModel>)
    requires
        is_trace(trace),
        trace[0].status != StatusModel::Verified,
        trace.last().status == StatusModel::Verified,
    ensures
        trace.last().last_execution_diff matches Some(diff) && diff.equivalent,
{
    assert(trace.len() > 1);
    assert(follows(trace[trace.len() - 2], trace[trace.len() - 1]));
}

/// A surgeon only gets tickets that failed, that have something to repair, and that have
/// surgeries left.
pub proof fn lemma_surgery_needs_artifacts(ticket: TicketModel)
    ensures
        step_for(ticket) == NextStep::Operate <==> ticket.status is Failed
            && ticket.has_artifacts() && ticket.retries < MAX_SURGERY_RETRIES,
{
}

// ---------------------------------------------------------------------------
// State
// ---------------------------------------------------------------------------
/// The position of the first ticket with the id, or the number of tickets.
pub open spec fn ticket_index(tickets: Seq<TicketModel>, id: Seq<char>) -> int
    decreases tickets.len(),
{
    if tickets.len() == 0 || tickets[0].id == id {
        0
    } else {
        1 + ticket_index(tickets.drop_first(), id)
    }
}

/// The tickets with a new version of one of them, or with another one at the end.
pub open spec fn upserted(tickets: Seq<TicketModel>, ticket: TicketModel) -> Seq<TicketModel> {
    let i = ticket_index(tickets, ticket.id);
    if i < tickets.len() {
        tickets.update(i, ticket)
    } else {
        tickets.push(ticket)
    }
}

pub open spec fn ids_differ(tickets: Seq<TicketModel>) -> bool {
    forall|i: int, j: int|
        0 <= i < j < tickets.len() ==> (#[trigger] tickets[i]).id != (#[trigger] tickets[j]).id
}

proof fn lemma_ticket_index(tickets: Seq<TicketModel>, id: Seq<char>)
    ensures
        0 <= ticket_index(tickets, id) <= tickets.len(),
        ticket_index(tickets, id) < tickets.len() ==> tickets[ticket_index(tickets, id)].id == id,
        forall|j: int| 0 <= j < ticket_index(tickets, id) ==> (#[trigger] tickets[j]).id != id,
    decreases tickets.len(),
{
    if tickets.len() > 0 && tickets[0].id != id {
        let rest = tickets.drop_first();
        lemma_ticket_index(rest, id);
        assert forall|j: int| 0 <= j < ticket_index(tickets, id) implies (
        #[trigger] tickets[j]).id != id by {
            if j > 0 {
                assert(rest[j - 1] == tickets[j]);
            }
        }
    }
}

proof fn lemma_index_is(tickets: Seq<TicketModel>, id: Seq<char>, i: int)
    requires
        0 <= i <= tickets.len(),
        i < tickets.len() ==> tickets[i].id == id,
        forall|j: int| 0 <= j < i ==> (#[trigger] tickets[j]).id != id,
    ensures
        ticket_index(tickets, id) == i,
{
    lemma_ticket_index(tickets, id);
    let k = ticket_index(tickets, id);
    if k < i {
        assert(tickets[k].id != id);
    } else if i < k {
        assert(tickets[i].id != id);
    }
}

/// After an update the list holds the new version of the ticket where its old one stood, or at
/// the end; all other tickets are as they were, and no id stands twice where none did.
pub proof fn lemma_upsert(tickets: Seq<TicketModel>, ticket: TicketModel)
    ensures
        upserted(tickets, ticket).len() <= tickets.len() + 1,
        0 <= ticket_index(tickets, ticket.id) < upserted(tickets, ticket).len(),
        upserted(tickets, ticket)[ticket_index(tickets, ticket.id)] == ticket,
        forall|i: int|
            0 <= i < tickets.len() && i != ticket_index(tickets, ticket.id) ==> upserted(
                tickets,
                ticket,
            )[i] == #[trigger] tickets[i],
        ids_differ(tickets) ==> ids_differ(upserted(tickets, ticket)),
{
    lemma_ticket_index(tickets, ticket.id);
    let k = ticket_index(tickets, ticket.id);
    let after = upserted(tickets, ticket);
    if ids_differ(tickets) {
        assert forall|i: int, j: int| 0 <= i < j < after.len() implies (#[trigger] after[i]).id != (
        #[trigger] after[j]).id by {
            if i < tickets.len() && j < tickets.len() {
                assert(tickets[i].id != tickets[j].id);
            } else {
                assert(tickets[i].id != ticket.id);
            }
        }
    }
}

/// Of two updates of a ticket, the later one counts.
pub proof fn lemma_last_update_counts(
    tickets: Seq<TicketModel>,
    first: TicketModel,
    second: TicketModel,
)
    requires
        first.id == second.id,
    ensures
        upserted(upserted(tickets, first), second) == upserted(tickets, second),
{
    lemma_ticket_index(tickets, first.id);
    let k = ticket_index(tickets, first.id);
    let once = upserted(tickets, first);
    assert forall|j: int| 0 <= j < k implies (#[trigger] once[j]).id != first.id by {
        assert(once[j] == tickets[j]);
    }
    lemma_index_is(once, second.id, k);
    assert(upserted(once, second) =~= upserted(tickets, second));
}

pub fn upsert_ticket(tickets: &mut Vec<Ticket>, updated_ticket: Ticket)
    ensures
        final(tickets).deep_view() == upserted(old(tickets).deep_view(), updated_ticket@),
{
    let ghost all = tickets.deep_view();
    let ghost first = tickets@;
    let mut i: usize = 0;
    while i < tickets.len()
        invariant
            i <= tickets.len(),
            tickets@ == first,
            all == tickets.deep_view(),
            all == old(tickets).deep_view(),
            forall|j: int| 0 <= j < i ==> (#[trigger] all[j]).id != updated_ticket@.id,
        decreases tickets.len() - i,
    {
        assert(all[i as int] == tickets@[i as int].deep_view());
        if same(tickets[i].id.as_str(), updated_ticket.id.as_str()) {
            proof {
                lemma_index_is(all, updated_ticket@.id, i as int);
            }
            tickets.set(i, updated_ticket);
            assert(tickets.deep_view() =~= all.update(i as int, updated_ticket@));
            return;
        }
        i += 1;
    }
    proof {
        lemma_index_is(all, updated_ticket@.id, i as int);
    }
    tickets.push(updated_ticket);
    assert(tickets.deep_view() =~= all.push(updated_ticket@));
}

// ---------------------------------------------------------------------------
// Totals
// ---------------------------------------------------------------------------
/// What all tickets have cost.
pub open spec fn total_usage(tickets: Seq<TicketModel>) -> TicketTokenUsage
    decreases tickets.len(),
{
    if tickets.len() == 0 {
        TicketTokenUsage::none()
    } else {
        total_usage(tickets.drop_last()).plus(tickets.last().token_usage)
    }
}

pub fn summarize_token_usage(tickets: &[Ticket]) -> (res: TicketTokenUsage)
    ensures
        res == total_usage(tickets.deep_view()),
{
    let ghost all = tickets.deep_view();
    let mut totals = TicketTokenUsage::default();
    let mut i: usize = 0;
    assert(all.take(0) =~= Seq::empty());
    while i < tickets.len()
        invariant
            i <= tickets.len(),
            all == tickets.deep_view(),
            totals == total_usage(all.take(i as int)),
        decreases tickets.len() - i,
    {
        proof {
            assert(all.take(i as int + 1).drop_last() == all.take(i as int));
            assert(all.take(i as int + 1).last() == tickets@[i as int].deep_view());
        }
        totals.accumulate(tickets[i].token_usage);
        i += 1;
    }
    assert(all.take(all.len() as int) == all);
    totals
}

/// The sum of one of the counts.
pub open spec fn token_sum(tickets: Seq<TicketModel>, part: TokenPart) -> nat
    decreases tickets.len(),
{
    if tickets.len() == 0 {
        0
    } else {
        token_sum(tickets.drop_last(), part) + part.of(tickets.last().token_usage)
    }
}

/// One of the counts of a usage.
pub enum TokenPart {
    Calls,
    Prompt,
    Completion,
    Total,
}

impl TokenPart {
    pub open spec fn of(self, usage: TicketTokenUsage) -> nat {
        match self {
            TokenPart::Calls => usage.llm_calls as nat,
            TokenPart::Prompt => usage.prompt_tokens as nat,
            TokenPart::Completion => usage.completion_tokens as nat,
            TokenPart::Total => usage.total_tokens as nat,
        }
    }

    pub open spec fn limit(self) -> nat {
        match self {
            TokenPart::Calls => u32::MAX as nat,
            _ => u64::MAX as nat,
        }
    }
}

/// Each total is the sum of the counts of all tickets, up to the largest number there is.
pub proof fn lemma_total_is_sum(tickets: Seq<TicketModel>, part: TokenPart)
    ensures
        part.of(total_usage(tickets)) == if token_sum(tickets, part) <= part.limit() {
            token_sum(tickets, part)
        } else {
            part.limit()
        },
    decreases tickets.len(),
{
    if tickets.len() > 0 {
        lemma_total_is_sum(tickets.drop_last(), part);
    }
}

pub open spec fn has_failed() -> spec_fn(TicketModel) -> bool {
    |ticket: TicketModel| ticket.status is Failed
}

/// How many tickets have failed.
pub fn count_failed(tickets: &[Ticket]) -> (res: usize)
    ensures
        res == tickets.deep_view().filter(has_failed()).len(),
{
    let ghost all = tickets.deep_view();
    let mut count: usize = 0;
    let mut i: usize = 0;
    proof {
        reveal(Seq::filter);
        assert(all.take(0) =~= Seq::empty());
    }
    while i < tickets.len()
        invariant
            count <= i <= tickets.len(),
            all == tickets.deep_view(),
            count == all.take(i as int).filter(has_failed()).len(),
        decreases tickets.len() - i,
    {
        proof {
            crate::search::lemma_filter_step(all, has_failed(), i as int);
            assert(all[i as int] == tickets@[i as int].deep_view());
        }
        if matches!(tickets[i].status, TicketStatus::Failed(_)) {
            count += 1;
        }
        i += 1;
    }
    assert(all.take(all.len() as int) == all);
    count
}

/// The loop stops at a ticket exactly where it is verified, or has failed with no retries left or
/// with nothing to repair.
pub proof fn lemma_stops(ticket: TicketModel)
    ensures
        step_for(ticket) is Stop <==> {
            ||| ticket.status is Verified
            ||| ticket.status is Failed && ticket.retries >= 3
            ||| ticket.status is Failed && ticket.modern_file_paths.len() == 0
                && ticket.test_file_paths.len() == 0
        },
        ticket.status is Todo <==> step_for(ticket) is Execute,
        ticket.status is InProgress <==> step_for(ticket) is Verify,
        step_for(ticket) == NextStep::Stop(Ending::Verified) <==> ticket.status is Verified,
{
}

/// As many tickets are worked on at a time as the variable says, and never none.
pub proof fn lemma_concurrency(n: nat)
    ensures
        0 < n <= usize::MAX ==> concurrency(ReadingModel::Value(compose::decimal(n))) == Ok::<
            nat,
            Seq<Seq<char>>,
        >(n),
        n == 0 || n > usize::MAX ==> concurrency(
            ReadingModel::Value(compose::decimal(n)),
        ) is Err,
        concurrency(ReadingModel::Missing) is Ok,
        forall|reading: ReadingModel| #[trigger]
            concurrency(reading) matches Ok(m) ==> m > 0,
{
    let digits = compose::decimal(n);
    compose::lemma_decimal_digits(n);
    assert(text::is_digit(digits[0]));
    assert(text::is_digit(digits[digits.len() - 1]));
    text::lemma_trimmed_already(digits);
    compose::lemma_decimal_reads_back(n, usize::MAX as nat);
}

/// A setting that says something is taken at its word.
pub proof fn lemma_value_or(reading: ReadingModel, default: Seq<char>)
    ensures
        reading matches ReadingModel::Value(value) ==> (if text::is_blank(value) {
            value_or(reading, default) == default
        } else {
            value_or(reading, default) == value
        }),
        !(reading is Value) ==> value_or(reading, default) == default,
{
}

} // verus!
