use migration_pipeline::agents::blueprinter::{BlueprintPayload, BlueprintTicket};
use migration_pipeline::agents::executor::{
    determine_output_relative_path, determine_test_output_relative_path, framework_lookup_keys,
    normalize_relative_path, target_extension, ContextSource, GeneratedArtifactsPayload,
    GeneratedFile, PersistRun, PersistStep, PersistedArtifacts,
};
use migration_pipeline::agents::judge::{
    build_failure_summary, validate_shadow_plan, ShadowFixturePlan,
};
use migration_pipeline::agents::surgeon::{
    extract_failure_reason, repair_failure, RepairContext, RepairStage, WorkerExit,
};
use migration_pipeline::agents::{
    Agent, BlueprinterAgent, ExecutorAgent, SurgeonAgent, Ticket, TicketStatus, TicketTokenUsage,
    VerifierAgent,
};
use migration_pipeline::config::{
    EnvReading, ProjectTokenUsage, StructuredCall, TaskKind, TaskModelConfig, ZeroClawBackend,
    ZeroClawClient,
};
use migration_pipeline::failure::Failure;
use migration_pipeline::json::JsonValue;
use migration_pipeline::pipeline::{
    count_failed, max_concurrent_tickets_from_env, next_step, summarize_token_usage,
    target_framework_from_env, upsert_ticket, Ending, NextStep, StartStep, Startup,
    DEFAULT_MAX_CONCURRENT_TICKETS, STATE_FILE,
};
use migration_pipeline::skills::{
    AstDiff, DependencyGraph, ExecutionDiff, ExecutionTarget, ShadowFixture,
};

fn text(value: &str) -> String {
    value.to_owned()
}

fn sample_ticket(id: &str) -> Ticket {
    Ticket {
        id: id.to_owned(),
        description: format!("Ticket {id}"),
        context_files: vec!["src/server.js".to_owned()],
        status: TicketStatus::InProgress,
        legacy_code_snippet: "http.createServer(...)".to_owned(),
        target_framework: "TypeScript".to_owned(),
        dependencies: vec!["express".to_owned()],
        modern_file_paths: vec!["src/server.ts".to_owned()],
        test_file_paths: vec!["tests/src/server.test.ts".to_owned()],
        retries: 0,
        token_usage: TicketTokenUsage::default(),
        last_execution_diff: None,
        last_ast_diff: None,
    }
}

fn client() -> ZeroClawClient {
    ZeroClawClient::with_limits(
        vec![
            TaskModelConfig::new(TaskKind::Executor, "openrouter", "m-exec"),
            TaskModelConfig::new(TaskKind::Verifier, "openai", "m-verify"),
        ],
        ZeroClawBackend { providers_by_hint: Vec::new() },
        Vec::new(),
        0,
    )
    .expect("test task configs")
}

fn call(usage: ProjectTokenUsage) -> Result<StructuredCall, Failure> {
    Ok(StructuredCall { tool_name: text("t"), arguments: JsonValue::Null, usage })
}

const USAGE: ProjectTokenUsage =
    ProjectTokenUsage { prompt_tokens: 7, completion_tokens: 3, total_tokens: 10 };

#[test]
fn blueprint_ticket_conversion_defaults_runtime_fields() {
    let payload = BlueprintPayload {
        tickets: vec![BlueprintTicket {
            id: "BP-001".to_owned(),
            description: "Migrate HTTP endpoint".to_owned(),
            context_files: vec!["server.js".to_owned()],
            legacy_code_snippet: "http.createServer(...)".to_owned(),
            target_framework: "Express.js".to_owned(),
            dependencies: vec!["express".to_owned()],
        }],
    };

    let tickets = payload.tickets.into_iter().map(Ticket::from).collect::<Vec<_>>();

    assert_eq!(tickets.len(), 1);
    assert_eq!(tickets[0].status, TicketStatus::Todo);
    assert!(tickets[0].modern_file_paths.is_empty());
    assert_eq!(tickets[0].retries, 0);
}

#[test]
fn executor_maps_node_ticket_to_typescript_path() {
    let ticket = Ticket {
        id: "EXEC-1".to_owned(),
        description: "Migrate HTTP service".to_owned(),
        context_files: vec!["src/server.js".to_owned()],
        status: TicketStatus::Todo,
        legacy_code_snippet: "http.createServer(...)".to_owned(),
        target_framework: "TypeScript".to_owned(),
        dependencies: vec!["express".to_owned()],
        modern_file_paths: Vec::new(),
        test_file_paths: Vec::new(),
        retries: 0,
        token_usage: TicketTokenUsage::default(),
        last_execution_diff: None,
        last_ast_diff: None,
    };

    let path = determine_output_relative_path(&ticket).expect("executor path should normalize");
    assert_eq!(path, "src/server.ts");
}

#[test]
fn executor_derives_test_path_from_source_path() {
    let path = determine_test_output_relative_path("src/server.ts")
        .expect("executor test path should normalize");
    assert_eq!(path, "tests/src/server.test.ts");
}

#[test]
fn normalize_relative_path_rejects_parent_traversal() {
    let error = normalize_relative_path("../secret.txt").expect_err("path should fail");
    assert!(error.message().contains("traverse"));
}

#[test]
fn target_extension_prefers_framework_alias_lookup() {
    assert_eq!(target_extension("Next.js TypeScript", Some("js")), "tsx");
    assert_eq!(target_extension("ASP.NET Core", Some("txt")), "cs");
}

#[test]
fn surgeon_extracts_failure_reason_from_failed_ticket() {
    let ticket = Ticket {
        id: "SURG-1".to_owned(),
        description: "Repair failing output".to_owned(),
        status: TicketStatus::Failed("syntax error".to_owned()),
        retries: 1,
        ..sample_ticket("SURG-1")
    };

    assert_eq!(
        extract_failure_reason(&ticket).expect("failure reason should be extracted"),
        "syntax error"
    );
}

#[test]
fn failure_summary_includes_execution_and_ast_signals() {
    let execution_diff = ExecutionDiff {
        equivalent: false,
        fixture_diffs: Vec::new(),
        sandbox_execution_errors: vec!["fixture `fx-1` return value mismatch".to_owned()],
    };
    let ast_diff = AstDiff {
        missing_branches: vec!["src/server.js::if::port > 0".to_owned()],
        ..AstDiff::default()
    };

    let summary = build_failure_summary(&execution_diff, &ast_diff);
    assert!(summary.contains("return value mismatch"));
    assert!(summary.contains("ast_diff"));
}

#[test]
fn max_concurrent_tickets_defaults_when_env_is_missing() {
    let value = max_concurrent_tickets_from_env(&EnvReading::Missing)
        .expect("default concurrency should load");

    assert_eq!(value, DEFAULT_MAX_CONCURRENT_TICKETS);
}

#[test]
fn max_concurrent_tickets_rejects_zero() {
    let error = max_concurrent_tickets_from_env(&EnvReading::Value(text("0")))
        .expect_err("zero concurrency should fail");

    assert!(error.message().contains("greater than zero"));
}

#[test]
fn concurrency_is_read_as_a_number() {
    let read = |value: &str| max_concurrent_tickets_from_env(&EnvReading::Value(text(value)));
    assert_eq!(read("12").unwrap(), 12);
    assert_eq!(read("+4").unwrap(), 4);
    assert_eq!(read("  ").unwrap(), DEFAULT_MAX_CONCURRENT_TICKETS);
    assert_eq!(
        read(" 5").unwrap_err().chain(),
        vec![
            text("`MAX_CONCURRENT_TICKETS` must be a positive integer, received ` 5`"),
            text("invalid digit found in string"),
        ]
    );
    assert_eq!(
        read("99999999999999999999999").unwrap_err().chain()[1],
        "number too large to fit in target type"
    );
    assert_eq!(
        max_concurrent_tickets_from_env(&EnvReading::Unreadable(text("bad"))).unwrap_err().message(),
        "failed to read `MAX_CONCURRENT_TICKETS`: bad"
    );
    assert_eq!(target_framework_from_env(&EnvReading::Missing), "TypeScript on Node.js LTS");
    assert_eq!(target_framework_from_env(&EnvReading::Value(text("Go"))), "Go");
    assert_eq!(
        target_framework_from_env(&EnvReading::Unreadable(text("x"))),
        "TypeScript on Node.js LTS"
    );
}

#[test]
fn frameworks_are_looked_up_word_by_word() {
    assert_eq!(
        framework_lookup_keys(" Next.js  TypeScript "),
        vec!["next.js  typescript", "next.jstypescript", "next.js", "next", "typescript"]
    );
    assert_eq!(target_extension("COBOL", Some("cbl")), "cbl");
    assert_eq!(target_extension("COBOL", None), "txt");
    assert_eq!(target_extension("C# / .NET", None), "cs");
    assert_eq!(target_extension("Ruby on Rails", None), "rb");
}

#[test]
fn output_paths_follow_ticket_and_framework() {
    let mut ticket = sample_ticket("My Ticket!");
    ticket.context_files = Vec::new();
    ticket.target_framework = text("FastAPI");
    assert_eq!(determine_output_relative_path(&ticket).unwrap(), "generated/my-ticket.py");
    assert_eq!(
        determine_test_output_relative_path("generated/my-ticket.py").unwrap(),
        "tests/generated/test_my-ticket.py"
    );
    assert_eq!(determine_test_output_relative_path("main.go").unwrap(), "tests/main_test.go");
    assert_eq!(determine_test_output_relative_path("README").unwrap(), "tests/README.test.txt");
    ticket.context_files = vec![text("../up.js")];
    assert!(determine_output_relative_path(&ticket).is_err());
}

#[test]
fn agents_know_their_models() {
    let client = client();
    let blueprinter = BlueprinterAgent::new(&client);
    assert_eq!((blueprinter.name(), blueprinter.model()), ("blueprinter", "unconfigured"));
    let executor = ExecutorAgent::new(text("/l"), text("/m"), &client);
    assert_eq!((executor.name(), executor.model()), ("executor", "m-exec"));
    assert_eq!(executor.provider(), "openrouter");
    let verifier = VerifierAgent::new(text("/l"), text("/m"), &client);
    assert_eq!((verifier.name(), verifier.model()), ("verifier", "m-verify"));
    let surgeon = SurgeonAgent::new(text("/l"), text("/m"));
    assert_eq!((surgeon.name(), surgeon.model()), ("surgeon", "openhands"));
    assert_eq!(BlueprinterAgent::default_model(), "google/gemini-3-flash-preview");
    assert_eq!(ExecutorAgent::default_model(), "minimax/minimax-m2.5");
    assert_eq!(VerifierAgent::default_model(), "z-ai/glm-5");
}

#[test]
fn blueprints_are_asked_for_and_taken() {
    let request = BlueprinterAgent::request_blueprint("legacy", Ok(text("{}"))).unwrap();
    assert_eq!(request.tool.name, "submit_blueprint");
    assert!(request.user_prompt.contains("Legacy directory: legacy\n"));
    assert!(matches!(request.tool.parameters.get("type"), Some(JsonValue::Text(t)) if t == "object"));
    let error = Failure::new(text("x"));
    assert_eq!(
        BlueprinterAgent::request_blueprint("legacy", Err(error)).unwrap_err().message(),
        "failed to build AST dependency graph from legacy directory legacy"
    );
    let payload = BlueprintPayload { tickets: Vec::new() };
    assert!(BlueprinterAgent::generate_blueprint(call(USAGE), Ok(payload)).unwrap().is_empty());
    let refused = BlueprinterAgent::generate_blueprint(
        Err(Failure::new(text("down"))),
        Err(text("none")),
    );
    assert_eq!(refused.unwrap_err().message(), "blueprint generation failed");
    let agent = BlueprinterAgent::new(&client());
    assert!(agent.process_ticket(&sample_ticket("T")).is_err());
}

#[test]
fn executor_gathers_context_and_plans_its_request() {
    let agent = ExecutorAgent::new(text("/l"), text("/m"), &client());
    let mut ticket = sample_ticket("T");
    match agent.load_legacy_context(&ticket).unwrap() {
        ContextSource::Files(args) => assert_eq!(args, vec!["/l", "src/server.js"]),
        ContextSource::Inline(_) => panic!("the ticket names files"),
    }
    let plan = ExecutorAgent::plan_request(&ticket, Ok(()), Ok(text("CODE"))).unwrap();
    assert_eq!(plan.source_path, "src/server.ts");
    assert_eq!(plan.test_path, "tests/src/server.test.ts");
    assert!(plan.request.user_prompt.contains("Legacy context:\nCODE\n"));
    assert!(plan.request.system_prompt.contains("specializing in TypeScript migrations."));
    assert_eq!(
        ExecutorAgent::plan_request(&ticket, Err(Failure::new(text("x"))), Ok(text("")))
            .unwrap_err()
            .message(),
        "failed to load legacy context for ticket T"
    );
    ticket.context_files = Vec::new();
    match agent.load_legacy_context(&ticket).unwrap() {
        ContextSource::Inline(context) => {
            assert_eq!(context, "// File: legacy_snippet.txt\nhttp.createServer(...)")
        }
        ContextSource::Files(_) => panic!("the ticket names no files"),
    }
    ticket.legacy_code_snippet = text(" ");
    assert_eq!(
        agent.load_legacy_context(&ticket).unwrap_err().message(),
        "ticket T does not contain context_files or a legacy_code_snippet"
    );
}

fn generated(path: &str, content: &str) -> GeneratedFile {
    GeneratedFile { path: text(path), content: text(content) }
}

#[test]
fn answers_are_paid_for_even_if_they_are_useless() {
    let mut ticket = sample_ticket("T");
    let empty = GeneratedArtifactsPayload { source_files: Vec::new(), test_files: Vec::new() };
    let error = ExecutorAgent::accept_answer(&mut ticket, call(USAGE), Ok(empty)).unwrap_err();
    assert_eq!(error.message(), "executor returned no source files for ticket T");
    assert_eq!(ticket.token_usage.llm_calls, 1);
    assert_eq!(ticket.token_usage.total_tokens, 10);
    let half = GeneratedArtifactsPayload {
        source_files: vec![generated("a.ts", "x")],
        test_files: Vec::new(),
    };
    let error = ExecutorAgent::accept_answer(&mut ticket, call(USAGE), Ok(half)).unwrap_err();
    assert_eq!(error.message(), "executor returned no test files for ticket T");
    assert_eq!(ticket.token_usage.llm_calls, 2);
    let refused = Err(Failure::new(text("down")));
    let error = ExecutorAgent::accept_answer(&mut ticket, refused, Err(text(""))).unwrap_err();
    assert_eq!(error.message(), "executor model failed for ticket T");
    assert_eq!(ticket.token_usage.llm_calls, 2);
}

#[test]
fn generated_files_are_written_below_the_output_and_listed_once() {
    let agent = ExecutorAgent::new(text("/l"), text("/m"), &client());
    let files = vec![generated("./a.ts", "1"), generated("a.ts", "2"), generated("b.ts", "3")];
    let mut run = PersistRun::new(&agent, "source", &sample_ticket("T"), files);
    let mut written = Vec::new();
    let paths = loop {
        match run.next_step() {
            PersistStep::Write(args) => {
                written.push(args[0].clone());
                run = run.record(Ok(())).unwrap();
            }
            PersistStep::Done(paths) => break paths,
            PersistStep::Failed(error) => panic!("{error:?}"),
        }
    };
    assert_eq!(written, vec!["/m/a.ts", "/m/a.ts", "/m/b.ts"]);
    assert_eq!(paths, vec!["a.ts", "b.ts"]);
}

#[test]
fn generated_files_are_refused_with_a_reason() {
    let agent = ExecutorAgent::new(text("/l"), text("/m"), &client());
    let step = |file: GeneratedFile| {
        PersistRun::new(&agent, "test", &sample_ticket("T"), vec![file]).next_step()
    };
    match step(generated("a.ts", " ")) {
        PersistStep::Failed(error) => assert_eq!(
            error.message(),
            "executor returned empty test content for ticket T at path `a.ts`"
        ),
        other => panic!("{other:?}"),
    }
    match step(generated("../a.ts", "x")) {
        PersistStep::Failed(error) => assert_eq!(
            error.chain(),
            vec![
                text("executor returned an invalid test file path for ticket T"),
                text("generated file path cannot traverse upwards: `../a.ts`"),
            ]
        ),
        other => panic!("{other:?}"),
    }
    let run =
        PersistRun::new(&agent, "test", &sample_ticket("T"), vec![generated("a.ts", "x")]);
    assert_eq!(
        run.record(Err(Failure::new(text("full")))).unwrap_err().message(),
        "failed to persist generated test output `a.ts` for ticket T"
    );
}

#[test]
fn executor_settles_tickets() {
    let artifacts = PersistedArtifacts {
        source_files: vec![text("a.ts")],
        test_files: vec![text("a.test.ts")],
    };
    let done = ExecutorAgent::process_ticket(sample_ticket("T"), Ok(artifacts));
    assert_eq!(done.status, TicketStatus::InProgress);
    assert_eq!(done.modern_file_paths, vec!["a.ts"]);
    let error = Failure::new(text("inner")).context(text("outer"));
    let failed = ExecutorAgent::process_ticket(sample_ticket("T"), Err(error));
    assert_eq!(failed.status, TicketStatus::Failed(text("outer")));
}

fn plan(legacy: &str, modern: &str, fixtures: usize) -> ShadowFixturePlan {
    let target = |path: &str| ExecutionTarget { relative_path: text(path), callable: text("f") };
    ShadowFixturePlan {
        legacy_target: target(legacy),
        modern_target: target(modern),
        fixtures: (0..fixtures).map(|_| ShadowFixture::default()).collect(),
    }
}

#[test]
fn plans_stay_within_the_files_of_the_ticket() {
    let ticket = sample_ticket("T");
    let problem = |p: ShadowFixturePlan| validate_shadow_plan(&ticket, &p).unwrap_err().message();
    assert!(validate_shadow_plan(&ticket, &plan("./src/server.js", "src\\server.ts", 1)).is_ok());
    assert_eq!(
        problem(plan("/x", "src/server.ts", 1)),
        "verifier returned an invalid legacy target path"
    );
    assert_eq!(
        problem(plan("src/server.js", "..", 1)),
        "verifier returned an invalid modern target path"
    );
    assert_eq!(
        problem(plan("src/server.js", "src/server.ts", 0)),
        "verifier returned no shadow fixtures for ticket T"
    );
    assert_eq!(
        problem(plan("other.js", "src/server.ts", 1)),
        "verifier selected legacy target `other.js` outside the allowed context files for ticket T"
    );
    assert_eq!(
        problem(plan("src/server.js", "other.ts", 1)),
        "verifier selected modern target `other.ts` outside the allowed modern files for ticket T"
    );
}

#[test]
fn summaries_are_short() {
    let errors: Vec<String> = (0..7).map(|n| format!("e{n}")).collect();
    let execution_diff = ExecutionDiff {
        equivalent: false,
        fixture_diffs: Vec::new(),
        sandbox_execution_errors: errors,
    };
    assert_eq!(
        build_failure_summary(&execution_diff, &AstDiff::default()),
        "e0 | e1 | e2 | e3 | e4"
    );
    assert_eq!(
        build_failure_summary(&ExecutionDiff::default(), &AstDiff::default()),
        "semantic shadow testing failed without a detailed diff"
    );
    let ast_diff = AstDiff { notes: vec![text("n")], ..AstDiff::default() };
    assert_eq!(
        build_failure_summary(&ExecutionDiff::default(), &ast_diff),
        "ast_diff: missing_functions=0, missing_classes=0, missing_imports=0, missing_branches=0"
    );
}

#[test]
fn verifier_asks_judges_and_settles() {
    let agent = VerifierAgent::new(text("/l"), text("/m"), &client());
    let ticket = sample_ticket("T");
    assert!(VerifierAgent::check_ticket(&ticket).is_ok());
    assert_eq!(agent.legacy_graph_args(&ticket), vec!["/l", "src/server.js"]);
    assert_eq!(agent.modern_graph_args(&ticket), vec!["/m", "src/server.ts"]);
    let request = VerifierAgent::request_fixtures(&ticket, "LEGACY", &None);
    assert!(request.user_prompt.contains("modern AST unavailable"));
    let graph = DependencyGraph::default();
    assert!(VerifierAgent::compare_graphs(&ticket, &graph, &Ok(DependencyGraph::default()))
        .is_empty());
    let unparsed =
        VerifierAgent::compare_graphs(&ticket, &graph, &Err(Failure::new(text("no parser"))));
    assert_eq!(unparsed.unsupported_files, vec!["src/server.ts"]);
    assert_eq!(unparsed.notes, vec!["no parser"]);
    let request = agent.shadow_request(&plan("src/server.js", "src/server.ts", 2));
    assert_eq!((request.legacy_root.as_str(), request.fixtures.len()), ("/l", 2));
    let equivalent = ExecutionDiff { equivalent: true, ..ExecutionDiff::default() };
    let verified =
        VerifierAgent::process_ticket(sample_ticket("T"), Ok((equivalent, AstDiff::default())));
    assert_eq!(verified.status, TicketStatus::Verified);
    assert!(verified.last_execution_diff.is_some());
    let different = ExecutionDiff::default();
    let failed =
        VerifierAgent::process_ticket(sample_ticket("T"), Ok((different, AstDiff::default())));
    assert!(matches!(failed.status, TicketStatus::Failed(_)));
    let mut bare = sample_ticket("T");
    bare.modern_file_paths = Vec::new();
    assert_eq!(
        VerifierAgent::check_ticket(&bare).unwrap_err().message(),
        "ticket T does not have any generated source files to verify"
    );
    bare.context_files = Vec::new();
    assert_eq!(
        VerifierAgent::check_ticket(&bare).unwrap_err().message(),
        "ticket T does not provide legacy context files for semantic verification"
    );
}

#[test]
fn every_surgery_counts() {
    let exit = |success: bool| Ok(WorkerExit { success, status: text("exit status: 1") });
    let repaired = SurgeonAgent::process_ticket(sample_ticket("T"), exit(true));
    assert_eq!((repaired.status, repaired.retries), (TicketStatus::InProgress, 1));
    let failed = SurgeonAgent::process_ticket(sample_ticket("T"), exit(false));
    assert_eq!(
        (failed.status, failed.retries),
        (
            TicketStatus::Failed(text("openhands_worker.py failed with status exit status: 1")),
            1
        )
    );
    let broken =
        SurgeonAgent::process_ticket(sample_ticket("T"), Err(Failure::new(text("no worker"))));
    assert_eq!((broken.status, broken.retries), (TicketStatus::Failed(text("no worker")), 1));
}

#[test]
fn surgeon_plans_a_repair() {
    let mut ticket = sample_ticket("T");
    assert_eq!(
        SurgeonAgent::check_ticket(&ticket).unwrap_err().message(),
        "surgeon expected TicketStatus::Failed but received InProgress"
    );
    ticket.status = TicketStatus::Failed(text("why"));
    let reason = SurgeonAgent::check_ticket(&ticket).unwrap().to_owned();
    let context = RepairContext {
        legacy: text("L"),
        source: text("S"),
        tests: text("X"),
        execution_diff: text("null"),
        ast_diff: text("null"),
    };
    let plan = SurgeonAgent::plan_repair(&ticket, reason.as_str(), &context);
    assert_eq!(plan.prompt_file_path, ".prompt_surgeon_T.txt");
    assert_eq!(
        (plan.program.as_str(), plan.args[4].as_str()),
        ("uv", ".prompt_surgeon_T.txt")
    );
    assert!(plan.full_prompt.contains("Failure reason: why\nLegacy code:\nL\n\nGenerated source"));
    assert!(plan.full_prompt.ends_with("(src/server.ts) to fix the behavioral divergence."));
    let agent = SurgeonAgent::new(text("/l"), text("/m"));
    assert!(matches!(agent.test_source(&ticket), ContextSource::Files(args) if args[0] == "/m"));
    ticket.modern_file_paths = Vec::new();
    ticket.test_file_paths = Vec::new();
    assert!(matches!(agent.modern_source(&ticket), ContextSource::Inline(t) if t.is_empty()));
    assert_eq!(
        SurgeonAgent::check_ticket(&ticket).unwrap_err().message(),
        "ticket T does not contain any generated artifacts for surgery"
    );
    assert_eq!(
        repair_failure(&ticket, &RepairStage::Tests, Failure::new(text("x"))).message(),
        "failed to read failing generated tests for ticket T"
    );
}

#[test]
fn tickets_leave_the_loop_after_three_surgeries() {
    let mut ticket = sample_ticket("T");
    ticket.status = TicketStatus::Todo;
    let mut surgeries = 0;
    let mut steps = 0;
    let ending = loop {
        steps += 1;
        ticket = match next_step(&ticket) {
            NextStep::Execute => ExecutorAgent::process_ticket(
                ticket,
                Ok(PersistedArtifacts { source_files: vec![text("a")], test_files: Vec::new() }),
            ),
            NextStep::Verify => VerifierAgent::process_ticket(
                ticket,
                Ok((ExecutionDiff::default(), AstDiff::default())),
            ),
            NextStep::Operate => {
                surgeries += 1;
                SurgeonAgent::process_ticket(
                    ticket,
                    Ok(WorkerExit { success: true, status: text("ok") }),
                )
            }
            NextStep::Stop(ending) => break ending,
        };
    };
    assert_eq!(ending, Ending::OutOfRetries);
    assert_eq!(surgeries, 3);
    assert_eq!(steps, 9);
}

#[test]
fn tickets_without_artifacts_are_not_operated_on() {
    let mut ticket = sample_ticket("T");
    ticket.status = TicketStatus::Failed(text("x"));
    assert_eq!(next_step(&ticket), NextStep::Operate);
    ticket.modern_file_paths = Vec::new();
    ticket.test_file_paths = Vec::new();
    assert_eq!(next_step(&ticket), NextStep::Stop(Ending::NothingToRepair));
    ticket.status = TicketStatus::Verified;
    assert_eq!(next_step(&ticket), NextStep::Stop(Ending::Verified));
}

#[test]
fn later_versions_of_a_ticket_replace_earlier_ones() {
    let mut tickets = vec![sample_ticket("A"), sample_ticket("B")];
    upsert_ticket(&mut tickets, Ticket { retries: 1, ..sample_ticket("B") });
    upsert_ticket(&mut tickets, Ticket { retries: 2, ..sample_ticket("B") });
    upsert_ticket(&mut tickets, sample_ticket("C"));
    let seen: Vec<(&str, u8)> = tickets.iter().map(|t| (t.id.as_str(), t.retries)).collect();
    assert_eq!(seen, vec![("A", 0), ("B", 2), ("C", 0)]);
}

#[test]
fn totals_are_summed_and_failures_counted() {
    let mut first = sample_ticket("A");
    first.record_llm_usage(&USAGE);
    first.record_llm_usage(&USAGE);
    let mut second = sample_ticket("B");
    second.token_usage.total_tokens = u64::MAX;
    second.status = TicketStatus::Failed(text("x"));
    let totals = summarize_token_usage(&[first, second.clone()]);
    assert_eq!(
        totals,
        TicketTokenUsage {
            llm_calls: 2,
            prompt_tokens: 14,
            completion_tokens: 6,
            total_tokens: u64::MAX,
        }
    );
    assert_eq!(count_failed(&[sample_ticket("A"), second]), 1);
}

#[test]
fn legacy_graphs_are_needed() {
    let ticket = sample_ticket("T-1");
    assert_eq!(VerifierAgent::take_legacy_graph(&ticket, Ok(text("{}"))).unwrap(), "{}");
    let error =
        VerifierAgent::take_legacy_graph(&ticket, Err(Failure::new(text("gone")))).unwrap_err();
    assert_eq!(
        error.chain(),
        vec![text("failed to build legacy AST graph for ticket T-1"), text("gone")]
    );
}

#[test]
fn surgeons_go_to_the_model_that_is_set_or_to_the_default_one() {
    let set = |value: &str| EnvReading::Value(text(value));
    let missing = EnvReading::Missing;
    assert_eq!(SurgeonAgent::default_model(&set("lab/model-1")).unwrap(), "lab/model-1");
    let route = SurgeonAgent::task_route(&set("lab/model-1"), &missing, &missing).unwrap();
    assert_eq!((route.provider.as_str(), route.model.as_str()), ("openrouter", "lab/model-1"));
    assert_eq!(route.hint, "hint:surgeon");
    let route = SurgeonAgent::task_route(&missing, &set("openai"), &set("m")).unwrap();
    assert_eq!((route.provider.as_str(), route.model.as_str()), ("openai", "m"));
    assert_eq!(
        SurgeonAgent::task_route(&set(" "), &missing, &missing).unwrap_err().message(),
        "`SURGEON_DEFAULT_MODEL` is not configured"
    );
    let unreadable = EnvReading::Unreadable(text("bad"));
    assert_eq!(
        SurgeonAgent::task_route(&set("m"), &missing, &unreadable).unwrap_err().message(),
        "failed to read `SURGEON_MODEL`"
    );
}

#[test]
fn tickets_are_stored_under_the_documented_name() {
    assert_eq!(STATE_FILE, ".migration_state.json");
}

#[test]
fn planned_tickets_are_stored_before_they_are_processed() {
    let mut start = Startup::new(None);
    let mut saved = Vec::new();
    assert!(matches!(start.next_step(), StartStep::Plan));
    start = start.record_plan(vec![sample_ticket("A"), sample_ticket("B")]);
    let processed = loop {
        match start.next_step() {
            StartStep::Plan => panic!("planned twice"),
            StartStep::Save(ticket) => {
                saved.push(ticket.id.clone());
                start = start.record_save();
            }
            StartStep::Process(tickets) => break tickets.len(),
        }
    };
    assert_eq!(processed, 2);
    assert_eq!(saved, vec!["A", "B"]);
}

#[test]
fn stored_tickets_are_resumed() {
    let start = Startup::new(Some(vec![sample_ticket("A")]));
    match start.next_step() {
        StartStep::Process(tickets) => assert_eq!(tickets[0].id, "A"),
        other => panic!("expected to process, found {other:?}"),
    }
}
