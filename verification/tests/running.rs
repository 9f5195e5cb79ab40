use migration_pipeline::config::schema::parse_json_arguments;
use migration_pipeline::config::DockerSandboxConfig;
use migration_pipeline::failure::{format_error_chain, Failure};
use migration_pipeline::json::JsonValue;
use migration_pipeline::skills::file_io::{FileState, Skill};
use migration_pipeline::skills::sandbox::{
    build_container_name, docker_failure, docker_info_args, ensure_docker_ready, format_command,
    parse_sandbox_args, preferred_output, sandbox_target_path, shell_escape, terminal_output,
    validate_sandbox_targets, CommandOutcome, DockerCleanupTarget, DockerProblem,
    EnvironmentPlan, Manifests, SandboxExecutionEnvironment, SandboxInvocation, SandboxRuntime,
    WarmUpStep,
};
use migration_pipeline::skills::shadow::{
    compare_fixture, fatal_execution_diff, fixture_file_name, is_critical_performance_regression,
    normalize_output, parse_execution_record, parse_request, plan_targets, raw_request,
    run_target, sanitize_fixture_id, sanitize_runner_label, should_fail_fast,
    synthetic_execution_record, validate_request, ExecutionRecord, FixtureDiff, RunnerRecord,
    ShadowRun, ShadowRuntime, TargetState,
};
use migration_pipeline::skills::{
    ExecutionTarget, SandboxSkill, ShadowFixture, ShadowTestRequest, ShadowTestSkill,
};

fn text(value: &str) -> String {
    value.to_owned()
}

fn json(value: &str) -> JsonValue {
    parse_json_arguments(value, "fixture").expect("fixture should be valid JSON")
}

fn sandbox_skill() -> SandboxSkill {
    SandboxSkill::new(DockerSandboxConfig {
        memory_limit: text("512m"),
        cpu_limit: text("1.5"),
    })
}

const NOTHING: Manifests = Manifests {
    package_json: false,
    requirements_txt: false,
    pyproject_toml: false,
    setup_py: false,
    go_mod: false,
};

fn build_invocation(root: &str, paths: &[String]) -> Result<SandboxInvocation, Failure> {
    let skill = sandbox_skill();
    let states: Vec<FileState> = paths.iter().map(|_| FileState::File).collect();
    let (normalized, runtime) =
        SandboxSkill::plan_invocation(root, FileState::Directory, paths, &states)?;
    let plan = skill.prepare_execution_environment(
        root,
        runtime,
        NOTHING,
        &normalized,
        text("warm"),
        text("image"),
    )?;
    let environment = match plan {
        EnvironmentPlan::Ready(environment) => environment,
        EnvironmentPlan::WarmUp(_) => panic!("nothing has to be installed"),
    };
    Ok(skill.build_invocation(&normalized, runtime, &environment, text("box")))
}

#[test]
fn sandbox_invocation_enforces_network_and_read_only_mounts() {
    let invocation = build_invocation("/srv/modern", &[text("tests/test_app.py")])
        .expect("sandbox invocation should build");

    assert!(invocation.docker_args.contains(&text("--network=none")));
    assert!(invocation.docker_args.contains(&text("--memory=512m")));
    assert!(invocation.docker_args.contains(&text("--cpus=1.5")));
    assert!(invocation.docker_args.contains(&text("--mount")));
    assert!(invocation
        .docker_args
        .iter()
        .any(|arg| arg.contains("target=/app") && arg.contains("readonly")));
}

#[test]
fn sandbox_invocation_selects_python_container_command() {
    let invocation = build_invocation("/srv/modern", &[text("tests/test_app.py")])
        .expect("sandbox invocation should build");

    assert!(invocation.display_command.contains("python:alpine"));
    assert!(invocation.display_command.contains("/app/tests/test_app.py"));
    assert!(invocation.display_command.contains("-c"));
}

#[test]
fn sandbox_invocation_rejects_parent_directory_traversal() {
    let error = build_invocation("/srv/modern", &[text("../secrets.py")])
        .expect_err("sandbox should reject paths outside modern_app");

    assert!(error.message().contains("traverse upwards"));
}

#[test]
fn sandbox_invocation_rejects_mixed_language_test_suites() {
    let error = build_invocation(
        "/srv/modern",
        &[text("tests/test_app.py"), text("tests/test_app.js")],
    )
    .expect_err("sandbox should reject mixed runtimes");

    assert!(error.message().contains("mixed-language"));
}

#[test]
fn sandbox_runtime_detects_node_dependency_manifests() {
    let install_command = SandboxRuntime::Node.dependency_install_command(
        Manifests { package_json: true, ..NOTHING },
        &[text("tests/test_app.js")],
    );

    assert_eq!(
        install_command.as_deref(),
        Some("npm install --ignore-scripts --no-audit --no-fund")
    );
}

#[test]
fn sandbox_runtime_builds_deno_cache_command_from_test_paths() {
    let install_command =
        SandboxRuntime::Deno.dependency_install_command(NOTHING, &[text("tests/test_app.ts")]);

    assert_eq!(
        install_command.as_deref(),
        Some("deno cache '/workspace/tests/test_app.ts'")
    );
}

#[test]
fn sandboxed_commands_are_spelled_out() {
    let invocation = build_invocation("/srv/modern", &[text("tests/a.js")]).unwrap();
    assert_eq!(
        invocation.docker_args,
        vec![
            "run",
            "--rm",
            "--name",
            "box",
            "--network=none",
            "--memory=512m",
            "--cpus=1.5",
            "--cap-drop=ALL",
            "--security-opt=no-new-privileges:true",
            "--workdir",
            "/app",
            "--mount",
            "type=bind,source=/srv/modern,target=/app,readonly",
            "node:alpine",
            "node",
            "--test",
            "/app/tests/a.js",
        ]
    );
    assert_eq!(invocation.container_name, "box");
}

#[test]
fn runtimes_have_images_and_install_commands() {
    assert_eq!(SandboxRuntime::Node.base_image(), "node:alpine");
    assert_eq!(SandboxRuntime::Deno.base_image(), "denoland/deno:alpine");
    assert_eq!(SandboxRuntime::Python.base_image(), "python:alpine");
    assert_eq!(SandboxRuntime::Go.base_image(), "golang:alpine");
    let install = |runtime: SandboxRuntime, found: Manifests| {
        runtime.dependency_install_command(found, &[])
    };
    assert_eq!(install(SandboxRuntime::Node, NOTHING), None);
    assert_eq!(
        install(SandboxRuntime::Python, Manifests { requirements_txt: true, ..NOTHING }).unwrap(),
        "pip install --no-cache-dir -r requirements.txt"
    );
    assert_eq!(
        install(SandboxRuntime::Python, Manifests { setup_py: true, ..NOTHING }).unwrap(),
        "pip install --no-cache-dir ."
    );
    assert_eq!(
        install(SandboxRuntime::Go, Manifests { go_mod: true, ..NOTHING }).unwrap(),
        "go mod download"
    );
    assert_eq!(
        SandboxRuntime::Go.build_command(&[text("x")]),
        vec!["sh", "-lc", "cd '/workspace' && go test ./..."]
    );
    assert_eq!(SandboxRuntime::from_path("a/b.TSX").unwrap(), SandboxRuntime::Deno);
    assert_eq!(SandboxRuntime::from_path("b.go").unwrap(), SandboxRuntime::Go);
    assert_eq!(SandboxRuntime::from_path("/a\\b.py").unwrap(), SandboxRuntime::Python);
    assert_eq!(
        SandboxRuntime::from_path("Makefile").unwrap_err().message(),
        "SandboxSkill requires test files with a supported extension"
    );
    assert_eq!(
        SandboxRuntime::from_path("x.RB").unwrap_err().message(),
        "SandboxSkill does not support isolated test execution for the `.rb` extension yet"
    );
    assert_eq!(
        SandboxRuntime::from_paths(&[]).unwrap_err().message(),
        "SandboxSkill could not infer a runtime for the provided test files"
    );
}

fn outcome(success: bool, stdout: &str, stderr: &str) -> CommandOutcome {
    CommandOutcome {
        success,
        exit_code: if success { Some(0) } else { None },
        stdout: text(stdout),
        stderr: text(stderr),
    }
}

#[test]
fn dependencies_are_installed_in_an_image_of_their_own() {
    let skill = sandbox_skill();
    let plan = skill
        .prepare_execution_environment(
            "/srv/modern",
            SandboxRuntime::Node,
            Manifests { package_json: true, ..NOTHING },
            &[text("a.js")],
            text("warm"),
            text("image"),
        )
        .unwrap();
    let warm_up = match plan {
        EnvironmentPlan::WarmUp(warm_up) => warm_up,
        EnvironmentPlan::Ready(_) => panic!("dependencies have to be installed"),
    };
    assert_eq!(warm_up.docker_args[3], "--network=bridge");
    assert_eq!(
        warm_up.docker_args[13],
        "rm -rf '/workspace' && mkdir -p '/workspace' && cp -R '/app-source/.' '/workspace' && cd '/workspace' && npm install --ignore-scripts --no-audit --no-fund"
    );
    match SandboxSkill::after_warm_up(&warm_up, Ok(outcome(true, "", ""))) {
        WarmUpStep::Commit(args) => assert_eq!(args, vec!["commit", "warm", "image"]),
        WarmUpStep::Failed(error) => panic!("{error:?}"),
    }
    match SandboxSkill::after_warm_up(&warm_up, Ok(outcome(false, "", " no space "))) {
        WarmUpStep::Failed(error) => {
            assert_eq!(error.message(), "sandbox dependency warm-up failed: no space")
        }
        WarmUpStep::Commit(_) => panic!("the warm-up failed"),
    }
    match SandboxSkill::after_warm_up(&warm_up, Err(Failure::new(text("gone")))) {
        WarmUpStep::Failed(error) => assert_eq!(
            format_error_chain(&error),
            "failed to execute sandbox dependency warm-up container: gone"
        ),
        WarmUpStep::Commit(_) => panic!("the warm-up failed"),
    }
    let environment = SandboxSkill::after_commit(&warm_up, Ok(outcome(true, "", ""))).unwrap();
    assert_eq!(environment.image, "image");
    assert_eq!(environment.workdir, "/workspace");
    assert_eq!(environment.source_mount, None);
    assert_eq!(
        SandboxSkill::after_commit(&warm_up, Ok(outcome(false, "", ""))).unwrap_err().message(),
        "sandbox image commit failed: no additional error details were returned by Docker"
    );
    assert_eq!(
        SandboxSkill::after_commit(&warm_up, Err(Failure::new(text("x")))).unwrap_err().message(),
        "failed to commit warmed sandbox image"
    );
}

#[test]
fn sandbox_arguments_and_targets_are_checked() {
    assert!(parse_sandbox_args(&[]).unwrap_err().message().contains("first argument"));
    assert!(parse_sandbox_args(&[text("/r")]).unwrap_err().message().contains("at least one"));
    let (root, paths) = parse_sandbox_args(&[text("/r"), text("a"), text("b")]).unwrap();
    assert_eq!(root, "/r");
    assert_eq!(paths, vec!["a", "b"]);
    let check = |root_state: FileState, state: FileState| {
        validate_sandbox_targets("/r", root_state, &[text("./t.py")], &[state])
    };
    assert_eq!(check(FileState::Directory, FileState::File).unwrap(), vec!["t.py"]);
    assert!(check(FileState::Other, FileState::File)
        .unwrap_err()
        .message()
        .starts_with("SandboxSkill expects a directory root"));
    assert!(check(FileState::Directory, FileState::Other)
        .unwrap_err()
        .message()
        .starts_with("sandbox target must be a file"));
    assert_eq!(
        check(FileState::Missing, FileState::File).unwrap_err().message(),
        "sandbox root does not exist: /r"
    );
    assert_eq!(
        check(FileState::File, FileState::File).unwrap_err().message(),
        "SandboxSkill expects a directory root, received /r"
    );
    assert_eq!(
        check(FileState::Directory, FileState::Missing).unwrap_err().message(),
        "sandbox target does not exist: /r/t.py"
    );
    assert_eq!(
        check(FileState::Directory, FileState::Directory).unwrap_err().message(),
        "sandbox target must be a file: /r/t.py"
    );
    assert_eq!(sandbox_target_path("/r", "./t.py").as_deref(), Some("/r/t.py"));
    assert_eq!(sandbox_target_path("/r", "../t.py"), None);
}

#[test]
fn invocations_need_a_test_file() {
    assert_eq!(
        build_invocation("/srv/modern", &[]).unwrap_err().message(),
        "SandboxSkill requires at least one generated test file"
    );
    assert_eq!(docker_info_args(), vec!["info", "--format", "{{json .ServerVersion}}"]);
}

#[test]
fn docker_problems_are_reported() {
    assert!(ensure_docker_ready(Ok(outcome(true, "", ""))).is_ok());
    assert_eq!(
        ensure_docker_ready(Ok(outcome(false, "down", ""))).unwrap_err().message(),
        "Docker is installed but unavailable. Ensure the Docker daemon is running: down"
    );
    assert_eq!(
        ensure_docker_ready(Err(Failure::new(text("x")))).unwrap_err().message(),
        "docker preflight check failed"
    );
    let args = [text("info")];
    assert!(docker_failure(&DockerProblem::NotInstalled, &args).message().contains("not on PATH"));
    assert_eq!(
        docker_failure(&DockerProblem::NotStarted(text("denied")), &args).message(),
        "failed to spawn docker command: denied"
    );
    assert_eq!(
        docker_failure(&DockerProblem::TimedOut(20), &args).message(),
        "sandbox execution timed out after 20 seconds: docker info"
    );
    assert_eq!(preferred_output(" e ", "o"), "e");
    assert_eq!(format_command("docker", &[]), "docker");
    let report = terminal_output(text("c"), outcome(false, "o", "e"));
    assert_eq!((report.command.as_str(), report.exit_code), ("c", -1));
}

#[test]
fn containers_are_named_and_removed() {
    assert_eq!(
        build_container_name("-Shadow legacy_1.0-", 7, 99),
        "migration-pipeline-shadow-legacy_1.0-7-99"
    );
    assert_eq!(DockerCleanupTarget::Container(text("c")).args(), vec!["rm", "-f", "c"]);
    assert_eq!(DockerCleanupTarget::Image(text("i")).args(), vec!["rmi", "-f", "i"]);
    assert_eq!(DockerCleanupTarget::Image(text("i")).resource_name(), "i");
}

#[test]
fn shell_words_are_read_back() {
    assert_eq!(shell_escape("plain"), "'plain'");
    assert_eq!(shell_escape("it's"), "'it'\"'\"'s'");
    assert_eq!(shell_escape(""), "''");
}

#[test]
fn skills_have_names() {
    assert_eq!(sandbox_skill().name(), "sandbox");
    assert_eq!(ShadowTestSkill::default().name(), "shadow_test");
    assert_eq!(SandboxSkill::default().config().memory_limit, "256m");
}

fn fixture(id: &str) -> ShadowFixture {
    ShadowFixture { id: text(id), description: text("basic"), args: Vec::new() }
}

#[test]
fn compare_fixture_detects_return_value_mismatch() {
    let fixture = ShadowFixture {
        id: text("fx-1"),
        description: text("basic case"),
        args: vec![json("1")],
    };
    let legacy = ExecutionRecord {
        target: text("legacy"),
        return_value: Some(json("1")),
        ..Default::default()
    };
    let modern = ExecutionRecord {
        target: text("modern"),
        return_value: Some(json("2")),
        ..Default::default()
    };

    let diff = compare_fixture(fixture, legacy, modern);
    assert!(!diff.output_matches);
    assert!(diff
        .differences
        .iter()
        .any(|difference| difference.contains("return value mismatch")));
}

#[test]
fn performance_regression_is_flagged_for_large_slowdowns() {
    let legacy = ExecutionRecord { duration_ms: 20, ..Default::default() };
    let modern = ExecutionRecord { duration_ms: 200, ..Default::default() };

    assert!(is_critical_performance_regression(&legacy, &modern));
}

#[test]
fn fail_fast_triggers_for_fixture_mismatch() {
    let fixture_diff = FixtureDiff {
        fixture: fixture("fx-1"),
        output_matches: false,
        performance_regression: false,
        differences: vec![text("mismatch")],
        ..Default::default()
    };

    assert!(should_fail_fast(&fixture_diff));
}

#[test]
fn fail_fast_does_not_trigger_for_passing_fixture() {
    let fixture_diff = FixtureDiff {
        fixture: fixture("fx-2"),
        output_matches: true,
        performance_regression: false,
        differences: Vec::new(),
        ..Default::default()
    };

    assert!(!should_fail_fast(&fixture_diff));
}

#[test]
fn synthetic_execution_record_surfaces_runner_failure_in_fixture_diff() {
    let fixture = ShadowFixture {
        id: text("fx-runner"),
        description: text("runner failure"),
        args: Vec::new(),
    };
    let legacy = synthetic_execution_record("legacy", &Failure::new(text("docker timeout")));
    let modern =
        ExecutionRecord { target: text("modern"), exit_code: 0, ..Default::default() };

    let diff = compare_fixture(fixture, legacy, modern);

    assert!(!diff.output_matches);
    assert!(diff
        .differences
        .iter()
        .any(|difference| difference.contains("legacy runner error: docker timeout")));
}

#[test]
fn build_command_uses_label_specific_runner_name() {
    let legacy_runner = ShadowRuntime::Node.build_command(
        "legacy",
        "/app/src/server.js",
        "bootstrap",
        "/shadow/fixture.json",
    );
    let modern_runner = ShadowRuntime::Node.build_command(
        "modern",
        "/app/src/server.js",
        "bootstrap",
        "/shadow/fixture.json",
    );

    assert_eq!(legacy_runner.runner_name, "legacy_shadow_runner.mjs");
    assert_eq!(modern_runner.runner_name, "modern_shadow_runner.mjs");
    assert!(legacy_runner
        .inner_command
        .iter()
        .any(|argument| argument == "/shadow/legacy_shadow_runner.mjs"));
    assert!(modern_runner
        .inner_command
        .iter()
        .any(|argument| argument == "/shadow/modern_shadow_runner.mjs"));
}

#[test]
fn differences_are_told_one_by_one() {
    let legacy = ExecutionRecord {
        exit_code: 0,
        stdout: text("a\r\n"),
        stderr: text("x"),
        return_value: Some(json(r#"{"n":1}"#)),
        duration_ms: 0,
        ..Default::default()
    };
    let modern = ExecutionRecord {
        exit_code: -3,
        stdout: text("b"),
        stderr: text("y"),
        return_value: None,
        duration_ms: 51,
        error: Some(text("boom")),
        ..Default::default()
    };
    let diff = compare_fixture(fixture("f"), legacy, modern);
    assert_eq!(
        diff.differences,
        vec![
            "fixture `f` exit code mismatch: legacy=0 modern=-3",
            "fixture `f` return value mismatch: legacy=Some(Object {\"n\": Number(1)}) modern=None",
            "fixture `f` stdout mismatch: legacy=`a` modern=`b`",
            "fixture `f` stderr mismatch: legacy=`x` modern=`y`",
            "fixture `f` modern runner error: boom",
            "fixture `f` critical performance regression: legacy=0ms modern=51ms",
        ]
    );
    assert!(diff.performance_regression);
}

#[test]
fn runs_that_agree_match() {
    let legacy = ExecutionRecord {
        stdout: text(" line\r\nline \n"),
        return_value: Some(json(r#"{"a":1,"b":0.0}"#)),
        duration_ms: 10,
        ..Default::default()
    };
    let modern = ExecutionRecord {
        stdout: text("line\nline"),
        return_value: Some(json(r#"{"b":-0.0,"a":1}"#)),
        duration_ms: 60,
        ..Default::default()
    };
    let diff = compare_fixture(fixture("f"), legacy, modern);
    assert!(diff.output_matches);
    assert!(diff.differences.is_empty());
    assert_eq!(normalize_output(" a\r\nb "), "a\nb");
}

#[test]
fn slow_runs_need_both_a_ratio_and_a_delay() {
    let slower = |legacy_ms: u64, modern_ms: u64| {
        is_critical_performance_regression(
            &ExecutionRecord { duration_ms: legacy_ms, ..Default::default() },
            &ExecutionRecord { duration_ms: modern_ms, ..Default::default() },
        )
    };
    assert!(!slower(0, 50));
    assert!(slower(0, 51));
    assert!(!slower(10, 60));
    assert!(slower(10, 61));
    assert!(!slower(100, 500));
    assert!(slower(100, 501));
    assert!(!slower(u64::MAX, u64::MAX));
}

fn request(fixtures: Vec<ShadowFixture>) -> ShadowTestRequest {
    ShadowTestRequest {
        legacy_root: text("/legacy"),
        modern_root: text("/modern"),
        legacy_target: ExecutionTarget {
            relative_path: text("src/server.js"),
            callable: text("bootstrap"),
        },
        modern_target: ExecutionTarget {
            relative_path: text("./src/server.ts"),
            callable: text("bootstrap"),
        },
        fixtures,
    }
}

const FOUND: TargetState = TargetState { root: FileState::Directory, file: FileState::File };

#[test]
fn requests_are_read_and_checked() {
    assert_eq!(
        raw_request(&[]).unwrap_err().message(),
        "ShadowTestSkill expects a single JSON request argument"
    );
    assert_eq!(raw_request(&[text("{}")]).unwrap(), "{}");
    assert_eq!(
        format_error_chain(&parse_request(Err(text("bad"))).unwrap_err()),
        "failed to deserialize shadow test request: bad"
    );
    let good = request(vec![fixture("f")]);
    assert!(validate_request(&good, FOUND, FOUND).is_ok());
    let message = |r: &ShadowTestRequest, legacy: TargetState, modern: TargetState| {
        validate_request(r, legacy, modern).unwrap_err().message()
    };
    assert_eq!(
        message(&request(Vec::new()), FOUND, FOUND),
        "ShadowTestSkill requires at least one generated fixture"
    );
    assert_eq!(
        message(&good, TargetState { root: FileState::Missing, ..FOUND }, FOUND),
        "shadow root does not exist: /legacy"
    );
    assert_eq!(
        message(&good, FOUND, TargetState { root: FileState::File, ..FOUND }),
        "shadow root must be a directory: /modern"
    );
    assert_eq!(
        message(&good, FOUND, TargetState { file: FileState::Other, ..FOUND }),
        message(&good, FOUND, TargetState { file: FileState::Missing, ..FOUND }),
    );
    assert_eq!(
        message(&good, FOUND, TargetState { file: FileState::Missing, ..FOUND }),
        "shadow execution target does not exist: /modern/src/server.ts"
    );
    let mut nameless = request(vec![fixture("f")]);
    nameless.legacy_target.callable = text(" ");
    assert_eq!(
        message(&nameless, FOUND, FOUND),
        "legacy execution target callable cannot be empty"
    );
    let mut nameless = request(vec![fixture("f")]);
    nameless.modern_target.callable = text("");
    assert_eq!(
        message(&nameless, FOUND, FOUND),
        "modern execution target callable cannot be empty"
    );
}

#[test]
fn targets_are_planned_and_run_beside_their_fixture() {
    let plan = plan_targets(&request(vec![fixture("f")])).unwrap();
    assert_eq!(plan.legacy_relative, "src/server.js");
    assert_eq!(plan.modern_relative, "src/server.ts");
    assert_eq!(plan.legacy_runtime, ShadowRuntime::Node);
    assert_eq!(plan.modern_runtime, ShadowRuntime::NodeTypeScript);
    assert_eq!(plan.modern_runtime.sandbox_runtime(), SandboxRuntime::Node);
    let environment =
        SandboxExecutionEnvironment::mounted(text("node:alpine"), text("/app"), text("m"));
    let target = ExecutionTarget { relative_path: text("src/server.ts"), callable: text("go") };
    let runner =
        ShadowTestSkill::plan_runner("modern", &target, &environment, "/tmp/ws/fixture_f.json")
            .unwrap();
    assert_eq!(runner.runner_host_path, "/tmp/ws/modern_shadow_runner.mjs");
    assert_eq!(
        runner.inner_command,
        vec![
            "node",
            "--import=tsx",
            "/shadow/modern_shadow_runner.mjs",
            "/app/src/server.ts",
            "go",
            "/shadow/fixture_f.json",
        ]
    );
    let skill = ShadowTestSkill::new(DockerSandboxConfig {
        memory_limit: text("1g"),
        cpu_limit: text("2"),
    });
    let invocation = skill.build_invocation(runner, &environment, text("box")).unwrap();
    assert_eq!(invocation.docker_args[4], "--network=none");
    assert_eq!(
        invocation.docker_args[11..16],
        ["--mount", "type=bind,source=/tmp/ws,target=/shadow,readonly", "--mount", "m", "node:alpine"]
            .map(text)
    );
    assert!(invocation.command.starts_with("docker run --rm --name box --network=none"));
    assert_eq!(
        ShadowTestSkill::plan_runner("x", &target, &environment, "/").unwrap_err().message(),
        "fixture path must have a parent directory"
    );
    assert_eq!(
        ShadowTestSkill::plan_runner("x", &target, &environment, "a/..").unwrap_err().message(),
        "fixture file name was not valid unicode"
    );
    assert_eq!(
        ShadowRuntime::from_path("a.rb").unwrap_err().message(),
        "ShadowTestSkill does not support the `.rb` extension for shadow execution yet"
    );
    assert_eq!(
        ShadowRuntime::from_path("a").unwrap_err().message(),
        "ShadowTestSkill requires a target file with a supported extension"
    );
}

#[test]
fn names_of_fixtures_and_runners_are_made_safe() {
    assert_eq!(sanitize_fixture_id("Edge/Null!"), "edge-null");
    assert_eq!(fixture_file_name("A b"), "fixture_a-b.json");
    assert_eq!(fixture_file_name("../a\\b/"), "fixture_a-b.json");
    assert_eq!(sanitize_runner_label("??"), "shadow");
    assert_eq!(sanitize_runner_label("Legacy"), "legacy");
}

#[test]
fn records_come_from_the_report_or_from_the_container() {
    let report = RunnerRecord {
        exit_code: 1,
        stdout: text("o"),
        stderr: text("e"),
        return_value: Some(json("[1]")),
        duration_ms: 9,
        error: Some(text("bad")),
    };
    let record = parse_execution_record("legacy", text("c"), outcome(true, "", ""), Some(report));
    assert_eq!((record.exit_code, record.duration_ms), (1, 9));
    assert_eq!(record.error.as_deref(), Some("bad"));
    let record = parse_execution_record("legacy", text("c"), outcome(false, " o ", "  "), None);
    assert_eq!(record.exit_code, -1);
    assert_eq!(record.stdout, "o");
    assert_eq!(record.error.as_deref(), Some("o"));
    let error =
        run_target("modern", text("c"), Err(Failure::new(text("x"))), None).unwrap_err();
    assert_eq!(format_error_chain(&error), "failed to run modern shadow container: x");
}

#[test]
fn runs_stop_at_the_first_fixture_that_differs() {
    let same = || Ok(ExecutionRecord::default());
    let (run, goes_on) = ShadowRun::new().record(&fixture("1"), same(), same());
    assert!(goes_on);
    let (run, goes_on) =
        run.record(&fixture("2"), same(), Err(Failure::new(text("docker timeout"))));
    assert!(!goes_on);
    let diff = run.finish();
    assert!(!diff.equivalent);
    assert_eq!(diff.fixture_diffs.len(), 2);
    assert_eq!(
        diff.sandbox_execution_errors,
        vec!["fixture `2` modern runner error: docker timeout"]
    );
}

#[test]
fn targets_that_agree_on_all_fixtures_are_equivalent() {
    let same = || Ok(ExecutionRecord::default());
    let (run, _) = ShadowRun::new().record(&fixture("1"), same(), same());
    let (run, _) = run.record(&fixture("2"), same(), same());
    let diff = run.finish();
    assert!(diff.equivalent);
    assert!(diff.sandbox_execution_errors.is_empty());
}

#[test]
fn failures_before_the_first_fixture_are_told_in_a_diff() {
    let error = Failure::new(text("inner")).context(text("outer"));
    let diff = fatal_execution_diff(&request(vec![fixture("f")]), &error);
    assert!(!diff.equivalent);
    assert_eq!(diff.fixture_diffs[0].fixture.id, "f");
    assert_eq!(diff.fixture_diffs[0].legacy.error.as_deref(), Some("outer: inner"));
    assert_eq!(
        diff.sandbox_execution_errors,
        vec!["shadow execution infrastructure failed before fixture execution: outer: inner"]
    );
    let nameless = fatal_execution_diff(&request(Vec::new()), &error);
    assert_eq!(nameless.fixture_diffs[0].fixture.id, "");
}
