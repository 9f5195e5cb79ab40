//! Running old and new code on the same fixtures and comparing what comes of it.
use crate::compose;
use crate::compose::{
    decimal_text, replace_text, signed_text, slug_text, to_lower,
};
use crate::config::routing::DockerSandboxConfig;
use crate::failure;
use crate::failure::{format_error_chain, Failure};
use crate::json;
use crate::json::{json_debug_text, options_alike, Json, JsonValue};
use crate::search;
use crate::search::has_text;
use crate::skills::file_io::{FileState, Skill};
use crate::skills::graph::{copy_all, copy_option, Replica};
use crate::skills::sandbox;
use crate::skills::sandbox::{
    build_run_args, extension_text, format_command, preferred_output, CommandOutcome,
    SandboxExecutionEnvironment, SandboxRuntime, SandboxSkill,
};
use crate::text;
use crate::text::{blank, copy_list, same, trim};
use crate::utils::path;
use crate::utils::path::{docker_bind_mount, normalize_relative_path};
use crate::utils::posix;
use crate::utils::posix::{path_file_name, path_join, path_parent};
use vstd::prelude::*;

verus! {

/// Where fixtures and runners stand in a container.
pub const SHADOW_MOUNT_POINT: &'static str = "/shadow";

pub const CRITICAL_PERFORMANCE_RATIO: u64 = 5;

pub const CRITICAL_PERFORMANCE_DELTA_MS: u64 = 50;

/// Calls a function of a JavaScript or TypeScript module and reports what came of it.
pub const NODE_SHADOW_RUNNER: &'static str = r#"
import fs from 'node:fs/promises';
import Module from 'node:module';
import path from 'node:path';
import { performance } from 'node:perf_hooks';
import vm from 'node:vm';

const CALLBACK_WAIT_MS = 250;
const CALLBACK_TIMEOUT = Symbol('callback-timeout');

const stringify = (value) => {
  if (typeof value === 'string') return value;
  try { return JSON.stringify(value); } catch { return String(value); }
};

const toSerializable = (value) => {
  if (value instanceof Error) {
    return {
      name: value.name,
      message: value.message,
      stack: value.stack ?? null,
    };
  }
  if (typeof value === 'bigint') return value.toString();
  if (typeof value === 'function') return `[Function ${value.name || 'anonymous'}]`;
  if (Array.isArray(value)) return value.map((item) => toSerializable(item));
  if (value && typeof value === 'object') {
    return Object.fromEntries(
      Object.entries(value).map(([key, nested]) => [key, toSerializable(nested)])
    );
  }
  return value ?? null;
};

const isCallbackPlaceholder = (value) =>
  value === null ||
  (value &&
    typeof value === 'object' &&
    (value.capture === 'callback' || value.__fn__ === true));

const serializeCallbackArgs = (callbackArgs) => {
  if (callbackArgs.length === 0) return null;
  if (callbackArgs.length === 1) return toSerializable(callbackArgs[0]);
  return callbackArgs.map((argument) => toSerializable(argument));
};

const wait = (ms) => new Promise((resolve) => setTimeout(resolve, ms));

const resolveCallable = (moduleNamespace, callableName) => {
  if (callableName === 'default' && typeof moduleNamespace.default === 'function') {
    return moduleNamespace.default;
  }

  const candidates = [
    moduleNamespace[callableName],
    moduleNamespace.default?.[callableName],
  ];

  return candidates.find((candidate) => typeof candidate === 'function') ?? null;
};

const SAFE_IDENTIFIER = /^[A-Za-z_$][A-Za-z0-9_$]*$/;

const resolveCommonJsCallable = async (modulePath, callableName) => {
  if (!SAFE_IDENTIFIER.test(callableName)) {
    return null;
  }

  const source = await fs.readFile(modulePath, 'utf8');
  const wrappedSource = `
(function (exports, require, module, __filename, __dirname) {
${source}
const __shadowCandidates = [
  typeof ${callableName} === 'function' ? ${callableName} : null,
  module.exports?.[${JSON.stringify(callableName)}],
  module.exports?.default?.[${JSON.stringify(callableName)}],
  ${JSON.stringify(callableName)} === 'default' && typeof module.exports === 'function'
    ? module.exports
    : null,
  ${JSON.stringify(callableName)} === 'default' && typeof module.exports?.default === 'function'
    ? module.exports.default
    : null
];
return __shadowCandidates.find((candidate) => typeof candidate === 'function') ?? null;
})
`;
  const compiled = vm.runInThisContext(wrappedSource, { filename: modulePath });
  const module = { exports: {} };
  const require = Module.createRequire(`file://${modulePath}`);
  return compiled(module.exports, require, module, modulePath, path.dirname(modulePath));
};

const loadCallable = async (modulePath, callableName) => {
  const extension = path.extname(modulePath).toLowerCase();
  if (extension === '.js' || extension === '.cjs') {
    try {
      return await resolveCommonJsCallable(modulePath, callableName);
    } catch (commonJsError) {
      const errorText = String(commonJsError?.message ?? commonJsError);
      if (!/Unexpected token 'export'|Cannot use import statement outside a module/.test(errorText)) {
        throw commonJsError;
      }
    }
  }

  const module = await import(`file://${modulePath}`);
  return resolveCallable(module, callableName);
};

const captureConsole = () => {
  const stdout = [];
  const stderr = [];
  const original = { log: console.log, warn: console.warn, error: console.error };
  console.log = (...args) => stdout.push(args.map(stringify).join(' '));
  console.warn = (...args) => stderr.push(args.map(stringify).join(' '));
  console.error = (...args) => stderr.push(args.map(stringify).join(' '));
  return { stdout, stderr, restore: () => { console.log = original.log; console.warn = original.warn; console.error = original.error; } };
};

const [, , modulePath, callableName, fixturePath] = process.argv;
const fixture = JSON.parse(await fs.readFile(fixturePath, 'utf8'));
const captured = captureConsole();
let startedAt = performance.now();
let exitCode = 0;
let returnValue = null;
let error = null;

try {
  const callable = await loadCallable(modulePath, callableName);
  if (typeof callable !== 'function') {
    throw new Error(`callable ${callableName} was not found in ${modulePath}`);
  }

  captured.stdout.length = 0;
  captured.stderr.length = 0;
  startedAt = performance.now();

  const args = Array.isArray(fixture.args) ? [...fixture.args] : [];
  let callbackPromise = null;
  if (args.length > 0 && isCallbackPlaceholder(args.at(-1))) {
    callbackPromise = new Promise((resolve) => {
      args[args.length - 1] = (...callbackArgs) => {
        resolve(serializeCallbackArgs(callbackArgs));
      };
    });
  }

  const directResult = await callable(...args);
  if (callbackPromise) {
    const callbackResult = await Promise.race([
      callbackPromise,
      wait(CALLBACK_WAIT_MS).then(() => CALLBACK_TIMEOUT),
    ]);
    returnValue =
      callbackResult === CALLBACK_TIMEOUT
        ? toSerializable(directResult)
        : callbackResult;
  } else {
    returnValue = toSerializable(directResult);
  }
} catch (failure) {
  exitCode = 1;
  error = String(failure?.stack ?? failure);
  captured.stderr.push(error);
}

await new Promise((resolve, reject) => {
  process.stdout.write(JSON.stringify({
  exit_code: exitCode,
  stdout: captured.stdout.join('\n'),
  stderr: captured.stderr.join('\n'),
  return_value: returnValue,
  duration_ms: Math.max(0, Math.round(performance.now() - startedAt)),
  error,
  }), (writeError) => writeError ? reject(writeError) : resolve());
});
process.exit(exitCode);
"#;

/// Calls a function of a Python module and reports what came of it.
pub const PYTHON_SHADOW_RUNNER: &'static str = r#"
import contextlib
import importlib.util
import io
import json
import sys
import time

module_path, callable_name, fixture_path = sys.argv[1:4]
with open(fixture_path, "r", encoding="utf-8") as handle:
    fixture = json.load(handle)

stdout_buffer = io.StringIO()
stderr_buffer = io.StringIO()
started_at = time.perf_counter()
exit_code = 0
return_value = None
error = None

try:
    spec = importlib.util.spec_from_file_location("shadow_module", module_path)
    if spec is None or spec.loader is None:
        raise RuntimeError(f"failed to load module from {module_path}")
    module = importlib.util.module_from_spec(spec)
    spec.loader.exec_module(module)
    callable_obj = getattr(module, callable_name if callable_name != "default" else "__call__", None)
    if callable_name == "default" and callable_obj is None:
        callable_obj = getattr(module, "main", None)
    if not callable(callable_obj):
        raise RuntimeError(f"callable {callable_name} was not found in {module_path}")
    with contextlib.redirect_stdout(stdout_buffer), contextlib.redirect_stderr(stderr_buffer):
        return_value = callable_obj(*(fixture.get("args") or []))
except Exception as failure:
    exit_code = 1
    error = str(failure)
    stderr_buffer.write(error)

payload = {
    "exit_code": exit_code,
    "stdout": stdout_buffer.getvalue(),
    "stderr": stderr_buffer.getvalue(),
    "return_value": return_value,
    "duration_ms": max(0, round((time.perf_counter() - started_at) * 1000)),
    "error": error,
}
sys.stdout.write(json.dumps(payload))
sys.exit(exit_code)
"#;

// ---------------------------------------------------------------------------
// Requests and records
// ---------------------------------------------------------------------------
/// One call that both targets are made to answer.
#[derive(Debug)]
pub struct ShadowFixture {
    pub id: String,
    pub description: String,
    pub args: Vec<JsonValue>,
}

#[verifier::ext_equal]
pub struct FixtureModel {
    pub id: Seq<char>,
    pub description: Seq<char>,
    pub args: Seq<Json>,
}

impl DeepView for ShadowFixture {
    type V = FixtureModel;

    open spec fn deep_view(&self) -> FixtureModel {
        FixtureModel {
            id: self.id@,
            description: self.description@,
            args: json::items_model(self.args@),
        }
    }
}

pub open spec fn no_fixture() -> FixtureModel {
    FixtureModel { id: ""@, description: ""@, args: Seq::empty() }
}

impl Default for ShadowFixture {
    fn default() -> (res: Self)
        ensures
            res.deep_view() == no_fixture(),
    {
        let res = ShadowFixture {
            id: "".to_owned(),
            description: "".to_owned(),
            args: Vec::new(),
        };
        assert(res.deep_view().args =~= Seq::empty());
        res
    }
}

impl Clone for ShadowFixture {
    fn clone(&self) -> (res: Self)
        ensures
            res.deep_view() == self.deep_view(),
    {
        self.replica()
    }
}

impl Replica for ShadowFixture {
    fn replica(&self) -> (res: Self) {
        let mut args: Vec<JsonValue> = Vec::new();
        let mut i: usize = 0;
        while i < self.args.len()
            invariant
                i <= self.args.len(),
                args@.len() == i,
                forall|j: int| 0 <= j < i ==> (#[trigger] args@[j])@ == self.args@[j]@,
            decreases self.args.len() - i,
        {
            args.push(self.args[i].copied());
            i += 1;
        }
        assert(json::items_model(args@) =~= json::items_model(self.args@));
        ShadowFixture { id: self.id.clone(), description: self.description.clone(), args }
    }
}

/// A function in a file.
#[derive(Debug)]
pub struct ExecutionTarget {
    pub relative_path: String,
    pub callable: String,
}

#[verifier::ext_equal]
pub struct TargetModel {
    pub relative_path: Seq<char>,
    pub callable: Seq<char>,
}

impl DeepView for ExecutionTarget {
    type V = TargetModel;

    open spec fn deep_view(&self) -> TargetModel {
        TargetModel { relative_path: self.relative_path@, callable: self.callable@ }
    }
}

impl Default for ExecutionTarget {
    fn default() -> (res: Self)
        ensures
            res.deep_view() == (TargetModel { relative_path: ""@, callable: ""@ }),
    {
        ExecutionTarget { relative_path: "".to_owned(), callable: "".to_owned() }
    }
}

impl Clone for ExecutionTarget {
    fn clone(&self) -> (res: Self)
        ensures
            res.deep_view() == self.deep_view(),
    {
        ExecutionTarget {
            relative_path: self.relative_path.clone(),
            callable: self.callable.clone(),
        }
    }
}

/// Two targets, and the fixtures on which they are to agree.
#[derive(Debug)]
pub struct ShadowTestRequest {
    pub legacy_root: String,
    pub modern_root: String,
    pub legacy_target: ExecutionTarget,
    pub modern_target: ExecutionTarget,
    pub fixtures: Vec<ShadowFixture>,
}

impl Default for ShadowTestRequest {
    fn default() -> (res: Self)
        ensures
            res.legacy_root@ == ""@,
            res.modern_root@ == ""@,
            res.legacy_target.deep_view() == (TargetModel { relative_path: ""@, callable: ""@ }),
            res.modern_target.deep_view() == (TargetModel { relative_path: ""@, callable: ""@ }),
            res.fixtures.deep_view() == Seq::<FixtureModel>::empty(),
    {
        let res = ShadowTestRequest {
            legacy_root: "".to_owned(),
            modern_root: "".to_owned(),
            legacy_target: ExecutionTarget::default(),
            modern_target: ExecutionTarget::default(),
            fixtures: Vec::new(),
        };
        assert(res.fixtures.deep_view() =~= Seq::<FixtureModel>::empty());
        res
    }
}

/// What came of one run of a target.
#[derive(Debug)]
pub struct ExecutionRecord {
    pub target: String,
    pub command: String,
    pub exit_code: i32,
    pub stdout: String,
    pub stderr: String,
    pub return_value: Option<JsonValue>,
    pub duration_ms: u64,
    pub error: Option<String>,
}

#[verifier::ext_equal]
pub struct RecordModel {
    pub target: Seq<char>,
    pub command: Seq<char>,
    pub exit_code: i32,
    pub stdout: Seq<char>,
    pub stderr: Seq<char>,
    pub return_value: Option<Json>,
    pub duration_ms: u64,
    pub error: Option<Seq<char>>,
}

impl DeepView for ExecutionRecord {
    type V = RecordModel;

    open spec fn deep_view(&self) -> RecordModel {
        RecordModel {
            target: self.target@,
            command: self.command@,
            exit_code: self.exit_code,
            stdout: self.stdout@,
            stderr: self.stderr@,
            return_value: json::option_model(self.return_value),
            duration_ms: self.duration_ms,
            error: self.error.deep_view(),
        }
    }
}

pub open spec fn no_record() -> RecordModel {
    RecordModel {
        target: ""@,
        command: ""@,
        exit_code: 0,
        stdout: ""@,
        stderr: ""@,
        return_value: None,
        duration_ms: 0,
        error: None,
    }
}

impl Default for ExecutionRecord {
    fn default() -> (res: Self)
        ensures
            res.deep_view() == no_record(),
    {
        ExecutionRecord {
            target: "".to_owned(),
            command: "".to_owned(),
            exit_code: 0,
            stdout: "".to_owned(),
            stderr: "".to_owned(),
            return_value: None,
            duration_ms: 0,
            error: None,
        }
    }
}

fn copy_value(value: &Option<JsonValue>) -> (res: Option<JsonValue>)
    ensures
        json::option_model(res) == json::option_model(*value),
{
    match value {
        Some(v) => Some(v.copied()),
        None => None,
    }
}

impl Clone for ExecutionRecord {
    fn clone(&self) -> (res: Self)
        ensures
            res.deep_view() == self.deep_view(),
    {
        ExecutionRecord {
            target: self.target.clone(),
            command: self.command.clone(),
            exit_code: self.exit_code,
            stdout: self.stdout.clone(),
            stderr: self.stderr.clone(),
            return_value: copy_value(&self.return_value),
            duration_ms: self.duration_ms,
            error: copy_option(&self.error),
        }
    }
}

/// How two runs on a fixture differ.
#[derive(Debug)]
pub struct FixtureDiff {
    pub fixture: ShadowFixture,
    pub legacy: ExecutionRecord,
    pub modern: ExecutionRecord,
    pub output_matches: bool,
    pub performance_regression: bool,
    pub differences: Vec<String>,
}

#[verifier::ext_equal]
pub struct DiffModel {
    pub fixture: FixtureModel,
    pub legacy: RecordModel,
    pub modern: RecordModel,
    pub output_matches: bool,
    pub performance_regression: bool,
    pub differences: Seq<Seq<char>>,
}

impl DeepView for FixtureDiff {
    type V = DiffModel;

    open spec fn deep_view(&self) -> DiffModel {
        DiffModel {
            fixture: self.fixture.deep_view(),
            legacy: self.legacy.deep_view(),
            modern: self.modern.deep_view(),
            output_matches: self.output_matches,
            performance_regression: self.performance_regression,
            differences: self.differences.deep_view(),
        }
    }
}

impl Default for FixtureDiff {
    fn default() -> (res: Self)
        ensures
            res.deep_view() == (DiffModel {
                fixture: no_fixture(),
                legacy: no_record(),
                modern: no_record(),
                output_matches: false,
                performance_regression: false,
                differences: Seq::empty(),
            }),
    {
        let differences: Vec<String> = Vec::new();
        assert(differences.deep_view() =~= Seq::empty());
        FixtureDiff {
            fixture: ShadowFixture::default(),
            legacy: ExecutionRecord::default(),
            modern: ExecutionRecord::default(),
            output_matches: false,
            performance_regression: false,
            differences,
        }
    }
}

impl Clone for FixtureDiff {
    fn clone(&self) -> (res: Self)
        ensures
            res.deep_view() == self.deep_view(),
    {
        FixtureDiff {
            fixture: self.fixture.clone(),
            legacy: self.legacy.clone(),
            modern: self.modern.clone(),
            output_matches: self.output_matches,
            performance_regression: self.performance_regression,
            differences: copy_list(self.differences.as_slice()),
        }
    }
}

/// How the runs on all fixtures differ.
#[derive(Debug)]
pub struct ExecutionDiff {
    pub equivalent: bool,
    pub fixture_diffs: Vec<FixtureDiff>,
    pub sandbox_execution_errors: Vec<String>,
}

#[verifier::ext_equal]
pub struct OutcomeModel {
    pub equivalent: bool,
    pub fixture_diffs: Seq<DiffModel>,
    pub sandbox_execution_errors: Seq<Seq<char>>,
}

impl DeepView for ExecutionDiff {
    type V = OutcomeModel;

    open spec fn deep_view(&self) -> OutcomeModel {
        OutcomeModel {
            equivalent: self.equivalent,
            fixture_diffs: self.fixture_diffs.deep_view(),
            sandbox_execution_errors: self.sandbox_execution_errors.deep_view(),
        }
    }
}

impl Default for ExecutionDiff {
    fn default() -> (res: Self)
        ensures
            res.deep_view() == (OutcomeModel {
                equivalent: false,
                fixture_diffs: Seq::empty(),
                sandbox_execution_errors: Seq::empty(),
            }),
    {
        let fixture_diffs: Vec<FixtureDiff> = Vec::new();
        let sandbox_execution_errors: Vec<String> = Vec::new();
        assert(fixture_diffs.deep_view() =~= Seq::empty());
        assert(sandbox_execution_errors.deep_view() =~= Seq::empty());
        ExecutionDiff { equivalent: false, fixture_diffs, sandbox_execution_errors }
    }
}

impl Replica for FixtureDiff {
    fn replica(&self) -> (res: Self) {
        self.clone()
    }
}

impl Clone for ExecutionDiff {
    fn clone(&self) -> (res: Self)
        ensures
            res.deep_view() == self.deep_view(),
    {
        ExecutionDiff {
            equivalent: self.equivalent,
            fixture_diffs: copy_all(self.fixture_diffs.as_slice()),
            sandbox_execution_errors: copy_list(self.sandbox_execution_errors.as_slice()),
        }
    }
}

/// What a runner reports of its run.
#[derive(Debug)]
pub struct RunnerRecord {
    pub exit_code: i32,
    pub stdout: String,
    pub stderr: String,
    pub return_value: Option<JsonValue>,
    pub duration_ms: u64,
    pub error: Option<String>,
}

// ---------------------------------------------------------------------------
// Requests
// ---------------------------------------------------------------------------
/// The text of the request among the arguments of the skill.
pub fn raw_request(args: &[String]) -> (res: Result<String, Failure>)
    ensures
        match res {
            Ok(raw) => args@.len() > 0 && raw@ == args.deep_view()[0],
            Err(error) => args@.len() == 0 && error@ == failure::plain(
                "ShadowTestSkill expects a single JSON request argument"@,
            ),
        },
{
    if args.len() == 0 {
        Err(Failure::new("ShadowTestSkill expects a single JSON request argument".to_owned()))
    } else {
        assert(args.deep_view()[0] == args@[0]@);
        Ok(args[0].clone())
    }
}

/// The request that was read, or why it could not be.
pub fn parse_request(outcome: Result<ShadowTestRequest, String>) -> (res: Result<
    ShadowTestRequest,
    Failure,
>)
    ensures
        match outcome {
            Ok(request) => res matches Ok(r) && r == request,
            Err(cause) => res matches Err(error) && error@ == failure::in_context(
                "failed to deserialize shadow test request"@,
                failure::plain(cause@),
            ),
        },
{
    match outcome {
        Ok(request) => Ok(request),
        Err(cause) => Err(
            Failure::new(cause).context("failed to deserialize shadow test request".to_owned()),
        ),
    }
}

/// What the root of a target and the file below it lead to.
#[derive(Debug, Clone, Copy)]
pub struct TargetState {
    pub root: FileState,
    pub file: FileState,
}

pub open spec fn shadow_path(relative_path: Seq<char>) -> Result<Seq<char>, Seq<Seq<char>>> {
    path::normalized(relative_path, "shadow execution target"@)
}

/// What is wrong with the file of a target.
pub open spec fn target_problem(
    root: Seq<char>,
    relative_path: Seq<char>,
    state: TargetState,
) -> Option<Seq<Seq<char>>> {
    match state.root {
        FileState::Missing => Some(failure::plain("shadow root does not exist: "@ + root)),
        FileState::File | FileState::Other => Some(
            failure::plain("shadow root must be a directory: "@ + root),
        ),
        FileState::Directory => match shadow_path(relative_path) {
            Err(error) => Some(error),
            Ok(normalized) => if state.file == FileState::File {
                None
            } else {
                Some(
                    failure::plain(
                        "shadow execution target does not exist: "@ + posix::joined(
                            root,
                            normalized,
                        ),
                    ),
                )
            },
        },
    }
}

pub open spec fn problem_of(res: Result<(), Failure>) -> Option<Seq<Seq<char>>> {
    match res {
        Ok(_) => None,
        Err(error) => Some(error@),
    }
}

pub fn validate_target_path(root: &str, relative_path: &str, state: TargetState) -> (res: Result<
    (),
    Failure,
>)
    ensures
        problem_of(res) == target_problem(root@, relative_path@, state),
{
    match state.root {
        FileState::Missing => {
            let mut message = "shadow root does not exist: ".to_owned();
            message.append(root);
            return Err(Failure::new(message));
        },
        FileState::File | FileState::Other => {
            let mut message = "shadow root must be a directory: ".to_owned();
            message.append(root);
            return Err(Failure::new(message));
        },
        FileState::Directory => {},
    }
    let relative: String = match normalize_relative_path(relative_path, "shadow execution target") {
        Ok(relative) => relative,
        Err(error) => {
            return Err(error);
        },
    };
    if state.file != FileState::File {
        let mut message = "shadow execution target does not exist: ".to_owned();
        message.append(path_join(root, relative.as_str()).as_str());
        return Err(Failure::new(message));
    }
    Ok(())
}

/// What is wrong with a request. The first problem counts.
pub open spec fn request_problem(
    request: ShadowTestRequest,
    legacy: TargetState,
    modern: TargetState,
) -> Option<Seq<Seq<char>>> {
    let legacy_problem = target_problem(
        request.legacy_root@,
        request.legacy_target.relative_path@,
        legacy,
    );
    let modern_problem = target_problem(
        request.modern_root@,
        request.modern_target.relative_path@,
        modern,
    );
    if request.fixtures@.len() == 0 {
        Some(failure::plain("ShadowTestSkill requires at least one generated fixture"@))
    } else if legacy_problem is Some {
        legacy_problem
    } else if modern_problem is Some {
        modern_problem
    } else if text::is_blank(request.legacy_target.callable@) {
        Some(failure::plain("legacy execution target callable cannot be empty"@))
    } else if text::is_blank(request.modern_target.callable@) {
        Some(failure::plain("modern execution target callable cannot be empty"@))
    } else {
        None
    }
}

pub fn validate_request(
    request: &ShadowTestRequest,
    legacy: TargetState,
    modern: TargetState,
) -> (res: Result<(), Failure>)
    ensures
        problem_of(res) == request_problem(*request, legacy, modern),
{
    if request.fixtures.len() == 0 {
        return Err(
            Failure::new("ShadowTestSkill requires at least one generated fixture".to_owned()),
        );
    }
    if let Err(error) = validate_target_path(
        request.legacy_root.as_str(),
        request.legacy_target.relative_path.as_str(),
        legacy,
    ) {
        return Err(error);
    }
    if let Err(error) = validate_target_path(
        request.modern_root.as_str(),
        request.modern_target.relative_path.as_str(),
        modern,
    ) {
        return Err(error);
    }
    if blank(request.legacy_target.callable.as_str()) {
        return Err(Failure::new("legacy execution target callable cannot be empty".to_owned()));
    }
    if blank(request.modern_target.callable.as_str()) {
        return Err(Failure::new("modern execution target callable cannot be empty".to_owned()));
    }
    Ok(())
}

// ---------------------------------------------------------------------------
// Runtimes
// ---------------------------------------------------------------------------
/// What runs a target.
#[derive(Debug, Clone, Copy, PartialEq, Eq, Structural)]
pub enum ShadowRuntime {
    Node,
    NodeTypeScript,
    Python,
}

/// A runner: its file, and the command that starts it.
#[derive(Debug)]
pub struct RenderedShadowRunner {
    pub runner_name: String,
    pub runner_contents: String,
    pub inner_command: Vec<String>,
}

/// The runtime for a target, by its extension, or why there is none.
pub open spec fn shadow_runtime(path: Seq<char>) -> Result<ShadowRuntime, Seq<Seq<char>>> {
    match posix::extension(path) {
        None => Err(
            failure::plain(
                "ShadowTestSkill requires a target file with a supported extension"@,
            ),
        ),
        Some(extension) => {
            let name = compose::lowered(extension);
            if name == "js"@ || name == "mjs"@ || name == "cjs"@ {
                Ok(ShadowRuntime::Node)
            } else if name == "ts"@ || name == "tsx"@ {
                Ok(ShadowRuntime::NodeTypeScript)
            } else if name == "py"@ {
                Ok(ShadowRuntime::Python)
            } else {
                Err(
                    failure::plain(
                        "ShadowTestSkill does not support the `."@ + name
                            + "` extension for shadow execution yet"@,
                    ),
                )
            }
        },
    }
}

/// The name of a fixture's file.
pub open spec fn fixture_file(id: Seq<char>) -> Seq<char> {
    "fixture_"@ + compose::slug(id, ""@) + ".json"@
}

pub fn sanitize_fixture_id(value: &str) -> (res: String)
    ensures
        res@ == compose::slug(value@, ""@),
{
    slug_text(value, "")
}

pub fn fixture_file_name(id: &str) -> (res: String)
    ensures
        res@ == fixture_file(id@),
{
    let mut out = "fixture_".to_owned();
    out.append(sanitize_fixture_id(id).as_str());
    out.append(".json");
    out
}

/// A fixture's file stays in the directory where it is put: its name holds no separator.
pub proof fn lemma_fixture_file_stays(id: Seq<char>)
    ensures
        !fixture_file(id).contains('/'),
        !fixture_file(id).contains('\\'),
{
    reveal_strlit("fixture_");
    reveal_strlit(".json");
    reveal_strlit("");
    compose::lemma_slug_chars(id, ""@);
    let name = fixture_file(id);
    let slug = compose::slug(id, ""@);
    assert forall|i: int| 0 <= i < name.len() implies #[trigger] name[i] != '/' && name[i]
        != '\\' by {
        if i >= 8 && i < 8 + slug.len() {
            assert(name[i] == slug[i - 8]);
        } else if i >= 8 {
            assert(name[i] == ".json"@[i - 8 - slug.len()]);
        } else {
            assert(name[i] == "fixture_"@[i]);
        }
    }
}

pub open spec fn runner_label(label: Seq<char>) -> Seq<char> {
    let name = compose::slug(label, ""@);
    if name.len() == 0 {
        "shadow"@
    } else {
        name
    }
}

pub fn sanitize_runner_label(value: &str) -> (res: String)
    ensures
        res@ == runner_label(value@),
{
    let name = slug_text(value, "");
    if name.as_str().is_empty() {
        "shadow".to_owned()
    } else {
        name
    }
}

impl ShadowRuntime {
    pub open spec fn runner_file(self, label: Seq<char>) -> Seq<char> {
        runner_label(label) + match self {
            ShadowRuntime::Python => "_shadow_runner.py"@,
            _ => "_shadow_runner.mjs"@,
        }
    }

    pub open spec fn contents(self) -> Seq<char> {
        match self {
            ShadowRuntime::Python => PYTHON_SHADOW_RUNNER@,
            _ => NODE_SHADOW_RUNNER@,
        }
    }

    pub open spec fn launcher(self) -> Seq<Seq<char>> {
        match self {
            ShadowRuntime::Node => seq!["node"@],
            ShadowRuntime::NodeTypeScript => seq!["node"@, "--import=tsx"@],
            ShadowRuntime::Python => seq!["python"@],
        }
    }

    /// The command that calls the function on the fixture.
    pub open spec fn command(
        self,
        label: Seq<char>,
        module_file: Seq<char>,
        callable: Seq<char>,
        fixture_path: Seq<char>,
    ) -> Seq<Seq<char>> {
        self.launcher() + seq![
            SHADOW_MOUNT_POINT@ + "/"@ + self.runner_file(label),
            module_file,
            callable,
            fixture_path,
        ]
    }

    pub fn from_path(relative_path: &str) -> (res: Result<Self, Failure>)
        ensures
            shadow_runtime(relative_path@) == match res {
                Ok(runtime) => Ok::<ShadowRuntime, Seq<Seq<char>>>(runtime),
                Err(error) => Err::<ShadowRuntime, Seq<Seq<char>>>(error@),
            },
    {
        let extension = match extension_text(relative_path) {
            Some(extension) => to_lower(extension.as_str()),
            None => {
                return Err(
                    Failure::new(
                        "ShadowTestSkill requires a target file with a supported extension".to_owned(),
                    ),
                );
            },
        };
        let name = extension.as_str();
        if same(name, "js") || same(name, "mjs") || same(name, "cjs") {
            Ok(ShadowRuntime::Node)
        } else if same(name, "ts") || same(name, "tsx") {
            Ok(ShadowRuntime::NodeTypeScript)
        } else if same(name, "py") {
            Ok(ShadowRuntime::Python)
        } else {
            let mut message = "ShadowTestSkill does not support the `.".to_owned();
            message.append(name);
            message.append("` extension for shadow execution yet");
            Err(Failure::new(message))
        }
    }

    pub fn build_command(
        self,
        label: &str,
        module_file: &str,
        callable: &str,
        fixture_path: &str,
    ) -> (res: RenderedShadowRunner)
        ensures
            res.runner_name@ == self.runner_file(label@),
            res.runner_contents@ == self.contents(),
            res.inner_command.deep_view() == self.command(
                label@,
                module_file@,
                callable@,
                fixture_path@,
            ),
    {
        let mut runner_name = sanitize_runner_label(label);
        let mut inner_command: Vec<String> = Vec::new();
        let runner_contents: &'static str;
        match self {
            ShadowRuntime::Node => {
                runner_name.append("_shadow_runner.mjs");
                runner_contents = NODE_SHADOW_RUNNER;
                inner_command.push("node".to_owned());
            },
            ShadowRuntime::NodeTypeScript => {
                runner_name.append("_shadow_runner.mjs");
                runner_contents = NODE_SHADOW_RUNNER;
                inner_command.push("node".to_owned());
                inner_command.push("--import=tsx".to_owned());
            },
            ShadowRuntime::Python => {
                runner_name.append("_shadow_runner.py");
                runner_contents = PYTHON_SHADOW_RUNNER;
                inner_command.push("python".to_owned());
            },
        }
        assert(inner_command.deep_view() =~= self.launcher());
        let mut runner_path = SHADOW_MOUNT_POINT.to_owned();
        runner_path.append("/");
        runner_path.append(runner_name.as_str());
        inner_command.push(runner_path);
        inner_command.push(module_file.to_owned());
        inner_command.push(callable.to_owned());
        inner_command.push(fixture_path.to_owned());
        assert(inner_command.deep_view() =~= self.command(
            label@,
            module_file@,
            callable@,
            fixture_path@,
        ));
        RenderedShadowRunner {
            runner_name,
            runner_contents: runner_contents.to_owned(),
            inner_command,
        }
    }

    /// The image that the runner needs.
    pub fn sandbox_runtime(self) -> (res: SandboxRuntime)
        ensures
            res == match self {
                ShadowRuntime::Python => SandboxRuntime::Python,
                _ => SandboxRuntime::Node,
            },
    {
        match self {
            ShadowRuntime::Node => SandboxRuntime::Node,
            ShadowRuntime::NodeTypeScript => SandboxRuntime::Node,
            ShadowRuntime::Python => SandboxRuntime::Python,
        }
    }
}

/// Both targets of a request: their normalized paths and their runtimes.
#[derive(Debug)]
pub struct ShadowPlan {
    pub legacy_relative: String,
    pub modern_relative: String,
    pub legacy_runtime: ShadowRuntime,
    pub modern_runtime: ShadowRuntime,
}

/// Plans both targets. Paths are looked at before runtimes.
pub fn plan_targets(request: &ShadowTestRequest) -> (res: Result<ShadowPlan, Failure>)
    ensures
        match (
            shadow_path(request.legacy_target.relative_path@),
            shadow_path(request.modern_target.relative_path@),
        ) {
            (Err(chain), _) => res matches Err(error) && error@ == chain,
            (Ok(_), Err(chain)) => res matches Err(error) && error@ == chain,
            (Ok(legacy), Ok(modern)) => match (shadow_runtime(legacy), shadow_runtime(modern)) {
                (Err(chain), _) => res matches Err(error) && error@ == chain,
                (Ok(_), Err(chain)) => res matches Err(error) && error@ == chain,
                (Ok(old_runtime), Ok(new_runtime)) => res matches Ok(plan)
                    && plan.legacy_relative@ == legacy && plan.modern_relative@ == modern
                    && plan.legacy_runtime == old_runtime && plan.modern_runtime == new_runtime,
            },
        },
{
    let legacy_relative: String = match normalize_relative_path(
        request.legacy_target.relative_path.as_str(),
        "shadow execution target",
    ) {
        Ok(relative) => relative,
        Err(error) => {
            return Err(error);
        },
    };
    let modern_relative: String = match normalize_relative_path(
        request.modern_target.relative_path.as_str(),
        "shadow execution target",
    ) {
        Ok(relative) => relative,
        Err(error) => {
            return Err(error);
        },
    };
    let legacy_runtime: ShadowRuntime = match ShadowRuntime::from_path(legacy_relative.as_str()) {
        Ok(runtime) => runtime,
        Err(error) => {
            return Err(error);
        },
    };
    let modern_runtime: ShadowRuntime = match ShadowRuntime::from_path(modern_relative.as_str()) {
        Ok(runtime) => runtime,
        Err(error) => {
            return Err(error);
        },
    };
    Ok(ShadowPlan { legacy_relative, modern_relative, legacy_runtime, modern_runtime })
}

// ---------------------------------------------------------------------------
// Invocations
// ---------------------------------------------------------------------------
/// A runner that is to be written beside its fixture.
#[derive(Debug)]
pub struct RunnerPlan {
    pub workspace_root: String,
    pub runner_host_path: String,
    pub runner_contents: String,
    pub inner_command: Vec<String>,
}

/// A command that runs a target on a fixture.
#[derive(Debug)]
pub struct ShadowInvocation {
    pub command: String,
    pub container_name: String,
    pub docker_args: Vec<String>,
}

/// Runs two versions of a function on the same fixtures.
#[derive(Debug)]
pub struct ShadowTestSkill {
    sandbox_skill: SandboxSkill,
}

impl Skill for ShadowTestSkill {
    open spec fn label(&self) -> Seq<char> {
        "shadow_test"@
    }

    fn name(&self) -> (res: &str) {
        "shadow_test"
    }
}

impl Default for ShadowTestSkill {
    fn default() -> (res: Self)
        ensures
            res.memory() == crate::config::routing::DEFAULT_DOCKER_SANDBOX_MEMORY@,
            res.cpus() == crate::config::routing::DEFAULT_DOCKER_SANDBOX_CPUS@,
    {
        Self::new(DockerSandboxConfig::default())
    }
}

impl ShadowTestSkill {
    pub closed spec fn memory(&self) -> Seq<char> {
        self.sandbox_skill.memory()
    }

    pub closed spec fn cpus(&self) -> Seq<char> {
        self.sandbox_skill.cpus()
    }

    pub fn new(config: DockerSandboxConfig) -> (res: Self)
        ensures
            res.memory() == config.memory_limit@,
            res.cpus() == config.cpu_limit@,
    {
        ShadowTestSkill { sandbox_skill: SandboxSkill::new(config) }
    }

    pub fn sandbox(&self) -> (res: &SandboxSkill)
        ensures
            res.memory() == self.memory(),
            res.cpus() == self.cpus(),
    {
        &self.sandbox_skill
    }

    /// Plans the runner of a target for the fixture in the given file.
    pub fn plan_runner(
        label: &str,
        target: &ExecutionTarget,
        environment: &SandboxExecutionEnvironment,
        fixture_path: &str,
    ) -> (res: Result<RunnerPlan, Failure>)
        ensures
            match shadow_path(target.relative_path@) {
                Err(chain) => res matches Err(error) && error@ == chain,
                Ok(normalized) => match shadow_runtime(normalized) {
                    Err(chain) => res matches Err(error) && error@ == chain,
                    Ok(runtime) => match (
                        posix::parent(fixture_path@),
                        posix::file_name(fixture_path@),
                    ) {
                        (None, _) => res matches Err(error) && error@ == failure::plain(
                            "fixture path must have a parent directory"@,
                        ),
                        (Some(_), None) => res matches Err(error) && error@ == failure::plain(
                            "fixture file name was not valid unicode"@,
                        ),
                        (Some(workspace), Some(name)) => res matches Ok(plan)
                            && plan.workspace_root@ == workspace && plan.runner_host_path@
                            == posix::joined(workspace, runtime.runner_file(label@))
                            && plan.runner_contents@ == runtime.contents()
                            && plan.inner_command.deep_view() == runtime.command(
                            label@,
                            path::mounted_at(environment@.workdir, normalized),
                            target.callable@,
                            SHADOW_MOUNT_POINT@ + "/"@ + name,
                        ),
                    },
                },
            },
    {
        let normalized_target: String = match normalize_relative_path(
            target.relative_path.as_str(),
            "shadow execution target",
        ) {
            Ok(relative) => relative,
            Err(error) => {
                return Err(error);
            },
        };
        let runtime: ShadowRuntime = match ShadowRuntime::from_path(normalized_target.as_str()) {
            Ok(runtime) => runtime,
            Err(error) => {
                return Err(error);
            },
        };
        let workspace_root: String = match path_parent(fixture_path) {
            Some(root) => root,
            None => {
                return Err(
                    Failure::new("fixture path must have a parent directory".to_owned()),
                );
            },
        };
        let module_file = environment.container_path(normalized_target.as_str());
        let file_name: String = match path_file_name(fixture_path) {
            Some(name) => name,
            None => {
                return Err(Failure::new("fixture file name was not valid unicode".to_owned()));
            },
        };
        let mut fixture_mount_path = SHADOW_MOUNT_POINT.to_owned();
        fixture_mount_path.append("/");
        fixture_mount_path.append(file_name.as_str());
        let runner = runtime.build_command(
            label,
            module_file.as_str(),
            target.callable.as_str(),
            fixture_mount_path.as_str(),
        );
        let runner_host_path = path_join(workspace_root.as_str(), runner.runner_name.as_str());
        Ok(
            RunnerPlan {
                workspace_root,
                runner_host_path,
                runner_contents: runner.runner_contents,
                inner_command: runner.inner_command,
            },
        )
    }

    /// The command that runs a planned runner in the environment.
    pub fn build_invocation(
        &self,
        plan: RunnerPlan,
        environment: &SandboxExecutionEnvironment,
        container_name: String,
    ) -> (res: Result<ShadowInvocation, Failure>)
        ensures
            match path::bind_mount(plan.workspace_root@, SHADOW_MOUNT_POINT@, true) {
                Err(chain) => res matches Err(error) && error@ == chain,
                Ok(mount) => res matches Ok(invocation) && invocation.container_name@
                    == container_name@ && invocation.docker_args.deep_view() == sandbox::run_args(
                    container_name@,
                    self.memory(),
                    self.cpus(),
                    environment@,
                    Some(mount),
                    plan.inner_command.deep_view(),
                ) && invocation.command@ == sandbox::command_line(
                    "docker"@,
                    invocation.docker_args.deep_view(),
                ),
            },
    {
        let mount: String = match docker_bind_mount(
            plan.workspace_root.as_str(),
            SHADOW_MOUNT_POINT,
            true,
        ) {
            Ok(mount) => mount,
            Err(error) => {
                return Err(error);
            },
        };
        let docker_args: Vec<String> = build_run_args(
            container_name.as_str(),
            self.sandbox_skill.config(),
            environment,
            &Some(mount),
            plan.inner_command,
        );
        let command = format_command("docker", docker_args.as_slice());
        Ok(ShadowInvocation { command, container_name, docker_args })
    }
}

// ---------------------------------------------------------------------------
// Records
// ---------------------------------------------------------------------------
/// What is recorded of a run: the report of the runner, or what the container left behind if
/// there is none.
pub open spec fn recorded(
    label: Seq<char>,
    command: Seq<char>,
    outcome: CommandOutcome,
    report: Option<RunnerRecord>,
) -> RecordModel {
    match report {
        Some(r) => RecordModel {
            target: label,
            command,
            exit_code: r.exit_code,
            stdout: r.stdout@,
            stderr: r.stderr@,
            return_value: json::option_model(r.return_value),
            duration_ms: r.duration_ms,
            error: r.error.deep_view(),
        },
        None => RecordModel {
            target: label,
            command,
            exit_code: sandbox::exit_number(outcome.exit_code),
            stdout: text::trimmed(outcome.stdout@),
            stderr: text::trimmed(outcome.stderr@),
            return_value: None,
            duration_ms: 0,
            error: Some(sandbox::detail_of(outcome.stderr@, outcome.stdout@)),
        },
    }
}

/// Records a run. `report` is what the output of the container holds as a report, if it does.
pub fn parse_execution_record(
    label: &str,
    command: String,
    outcome: CommandOutcome,
    report: Option<RunnerRecord>,
) -> (res: ExecutionRecord)
    ensures
        res.deep_view() == recorded(label@, command@, outcome, report),
{
    match report {
        Some(r) => ExecutionRecord {
            target: label.to_owned(),
            command,
            exit_code: r.exit_code,
            stdout: r.stdout,
            stderr: r.stderr,
            return_value: r.return_value,
            duration_ms: r.duration_ms,
            error: r.error,
        },
        None => {
            let exit_code: i32 = match outcome.exit_code {
                Some(n) => n,
                None => -1,
            };
            ExecutionRecord {
                target: label.to_owned(),
                command,
                exit_code,
                stdout: trim(outcome.stdout.as_str()),
                stderr: trim(outcome.stderr.as_str()),
                return_value: None,
                duration_ms: 0,
                error: Some(preferred_output(outcome.stderr.as_str(), outcome.stdout.as_str())),
            }
        },
    }
}

/// Records the run of a target, unless its container could not be run.
pub fn run_target(
    label: &str,
    command: String,
    outcome: Result<CommandOutcome, Failure>,
    report: Option<RunnerRecord>,
) -> (res: Result<ExecutionRecord, Failure>)
    ensures
        match outcome {
            Ok(output) => res matches Ok(record) && record.deep_view() == recorded(
                label@,
                command@,
                output,
                report,
            ),
            Err(cause) => res matches Err(error) && error@ == failure::in_context(
                "failed to run "@ + label@ + " shadow container"@,
                cause@,
            ),
        },
{
    match outcome {
        Ok(output) => Ok(parse_execution_record(label, command, output, report)),
        Err(cause) => {
            let mut message = "failed to run ".to_owned();
            message.append(label);
            message.append(" shadow container");
            Err(cause.context(message))
        },
    }
}

/// What stands for a run that did not take place.
pub open spec fn synthetic(label: Seq<char>, cause: Seq<Seq<char>>) -> RecordModel {
    RecordModel {
        target: label,
        exit_code: -1i32,
        error: Some(compose::join(cause, ": "@)),
        ..no_record()
    }
}

pub fn synthetic_execution_record(label: &str, error: &Failure) -> (res: ExecutionRecord)
    ensures
        res.deep_view() == synthetic(label@, error@),
{
    ExecutionRecord {
        target: label.to_owned(),
        command: "".to_owned(),
        exit_code: -1,
        stdout: "".to_owned(),
        stderr: "".to_owned(),
        return_value: None,
        duration_ms: 0,
        error: Some(format_error_chain(error)),
    }
}

// ---------------------------------------------------------------------------
// Comparison
// ---------------------------------------------------------------------------
pub open spec fn normalized_output(value: Seq<char>) -> Seq<char> {
    compose::replace_all(text::trimmed(value), "\r\n"@, "\n"@)
}

pub fn normalize_output(value: &str) -> (res: String)
    ensures
        res@ == normalized_output(value@),
{
    proof {
        reveal_strlit("\r\n");
    }
    replace_text(trim(value).as_str(), "\r\n", "\n")
}

/// A run is much slower if it takes more than five times as long, and at least some time longer.
pub open spec fn is_much_slower(legacy_ms: nat, modern_ms: nat) -> bool {
    modern_ms > CRITICAL_PERFORMANCE_RATIO * legacy_ms && modern_ms > legacy_ms
        + CRITICAL_PERFORMANCE_DELTA_MS
}

pub fn is_critical_performance_regression(
    legacy: &ExecutionRecord,
    modern: &ExecutionRecord,
) -> (res: bool)
    ensures
        res == is_much_slower(legacy.duration_ms as nat, modern.duration_ms as nat),
{
    if legacy.duration_ms == 0 {
        return modern.duration_ms > CRITICAL_PERFORMANCE_DELTA_MS;
    }
    let limit: u64 = match legacy.duration_ms.checked_mul(CRITICAL_PERFORMANCE_RATIO) {
        Some(limit) => limit,
        None => u64::MAX,
    };
    modern.duration_ms > limit && modern.duration_ms.saturating_sub(legacy.duration_ms) > CRITICAL_PERFORMANCE_DELTA_MS
}

/// The message where the condition holds.
pub open spec fn noted(condition: bool, message: Seq<char>) -> Seq<Seq<char>> {
    if condition {
        seq![message]
    } else {
        Seq::empty()
    }
}

/// A message that sets two values side by side.
pub open spec fn contrast(
    id: Seq<char>,
    what: Seq<char>,
    legacy: Seq<char>,
    between: Seq<char>,
    modern: Seq<char>,
    end: Seq<char>,
) -> Seq<char> {
    "fixture `"@ + id + what + legacy + between + modern + end
}

pub open spec fn runner_error(id: Seq<char>, what: Seq<char>, error: Option<Seq<char>>) -> Seq<
    Seq<char>,
> {
    match error {
        Some(e) => seq!["fixture `"@ + id + what + e],
        None => Seq::empty(),
    }
}

/// All ways in which two runs differ.
pub open spec fn differences_between(
    id: Seq<char>,
    legacy: RecordModel,
    modern: RecordModel,
) -> Seq<Seq<char>> {
    noted(
        legacy.exit_code != modern.exit_code,
        contrast(
            id,
            "` exit code mismatch: legacy="@,
            compose::signed_decimal(legacy.exit_code as int),
            " modern="@,
            compose::signed_decimal(modern.exit_code as int),
            ""@,
        ),
    ) + noted(
        !json::alike_options(legacy.return_value, modern.return_value),
        contrast(
            id,
            "` return value mismatch: legacy="@,
            json::debug_json(legacy.return_value),
            " modern="@,
            json::debug_json(modern.return_value),
            ""@,
        ),
    ) + noted(
        normalized_output(legacy.stdout) != normalized_output(modern.stdout),
        contrast(
            id,
            "` stdout mismatch: legacy=`"@,
            normalized_output(legacy.stdout),
            "` modern=`"@,
            normalized_output(modern.stdout),
            "`"@,
        ),
    ) + noted(
        normalized_output(legacy.stderr) != normalized_output(modern.stderr),
        contrast(
            id,
            "` stderr mismatch: legacy=`"@,
            normalized_output(legacy.stderr),
            "` modern=`"@,
            normalized_output(modern.stderr),
            "`"@,
        ),
    ) + runner_error(id, "` legacy runner error: "@, legacy.error) + runner_error(
        id,
        "` modern runner error: "@,
        modern.error,
    ) + noted(
        is_much_slower(legacy.duration_ms as nat, modern.duration_ms as nat),
        contrast(
            id,
            "` critical performance regression: legacy="@,
            compose::decimal(legacy.duration_ms as nat),
            "ms modern="@,
            compose::decimal(modern.duration_ms as nat),
            "ms"@,
        ),
    )
}

/// How two runs on a fixture compare.
pub open spec fn compared(
    fixture: FixtureModel,
    legacy: RecordModel,
    modern: RecordModel,
) -> DiffModel {
    let differences = differences_between(fixture.id, legacy, modern);
    DiffModel {
        fixture,
        legacy,
        modern,
        output_matches: differences.len() == 0,
        performance_regression: is_much_slower(
            legacy.duration_ms as nat,
            modern.duration_ms as nat,
        ),
        differences,
    }
}

fn contrast_text(
    id: &str,
    what: &str,
    legacy: &str,
    between: &str,
    modern: &str,
    end: &str,
) -> (res: String)
    ensures
        res@ == contrast(id@, what@, legacy@, between@, modern@, end@),
{
    let mut out = "fixture `".to_owned();
    out.append(id);
    out.append(what);
    out.append(legacy);
    out.append(between);
    out.append(modern);
    out.append(end);
    out
}

fn note(differences: &mut Vec<String>, message: String)
    ensures
        final(differences).deep_view() == old(differences).deep_view() + seq![message@],
{
    let ghost before = differences.deep_view();
    differences.push(message);
    assert(differences.deep_view() =~= before + seq![message@]);
}

fn note_error(differences: &mut Vec<String>, id: &str, what: &str, error: &Option<String>)
    ensures
        final(differences).deep_view() == old(differences).deep_view() + runner_error(
            id@,
            what@,
            error.deep_view(),
        ),
{
    if let Some(e) = error {
        let mut message = "fixture `".to_owned();
        message.append(id);
        message.append(what);
        message.append(e.as_str());
        note(differences, message);
    } else {
        assert(differences.deep_view() + Seq::empty() =~= differences.deep_view());
    }
}

fn note_output(differences: &mut Vec<String>, id: &str, what: &str, legacy: &str, modern: &str)
    ensures
        final(differences).deep_view() == old(differences).deep_view() + noted(
            normalized_output(legacy@) != normalized_output(modern@),
            contrast(
                id@,
                what@,
                normalized_output(legacy@),
                "` modern=`"@,
                normalized_output(modern@),
                "`"@,
            ),
        ),
{
    let old_output = normalize_output(legacy);
    let new_output = normalize_output(modern);
    if !same(old_output.as_str(), new_output.as_str()) {
        note(
            differences,
            contrast_text(id, what, old_output.as_str(), "` modern=`", new_output.as_str(), "`"),
        );
    } else {
        assert(differences.deep_view() + Seq::empty() =~= differences.deep_view());
    }
}

/// Compares two runs on a fixture.
pub fn compare_fixture(
    fixture: ShadowFixture,
    legacy: ExecutionRecord,
    modern: ExecutionRecord,
) -> (res: FixtureDiff)
    ensures
        res.deep_view() == compared(
            fixture.deep_view(),
            legacy.deep_view(),
            modern.deep_view(),
        ),
{
    let id = fixture.id.as_str();
    let mut differences: Vec<String> = Vec::new();
    assert(differences.deep_view() =~= Seq::empty());
    if legacy.exit_code != modern.exit_code {
        note(
            &mut differences,
            contrast_text(
                id,
                "` exit code mismatch: legacy=",
                signed_text(legacy.exit_code).as_str(),
                " modern=",
                signed_text(modern.exit_code).as_str(),
                "",
            ),
        );
    }
    let ghost first = noted(
        legacy.exit_code != modern.exit_code,
        contrast(
            id@,
            "` exit code mismatch: legacy="@,
            compose::signed_decimal(legacy.exit_code as int),
            " modern="@,
            compose::signed_decimal(modern.exit_code as int),
            ""@,
        ),
    );
    assert(differences.deep_view() =~= first);
    if !options_alike(&legacy.return_value, &modern.return_value) {
        note(
            &mut differences,
            contrast_text(
                id,
                "` return value mismatch: legacy=",
                json_debug_text(&legacy.return_value).as_str(),
                " modern=",
                json_debug_text(&modern.return_value).as_str(),
                "",
            ),
        );
    } else {
        assert(first + Seq::empty() =~= first);
    }
    note_output(
        &mut differences,
        id,
        "` stdout mismatch: legacy=`",
        legacy.stdout.as_str(),
        modern.stdout.as_str(),
    );
    note_output(
        &mut differences,
        id,
        "` stderr mismatch: legacy=`",
        legacy.stderr.as_str(),
        modern.stderr.as_str(),
    );
    note_error(&mut differences, id, "` legacy runner error: ", &legacy.error);
    note_error(&mut differences, id, "` modern runner error: ", &modern.error);
    let performance_regression = is_critical_performance_regression(&legacy, &modern);
    if performance_regression {
        note(
            &mut differences,
            contrast_text(
                id,
                "` critical performance regression: legacy=",
                decimal_text(legacy.duration_ms).as_str(),
                "ms modern=",
                decimal_text(modern.duration_ms).as_str(),
                "ms",
            ),
        );
    } else {
        assert(differences.deep_view() + Seq::empty() =~= differences.deep_view());
    }
    assert(differences.deep_view().len() == differences@.len());
    FixtureDiff {
        output_matches: differences.len() == 0,
        fixture,
        legacy,
        modern,
        performance_regression,
        differences,
    }
}

/// Two runs agree if they end alike, return alike and print alike, neither reports an error, and
/// the second is not much slower.
pub open spec fn agree(legacy: RecordModel, modern: RecordModel) -> bool {
    &&& legacy.exit_code == modern.exit_code
    &&& json::alike_options(legacy.return_value, modern.return_value)
    &&& normalized_output(legacy.stdout) == normalized_output(modern.stdout)
    &&& normalized_output(legacy.stderr) == normalized_output(modern.stderr)
    &&& legacy.error is None
    &&& modern.error is None
    &&& !is_much_slower(legacy.duration_ms as nat, modern.duration_ms as nat)
}

/// A comparison passes exactly where the two runs agree.
pub proof fn lemma_matches(fixture: FixtureModel, legacy: RecordModel, modern: RecordModel)
    ensures
        compared(fixture, legacy, modern).output_matches <==> agree(legacy, modern),
        !fails(compared(fixture, legacy, modern)) <==> agree(legacy, modern),
{
}

/// An output that has nothing to normalize: no carriage return, and no white space at its ends.
pub open spec fn is_plain_output(value: Seq<char>) -> bool {
    &&& !value.contains('\r')
    &&& value.len() > 0 ==> !text::is_white(value[0]) && !text::is_white(value[value.len() - 1])
}

/// An output that has nothing to normalize is compared as it is, character for character.
pub proof fn lemma_plain_output(value: Seq<char>)
    requires
        is_plain_output(value),
    ensures
        normalized_output(value) == value,
{
    reveal_strlit("\r\n");
    assert(text::trimmed(value) == value);
    assert forall|j: int| 0 <= j <= value.len() - 2 implies !search::occurs_at(
        value,
        "\r\n"@,
        j,
    ) by {
        if search::occurs_at(value, "\r\n"@, j) {
            assert(value.subrange(j, j + 2)[0] == '\r');
            assert(value[j] == '\r');
        }
    }
    search::lemma_find_none(value, "\r\n"@);
}

pub open spec fn no_return() -> spec_fn(char) -> bool {
    |c: char| c != '\r'
}

proof fn lemma_endings_keep_chars(value: Seq<char>)
    ensures
        compose::replace_all(value, "\r\n"@, "\n"@).filter(no_return()) == value.filter(no_return()),
    decreases value.len(),
{
    reveal_strlit("\r\n");
    reveal_strlit("\n");
    search::lemma_find(value, "\r\n"@);
    if let Some(i) = search::find(value, "\r\n"@) {
        let rest = value.skip(i + 2);
        let done = compose::replace_all(rest, "\r\n"@, "\n"@);
        lemma_endings_keep_chars(rest);
        assert(value =~= value.take(i) + "\r\n"@ + rest) by {
            assert(value.subrange(i, i + 2) == "\r\n"@);
        }
        Seq::filter_distributes_over_add(value.take(i), "\r\n"@, no_return());
        Seq::filter_distributes_over_add(value.take(i) + "\r\n"@, rest, no_return());
        Seq::filter_distributes_over_add(value.take(i), "\n"@, no_return());
        Seq::filter_distributes_over_add(value.take(i) + "\n"@, done, no_return());
        reveal(Seq::filter);
        reveal_with_fuel(Seq::filter, 3);
        assert("\r\n"@.drop_last() =~= seq!['\r']);
        assert(seq!['\r'].drop_last() =~= Seq::<char>::empty());
        assert("\n"@.drop_last() =~= Seq::<char>::empty());
        assert("\r\n"@.filter(no_return()) =~= seq!['\n']);
        assert("\n"@.filter(no_return()) =~= seq!['\n']);
    }
}

/// Only white space at the ends of an output and carriage returns are left out of account: what is
/// compared holds all other characters of the output, in order.
pub proof fn lemma_output_keeps_chars(value: Seq<char>) -> (part: (int, int))
    ensures
        0 <= part.0 <= part.1 <= value.len(),
        forall|k: int| 0 <= k < part.0 ==> text::is_white(#[trigger] value[k]),
        forall|k: int| part.1 <= k < value.len() ==> text::is_white(#[trigger] value[k]),
        part.0 < part.1 ==> !text::is_white(value[part.0]) && !text::is_white(value[part.1 - 1]),
        normalized_output(value).filter(no_return()) == value.subrange(part.0, part.1).filter(
            no_return(),
        ),
{
    let part = text::lemma_trimmed_part(value);
    lemma_endings_keep_chars(text::trimmed(value));
    part
}

/// Two runs match only where they end with the same code, return values alike, print the same
/// text as far as it has nothing to normalize, report no error, and the second does not take more
/// than five times as long as the first and over fifty milliseconds longer.
pub proof fn lemma_match_means(fixture: FixtureModel, legacy: RecordModel, modern: RecordModel)
    requires
        is_plain_output(legacy.stdout),
        is_plain_output(modern.stdout),
        is_plain_output(legacy.stderr),
        is_plain_output(modern.stderr),
    ensures
        compared(fixture, legacy, modern).output_matches <==> {
            &&& legacy.exit_code == modern.exit_code
            &&& json::alike_options(legacy.return_value, modern.return_value)
            &&& legacy.stdout == modern.stdout
            &&& legacy.stderr == modern.stderr
            &&& legacy.error is None
            &&& modern.error is None
            &&& !(modern.duration_ms > 5 * legacy.duration_ms && modern.duration_ms
                - legacy.duration_ms > 50)
        },
        compared(fixture, legacy, modern).output_matches <==> compared(
            fixture,
            legacy,
            modern,
        ).differences.len() == 0,
        compared(fixture, legacy, modern).fixture == fixture,
        compared(fixture, legacy, modern).legacy == legacy,
        compared(fixture, legacy, modern).modern == modern,
{
    lemma_plain_output(legacy.stdout);
    lemma_plain_output(modern.stdout);
    lemma_plain_output(legacy.stderr);
    lemma_plain_output(modern.stderr);
}

// ---------------------------------------------------------------------------
// Runs over all fixtures
// ---------------------------------------------------------------------------
/// A comparison that ends the run.
pub open spec fn fails(diff: DiffModel) -> bool {
    !diff.output_matches || diff.performance_regression
}

pub fn should_fail_fast(fixture_diff: &FixtureDiff) -> (res: bool)
    ensures
        res == fails(fixture_diff.deep_view()),
{
    !fixture_diff.output_matches || fixture_diff.performance_regression
}

/// The differences that are about a runner.
pub open spec fn about_runners(differences: Seq<Seq<char>>) -> Seq<Seq<char>>
    decreases differences.len(),
{
    if differences.len() == 0 {
        Seq::empty()
    } else {
        let done = about_runners(differences.drop_last());
        if search::contains(differences.last(), "runner"@) {
            done.push(differences.last())
        } else {
            done
        }
    }
}

/// The differences of all comparisons that are about a runner.
pub open spec fn runner_problems(diffs: Seq<DiffModel>) -> Seq<Seq<char>>
    decreases diffs.len(),
{
    if diffs.len() == 0 {
        Seq::empty()
    } else {
        runner_problems(diffs.drop_last()) + about_runners(diffs.last().differences)
    }
}

/// The targets are equivalent if every comparison passes and no runner has a problem.
pub open spec fn equivalent(diffs: Seq<DiffModel>) -> bool {
    (forall|i: int| 0 <= i < diffs.len() ==> !fails(#[trigger] diffs[i])) && runner_problems(
        diffs,
    ).len() == 0
}

/// The comparisons of a run so far.
#[derive(Debug)]
pub struct ShadowRun {
    fixture_diffs: Vec<FixtureDiff>,
    errors: Vec<String>,
}

impl View for ShadowRun {
    type V = Seq<DiffModel>;

    closed spec fn view(&self) -> Seq<DiffModel> {
        self.fixture_diffs.deep_view()
    }
}

/// The record of a run, or what stands for it.
pub open spec fn record_or_synthetic(
    label: Seq<char>,
    outcome: Result<ExecutionRecord, Failure>,
) -> RecordModel {
    match outcome {
        Ok(record) => record.deep_view(),
        Err(error) => synthetic(label, error@),
    }
}

fn settle(label: &str, outcome: Result<ExecutionRecord, Failure>) -> (res: ExecutionRecord)
    ensures
        res.deep_view() == record_or_synthetic(label@, outcome),
{
    match outcome {
        Ok(record) => record,
        Err(error) => synthetic_execution_record(label, &error),
    }
}

impl ShadowRun {
    #[verifier::type_invariant]
    spec fn well_formed(self) -> bool {
        &&& self.errors.deep_view() == runner_problems(self.fixture_diffs.deep_view())
        &&& forall|i: int|
            0 <= i < self.fixture_diffs@.len() - 1 ==> !fails(
                #[trigger] self.fixture_diffs.deep_view()[i],
            )
    }

    /// No comparison has failed so far.
    pub open spec fn goes_on(&self) -> bool {
        self@.len() == 0 || !fails(self@.last())
    }

    pub fn new() -> (res: Self)
        ensures
            res@ == Seq::<DiffModel>::empty(),
    {
        let fixture_diffs: Vec<FixtureDiff> = Vec::new();
        let errors: Vec<String> = Vec::new();
        assert(fixture_diffs.deep_view() =~= Seq::<DiffModel>::empty());
        assert(errors.deep_view() =~= Seq::<Seq<char>>::empty());
        ShadowRun { fixture_diffs, errors }
    }

    /// Compares the two runs on a fixture. Says whether the next fixture is to be run.
    pub fn record(
        self,
        fixture: &ShadowFixture,
        legacy: Result<ExecutionRecord, Failure>,
        modern: Result<ExecutionRecord, Failure>,
    ) -> (res: (Self, bool))
        requires
            self.goes_on(),
        ensures
            res.0@ == self@.push(
                compared(
                    fixture.deep_view(),
                    record_or_synthetic("legacy"@, legacy),
                    record_or_synthetic("modern"@, modern),
                ),
            ),
            res.1 == res.0.goes_on(),
    {
        proof {
            use_type_invariant(&self);
        }
        let diff = compare_fixture(
            fixture.clone(),
            settle("legacy", legacy),
            settle("modern", modern),
        );
        let go_on = !should_fail_fast(&diff);
        let ghost before = self.fixture_diffs.deep_view();
        let ghost noted_before = self.errors.deep_view();
        let mut errors: Vec<String> = self.errors;
        let mut i: usize = 0;
        let ghost all = diff.differences.deep_view();
        assert(all.take(0) =~= Seq::empty());
        assert(noted_before + Seq::empty() =~= noted_before);
        while i < diff.differences.len()
            invariant
                i <= diff.differences.len(),
                all == diff.differences.deep_view(),
                errors.deep_view() == noted_before + about_runners(all.take(i as int)),
            decreases diff.differences.len() - i,
        {
            proof {
                assert(all.take(i as int + 1).drop_last() == all.take(i as int));
                assert(all.take(i as int + 1).last() == diff.differences@[i as int]@);
            }
            let ghost kept = errors.deep_view();
            if has_text(diff.differences[i].as_str(), "runner") {
                errors.push(diff.differences[i].clone());
                assert(errors.deep_view() =~= kept.push(all[i as int]));
                assert(errors.deep_view() =~= noted_before + about_runners(
                    all.take(i as int + 1),
                ));
            }
            i += 1;
        }
        assert(all.take(all.len() as int) == all);
        let mut fixture_diffs: Vec<FixtureDiff> = self.fixture_diffs;
        let ghost added = diff.deep_view();
        fixture_diffs.push(diff);
        assert(fixture_diffs.deep_view() =~= before.push(added));
        assert(before.push(added).drop_last() =~= before);
        assert forall|i: int| 0 <= i < fixture_diffs@.len() - 1 implies !fails(
            #[trigger] fixture_diffs.deep_view()[i],
        ) by {
            assert(fixture_diffs.deep_view()[i] == before[i]);
        }
        (ShadowRun { fixture_diffs, errors }, go_on)
    }

    /// The outcome of the run. Only the last comparison can have failed.
    pub fn finish(self) -> (res: ExecutionDiff)
        ensures
            forall|i: int| 0 <= i < self@.len() - 1 ==> !fails(#[trigger] self@[i]),
            res.deep_view() == (OutcomeModel {
                equivalent: equivalent(self@),
                fixture_diffs: self@,
                sandbox_execution_errors: runner_problems(self@),
            }),
    {
        proof {
            use_type_invariant(&self);
        }
        let ghost diffs = self.fixture_diffs.deep_view();
        assert(self.errors.deep_view().len() == self.errors@.len());
        let mut passed = true;
        let mut i: usize = 0;
        while i < self.fixture_diffs.len()
            invariant
                i <= self.fixture_diffs.len(),
                diffs == self.fixture_diffs.deep_view(),
                passed == (forall|j: int| 0 <= j < i ==> !fails(#[trigger] diffs[j])),
            decreases self.fixture_diffs.len() - i,
        {
            assert(diffs[i as int] == self.fixture_diffs@[i as int].deep_view());
            if should_fail_fast(&self.fixture_diffs[i]) {
                passed = false;
            }
            i += 1;
        }
        ExecutionDiff {
            equivalent: passed && self.errors.len() == 0,
            fixture_diffs: self.fixture_diffs,
            sandbox_execution_errors: self.errors,
        }
    }
}

proof fn lemma_no_runner_problems(diffs: Seq<DiffModel>)
    requires
        forall|i: int| 0 <= i < diffs.len() ==> (#[trigger] diffs[i]).differences.len() == 0,
    ensures
        runner_problems(diffs).len() == 0,
    decreases diffs.len(),
{
    if diffs.len() > 0 {
        assert(diffs.last() == diffs[diffs.len() - 1]);
        assert forall|i: int| 0 <= i < diffs.drop_last().len() implies (
        #[trigger] diffs.drop_last()[i]).differences.len() == 0 by {
            assert(diffs.drop_last()[i] == diffs[i]);
        }
        lemma_no_runner_problems(diffs.drop_last());
    }
}

/// Targets whose runs were compared are equivalent exactly where the runs on every fixture
/// agree.
pub proof fn lemma_equivalent(diffs: Seq<DiffModel>)
    requires
        forall|i: int|
            0 <= i < diffs.len() ==> #[trigger] diffs[i] == compared(
                diffs[i].fixture,
                diffs[i].legacy,
                diffs[i].modern,
            ),
    ensures
        equivalent(diffs) <==> forall|i: int|
            0 <= i < diffs.len() ==> agree((#[trigger] diffs[i]).legacy, diffs[i].modern),
{
    assert forall|i: int| 0 <= i < diffs.len() implies (!fails(#[trigger] diffs[i]) <==> agree(
        diffs[i].legacy,
        diffs[i].modern,
    )) by {
        lemma_matches(diffs[i].fixture, diffs[i].legacy, diffs[i].modern);
    }
    if forall|i: int|
        0 <= i < diffs.len() ==> agree((#[trigger] diffs[i]).legacy, diffs[i].modern) {
        assert forall|i: int| 0 <= i < diffs.len() implies (
        #[trigger] diffs[i]).differences.len() == 0 by {
            lemma_matches(diffs[i].fixture, diffs[i].legacy, diffs[i].modern);
        }
        lemma_no_runner_problems(diffs);
    }
}

// ---------------------------------------------------------------------------
// Failures before the first fixture
// ---------------------------------------------------------------------------
/// The outcome where nothing could be run.
pub open spec fn fatal(fixtures: Seq<FixtureModel>, cause: Seq<Seq<char>>) -> OutcomeModel {
    let message = compose::join(cause, ": "@);
    let differences = seq![
        "shadow execution infrastructure failed before fixture execution: "@ + message,
    ];
    OutcomeModel {
        equivalent: false,
        fixture_diffs: seq![
            DiffModel {
                fixture: if fixtures.len() == 0 {
                    no_fixture()
                } else {
                    fixtures[0]
                },
                legacy: synthetic("legacy"@, failure::plain(message)),
                modern: synthetic("modern"@, failure::plain(message)),
                output_matches: false,
                performance_regression: false,
                differences,
            },
        ],
        sandbox_execution_errors: differences,
    }
}

pub fn fatal_execution_diff(request: &ShadowTestRequest, error: &Failure) -> (res: ExecutionDiff)
    ensures
        res.deep_view() == fatal(request.fixtures.deep_view(), error@),
{
    let ghost fixtures = request.fixtures.deep_view();
    assert(fixtures.len() == request.fixtures@.len());
    let fixture: ShadowFixture = if request.fixtures.len() == 0 {
        ShadowFixture::default()
    } else {
        assert(fixtures[0] == request.fixtures@[0].deep_view());
        request.fixtures[0].clone()
    };
    let error_message = format_error_chain(error);
    let plain = Failure::new(error_message.clone());
    let mut message =
        "shadow execution infrastructure failed before fixture execution: ".to_owned();
    message.append(error_message.as_str());
    let mut differences: Vec<String> = Vec::new();
    note(&mut differences, message.clone());
    let mut errors: Vec<String> = Vec::new();
    note(&mut errors, message);
    assert(differences.deep_view() =~= seq![message@]);
    assert(errors.deep_view() =~= seq![message@]);
    let diff = FixtureDiff {
        fixture,
        legacy: synthetic_execution_record("legacy", &plain),
        modern: synthetic_execution_record("modern", &plain),
        output_matches: false,
        performance_regression: false,
        differences,
    };
    let ghost d = diff.deep_view();
    let mut fixture_diffs: Vec<FixtureDiff> = Vec::new();
    fixture_diffs.push(diff);
    assert(fixture_diffs.deep_view() =~= seq![d]);
    ExecutionDiff { equivalent: false, fixture_diffs, sandbox_execution_errors: errors }
}

// ---------------------------------------------------------------------------
// Laws of runs
// ---------------------------------------------------------------------------
/// A request is accepted exactly where it has fixtures, both targets are files below a directory
/// with valid paths, and both name what is to be called.
pub proof fn lemma_request_accepted(
    request: ShadowTestRequest,
    legacy: TargetState,
    modern: TargetState,
)
    ensures
        request_problem(request, legacy, modern) is None <==> {
            &&& request.fixtures@.len() > 0
            &&& legacy.root is Directory && legacy.file is File
            &&& modern.root is Directory && modern.file is File
            &&& shadow_path(request.legacy_target.relative_path@) is Ok
            &&& shadow_path(request.modern_target.relative_path@) is Ok
            &&& !text::is_blank(request.legacy_target.callable@)
            &&& !text::is_blank(request.modern_target.callable@)
        },
{
}

/// The command starts the runner and hands it the file, the function and the fixture, in this
/// order.
pub proof fn lemma_runs_target(
    runtime: ShadowRuntime,
    label: Seq<char>,
    module_file: Seq<char>,
    callable: Seq<char>,
    fixture_path: Seq<char>,
)
    ensures
        ({
            let command = runtime.command(label, module_file, callable, fixture_path);
            let n = command.len() as int;
            &&& n >= 5
            &&& command[n - 3] == module_file
            &&& command[n - 2] == callable
            &&& command[n - 1] == fixture_path
            &&& search::ends_with(command[n - 4], "/"@ + runtime.runner_file(label))
            &&& runtime is Python <==> command[0] == "python"@
            &&& !(runtime is Python) <==> command[0] == "node"@
        }),
{
    reveal_strlit("python");
    reveal_strlit("node");
    assert("python"@.len() == 6 && "node"@.len() == 4);
    let command = runtime.command(label, module_file, callable, fixture_path);
    let n = command.len() as int;
    let end = "/"@ + runtime.runner_file(label);
    let place = command[n - 4];
    assert(place.skip(place.len() - end.len()) =~= end);
}

/// A target runs with the runtime of its language.
pub proof fn lemma_shadow_runtime_of_language(path: Seq<char>)
    ensures
        sandbox::runtime_for(path) matches Ok(runtime) ==> {
            &&& runtime is Node ==> shadow_runtime(path) == Ok::<ShadowRuntime, Seq<Seq<char>>>(
                ShadowRuntime::Node,
            )
            &&& runtime is Deno ==> shadow_runtime(path) == Ok::<ShadowRuntime, Seq<Seq<char>>>(
                ShadowRuntime::NodeTypeScript,
            )
            &&& runtime is Python ==> shadow_runtime(path) == Ok::<ShadowRuntime, Seq<Seq<char>>>(
                ShadowRuntime::Python,
            )
            &&& runtime is Go ==> shadow_runtime(path) is Err
        },
        sandbox::runtime_for(path) is Err ==> shadow_runtime(path) is Err,
{
    reveal_strlit("js");
    reveal_strlit("mjs");
    reveal_strlit("cjs");
    reveal_strlit("ts");
    reveal_strlit("tsx");
    reveal_strlit("py");
    reveal_strlit("go");
    assert("js"@.len() == 2 && "ts"@.len() == 2 && "py"@.len() == 2 && "go"@.len() == 2);
    assert("js"@[0] == 'j' && "ts"@[0] == 't' && "py"@[0] == 'p' && "go"@[0] == 'g');
    assert("mjs"@.len() == 3 && "cjs"@.len() == 3 && "tsx"@.len() == 3);
}

/// A report is recorded as it is; without one the record says that something went wrong.
pub proof fn lemma_recorded(
    label: Seq<char>,
    command: Seq<char>,
    outcome: CommandOutcome,
    report: Option<RunnerRecord>,
)
    ensures
        ({
            let record = recorded(label, command, outcome, report);
            &&& record.target == label
            &&& record.command == command
            &&& report matches Some(r) ==> {
                &&& record.exit_code == r.exit_code
                &&& record.stdout == r.stdout@
                &&& record.stderr == r.stderr@
                &&& record.duration_ms == r.duration_ms
                &&& record.error is Some <==> r.error is Some
                &&& r.error matches Some(error) ==> record.error == Some(error@)
                &&& record.return_value is Some <==> r.return_value is Some
                &&& r.return_value matches Some(value) ==> record.return_value == Some(value@)
            }
            &&& report is None ==> {
                &&& record.error is Some
                &&& record.return_value is None
                &&& outcome.exit_code matches Some(code) ==> record.exit_code == code
                &&& outcome.exit_code is None ==> record.exit_code == -1
            }
        }),
{
}

/// What stands for a run that did not take place names all causes, and never agrees with a run
/// that took place.
pub proof fn lemma_synthetic_tells(label: Seq<char>, cause: Seq<Seq<char>>, i: int)
    requires
        0 <= i < cause.len(),
    ensures
        synthetic(label, cause).error is Some,
        search::contains(synthetic(label, cause).error->0, cause[i]),
        synthetic(label, cause).exit_code == -1,
        synthetic(label, cause).target == label,
        synthetic(label, cause).return_value is None,
{
    compose::lemma_join_holds(cause, ": "@, i);
}

/// The problem is a difference that one of the comparisons found, and it is about a runner.
pub open spec fn is_runner_problem(
    diffs: Seq<DiffModel>,
    i: int,
    j: int,
    problem: Seq<char>,
) -> bool {
    &&& 0 <= i < diffs.len()
    &&& 0 <= j < diffs[i].differences.len()
    &&& diffs[i].differences[j] == problem
    &&& search::contains(problem, "runner"@)
}

proof fn lemma_about_runners(differences: Seq<Seq<char>>)
    ensures
        forall|problem: Seq<char>| #[trigger]
            about_runners(differences).contains(problem) <==> differences.contains(problem)
                && search::contains(problem, "runner"@),
    decreases differences.len(),
{
    let all = about_runners(differences);
    if differences.len() > 0 {
        let rest = differences.drop_last();
        let last = differences.last();
        let done = about_runners(rest);
        lemma_about_runners(rest);
        assert forall|problem: Seq<char>| #[trigger]
            all.contains(problem) <==> differences.contains(problem) && search::contains(
                problem,
                "runner"@,
            ) by {
            if all.contains(problem) {
                let k = choose|k: int| 0 <= k < all.len() && all[k] == problem;
                if k < done.len() {
                    assert(done[k] == problem);
                    assert(done.contains(problem));
                    let m = choose|m: int| 0 <= m < rest.len() && rest[m] == problem;
                    assert(differences[m] == problem);
                } else {
                    assert(differences[differences.len() - 1] == problem);
                }
            }
            if differences.contains(problem) && search::contains(problem, "runner"@) {
                let m = choose|m: int| 0 <= m < differences.len() && differences[m] == problem;
                if m < rest.len() {
                    assert(rest[m] == problem);
                    assert(done.contains(problem));
                    let k = choose|k: int| 0 <= k < done.len() && done[k] == problem;
                    assert(all[k] == problem);
                } else {
                    assert(all[done.len() as int] == problem);
                }
            }
        }
    }
}

/// The problems of runners are exactly the differences of all comparisons that are about one.
pub proof fn lemma_runner_problems(diffs: Seq<DiffModel>)
    ensures
        forall|problem: Seq<char>| #[trigger]
            runner_problems(diffs).contains(problem) <==> exists|i: int, j: int|
                is_runner_problem(diffs, i, j, problem),
    decreases diffs.len(),
{
    let all = runner_problems(diffs);
    if diffs.len() > 0 {
        let rest = diffs.drop_last();
        let n = diffs.len() - 1;
        let before = runner_problems(rest);
        let more = about_runners(diffs.last().differences);
        lemma_runner_problems(rest);
        lemma_about_runners(diffs.last().differences);
        assert forall|problem: Seq<char>| #[trigger]
            all.contains(problem) <==> exists|i: int, j: int|
                is_runner_problem(diffs, i, j, problem) by {
            if all.contains(problem) {
                let k = choose|k: int| 0 <= k < all.len() && all[k] == problem;
                if k < before.len() {
                    assert(before[k] == problem);
                    assert(before.contains(problem));
                    let (i, j) = choose|i: int, j: int| is_runner_problem(rest, i, j, problem);
                    assert(is_runner_problem(rest, i, j, problem));
                    assert(is_runner_problem(diffs, i, j, problem));
                } else {
                    assert(more[k - before.len()] == problem);
                    assert(more.contains(problem));
                    let found = diffs[n].differences;
                    let j = choose|j: int| 0 <= j < found.len() && found[j] == problem;
                    assert(is_runner_problem(diffs, n, j, problem));
                }
            }
            if exists|i: int, j: int| is_runner_problem(diffs, i, j, problem) {
                let (i, j) = choose|i: int, j: int| is_runner_problem(diffs, i, j, problem);
                if i < n {
                    assert(is_runner_problem(rest, i, j, problem));
                    assert(before.contains(problem));
                    let k = choose|k: int| 0 <= k < before.len() && before[k] == problem;
                    assert(all[k] == problem);
                } else {
                    assert(diffs.last().differences.contains(problem));
                    assert(more.contains(problem));
                    let k = choose|k: int| 0 <= k < more.len() && more[k] == problem;
                    assert(all[k + before.len()] == problem);
                }
            }
        }
    }
}

/// Where nothing could be run, the targets are not equivalent, and both the comparison and the
/// errors tell every cause.
pub proof fn lemma_fatal(fixtures: Seq<FixtureModel>, cause: Seq<Seq<char>>, i: int)
    requires
        0 <= i < cause.len(),
    ensures
        ({
            let outcome = fatal(fixtures, cause);
            &&& !outcome.equivalent
            &&& outcome.fixture_diffs.len() == 1
            &&& !outcome.fixture_diffs[0].output_matches
            &&& fixtures.len() > 0 ==> outcome.fixture_diffs[0].fixture == fixtures[0]
            &&& outcome.sandbox_execution_errors.len() == 1
            &&& search::contains(outcome.sandbox_execution_errors[0], cause[i])
            &&& outcome.fixture_diffs[0].differences == outcome.sandbox_execution_errors
        }),
{
    let message = compose::join(cause, ": "@);
    let start = "shadow execution infrastructure failed before fixture execution: "@;
    compose::lemma_join_holds(cause, ": "@, i);
    let k = choose|k: int| search::occurs_at(message, cause[i], k);
    let whole = start + message;
    let m = start.len() as int + k;
    assert(whole.subrange(m, m + cause[i].len()) =~= message.subrange(k, k + cause[i].len()));
    assert(search::occurs_at(whole, cause[i], m));
}

/// Every way in which two runs on a fixture differ is told, with the fixture and both values.
pub proof fn lemma_differences_tell(
    fixture: FixtureModel,
    legacy: RecordModel,
    modern: RecordModel,
)
    requires
        is_plain_output(legacy.stdout) && is_plain_output(modern.stdout),
        is_plain_output(legacy.stderr) && is_plain_output(modern.stderr),
    ensures
        ({
            let told = compared(fixture, legacy, modern).differences;
            let start = "fixture `"@ + fixture.id;
            &&& legacy.exit_code != modern.exit_code ==> told.contains(
                start + "` exit code mismatch: legacy="@ + compose::signed_decimal(
                    legacy.exit_code as int,
                ) + " modern="@ + compose::signed_decimal(modern.exit_code as int),
            )
            &&& legacy.stdout != modern.stdout ==> told.contains(
                start + "` stdout mismatch: legacy=`"@ + legacy.stdout + "` modern=`"@
                    + modern.stdout + "`"@,
            )
            &&& legacy.stderr != modern.stderr ==> told.contains(
                start + "` stderr mismatch: legacy=`"@ + legacy.stderr + "` modern=`"@
                    + modern.stderr + "`"@,
            )
            &&& legacy.error matches Some(error) ==> told.contains(
                start + "` legacy runner error: "@ + error,
            )
            &&& modern.error matches Some(error) ==> told.contains(
                start + "` modern runner error: "@ + error,
            )
        }),
{
    lemma_plain_output(legacy.stdout);
    lemma_plain_output(modern.stdout);
    lemma_plain_output(legacy.stderr);
    lemma_plain_output(modern.stderr);
    let id = fixture.id;
    let start = "fixture `"@ + id;
    let told = compared(fixture, legacy, modern).differences;
    let first = noted(
        legacy.exit_code != modern.exit_code,
        contrast(
            id,
            "` exit code mismatch: legacy="@,
            compose::signed_decimal(legacy.exit_code as int),
            " modern="@,
            compose::signed_decimal(modern.exit_code as int),
            ""@,
        ),
    );
    let second = noted(
        !json::alike_options(legacy.return_value, modern.return_value),
        contrast(
            id,
            "` return value mismatch: legacy="@,
            json::debug_json(legacy.return_value),
            " modern="@,
            json::debug_json(modern.return_value),
            ""@,
        ),
    );
    let third = noted(
        legacy.stdout != modern.stdout,
        contrast(
            id,
            "` stdout mismatch: legacy=`"@,
            legacy.stdout,
            "` modern=`"@,
            modern.stdout,
            "`"@,
        ),
    );
    let fourth = noted(
        legacy.stderr != modern.stderr,
        contrast(
            id,
            "` stderr mismatch: legacy=`"@,
            legacy.stderr,
            "` modern=`"@,
            modern.stderr,
            "`"@,
        ),
    );
    let fifth = runner_error(id, "` legacy runner error: "@, legacy.error);
    let sixth = runner_error(id, "` modern runner error: "@, modern.error);
    let a = first.len() as int;
    let b = a + second.len();
    let c = b + third.len();
    let d = c + fourth.len();
    let e = d + fifth.len();
    if legacy.exit_code != modern.exit_code {
        reveal_strlit("");
        let wanted = start + "` exit code mismatch: legacy="@ + compose::signed_decimal(
            legacy.exit_code as int,
        ) + " modern="@ + compose::signed_decimal(modern.exit_code as int);
        assert(first[0] =~= wanted);
        assert(told[0] == wanted);
    }
    if legacy.stdout != modern.stdout {
        assert(told[b] == third[0]);
    }
    if legacy.stderr != modern.stderr {
        assert(told[c] == fourth[0]);
    }
    if legacy.error is Some {
        assert(told[d] == fifth[0]);
    }
    if modern.error is Some {
        assert(told[e] == sixth[0]);
    }
}

} // verus!
