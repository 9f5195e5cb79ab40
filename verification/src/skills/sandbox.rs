//! Running generated code in containers without network access.
use crate::compose;
use crate::compose::{
    decimal_text, join_list, replace_text, slug_text, to_lower, wide_decimal_text,
};
use crate::config::routing::DockerSandboxConfig;
use crate::failure;
use crate::failure::Failure;
use crate::search;
use crate::skills::file_io::{FileState, Skill};
use crate::skills::syntax;
use crate::text;
use crate::text::{chars_contain, chars_of, copy_list, same, trim};
use crate::utils::path;
use crate::utils::path::{container_path, docker_bind_mount, normalize_relative_path};
use crate::utils::posix;
use crate::utils::posix::{absolute, path_extension, path_join};
use vstd::prelude::*;
use vstd::slice::slice_subrange;

verus! {

/// Where the sources stand in a container that runs them in place.
pub const APP_MOUNT_POINT: &'static str = "/app";

/// Where the sources stand in a container that prepares an image.
pub const APP_SOURCE_MOUNT_POINT: &'static str = "/app-source";

/// Where the sources stand in a prepared image.
pub const PREPARED_APP_MOUNT_POINT: &'static str = "/workspace";

pub const DOCKER_INFO_TIMEOUT_SECS: u64 = 5;

pub const SANDBOX_WARMUP_TIMEOUT_SECS: u64 = 180;

pub const SANDBOX_TIMEOUT_SECS: u64 = 20;

pub const PYTHON_UNITTEST_RUNNER: &'static str = r#"
import importlib.util
import pathlib
import sys
import unittest

loader = unittest.defaultTestLoader
suite = unittest.TestSuite()
for file_path in sys.argv[1:]:
    module_name = pathlib.Path(file_path).stem.replace('.', '_')
    spec = importlib.util.spec_from_file_location(module_name, file_path)
    if spec is None or spec.loader is None:
        raise RuntimeError(f'failed to load test module: {file_path}')
    module = importlib.util.module_from_spec(spec)
    spec.loader.exec_module(module)
    suite.addTests(loader.loadTestsFromModule(module))

result = unittest.TextTestRunner(verbosity=2).run(suite)
sys.exit(0 if result.wasSuccessful() else 1)
"#;

// ---------------------------------------------------------------------------
// Commands
// ---------------------------------------------------------------------------
/// What came of a command.
#[derive(Debug)]
pub struct CommandOutcome {
    pub success: bool,
    pub exit_code: Option<i32>,
    pub stdout: String,
    pub stderr: String,
}

/// The result of a sandboxed command, as it is reported.
#[derive(Debug)]
pub struct TerminalCommandOutput {
    pub command: String,
    pub exit_code: i32,
    pub stdout: String,
    pub stderr: String,
}

/// The number that stands for the exit of a command; a command that was killed has none.
pub open spec fn exit_number(code: Option<i32>) -> i32 {
    match code {
        Some(n) => n,
        None => -1i32,
    }
}

pub fn terminal_output(command: String, outcome: CommandOutcome) -> (res: TerminalCommandOutput)
    ensures
        res.command@ == command@,
        res.exit_code == exit_number(outcome.exit_code),
        res.stdout@ == outcome.stdout@,
        res.stderr@ == outcome.stderr@,
{
    let exit_code: i32 = match outcome.exit_code {
        Some(n) => n,
        None => -1,
    };
    TerminalCommandOutput { command, exit_code, stdout: outcome.stdout, stderr: outcome.stderr }
}

pub const NO_DETAILS: &'static str = "no additional error details were returned by Docker";

/// What a command says about its failure: its errors, or else its output.
pub open spec fn detail_of(stderr: Seq<char>, stdout: Seq<char>) -> Seq<char> {
    if !text::is_blank(stderr) {
        text::trimmed(stderr)
    } else if !text::is_blank(stdout) {
        text::trimmed(stdout)
    } else {
        NO_DETAILS@
    }
}

pub fn preferred_output(stderr: &str, stdout: &str) -> (res: String)
    ensures
        res@ == detail_of(stderr@, stdout@),
{
    let errors = trim(stderr);
    if !errors.as_str().is_empty() {
        return errors;
    }
    let output = trim(stdout);
    if !output.as_str().is_empty() {
        output
    } else {
        NO_DETAILS.to_owned()
    }
}

/// The command as it is shown.
pub open spec fn command_line(program: Seq<char>, args: Seq<Seq<char>>) -> Seq<char> {
    if args.len() == 0 {
        program
    } else {
        program + " "@ + compose::join(args, " "@)
    }
}

pub fn format_command(program: &str, args: &[String]) -> (res: String)
    ensures
        res@ == command_line(program@, args.deep_view()),
{
    assert(args.deep_view().len() == args@.len());
    let mut out = program.to_owned();
    if args.len() > 0 {
        out.append(" ");
        out.append(join_list(args, " ").as_str());
    }
    out
}

/// Why a docker command gave no outcome.
#[derive(Debug)]
pub enum DockerProblem {
    NotInstalled,
    NotStarted(String),
    TimedOut(u64),
}

/// The failure of a docker command that gave no outcome.
pub fn docker_failure(problem: &DockerProblem, args: &[String]) -> (res: Failure)
    ensures
        res@ == failure::plain(
            match *problem {
                DockerProblem::NotInstalled =>
                    "Docker CLI is not installed or not on PATH. Install Docker and ensure the daemon is running."@,
                DockerProblem::NotStarted(error) => "failed to spawn docker command: "@ + error@,
                DockerProblem::TimedOut(seconds) => "sandbox execution timed out after "@
                    + compose::decimal(seconds as nat) + " seconds: "@ + command_line(
                    "docker"@,
                    args.deep_view(),
                ),
            },
        ),
{
    match problem {
        DockerProblem::NotInstalled => Failure::new(
            "Docker CLI is not installed or not on PATH. Install Docker and ensure the daemon is running.".to_owned(),
        ),
        DockerProblem::NotStarted(error) => {
            let mut message = "failed to spawn docker command: ".to_owned();
            message.append(error.as_str());
            Failure::new(message)
        },
        DockerProblem::TimedOut(seconds) => {
            let mut message = "sandbox execution timed out after ".to_owned();
            message.append(decimal_text(*seconds).as_str());
            message.append(" seconds: ");
            message.append(format_command("docker", args).as_str());
            Failure::new(message)
        },
    }
}

/// The arguments of the command that asks docker about itself.
pub fn docker_info_args() -> (res: Vec<String>)
    ensures
        res.deep_view() == seq!["info"@, "--format"@, "{{json .ServerVersion}}"@],
{
    let mut args: Vec<String> = Vec::new();
    args.push("info".to_owned());
    args.push("--format".to_owned());
    args.push("{{json .ServerVersion}}".to_owned());
    assert(args.deep_view() =~= seq!["info"@, "--format"@, "{{json .ServerVersion}}"@]);
    args
}

/// Docker can be used where it answered a question about itself.
pub fn ensure_docker_ready(outcome: Result<CommandOutcome, Failure>) -> (res: Result<(), Failure>)
    ensures
        match outcome {
            Err(cause) => res matches Err(error) && error@ == failure::in_context(
                "docker preflight check failed"@,
                cause@,
            ),
            Ok(output) => if output.success {
                res is Ok
            } else {
                res matches Err(error) && error@ == failure::plain(
                    "Docker is installed but unavailable. Ensure the Docker daemon is running: "@
                        + detail_of(output.stderr@, output.stdout@),
                )
            },
        },
{
    match outcome {
        Err(cause) => Err(cause.context("docker preflight check failed".to_owned())),
        Ok(output) => {
            if output.success {
                return Ok(());
            }
            let mut message =
                "Docker is installed but unavailable. Ensure the Docker daemon is running: ".to_owned();
            message.append(
                preferred_output(output.stderr.as_str(), output.stdout.as_str()).as_str(),
            );
            Err(Failure::new(message))
        },
    }
}

/// A container or an image that is removed when it is no longer needed.
#[derive(Debug)]
pub enum DockerCleanupTarget {
    Container(String),
    Image(String),
}

impl DockerCleanupTarget {
    /// The arguments of the docker command that removes it.
    pub fn args(&self) -> (res: Vec<String>)
        ensures
            res.deep_view() == match *self {
                DockerCleanupTarget::Container(name) => seq!["rm"@, "-f"@, name@],
                DockerCleanupTarget::Image(name) => seq!["rmi"@, "-f"@, name@],
            },
    {
        let mut out: Vec<String> = Vec::new();
        match self {
            DockerCleanupTarget::Container(name) => {
                out.push("rm".to_owned());
                out.push("-f".to_owned());
                out.push(name.clone());
                assert(out.deep_view() =~= seq!["rm"@, "-f"@, name@]);
            },
            DockerCleanupTarget::Image(name) => {
                out.push("rmi".to_owned());
                out.push("-f".to_owned());
                out.push(name.clone());
                assert(out.deep_view() =~= seq!["rmi"@, "-f"@, name@]);
            },
        }
        out
    }

    pub fn resource_name(&self) -> (res: &str)
        ensures
            res@ == match *self {
                DockerCleanupTarget::Container(name) => name@,
                DockerCleanupTarget::Image(name) => name@,
            },
    {
        match self {
            DockerCleanupTarget::Container(name) => name.as_str(),
            DockerCleanupTarget::Image(name) => name.as_str(),
        }
    }
}

/// The name of a container: the prefix, made fit for a name, and two numbers that set it apart.
pub open spec fn container_label(prefix: Seq<char>, process: nat, unique: nat) -> Seq<char> {
    "migration-pipeline-"@ + compose::slug(prefix, "_.-"@) + "-"@ + compose::decimal(process)
        + "-"@ + compose::decimal(unique)
}

pub fn build_container_name(prefix: &str, process_id: u32, unique_id: u128) -> (res: String)
    ensures
        res@ == container_label(prefix@, process_id as nat, unique_id as nat),
{
    let mut out = "migration-pipeline-".to_owned();
    out.append(slug_text(prefix, "_.-").as_str());
    out.append("-");
    out.append(decimal_text(process_id as u64).as_str());
    out.append("-");
    out.append(wide_decimal_text(unique_id).as_str());
    out
}

// ---------------------------------------------------------------------------
// Shell words
// ---------------------------------------------------------------------------
/// The value in single quotes, with the single quotes in it taken out of them.
pub open spec fn quoted(value: Seq<char>) -> Seq<char> {
    "'"@ + compose::replace_all(value, "'"@, "'\"'\"'"@) + "'"@
}

pub fn shell_escape(value: &str) -> (res: String)
    ensures
        res@ == quoted(value@),
{
    proof {
        reveal_strlit("'");
    }
    let mut out = "'".to_owned();
    out.append(replace_text(value, "'", "'\"'\"'").as_str());
    out.append("'");
    out
}

/// Where a shell stands in a word.
pub enum ShellQuoting {
    Bare,
    Single,
    Double,
}

pub open spec fn prefixed(head: Seq<char>, tail: Option<Seq<char>>) -> Option<Seq<char>> {
    match tail {
        Some(t) => Some(head + t),
        None => None,
    }
}

/// The value of a word as a POSIX shell reads it. There is none where a quote stays open, where
/// something stands outside quotes, or where double quotes hold a character with a meaning.
pub open spec fn shell_word(s: Seq<char>, quoting: ShellQuoting) -> Option<Seq<char>>
    decreases s.len(),
{
    if s.len() == 0 {
        match quoting {
            ShellQuoting::Bare => Some(Seq::empty()),
            _ => None,
        }
    } else {
        let c = s[0];
        let rest = s.drop_first();
        match quoting {
            ShellQuoting::Bare => if c == '\'' {
                shell_word(rest, ShellQuoting::Single)
            } else if c == '"' {
                shell_word(rest, ShellQuoting::Double)
            } else {
                None
            },
            ShellQuoting::Single => if c == '\'' {
                shell_word(rest, ShellQuoting::Bare)
            } else {
                prefixed(seq![c], shell_word(rest, ShellQuoting::Single))
            },
            ShellQuoting::Double => if c == '"' {
                shell_word(rest, ShellQuoting::Bare)
            } else if c == '$' || c == '`' || c == '\\' {
                None
            } else {
                prefixed(seq![c], shell_word(rest, ShellQuoting::Double))
            },
        }
    }
}

proof fn lemma_plain_run(head: Seq<char>, tail: Seq<char>)
    requires
        forall|i: int| 0 <= i < head.len() ==> head[i] != '\'',
    ensures
        shell_word(head + tail, ShellQuoting::Single) == prefixed(
            head,
            shell_word(tail, ShellQuoting::Single),
        ),
    decreases head.len(),
{
    if head.len() == 0 {
        assert(head + tail =~= tail);
        if let Some(t) = shell_word(tail, ShellQuoting::Single) {
            assert(head + t =~= t);
        }
    } else {
        let rest = head.drop_first();
        assert((head + tail).drop_first() =~= rest + tail);
        lemma_plain_run(rest, tail);
        if let Some(t) = shell_word(tail, ShellQuoting::Single) {
            assert(seq![head[0]] + (rest + t) =~= head + t);
        }
    }
}

proof fn lemma_quoted_tail(value: Seq<char>)
    ensures
        shell_word(
            compose::replace_all(value, "'"@, "'\"'\"'"@) + "'"@,
            ShellQuoting::Single,
        ) == Some(value),
    decreases value.len(),
{
    reveal_strlit("'");
    reveal_strlit("'\"'\"'");
    let mark = "'"@;
    let escaped = "'\"'\"'"@;
    search::lemma_find(value, mark);
    match search::find(value, mark) {
        None => {
            assert forall|i: int| 0 <= i < value.len() implies value[i] != '\'' by {
                if value[i] == '\'' {
                    assert(value.subrange(i, i + 1) =~= mark);
                    assert(search::occurs_at(value, mark, i));
                }
            }
            lemma_plain_run(value, mark);
            assert(mark.drop_first() =~= Seq::empty());
            assert(shell_word(mark.drop_first(), ShellQuoting::Bare) == Some(Seq::<char>::empty()));
            assert(shell_word(mark, ShellQuoting::Single) == Some(Seq::<char>::empty()));
            assert(value + Seq::empty() =~= value);
        },
        Some(i) => {
            let head = value.take(i);
            let rest = value.skip(i + 1);
            assert(value.subrange(i, i + 1) == mark);
            assert(value[i] == value.subrange(i, i + 1)[0]);
            assert forall|j: int| 0 <= j < head.len() implies head[j] != '\'' by {
                if head[j] == '\'' {
                    assert(value.subrange(j, j + 1) =~= mark);
                    assert(search::occurs_at(value, mark, j));
                }
            }
            lemma_quoted_tail(rest);
            let tail = compose::replace_all(rest, mark, escaped) + mark;
            let whole = compose::replace_all(value, mark, escaped) + mark;
            assert(whole =~= head + (escaped + tail));
            lemma_plain_run(head, escaped + tail);
            let s0 = escaped + tail;
            let s1 = s0.drop_first();
            let s2 = s1.drop_first();
            let s3 = s2.drop_first();
            let s4 = s3.drop_first();
            assert(s4.drop_first() =~= tail);
            assert(s0[0] == '\'' && s1[0] == '"' && s2[0] == '\'' && s3[0] == '"' && s4[0] == '\'');
            assert(shell_word(s4, ShellQuoting::Bare) == Some(rest));
            assert(shell_word(s3, ShellQuoting::Double) == Some(rest));
            assert(shell_word(s2, ShellQuoting::Double) == prefixed(seq!['\''], Some(rest)));
            assert(shell_word(s1, ShellQuoting::Bare) == prefixed(seq!['\''], Some(rest)));
            assert(shell_word(s0, ShellQuoting::Single) == prefixed(seq!['\''], Some(rest)));
            assert(head + (seq!['\''] + rest) =~= value);
        },
    }
}

/// A shell reads an escaped value as that value, whatever it holds.
pub proof fn lemma_shell_reads_back(value: Seq<char>)
    ensures
        shell_word(quoted(value), ShellQuoting::Bare) == Some(value),
{
    reveal_strlit("'");
    lemma_quoted_tail(value);
    let inner = compose::replace_all(value, "'"@, "'\"'\"'"@) + "'"@;
    assert(quoted(value) =~= "'"@ + inner);
    assert(quoted(value).drop_first() =~= inner);
    assert(quoted(value)[0] == '\'');
}

// ---------------------------------------------------------------------------
// Runtimes
// ---------------------------------------------------------------------------
/// What runs generated code.
#[derive(Debug, Clone, Copy, PartialEq, Eq, Structural)]
pub enum SandboxRuntime {
    Node,
    Deno,
    Python,
    Go,
}

/// The path is taken apart in the same way by every operating system: it is relative, and holds
/// no backslash, which separates components on some of them, and no colon, which may end a drive.
pub open spec fn is_portable(path: Seq<char>) -> bool {
    &&& !path.contains('\\')
    &&& !path.contains(':')
    &&& !posix::is_absolute(path)
}

/// `camino::Utf8Path::extension`: what follows the last dot of the file name, for a path that
/// every operating system takes apart in the same way.
#[verifier::external_body]
fn utf8_extension(path: &str) -> (res: Option<String>)
    requires
        is_portable(path@),
    ensures
        res.deep_view() == posix::extension(path@),
{
    camino::Utf8Path::new(path).extension().map(str::to_owned)
}

/// The extension of a path in which slashes alone separate the components.
pub fn extension_text(path: &str) -> (res: Option<String>)
    ensures
        res.deep_view() == posix::extension(path@),
{
    let chars: Vec<char> = chars_of(path);
    if !chars_contain(chars.as_slice(), '\\') && !chars_contain(chars.as_slice(), ':')
        && !absolute(path) {
        utf8_extension(path)
    } else {
        path_extension(path)
    }
}

/// The runtime for a test file, by its extension, or why there is none.
pub open spec fn runtime_for(path: Seq<char>) -> Result<SandboxRuntime, Seq<Seq<char>>> {
    match posix::extension(path) {
        None => Err(
            failure::plain("SandboxSkill requires test files with a supported extension"@),
        ),
        Some(extension) => {
            let name = compose::lowered(extension);
            if name == "js"@ || name == "mjs"@ || name == "cjs"@ {
                Ok(SandboxRuntime::Node)
            } else if name == "ts"@ || name == "tsx"@ {
                Ok(SandboxRuntime::Deno)
            } else if name == "py"@ {
                Ok(SandboxRuntime::Python)
            } else if name == "go"@ {
                Ok(SandboxRuntime::Go)
            } else {
                Err(
                    failure::plain(
                        "SandboxSkill does not support isolated test execution for the `."@ + name
                            + "` extension yet"@,
                    ),
                )
            }
        },
    }
}

/// The one runtime that all files need. The first problem counts.
pub open spec fn common_runtime(paths: Seq<Seq<char>>) -> Result<SandboxRuntime, Seq<Seq<char>>>
    decreases paths.len(),
{
    if paths.len() == 0 {
        Err(
            failure::plain(
                "SandboxSkill could not infer a runtime for the provided test files"@,
            ),
        )
    } else if paths.len() == 1 {
        runtime_for(paths[0])
    } else {
        match common_runtime(paths.drop_last()) {
            Err(error) => Err(error),
            Ok(runtime) => match runtime_for(paths.last()) {
                Err(error) => Err(error),
                Ok(other) => if other == runtime {
                    Ok(runtime)
                } else {
                    Err(
                        failure::plain(
                            "SandboxSkill cannot run mixed-language test suites in one container: `"@
                                + paths.last() + "` does not match the existing runtime"@,
                        ),
                    )
                },
            },
        }
    }
}

proof fn lemma_common_error(paths: Seq<Seq<char>>, i: int)
    requires
        0 < i <= paths.len(),
        common_runtime(paths.take(i)) is Err,
    ensures
        common_runtime(paths) == common_runtime(paths.take(i)),
    decreases paths.len() - i,
{
    if i < paths.len() {
        assert(paths.take(i + 1).drop_last() == paths.take(i));
        lemma_common_error(paths, i + 1);
    } else {
        assert(paths.take(i) == paths);
    }
}

/// Which manifests of dependencies the root of the sources holds.
#[derive(Debug, Clone, Copy)]
pub struct Manifests {
    pub package_json: bool,
    pub requirements_txt: bool,
    pub pyproject_toml: bool,
    pub setup_py: bool,
    pub go_mod: bool,
}

/// The command that fetches what Deno needs to run the files.
pub open spec fn cache_command(paths: Seq<Seq<char>>) -> Seq<char> {
    "deno cache "@ + compose::join(
        paths.map_values(
            |p: Seq<char>| quoted(path::mounted_at(PREPARED_APP_MOUNT_POINT@, p)),
        ),
        " "@,
    )
}

impl SandboxRuntime {
    pub open spec fn image(self) -> Seq<char> {
        match self {
            SandboxRuntime::Node => "node:alpine"@,
            SandboxRuntime::Deno => "denoland/deno:alpine"@,
            SandboxRuntime::Python => "python:alpine"@,
            SandboxRuntime::Go => "golang:alpine"@,
        }
    }

    /// The command that installs the dependencies of the sources, if they need any.
    pub open spec fn install_command(self, found: Manifests, paths: Seq<Seq<char>>) -> Option<
        Seq<char>,
    > {
        match self {
            SandboxRuntime::Node => if found.package_json {
                Some("npm install --ignore-scripts --no-audit --no-fund"@)
            } else {
                None
            },
            SandboxRuntime::Deno => Some(cache_command(paths)),
            SandboxRuntime::Python => if found.requirements_txt {
                Some("pip install --no-cache-dir -r requirements.txt"@)
            } else if found.pyproject_toml || found.setup_py {
                Some("pip install --no-cache-dir ."@)
            } else {
                None
            },
            SandboxRuntime::Go => if found.go_mod {
                Some("go mod download"@)
            } else {
                None
            },
        }
    }

    /// The command that runs the test files.
    pub open spec fn test_command(self, paths: Seq<Seq<char>>) -> Seq<Seq<char>> {
        match self {
            SandboxRuntime::Node => seq!["node"@, "--test"@] + paths,
            SandboxRuntime::Deno => seq!["deno"@, "test"@] + paths,
            SandboxRuntime::Python => seq!["python"@, "-c"@, PYTHON_UNITTEST_RUNNER@] + paths,
            SandboxRuntime::Go => seq![
                "sh"@,
                "-lc"@,
                "cd "@ + quoted(PREPARED_APP_MOUNT_POINT@) + " && go test ./..."@,
            ],
        }
    }

    pub fn from_path(relative_path: &str) -> (res: Result<Self, Failure>)
        ensures
            runtime_for(relative_path@) == match res {
                Ok(runtime) => Ok::<SandboxRuntime, Seq<Seq<char>>>(runtime),
                Err(error) => Err::<SandboxRuntime, Seq<Seq<char>>>(error@),
            },
    {
        let extension = match extension_text(relative_path) {
            Some(extension) => to_lower(extension.as_str()),
            None => {
                return Err(
                    Failure::new(
                        "SandboxSkill requires test files with a supported extension".to_owned(),
                    ),
                );
            },
        };
        let name = extension.as_str();
        if same(name, "js") || same(name, "mjs") || same(name, "cjs") {
            Ok(SandboxRuntime::Node)
        } else if same(name, "ts") || same(name, "tsx") {
            Ok(SandboxRuntime::Deno)
        } else if same(name, "py") {
            Ok(SandboxRuntime::Python)
        } else if same(name, "go") {
            Ok(SandboxRuntime::Go)
        } else {
            let mut message =
                "SandboxSkill does not support isolated test execution for the `.".to_owned();
            message.append(name);
            message.append("` extension yet");
            Err(Failure::new(message))
        }
    }

    pub fn from_paths(relative_paths: &[String]) -> (res: Result<Self, Failure>)
        ensures
            common_runtime(relative_paths.deep_view()) == match res {
                Ok(runtime) => Ok::<SandboxRuntime, Seq<Seq<char>>>(runtime),
                Err(error) => Err::<SandboxRuntime, Seq<Seq<char>>>(error@),
            },
    {
        let ghost all = relative_paths.deep_view();
        assert(all.len() == relative_paths@.len());
        if relative_paths.len() == 0 {
            return Err(
                Failure::new(
                    "SandboxSkill could not infer a runtime for the provided test files".to_owned(),
                ),
            );
        }
        assert(all[0] == relative_paths@[0]@);
        assert(all.take(1)[0] == all[0]);
        let runtime: SandboxRuntime = match Self::from_path(relative_paths[0].as_str()) {
            Ok(runtime) => runtime,
            Err(error) => {
                proof {
                    lemma_common_error(all, 1);
                }
                return Err(error);
            },
        };
        let mut i: usize = 1;
        while i < relative_paths.len()
            invariant
                1 <= i <= relative_paths.len(),
                all == relative_paths.deep_view(),
                common_runtime(all.take(i as int)) == Ok::<SandboxRuntime, Seq<Seq<char>>>(
                    runtime,
                ),
            decreases relative_paths.len() - i,
        {
            proof {
                assert(all.take(i as int + 1).drop_last() == all.take(i as int));
                assert(all.take(i as int + 1).last() == relative_paths@[i as int]@);
            }
            match Self::from_path(relative_paths[i].as_str()) {
                Err(error) => {
                    proof {
                        lemma_common_error(all, i as int + 1);
                    }
                    return Err(error);
                },
                Ok(other) => {
                    if other != runtime {
                        proof {
                            lemma_common_error(all, i as int + 1);
                        }
                        let mut message =
                            "SandboxSkill cannot run mixed-language test suites in one container: `".to_owned();
                        message.append(relative_paths[i].as_str());
                        message.append("` does not match the existing runtime");
                        return Err(Failure::new(message));
                    }
                },
            }
            i += 1;
        }
        assert(all.take(all.len() as int) == all);
        Ok(runtime)
    }

    pub fn base_image(self) -> (res: &'static str)
        ensures
            res@ == self.image(),
    {
        match self {
            SandboxRuntime::Node => "node:alpine",
            SandboxRuntime::Deno => "denoland/deno:alpine",
            SandboxRuntime::Python => "python:alpine",
            SandboxRuntime::Go => "golang:alpine",
        }
    }

    pub fn build_command(self, container_paths: &[String]) -> (res: Vec<String>)
        ensures
            res.deep_view() == self.test_command(container_paths.deep_view()),
    {
        let mut command: Vec<String> = Vec::new();
        match self {
            SandboxRuntime::Node => {
                command.push("node".to_owned());
                command.push("--test".to_owned());
            },
            SandboxRuntime::Deno => {
                command.push("deno".to_owned());
                command.push("test".to_owned());
            },
            SandboxRuntime::Python => {
                command.push("python".to_owned());
                command.push("-c".to_owned());
                command.push(PYTHON_UNITTEST_RUNNER.to_owned());
            },
            SandboxRuntime::Go => {
                let mut script = "cd ".to_owned();
                script.append(shell_escape(PREPARED_APP_MOUNT_POINT).as_str());
                script.append(" && go test ./...");
                command.push("sh".to_owned());
                command.push("-lc".to_owned());
                command.push(script);
                assert(command.deep_view() =~= self.test_command(container_paths.deep_view()));
                return command;
            },
        }
        let ghost head = command.deep_view();
        let mut paths: Vec<String> = copy_list(container_paths);
        let ghost tail = paths.deep_view();
        command.append(&mut paths);
        assert(command.deep_view() =~= head + tail);
        assert(command.deep_view() =~= self.test_command(container_paths.deep_view()));
        command
    }

    pub fn dependency_install_command(self, found: Manifests, execution_paths: &[String]) -> (res:
        Option<String>)
        ensures
            res.deep_view() == self.install_command(found, execution_paths.deep_view()),
    {
        match self {
            SandboxRuntime::Node => if found.package_json {
                Some("npm install --ignore-scripts --no-audit --no-fund".to_owned())
            } else {
                None
            },
            SandboxRuntime::Deno => Some(build_deno_cache_command(execution_paths)),
            SandboxRuntime::Python => if found.requirements_txt {
                Some("pip install --no-cache-dir -r requirements.txt".to_owned())
            } else if found.pyproject_toml || found.setup_py {
                Some("pip install --no-cache-dir .".to_owned())
            } else {
                None
            },
            SandboxRuntime::Go => if found.go_mod {
                Some("go mod download".to_owned())
            } else {
                None
            },
        }
    }
}

pub fn build_deno_cache_command(execution_paths: &[String]) -> (res: String)
    ensures
        res@ == cache_command(execution_paths.deep_view()),
{
    let ghost wanted = execution_paths.deep_view().map_values(
        |p: Seq<char>| quoted(path::mounted_at(PREPARED_APP_MOUNT_POINT@, p)),
    );
    let mut words: Vec<String> = Vec::new();
    let mut i: usize = 0;
    assert(words.deep_view() =~= wanted.take(0));
    while i < execution_paths.len()
        invariant
            i <= execution_paths.len(),
            wanted == execution_paths.deep_view().map_values(
                |p: Seq<char>| quoted(path::mounted_at(PREPARED_APP_MOUNT_POINT@, p)),
            ),
            words.deep_view() == wanted.take(i as int),
        decreases execution_paths.len() - i,
    {
        let ghost before = words.deep_view();
        assert(execution_paths.deep_view()[i as int] == execution_paths@[i as int]@);
        let target = container_path(PREPARED_APP_MOUNT_POINT, execution_paths[i].as_str());
        words.push(shell_escape(target.as_str()));
        assert(words.deep_view() =~= before.push(wanted[i as int]));
        assert(wanted.take(i as int + 1) =~= wanted.take(i as int).push(wanted[i as int]));
        i += 1;
    }
    assert(wanted.take(wanted.len() as int) =~= wanted);
    let mut out = "deno cache ".to_owned();
    out.append(join_list(words.as_slice(), " ").as_str());
    out
}

// ---------------------------------------------------------------------------
// Environments
// ---------------------------------------------------------------------------
/// Where sandboxed code runs: the image, the working directory, and the mount of the sources if
/// the image does not hold them.
#[derive(Debug)]
pub struct SandboxExecutionEnvironment {
    pub image: String,
    pub workdir: String,
    pub source_mount: Option<String>,
}

#[verifier::ext_equal]
pub struct EnvironmentModel {
    pub image: Seq<char>,
    pub workdir: Seq<char>,
    pub source_mount: Option<Seq<char>>,
}

impl View for SandboxExecutionEnvironment {
    type V = EnvironmentModel;

    open spec fn view(&self) -> EnvironmentModel {
        EnvironmentModel {
            image: self.image@,
            workdir: self.workdir@,
            source_mount: self.source_mount.deep_view(),
        }
    }
}

impl SandboxExecutionEnvironment {
    /// An environment that runs the sources where they are mounted.
    pub fn mounted(image: String, workdir: String, source_mount: String) -> (res: Self)
        ensures
            res@ == (EnvironmentModel {
                image: image@,
                workdir: workdir@,
                source_mount: Some(source_mount@),
            }),
    {
        SandboxExecutionEnvironment { image, workdir, source_mount: Some(source_mount) }
    }

    /// An environment whose image holds the sources and their dependencies.
    pub fn prepared(image: String) -> (res: Self)
        ensures
            res@ == (EnvironmentModel {
                image: image@,
                workdir: PREPARED_APP_MOUNT_POINT@,
                source_mount: None,
            }),
    {
        SandboxExecutionEnvironment {
            image,
            workdir: PREPARED_APP_MOUNT_POINT.to_owned(),
            source_mount: None,
        }
    }

    /// Where the relative path stands in the environment.
    pub fn container_path(&self, relative_path: &str) -> (res: String)
        ensures
            res@ == path::mounted_at(self.workdir@, relative_path@),
    {
        container_path(self.workdir.as_str(), relative_path)
    }
}

/// The script that copies the sources into the image and installs their dependencies.
pub open spec fn warmup_script(install_command: Seq<char>) -> Seq<char> {
    let workspace = quoted(PREPARED_APP_MOUNT_POINT@);
    "rm -rf "@ + workspace + " && mkdir -p "@ + workspace + " && cp -R "@ + quoted(
        APP_SOURCE_MOUNT_POINT@ + "/."@,
    ) + " "@ + workspace + " && cd "@ + workspace + " && "@ + install_command
}

/// The arguments of the command that prepares an image. Only this one has network access.
pub open spec fn warmup_args(
    source_root: Seq<char>,
    container: Seq<char>,
    memory: Seq<char>,
    cpus: Seq<char>,
    image: Seq<char>,
    install_command: Seq<char>,
) -> Result<Seq<Seq<char>>, Seq<Seq<char>>> {
    match path::bind_mount(source_root, APP_SOURCE_MOUNT_POINT@, true) {
        Err(error) => Err(error),
        Ok(mount) => Ok(
            seq![
                "run"@,
                "--name"@,
                container,
                "--network=bridge"@,
                "--memory="@ + memory,
                "--cpus="@ + cpus,
                "--cap-drop=ALL"@,
                "--security-opt=no-new-privileges:true"@,
                "--mount"@,
                mount,
                image,
                "sh"@,
                "-lc"@,
                warmup_script(install_command),
            ],
        ),
    }
}

fn memory_limit(config: &DockerSandboxConfig) -> (res: String)
    ensures
        res@ == "--memory="@ + config.memory_limit@,
{
    let mut out = "--memory=".to_owned();
    out.append(config.memory_limit.as_str());
    out
}

fn cpu_limit(config: &DockerSandboxConfig) -> (res: String)
    ensures
        res@ == "--cpus="@ + config.cpu_limit@,
{
    let mut out = "--cpus=".to_owned();
    out.append(config.cpu_limit.as_str());
    out
}

pub fn build_warmup_docker_args(
    source_root: &str,
    container_name: &str,
    config: &DockerSandboxConfig,
    base_image: &str,
    install_command: &str,
) -> (res: Result<Vec<String>, Failure>)
    ensures
        warmup_args(
            source_root@,
            container_name@,
            config.memory_limit@,
            config.cpu_limit@,
            base_image@,
            install_command@,
        ) == match res {
            Ok(args) => Ok::<Seq<Seq<char>>, Seq<Seq<char>>>(args.deep_view()),
            Err(error) => Err::<Seq<Seq<char>>, Seq<Seq<char>>>(error@),
        },
{
    let mount: String = match docker_bind_mount(source_root, APP_SOURCE_MOUNT_POINT, true) {
        Ok(mount) => mount,
        Err(error) => {
            return Err(error);
        },
    };
    let mut copied = APP_SOURCE_MOUNT_POINT.to_owned();
    copied.append("/.");
    let copy_source = shell_escape(copied.as_str());
    let workspace = shell_escape(PREPARED_APP_MOUNT_POINT);
    let mut script = "rm -rf ".to_owned();
    script.append(workspace.as_str());
    script.append(" && mkdir -p ");
    script.append(workspace.as_str());
    script.append(" && cp -R ");
    script.append(copy_source.as_str());
    script.append(" ");
    script.append(workspace.as_str());
    script.append(" && cd ");
    script.append(workspace.as_str());
    script.append(" && ");
    script.append(install_command);
    let mut args: Vec<String> = Vec::new();
    args.push("run".to_owned());
    args.push("--name".to_owned());
    args.push(container_name.to_owned());
    args.push("--network=bridge".to_owned());
    args.push(memory_limit(config));
    args.push(cpu_limit(config));
    args.push("--cap-drop=ALL".to_owned());
    args.push("--security-opt=no-new-privileges:true".to_owned());
    args.push("--mount".to_owned());
    args.push(mount);
    args.push(base_image.to_owned());
    args.push("sh".to_owned());
    args.push("-lc".to_owned());
    args.push(script);
    assert(args.deep_view() =~= seq![
        "run"@,
        "--name"@,
        container_name@,
        "--network=bridge"@,
        "--memory="@ + config.memory_limit@,
        "--cpus="@ + config.cpu_limit@,
        "--cap-drop=ALL"@,
        "--security-opt=no-new-privileges:true"@,
        "--mount"@,
        mount@,
        base_image@,
        "sh"@,
        "-lc"@,
        warmup_script(install_command@),
    ]);
    Ok(args)
}

/// How an environment comes about: it is there at once, or an image has to be prepared first.
#[derive(Debug)]
pub enum EnvironmentPlan {
    Ready(SandboxExecutionEnvironment),
    WarmUp(WarmUp),
}

/// The preparation of an image: the container that installs the dependencies, the arguments of
/// the command that runs it, and the image that comes of it.
#[derive(Debug)]
pub struct WarmUp {
    pub container_name: String,
    pub image_name: String,
    pub docker_args: Vec<String>,
}

/// Where to go on with the preparation of an image.
#[derive(Debug)]
pub enum WarmUpStep {
    Commit(Vec<String>),
    Failed(Failure),
}

/// Runs test files in containers.
#[derive(Debug)]
pub struct SandboxSkill {
    config: DockerSandboxConfig,
}

impl Skill for SandboxSkill {
    open spec fn label(&self) -> Seq<char> {
        "sandbox"@
    }

    fn name(&self) -> (res: &str) {
        "sandbox"
    }
}

impl SandboxSkill {
    pub closed spec fn memory(&self) -> Seq<char> {
        self.config.memory_limit@
    }

    pub closed spec fn cpus(&self) -> Seq<char> {
        self.config.cpu_limit@
    }

    pub fn new(config: DockerSandboxConfig) -> (res: Self)
        ensures
            res.memory() == config.memory_limit@,
            res.cpus() == config.cpu_limit@,
    {
        SandboxSkill { config }
    }

    pub fn config(&self) -> (res: &DockerSandboxConfig)
        ensures
            res.memory_limit@ == self.memory(),
            res.cpu_limit@ == self.cpus(),
    {
        &self.config
    }

    /// Plans the environment for the sources. The two names are for the container and the image
    /// of a preparation.
    pub fn prepare_execution_environment(
        &self,
        source_root: &str,
        runtime: SandboxRuntime,
        found: Manifests,
        execution_paths: &[String],
        container_name: String,
        image_name: String,
    ) -> (res: Result<EnvironmentPlan, Failure>)
        ensures
            match path::bind_mount(source_root@, APP_MOUNT_POINT@, true) {
                Err(chain) => res matches Err(error) && error@ == chain,
                Ok(mount) => match runtime.install_command(found, execution_paths.deep_view()) {
                    None => res matches Ok(EnvironmentPlan::Ready(environment)) && environment@
                        == (EnvironmentModel {
                        image: runtime.image(),
                        workdir: APP_MOUNT_POINT@,
                        source_mount: Some(mount),
                    }),
                    Some(command) => res matches Ok(EnvironmentPlan::WarmUp(warm_up))
                        && warm_up.container_name@ == container_name@ && warm_up.image_name@
                        == image_name@ && warmup_args(
                        source_root@,
                        container_name@,
                        self.memory(),
                        self.cpus(),
                        runtime.image(),
                        command,
                    ) == Ok::<Seq<Seq<char>>, Seq<Seq<char>>>(warm_up.docker_args.deep_view()),
                },
            },
    {
        let direct_mount: String = match docker_bind_mount(source_root, APP_MOUNT_POINT, true) {
            Ok(mount) => mount,
            Err(error) => {
                return Err(error);
            },
        };
        let install_command: String = match runtime.dependency_install_command(
            found,
            execution_paths,
        ) {
            Some(command) => command,
            None => {
                return Ok(
                    EnvironmentPlan::Ready(
                        SandboxExecutionEnvironment::mounted(
                            runtime.base_image().to_owned(),
                            APP_MOUNT_POINT.to_owned(),
                            direct_mount,
                        ),
                    ),
                );
            },
        };
        match build_warmup_docker_args(
            source_root,
            container_name.as_str(),
            &self.config,
            runtime.base_image(),
            install_command.as_str(),
        ) {
            Ok(docker_args) => Ok(
                EnvironmentPlan::WarmUp(WarmUp { container_name, image_name, docker_args }),
            ),
            Err(error) => Err(error),
        }
    }

    /// Decides what follows once the dependencies were installed or not.
    pub fn after_warm_up(warm_up: &WarmUp, outcome: Result<CommandOutcome, Failure>) -> (res:
        WarmUpStep)
        ensures
            match outcome {
                Err(cause) => res matches WarmUpStep::Failed(error) && error@
                    == failure::in_context(
                    "failed to execute sandbox dependency warm-up container"@,
                    cause@,
                ),
                Ok(output) => if output.success {
                    res matches WarmUpStep::Commit(args) && args.deep_view() == seq![
                        "commit"@,
                        warm_up.container_name@,
                        warm_up.image_name@,
                    ]
                } else {
                    res matches WarmUpStep::Failed(error) && error@ == failure::plain(
                        "sandbox dependency warm-up failed: "@ + detail_of(
                            output.stderr@,
                            output.stdout@,
                        ),
                    )
                },
            },
    {
        match outcome {
            Err(cause) => WarmUpStep::Failed(
                cause.context("failed to execute sandbox dependency warm-up container".to_owned()),
            ),
            Ok(output) => {
                if !output.success {
                    let mut message = "sandbox dependency warm-up failed: ".to_owned();
                    message.append(
                        preferred_output(output.stderr.as_str(), output.stdout.as_str()).as_str(),
                    );
                    return WarmUpStep::Failed(Failure::new(message));
                }
                let mut args: Vec<String> = Vec::new();
                args.push("commit".to_owned());
                args.push(warm_up.container_name.clone());
                args.push(warm_up.image_name.clone());
                assert(args.deep_view() =~= seq![
                    "commit"@,
                    warm_up.container_name@,
                    warm_up.image_name@,
                ]);
                WarmUpStep::Commit(args)
            },
        }
    }

    /// The environment that a prepared image makes, once it was committed.
    pub fn after_commit(warm_up: &WarmUp, outcome: Result<CommandOutcome, Failure>) -> (res: Result<
        SandboxExecutionEnvironment,
        Failure,
    >)
        ensures
            match outcome {
                Err(cause) => res matches Err(error) && error@ == failure::in_context(
                    "failed to commit warmed sandbox image"@,
                    cause@,
                ),
                Ok(output) => if output.success {
                    res matches Ok(environment) && environment@ == (EnvironmentModel {
                        image: warm_up.image_name@,
                        workdir: PREPARED_APP_MOUNT_POINT@,
                        source_mount: None,
                    })
                } else {
                    res matches Err(error) && error@ == failure::plain(
                        "sandbox image commit failed: "@ + detail_of(
                            output.stderr@,
                            output.stdout@,
                        ),
                    )
                },
            },
    {
        match outcome {
            Err(cause) => Err(cause.context("failed to commit warmed sandbox image".to_owned())),
            Ok(output) => {
                if !output.success {
                    let mut message = "sandbox image commit failed: ".to_owned();
                    message.append(
                        preferred_output(output.stderr.as_str(), output.stdout.as_str()).as_str(),
                    );
                    return Err(Failure::new(message));
                }
                Ok(SandboxExecutionEnvironment::prepared(warm_up.image_name.clone()))
            },
        }
    }
}

impl Default for SandboxSkill {
    fn default() -> (res: Self)
        ensures
            res.memory() == crate::config::routing::DEFAULT_DOCKER_SANDBOX_MEMORY@,
            res.cpus() == crate::config::routing::DEFAULT_DOCKER_SANDBOX_CPUS@,
    {
        Self::new(DockerSandboxConfig::default())
    }
}

// ---------------------------------------------------------------------------
// Invocations
// ---------------------------------------------------------------------------
/// The arguments that mount the sources, if they have to be mounted.
pub open spec fn mount_args(mount: Option<Seq<char>>) -> Seq<Seq<char>> {
    match mount {
        Some(m) => seq!["--mount"@, m],
        None => Seq::empty(),
    }
}

/// The arguments that every container for generated code is run with: it has no network, limited
/// memory and processors, and no privileges.
pub open spec fn confinement(
    container: Seq<char>,
    memory: Seq<char>,
    cpus: Seq<char>,
    workdir: Seq<char>,
) -> Seq<Seq<char>> {
    seq![
        "run"@,
        "--rm"@,
        "--name"@,
        container,
        "--network=none"@,
        "--memory="@ + memory,
        "--cpus="@ + cpus,
        "--cap-drop=ALL"@,
        "--security-opt=no-new-privileges:true"@,
        "--workdir"@,
        workdir,
    ]
}

/// The arguments of a command that runs something in a container.
pub open spec fn run_args(
    container: Seq<char>,
    memory: Seq<char>,
    cpus: Seq<char>,
    environment: EnvironmentModel,
    extra_mount: Option<Seq<char>>,
    command: Seq<Seq<char>>,
) -> Seq<Seq<char>> {
    confinement(container, memory, cpus, environment.workdir) + mount_args(extra_mount)
        + mount_args(environment.source_mount) + seq![environment.image] + command
}

/// Generated code never runs with network access or privileges, whatever it is.
pub proof fn lemma_confined(
    container: Seq<char>,
    memory: Seq<char>,
    cpus: Seq<char>,
    environment: EnvironmentModel,
    extra_mount: Option<Seq<char>>,
    command: Seq<Seq<char>>,
)
    ensures
        run_args(container, memory, cpus, environment, extra_mount, command).take(11)
            == confinement(container, memory, cpus, environment.workdir),
        run_args(container, memory, cpus, environment, extra_mount, command)[4]
            == "--network=none"@,
        run_args(container, memory, cpus, environment, extra_mount, command)[7]
            == "--cap-drop=ALL"@,
{
    let args = run_args(container, memory, cpus, environment, extra_mount, command);
    assert(args.take(11) =~= confinement(container, memory, cpus, environment.workdir));
    assert(args[4] == args.take(11)[4]);
    assert(args[7] == args.take(11)[7]);
}

/// Pushes the arguments that mount something.
fn push_mount(args: &mut Vec<String>, mount: &Option<String>)
    ensures
        final(args).deep_view() == old(args).deep_view() + mount_args(mount.deep_view()),
{
    let ghost start = args.deep_view();
    if let Some(m) = mount {
        args.push("--mount".to_owned());
        args.push(m.clone());
        assert(args.deep_view() =~= start + seq!["--mount"@, m@]);
    } else {
        assert(args.deep_view() =~= start + Seq::empty());
    }
}

pub fn build_run_args(
    container_name: &str,
    config: &DockerSandboxConfig,
    environment: &SandboxExecutionEnvironment,
    extra_mount: &Option<String>,
    command: Vec<String>,
) -> (res: Vec<String>)
    ensures
        res.deep_view() == run_args(
            container_name@,
            config.memory_limit@,
            config.cpu_limit@,
            environment@,
            extra_mount.deep_view(),
            command.deep_view(),
        ),
{
    let ghost wanted_command = command.deep_view();
    let mut args: Vec<String> = Vec::new();
    args.push("run".to_owned());
    args.push("--rm".to_owned());
    args.push("--name".to_owned());
    args.push(container_name.to_owned());
    args.push("--network=none".to_owned());
    args.push(memory_limit(config));
    args.push(cpu_limit(config));
    args.push("--cap-drop=ALL".to_owned());
    args.push("--security-opt=no-new-privileges:true".to_owned());
    args.push("--workdir".to_owned());
    args.push(environment.workdir.clone());
    assert(args.deep_view() =~= confinement(
        container_name@,
        config.memory_limit@,
        config.cpu_limit@,
        environment.workdir@,
    ));
    push_mount(&mut args, extra_mount);
    push_mount(&mut args, &environment.source_mount);
    let ghost before = args.deep_view();
    args.push(environment.image.clone());
    assert(args.deep_view() =~= before + seq![environment.image@]);
    let ghost before = args.deep_view();
    let mut rest: Vec<String> = command;
    args.append(&mut rest);
    assert(args.deep_view() =~= before + wanted_command);
    args
}

/// A command that runs tests: the container, the arguments, and how the command is shown.
#[derive(Debug)]
pub struct SandboxInvocation {
    pub container_name: String,
    pub docker_args: Vec<String>,
    pub display_command: String,
}

/// The arguments of the skill: the directory of the generated code, and the test files in it.
pub fn parse_sandbox_args(args: &[String]) -> (res: Result<(String, Vec<String>), Failure>)
    ensures
        match res {
            Ok(parsed) => args@.len() >= 2 && parsed.0@ == args.deep_view()[0]
                && parsed.1.deep_view() == args.deep_view().skip(1),
            Err(error) => if args@.len() == 0 {
                error@ == failure::plain(
                    "SandboxSkill expects the modern_app directory as the first argument"@,
                )
            } else {
                args@.len() == 1 && error@ == failure::plain(
                    "SandboxSkill expects at least one generated test file path after the modern_app directory"@,
                )
            },
        },
{
    if args.len() == 0 {
        return Err(
            Failure::new(
                "SandboxSkill expects the modern_app directory as the first argument".to_owned(),
            ),
        );
    }
    if args.len() == 1 {
        return Err(
            Failure::new(
                "SandboxSkill expects at least one generated test file path after the modern_app directory".to_owned(),
            ),
        );
    }
    let n: usize = args.len();
    let rest = slice_subrange(args, 1, n);
    assert(rest.deep_view() =~= args.deep_view().skip(1));
    assert(args.deep_view()[0] == args@[0]@);
    Ok((args[0].clone(), copy_list(rest)))
}

/// What is wrong with the directory of the generated code.
pub open spec fn sandbox_root_problem(root: Seq<char>, state: FileState) -> Option<Seq<char>> {
    match state {
        FileState::Missing => Some("sandbox root does not exist: "@ + root),
        FileState::File | FileState::Other => Some(
            "SandboxSkill expects a directory root, received "@ + root,
        ),
        FileState::Directory => None,
    }
}

/// The normalized path of a test file, or what is wrong with it. `state` is what the path below
/// the root leads to.
#[verifier::opaque]
pub open spec fn sandbox_target(root: Seq<char>, relative: Seq<char>, state: FileState) -> Result<
    Seq<char>,
    Seq<Seq<char>>,
> {
    match path::normalized(relative, "sandbox target path"@) {
        Err(error) => Err(error),
        Ok(normalized) => match state {
            FileState::Missing => Err(
                failure::plain(
                    "sandbox target does not exist: "@ + posix::joined(root, normalized),
                ),
            ),
            FileState::Directory | FileState::Other => Err(
                failure::plain(
                    "sandbox target must be a file: "@ + posix::joined(root, normalized),
                ),
            ),
            FileState::File => Ok(normalized),
        },
    }
}

/// The normalized paths of the test files, or what is wrong with the first of them.
pub open spec fn sandbox_targets(
    root: Seq<char>,
    relative_paths: Seq<Seq<char>>,
    states: Seq<FileState>,
) -> Result<Seq<Seq<char>>, Seq<Seq<char>>>
    decreases relative_paths.len(),
{
    if relative_paths.len() == 0 {
        Ok(Seq::empty())
    } else {
        match sandbox_targets(root, relative_paths.drop_last(), states) {
            Err(error) => Err(error),
            Ok(done) => match sandbox_target(
                root,
                relative_paths.last(),
                states[relative_paths.len() - 1],
            ) {
                Ok(normalized) => Ok(done.push(normalized)),
                Err(error) => Err(error),
            },
        }
    }
}

proof fn lemma_target_error(
    root: Seq<char>,
    relative_paths: Seq<Seq<char>>,
    states: Seq<FileState>,
    i: int,
)
    requires
        0 <= i <= relative_paths.len(),
        sandbox_targets(root, relative_paths.take(i), states) is Err,
    ensures
        sandbox_targets(root, relative_paths, states) == sandbox_targets(
            root,
            relative_paths.take(i),
            states,
        ),
    decreases relative_paths.len() - i,
{
    if i < relative_paths.len() {
        assert(relative_paths.take(i + 1).drop_last() == relative_paths.take(i));
        lemma_target_error(root, relative_paths, states, i + 1);
    } else {
        assert(relative_paths.take(i) == relative_paths);
    }
}

/// The path at which a test file is looked for, if its relative path can be normalized.
pub fn sandbox_target_path(modern_root: &str, relative_path: &str) -> (res: Option<String>)
    ensures
        match path::normalized(relative_path@, "sandbox target path"@) {
            Ok(normalized) => res matches Some(full) && full@ == posix::joined(
                modern_root@,
                normalized,
            ),
            Err(_) => res is None,
        },
{
    match normalize_relative_path(relative_path, "sandbox target path") {
        Ok(normalized) => Some(path_join(modern_root, normalized.as_str())),
        Err(_) => None,
    }
}

fn check_target(modern_root: &str, relative_path: &str, state: FileState) -> (res: Result<
    String,
    Failure,
>)
    ensures
        sandbox_target(modern_root@, relative_path@, state) == match res {
            Ok(normalized) => Ok::<Seq<char>, Seq<Seq<char>>>(normalized@),
            Err(error) => Err::<Seq<char>, Seq<Seq<char>>>(error@),
        },
{
    reveal(sandbox_target);
    let normalized: String = match normalize_relative_path(relative_path, "sandbox target path") {
        Ok(normalized) => normalized,
        Err(error) => {
            return Err(error);
        },
    };
    match state {
        FileState::Missing => {
            let mut message = "sandbox target does not exist: ".to_owned();
            message.append(path_join(modern_root, normalized.as_str()).as_str());
            Err(Failure::new(message))
        },
        FileState::Directory | FileState::Other => {
            let mut message = "sandbox target must be a file: ".to_owned();
            message.append(path_join(modern_root, normalized.as_str()).as_str());
            Err(Failure::new(message))
        },
        FileState::File => Ok(normalized),
    }
}

fn check_targets(modern_root: &str, relative_paths: &[String], states: &[FileState]) -> (res: Result<
    Vec<String>,
    Failure,
>)
    requires
        states@.len() == relative_paths@.len(),
    ensures
        sandbox_targets(modern_root@, relative_paths.deep_view(), states@) == match res {
            Ok(paths) => Ok::<Seq<Seq<char>>, Seq<Seq<char>>>(paths.deep_view()),
            Err(error) => Err::<Seq<Seq<char>>, Seq<Seq<char>>>(error@),
        },
{
    let ghost all = relative_paths.deep_view();
    let mut done: Vec<String> = Vec::new();
    let mut i: usize = 0;
    assert(all.take(0) =~= Seq::empty());
    assert(done.deep_view() =~= Seq::empty());
    while i < relative_paths.len()
        invariant
            i <= relative_paths.len(),
            states@.len() == relative_paths@.len(),
            all == relative_paths.deep_view(),
            sandbox_targets(modern_root@, all.take(i as int), states@) == Ok::<
                Seq<Seq<char>>,
                Seq<Seq<char>>,
            >(done.deep_view()),
        decreases relative_paths.len() - i,
    {
        proof {
            assert(all.take(i as int + 1).drop_last() == all.take(i as int));
            assert(all.take(i as int + 1).last() == relative_paths@[i as int]@);
        }
        match check_target(modern_root, relative_paths[i].as_str(), states[i]) {
            Ok(normalized) => {
                let ghost before = done.deep_view();
                done.push(normalized);
                assert(done.deep_view() =~= before.push(normalized@));
            },
            Err(error) => {
                proof {
                    lemma_target_error(modern_root@, all, states@, i as int + 1);
                }
                return Err(error);
            },
        }
        i += 1;
    }
    assert(all.take(all.len() as int) == all);
    Ok(done)
}

/// Checks the directory of the generated code and the test files in it. `states` says what the
/// path of each file, as `sandbox_target_path` gives it, leads to.
pub fn validate_sandbox_targets(
    modern_root: &str,
    root_state: FileState,
    relative_paths: &[String],
    states: &[FileState],
) -> (res: Result<Vec<String>, Failure>)
    requires
        states@.len() == relative_paths@.len(),
    ensures
        match sandbox_root_problem(modern_root@, root_state) {
            Some(message) => res matches Err(error) && error@ == failure::plain(message),
            None => sandbox_targets(modern_root@, relative_paths.deep_view(), states@)
                == match res {
                Ok(paths) => Ok::<Seq<Seq<char>>, Seq<Seq<char>>>(paths.deep_view()),
                Err(error) => Err::<Seq<Seq<char>>, Seq<Seq<char>>>(error@),
            },
        },
{
    match root_state {
        FileState::Missing => {
            let mut message = "sandbox root does not exist: ".to_owned();
            message.append(modern_root);
            Err(Failure::new(message))
        },
        FileState::File | FileState::Other => {
            let mut message = "SandboxSkill expects a directory root, received ".to_owned();
            message.append(modern_root);
            Err(Failure::new(message))
        },
        FileState::Directory => check_targets(modern_root, relative_paths, states),
    }
}

impl SandboxSkill {
    /// Checks the test files and finds the runtime for them. `states` says what the path of each
    /// file, as `sandbox_target_path` gives it, leads to.
    pub fn plan_invocation(
        modern_root: &str,
        root_state: FileState,
        relative_paths: &[String],
        states: &[FileState],
    ) -> (res: Result<(Vec<String>, SandboxRuntime), Failure>)
        requires
            states@.len() == relative_paths@.len(),
        ensures
            if relative_paths@.len() == 0 {
                res matches Err(error) && error@ == failure::plain(
                    "SandboxSkill requires at least one generated test file"@,
                )
            } else {
                match sandbox_root_problem(modern_root@, root_state) {
                    Some(message) => res matches Err(error) && error@ == failure::plain(message),
                    None => match sandbox_targets(
                        modern_root@,
                        relative_paths.deep_view(),
                        states@,
                    ) {
                        Err(chain) => res matches Err(error) && error@ == chain,
                        Ok(paths) => match common_runtime(paths) {
                            Err(chain) => res matches Err(error) && error@ == chain,
                            Ok(runtime) => res matches Ok(plan) && plan.0.deep_view() == paths
                                && plan.1 == runtime,
                        },
                    },
                }
            },
    {
        if relative_paths.len() == 0 {
            return Err(
                Failure::new(
                    "SandboxSkill requires at least one generated test file".to_owned(),
                ),
            );
        }
        let normalized: Vec<String> = match validate_sandbox_targets(
            modern_root,
            root_state,
            relative_paths,
            states,
        ) {
            Ok(paths) => paths,
            Err(error) => {
                return Err(error);
            },
        };
        match SandboxRuntime::from_paths(normalized.as_slice()) {
            Ok(runtime) => Ok((normalized, runtime)),
            Err(error) => Err(error),
        }
    }

    /// The command that runs the test files in the environment.
    pub fn build_invocation(
        &self,
        normalized_paths: &[String],
        runtime: SandboxRuntime,
        environment: &SandboxExecutionEnvironment,
        container_name: String,
    ) -> (res: SandboxInvocation)
        ensures
            res.container_name@ == container_name@,
            res.docker_args.deep_view() == run_args(
                container_name@,
                self.memory(),
                self.cpus(),
                environment@,
                None,
                runtime.test_command(
                    normalized_paths.deep_view().map_values(
                        |p: Seq<char>| path::mounted_at(environment@.workdir, p),
                    ),
                ),
            ),
            res.display_command@ == command_line("docker"@, res.docker_args.deep_view()),
    {
        let ghost wanted = normalized_paths.deep_view().map_values(
            |p: Seq<char>| path::mounted_at(environment@.workdir, p),
        );
        let mut container_paths: Vec<String> = Vec::new();
        let mut i: usize = 0;
        assert(container_paths.deep_view() =~= wanted.take(0));
        while i < normalized_paths.len()
            invariant
                i <= normalized_paths.len(),
                wanted == normalized_paths.deep_view().map_values(
                    |p: Seq<char>| path::mounted_at(environment@.workdir, p),
                ),
                container_paths.deep_view() == wanted.take(i as int),
            decreases normalized_paths.len() - i,
        {
            let ghost before = container_paths.deep_view();
            assert(normalized_paths.deep_view()[i as int] == normalized_paths@[i as int]@);
            container_paths.push(environment.container_path(normalized_paths[i].as_str()));
            assert(container_paths.deep_view() =~= before.push(wanted[i as int]));
            assert(wanted.take(i as int + 1) =~= wanted.take(i as int).push(wanted[i as int]));
            i += 1;
        }
        assert(wanted.take(wanted.len() as int) =~= wanted);
        let inner_command: Vec<String> = runtime.build_command(container_paths.as_slice());
        let docker_args: Vec<String> = build_run_args(
            container_name.as_str(),
            &self.config,
            environment,
            &None,
            inner_command,
        );
        let display_command = format_command("docker", docker_args.as_slice());
        SandboxInvocation { container_name, docker_args, display_command }
    }
}

// ---------------------------------------------------------------------------
// Laws of running tests
// ---------------------------------------------------------------------------
/// A source file runs with the runtime of its language.
pub proof fn lemma_runtime_of_language(path: Seq<char>)
    ensures
        syntax::language_of(path) == Some(syntax::SourceLanguage::Python) ==> runtime_for(path) == Ok::<
            SandboxRuntime,
            Seq<Seq<char>>,
        >(SandboxRuntime::Python),
        syntax::language_of(path) == Some(syntax::SourceLanguage::Go) ==> runtime_for(path) == Ok::<
            SandboxRuntime,
            Seq<Seq<char>>,
        >(SandboxRuntime::Go),
        syntax::language_of(path) == Some(syntax::SourceLanguage::TypeScript) || syntax::language_of(path)
            == Some(syntax::SourceLanguage::Tsx) ==> runtime_for(path) == Ok::<
            SandboxRuntime,
            Seq<Seq<char>>,
        >(SandboxRuntime::Deno),
        syntax::language_of(path) == Some(syntax::SourceLanguage::JavaScript) && posix::extension(path)
            != Some("jsx"@) ==> runtime_for(path) == Ok::<SandboxRuntime, Seq<Seq<char>>>(
            SandboxRuntime::Node,
        ),
        syntax::language_of(path) == Some(syntax::SourceLanguage::Rust) ==> runtime_for(path) is Err,
{
    reveal_strlit("js");
    reveal_strlit("mjs");
    reveal_strlit("cjs");
    reveal_strlit("ts");
    reveal_strlit("tsx");
    reveal_strlit("py");
    reveal_strlit("go");
    reveal_strlit("rs");
    assert("js"@ =~= seq!['j', 's']);
    assert("mjs"@ =~= seq!['m', 'j', 's']);
    assert("cjs"@ =~= seq!['c', 'j', 's']);
    assert("ts"@ =~= seq!['t', 's']);
    assert("tsx"@ =~= seq!['t', 's', 'x']);
    assert("py"@ =~= seq!['p', 'y']);
    assert("go"@ =~= seq!['g', 'o']);
    assert("rs"@ =~= seq!['r', 's']);
    if let Some(extension) = posix::extension(path) {
        if syntax::language_of(path) is Some && extension != "jsx"@ {
            assert forall|i: int| 0 <= i < extension.len() implies text::lower_char(
                #[trigger] extension[i],
            ) == extension[i] by {}
            assert(compose::lowered(extension) =~= extension);
            if extension == "js"@ {
                assert(extension[0] == 'j');
            }
            if extension == "ts"@ {
                assert(extension[0] == 't');
            }
            if extension == "py"@ {
                assert(extension[0] == 'p');
            }
            if extension == "go"@ {
                assert(extension[0] == 'g');
            }
            if extension == "rs"@ {
                assert(extension[0] == 'r');
                assert("js"@[0] == 'j' && "ts"@[0] == 't' && "py"@[0] == 'p' && "go"@[0] == 'g');
            }
            if extension == "tsx"@ {
                assert(extension[0] == 't');
                assert("mjs"@[0] == 'm' && "cjs"@[0] == 'c');
            }
        }
    }
}

/// Files have a common runtime exactly where there are some and each of them needs it.
pub proof fn lemma_common_runtime(paths: Seq<Seq<char>>, runtime: SandboxRuntime)
    ensures
        common_runtime(paths) == Ok::<SandboxRuntime, Seq<Seq<char>>>(runtime) <==> paths.len() > 0
            && forall|i: int|
            0 <= i < paths.len() ==> runtime_for(#[trigger] paths[i]) == Ok::<
                SandboxRuntime,
                Seq<Seq<char>>,
            >(runtime),
    decreases paths.len(),
{
    if paths.len() == 1 {
        assert(runtime_for(paths[0]) == common_runtime(paths));
    } else if paths.len() > 1 {
        let rest = paths.drop_last();
        let n = paths.len() - 1;
        lemma_common_runtime(rest, runtime);
        if common_runtime(paths) == Ok::<SandboxRuntime, Seq<Seq<char>>>(runtime) {
            assert forall|i: int| 0 <= i < paths.len() implies runtime_for(#[trigger] paths[i])
                == Ok::<SandboxRuntime, Seq<Seq<char>>>(runtime) by {
                if i < n {
                    assert(rest[i] == paths[i]);
                }
            }
        }
        if forall|i: int|
            0 <= i < paths.len() ==> runtime_for(#[trigger] paths[i]) == Ok::<
                SandboxRuntime,
                Seq<Seq<char>>,
            >(runtime) {
            assert forall|i: int| 0 <= i < rest.len() implies runtime_for(#[trigger] rest[i])
                == Ok::<SandboxRuntime, Seq<Seq<char>>>(runtime) by {
                assert(rest[i] == paths[i]);
            }
            assert(runtime_for(paths[n]) == Ok::<SandboxRuntime, Seq<Seq<char>>>(runtime));
        }
    }
}

/// The command that runs tests ends with all test files, in order; Go runs all tests there are.
pub proof fn lemma_tests_run(runtime: SandboxRuntime, paths: Seq<Seq<char>>)
    ensures
        runtime != SandboxRuntime::Go ==> {
            let command = runtime.test_command(paths);
            &&& command.len() > paths.len()
            &&& command.skip(command.len() - paths.len()) == paths
        },
        runtime == SandboxRuntime::Go ==> search::ends_with(
            runtime.test_command(paths).last(),
            " && go test ./..."@,
        ),
{
    let command = runtime.test_command(paths);
    if runtime == SandboxRuntime::Go {
        let script = command.last();
        let end = " && go test ./..."@;
        assert(script.skip(script.len() - end.len()) =~= end);
    } else {
        assert(command.skip(command.len() - paths.len()) =~= paths);
    }
}

/// A container runs the command in the image of the environment, with all mounts that it needs.
pub proof fn lemma_runs_command(
    container: Seq<char>,
    memory: Seq<char>,
    cpus: Seq<char>,
    environment: EnvironmentModel,
    extra_mount: Option<Seq<char>>,
    command: Seq<Seq<char>>,
)
    ensures
        ({
            let args = run_args(container, memory, cpus, environment, extra_mount, command);
            let n = args.len() - command.len();
            &&& args.skip(n) == command
            &&& args[n - 1] == environment.image
            &&& extra_mount matches Some(mount) ==> args[11] == "--mount"@ && args[12] == mount
            &&& environment.source_mount matches Some(mount) ==> args[n - 3] == "--mount"@ && args[n
                - 2] == mount
            &&& args[3] == container
            &&& args[10] == environment.workdir
        }),
{
    let args = run_args(container, memory, cpus, environment, extra_mount, command);
    assert(args.skip(args.len() - command.len()) =~= command);
}

/// Preparing an image copies the sources, which stay read-only, and ends with the installation.
pub proof fn lemma_warmup(
    source_root: Seq<char>,
    container: Seq<char>,
    memory: Seq<char>,
    cpus: Seq<char>,
    image: Seq<char>,
    install_command: Seq<char>,
)
    ensures
        warmup_args(source_root, container, memory, cpus, image, install_command) is Ok
            <==> posix::is_absolute(source_root),
        warmup_args(source_root, container, memory, cpus, image, install_command) matches Ok(args)
            ==> {
            &&& args.contains(image)
            &&& args.contains(container)
            &&& args.contains("--cap-drop=ALL"@)
            &&& exists|i: int|
                0 <= i < args.len() && search::ends_with(#[trigger] args[i], ",readonly"@)
                    && search::contains(args[i], ",source="@ + source_root)
            &&& search::ends_with(args.last(), install_command)
        },
{
    if let Ok(args) = warmup_args(source_root, container, memory, cpus, image, install_command) {
        path::lemma_readonly_mount(source_root, APP_SOURCE_MOUNT_POINT@);
        path::lemma_mount_names(source_root, APP_SOURCE_MOUNT_POINT@, true);
        assert(args[10] == image);
        assert(args[2] == container);
        assert(args[6] == "--cap-drop=ALL"@);
        assert(search::ends_with(args[9], ",readonly"@));
        let script = args.last();
        assert(script.skip(script.len() - install_command.len()) =~= install_command);
    }
}

/// Deno fetches what each of the files needs.
pub proof fn lemma_cache_command(paths: Seq<Seq<char>>, i: int)
    requires
        0 <= i < paths.len(),
    ensures
        search::contains(
            cache_command(paths),
            quoted(PREPARED_APP_MOUNT_POINT@ + "/"@ + paths[i]),
        ),
{
    let words = paths.map_values(
        |p: Seq<char>| quoted(path::mounted_at(PREPARED_APP_MOUNT_POINT@, p)),
    );
    let list = compose::join(words, " "@);
    compose::lemma_join_holds(words, " "@, i);
    let wanted = words[i];
    let k = choose|k: int| search::occurs_at(list, wanted, k);
    let start = "deno cache "@;
    let whole = start + list;
    let m = start.len() as int + k;
    assert(whole.subrange(m, m + wanted.len()) =~= list.subrange(k, k + wanted.len()));
    assert(search::occurs_at(whole, wanted, m));
}

/// A command is told with its program first and all its arguments.
pub proof fn lemma_command_line(program: Seq<char>, args: Seq<Seq<char>>, i: int)
    requires
        0 <= i < args.len(),
    ensures
        search::starts_with(command_line(program, args), program),
        search::contains(command_line(program, args), args[i]),
{
    let list = compose::join(args, " "@);
    let whole = command_line(program, args);
    compose::lemma_join_holds(args, " "@, i);
    assert(whole.take(program.len() as int) =~= program);
    let k = choose|k: int| search::occurs_at(list, args[i], k);
    let m = program.len() as int + " "@.len() + k;
    assert(whole.subrange(m, m + args[i].len()) =~= list.subrange(k, k + args[i].len()));
    assert(search::occurs_at(whole, args[i], m));
}

/// A failure is told by the errors of the command, and by its output only where it has none.
pub proof fn lemma_detail(a: Seq<char>, detail: Seq<char>, b: Seq<char>, other: Seq<char>)
    requires
        forall|k: int| 0 <= k < a.len() ==> text::is_white(#[trigger] a[k]),
        forall|k: int| 0 <= k < b.len() ==> text::is_white(#[trigger] b[k]),
        detail.len() > 0,
        !text::is_white(detail[0]),
        !text::is_white(detail.last()),
    ensures
        detail_of(a + detail + b, other) == detail,
        detail_of(a, a + detail + b) == detail,
{
    text::lemma_trimmed_around(a, detail, b);
    let part = text::lemma_trimmed_part(a);
    if part.0 < part.1 {
        assert(text::is_white(a[part.0]));
    }
    assert(text::is_blank(a));
}

/// The name of a container tells what it is for and the numbers that set it apart.
pub proof fn lemma_container_label(prefix: Seq<char>, process: nat, unique: nat)
    ensures
        search::starts_with(container_label(prefix, process, unique), "migration-pipeline-"@),
        search::contains(container_label(prefix, process, unique), compose::slug(prefix, "_.-"@)),
        search::ends_with(
            container_label(prefix, process, unique),
            "-"@ + compose::decimal(process) + "-"@ + compose::decimal(unique),
        ),
{
    search::lemma_parts_found();
    let label = container_label(prefix, process, unique);
    let start = "migration-pipeline-"@;
    let end = "-"@ + compose::decimal(process) + "-"@ + compose::decimal(unique);
    assert(label.take(start.len() as int) =~= start);
    assert(label.skip(label.len() - end.len()) =~= end);
}

/// Dependencies are installed exactly where the sources list some; Deno fetches them by the files.
pub proof fn lemma_install_command(
    runtime: SandboxRuntime,
    found: Manifests,
    paths: Seq<Seq<char>>,
)
    ensures
        runtime is Node ==> (runtime.install_command(found, paths) is Some <==> found.package_json),
        runtime is Python ==> (runtime.install_command(found, paths) is Some
            <==> found.requirements_txt || found.pyproject_toml || found.setup_py),
        runtime is Python && found.requirements_txt ==> search::ends_with(
            runtime.install_command(found, paths)->0,
            "requirements.txt"@,
        ),
        runtime is Go ==> (runtime.install_command(found, paths) is Some <==> found.go_mod),
        runtime is Deno ==> runtime.install_command(found, paths) == Some(cache_command(paths)),
{
    reveal_strlit("pip install --no-cache-dir -r requirements.txt");
    reveal_strlit("requirements.txt");
    let whole = "pip install --no-cache-dir -r requirements.txt"@;
    let end = "requirements.txt"@;
    assert(whole.skip(whole.len() - end.len()) =~= end);
}

/// Each runtime has an image of its own.
pub proof fn lemma_images_differ(a: SandboxRuntime, b: SandboxRuntime)
    ensures
        a.image() == b.image() <==> a == b,
{
    reveal_strlit("node:alpine");
    reveal_strlit("denoland/deno:alpine");
    reveal_strlit("python:alpine");
    reveal_strlit("golang:alpine");
    assert("node:alpine"@.len() == 11);
    assert("denoland/deno:alpine"@.len() == 20);
    assert("python:alpine"@.len() == 13 && "python:alpine"@[0] == 'p');
    assert("golang:alpine"@.len() == 13 && "golang:alpine"@[0] == 'g');
}

} // verus!
