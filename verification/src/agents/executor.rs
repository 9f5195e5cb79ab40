//! The agent that writes modern code for a ticket.
use crate::agents::ticket::{
    about_ticket, in_ticket, Agent, StatusModel, Ticket, TicketModel, TicketStatus,
};
use crate::agents::tools;
use crate::agents::tools::{list_schema, object_schema, typed_schema, ChatRequest};
use crate::compose;
use crate::compose::{join_list, replace_text, slug_text, to_lower};
use crate::config::calls::ToolSpec;
use crate::config::client;
use crate::config::client::{StructuredCall, ZeroClawClient};
use crate::config::routing;
use crate::config::routing::TaskKind;
use crate::config::schema;
use crate::failure;
use crate::failure::Failure;
use crate::json;
use crate::json::{push_entry, Json, JsonValue};
use crate::search;
use crate::search::{keep_non_empty, split, without_suffix};
use crate::skills::syntax;
use crate::text;
use crate::text::{blank, copy_list, is_listed, same, trim, CharClass};
use crate::utils::path;
use crate::utils::path::normalize_relative_path as normalize_portable_relative_path;
use crate::utils::posix;
use crate::utils::posix::{path_extension, path_join, path_parent, path_stem};
use vstd::prelude::*;

verus! {

pub const EXECUTOR_NAME: &'static str = "executor";

pub const DEFAULT_EXECUTOR_MODEL: &'static str = "minimax/minimax-m2.5";

// ---------------------------------------------------------------------------
// Extensions of target frameworks
// ---------------------------------------------------------------------------
/// The extension of source files for a framework.
pub open spec fn known_extension(key: Seq<char>) -> Option<Seq<char>> {
    if key == "react"@ || key == "next"@ || key == "next.js"@ || key == "tsx"@ {
        Some("tsx"@)
    } else if key == "typescript"@ || key == "node"@ || key == "node.js"@ || key == "nest"@ || key == "angular"@ {
        Some("ts"@)
    } else if key == "go"@ || key == "gin"@ || key == "fiber"@ {
        Some("go"@)
    } else if key == "rust"@ || key == "axum"@ || key == "actix"@ || key == "rocket"@ {
        Some("rs"@)
    } else if key == "python"@ || key == "django"@ || key == "fastapi"@ || key == "flask"@ {
        Some("py"@)
    } else if key == "c#"@ || key == ".net"@ || key == "asp.net"@ || key == "blazor"@ {
        Some("cs"@)
    } else if key == "java"@ || key == "spring"@ {
        Some("java"@)
    } else if key == "kotlin"@ || key == "ktor"@ {
        Some("kt"@)
    } else if key == "php"@ || key == "laravel"@ {
        Some("php"@)
    } else if key == "ruby"@ || key == "rails"@ {
        Some("rb"@)
    } else {
        None
    }
}

fn framework_extension(key: &str) -> (res: Option<&'static str>)
    ensures
        known_extension(key@) == match res {
            Some(extension) => Some(extension@),
            None => None,
        },
{
    if same(key, "react") || same(key, "next") || same(key, "next.js") || same(key, "tsx") {
        Some("tsx")
    } else if same(key, "typescript") || same(key, "node") || same(key, "node.js") || same(key, "nest") || same(key, "angular") {
        Some("ts")
    } else if same(key, "go") || same(key, "gin") || same(key, "fiber") {
        Some("go")
    } else if same(key, "rust") || same(key, "axum") || same(key, "actix") || same(key, "rocket") {
        Some("rs")
    } else if same(key, "python") || same(key, "django") || same(key, "fastapi") || same(key, "flask") {
        Some("py")
    } else if same(key, "c#") || same(key, ".net") || same(key, "asp.net") || same(key, "blazor") {
        Some("cs")
    } else if same(key, "java") || same(key, "spring") {
        Some("java")
    } else if same(key, "kotlin") || same(key, "ktor") {
        Some("kt")
    } else if same(key, "php") || same(key, "laravel") {
        Some("php")
    } else if same(key, "ruby") || same(key, "rails") {
        Some("rb")
    } else {
        None
    }
}

/// The keys with another one, unless it is empty or there already.
pub open spec fn with_key(keys: Seq<Seq<char>>, key: Seq<char>) -> Seq<Seq<char>> {
    if key.len() > 0 && !keys.contains(key) {
        keys.push(key)
    } else {
        keys
    }
}

/// The keys with those of a token: itself, and what it is without `.js` at its end.
pub open spec fn with_token(keys: Seq<Seq<char>>, token: Seq<char>) -> Seq<Seq<char>> {
    match search::strip_suffix(token, ".js"@) {
        Some(stripped) => with_key(with_key(keys, token), stripped),
        None => with_key(keys, token),
    }
}

pub open spec fn with_tokens(keys: Seq<Seq<char>>, tokens: Seq<Seq<char>>) -> Seq<Seq<char>>
    decreases tokens.len(),
{
    if tokens.len() == 0 {
        keys
    } else {
        with_token(with_tokens(keys, tokens.drop_last()), tokens.last())
    }
}

/// The keys under which a framework is looked up, in this order: its whole name, the name
/// without blanks, and each word of the name.
pub open spec fn lookup_keys(framework: Seq<char>) -> Seq<Seq<char>> {
    let name = compose::lowered(text::trimmed(framework));
    with_tokens(
        with_key(with_key(Seq::empty(), name), compose::replace_all(name, " "@, ""@)),
        search::split_by(name, text::non_keyword()).filter(search::non_empty()),
    )
}

/// The extension that the first of the keys that has one stands for.
pub open spec fn first_extension(keys: Seq<Seq<char>>) -> Option<Seq<char>>
    decreases keys.len(),
{
    if keys.len() == 0 {
        None
    } else if known_extension(keys[0]) is Some {
        known_extension(keys[0])
    } else {
        first_extension(keys.drop_first())
    }
}

/// The extension of files for the framework; without one, that of the source.
pub open spec fn extension_for(framework: Seq<char>, source: Option<Seq<char>>) -> Seq<char> {
    match first_extension(lookup_keys(framework)) {
        Some(extension) => extension,
        None => match source {
            Some(extension) => extension,
            None => "txt"@,
        },
    }
}

fn push_framework_key(keys: &mut Vec<String>, key: String)
    ensures
        final(keys).deep_view() == with_key(old(keys).deep_view(), key@),
{
    if !key.as_str().is_empty() && !is_listed(keys.as_slice(), key.as_str()) {
        let ghost before = keys.deep_view();
        keys.push(key);
        assert(keys.deep_view() =~= before.push(key@));
    }
}

pub fn framework_lookup_keys(target_framework: &str) -> (res: Vec<String>)
    ensures
        res.deep_view() == lookup_keys(target_framework@),
{
    proof {
        reveal_strlit(" ");
    }
    let normalized = to_lower(trim(target_framework).as_str());
    let mut keys: Vec<String> = Vec::new();
    assert(keys.deep_view() =~= Seq::empty());
    push_framework_key(&mut keys, normalized.clone());
    push_framework_key(&mut keys, replace_text(normalized.as_str(), " ", ""));
    let pieces: Vec<String> = split(normalized.as_str(), CharClass::NonKeyword);
    let tokens: Vec<String> = keep_non_empty(pieces.as_slice());
    let ghost start = keys.deep_view();
    let ghost all = tokens.deep_view();
    let mut i: usize = 0;
    assert(all.take(0) =~= Seq::empty());
    while i < tokens.len()
        invariant
            i <= tokens.len(),
            all == tokens.deep_view(),
            keys.deep_view() == with_tokens(start, all.take(i as int)),
        decreases tokens.len() - i,
    {
        proof {
            assert(all.take(i as int + 1).drop_last() == all.take(i as int));
            assert(all.take(i as int + 1).last() == tokens@[i as int]@);
        }
        push_framework_key(&mut keys, tokens[i].clone());
        if let Some(stripped_js) = without_suffix(tokens[i].as_str(), ".js") {
            push_framework_key(&mut keys, stripped_js);
        }
        i += 1;
    }
    assert(all.take(all.len() as int) == all);
    keys
}

pub fn target_extension(target_framework: &str, source_extension: Option<&str>) -> (res: String)
    ensures
        res@ == extension_for(
            target_framework@,
            match source_extension {
                Some(extension) => Some(extension@),
                None => None,
            },
        ),
{
    let keys: Vec<String> = framework_lookup_keys(target_framework);
    let ghost all = keys.deep_view();
    let mut i: usize = 0;
    assert(all.skip(0) =~= all);
    while i < keys.len()
        invariant
            i <= keys.len(),
            all == keys.deep_view(),
            all == lookup_keys(target_framework@),
            first_extension(all.skip(i as int)) == first_extension(all),
        decreases keys.len() - i,
    {
        proof {
            assert(all.skip(i as int)[0] == keys@[i as int]@);
            assert(all.skip(i as int).drop_first() =~= all.skip(i as int + 1));
        }
        if let Some(extension) = framework_extension(keys[i].as_str()) {
            return extension.to_owned();
        }
        i += 1;
    }
    match source_extension {
        Some(extension) => extension.to_owned(),
        None => "txt".to_owned(),
    }
}

// ---------------------------------------------------------------------------
// Paths of generated files
// ---------------------------------------------------------------------------
pub open spec fn generated_path(path: Seq<char>) -> Result<Seq<char>, Seq<Seq<char>>> {
    path::normalized(path, "generated file path"@)
}

pub fn normalize_relative_path(path: &str) -> (res: Result<String, Failure>)
    ensures
        routing::text_result(res) == generated_path(path@),
{
    normalize_portable_relative_path(path, "generated file path")
}

pub fn sanitize_for_filename(value: &str) -> (res: String)
    ensures
        res@ == compose::slug(value@, ""@),
{
    slug_text(value, "")
}

/// The name of a file before its extension, or a substitute.
pub open spec fn stem_or(path: Seq<char>, substitute: Seq<char>) -> Seq<char> {
    match posix::file_stem(path) {
        Some(stem) => if stem.len() > 0 {
            stem
        } else {
            substitute
        },
        None => substitute,
    }
}

pub open spec fn parent_or_none(path: Seq<char>) -> Seq<char> {
    match posix::parent(path) {
        Some(parent) => parent,
        None => ""@,
    }
}

/// The legacy file that a ticket is mainly about.
pub open spec fn primary_source(ticket: TicketModel) -> Seq<char> {
    if ticket.context_files.len() > 0 {
        ticket.context_files[0]
    } else {
        "generated/"@ + compose::slug(ticket.id, ""@) + ".txt"@
    }
}

/// Where the main generated file of a ticket is to stand: beside the legacy file, with the
/// extension of the target framework.
pub open spec fn output_path(ticket: TicketModel) -> Result<Seq<char>, Seq<Seq<char>>> {
    let source = primary_source(ticket);
    let name = stem_or(source, compose::slug(ticket.id, ""@)) + "."@ + extension_for(
        ticket.target_framework,
        posix::extension(source),
    );
    let parent = parent_or_none(source);
    generated_path(
        if parent.len() == 0 {
            name
        } else {
            posix::joined(parent, name)
        },
    )
}

pub open spec fn test_name(stem: Seq<char>, extension: Seq<char>) -> Seq<char> {
    if extension == "go"@ {
        stem + "_test."@ + extension
    } else if extension == "py"@ {
        "test_"@ + stem + "."@ + extension
    } else {
        stem + ".test."@ + extension
    }
}

/// Where the test of a generated file is to stand: under `tests`, in the same directory.
pub open spec fn test_output_path(source: Seq<char>) -> Result<Seq<char>, Seq<Seq<char>>> {
    let extension = match posix::extension(source) {
        Some(extension) => extension,
        None => "txt"@,
    };
    let parent = parent_or_none(source);
    let directory = if parent.len() == 0 {
        "tests"@
    } else {
        posix::joined("tests"@, parent)
    };
    generated_path(
        posix::joined(directory, test_name(stem_or(source, "generated"@), extension)),
    )
}

fn stem_text(path: &str, substitute: &str) -> (res: String)
    ensures
        res@ == stem_or(path@, substitute@),
{
    match path_stem(path) {
        Some(stem) => if stem.as_str().is_empty() {
            substitute.to_owned()
        } else {
            stem
        },
        None => substitute.to_owned(),
    }
}

fn parent_text(path: &str) -> (res: String)
    ensures
        res@ == parent_or_none(path@),
{
    match path_parent(path) {
        Some(parent) => parent,
        None => "".to_owned(),
    }
}

pub fn determine_output_relative_path(ticket: &Ticket) -> (res: Result<String, Failure>)
    ensures
        routing::text_result(res) == output_path(ticket@),
{
    let default_filename = sanitize_for_filename(ticket.id.as_str());
    assert(ticket@.context_files.len() == ticket.context_files@.len());
    let source: String = if ticket.context_files.len() > 0 {
        assert(ticket@.context_files[0] == ticket.context_files@[0]@);
        ticket.context_files[0].clone()
    } else {
        let mut out = "generated/".to_owned();
        out.append(default_filename.as_str());
        out.append(".txt");
        out
    };
    let source_extension: Option<String> = path_extension(source.as_str());
    let known: Option<&str> = match &source_extension {
        Some(extension) => Some(extension.as_str()),
        None => None,
    };
    let extension = target_extension(ticket.target_framework.as_str(), known);
    let mut name = stem_text(source.as_str(), default_filename.as_str());
    name.append(".");
    name.append(extension.as_str());
    let parent = parent_text(source.as_str());
    if parent.as_str().is_empty() {
        normalize_relative_path(name.as_str())
    } else {
        normalize_relative_path(path_join(parent.as_str(), name.as_str()).as_str())
    }
}

pub fn determine_test_output_relative_path(source_relative_path: &str) -> (res: Result<
    String,
    Failure,
>)
    ensures
        routing::text_result(res) == test_output_path(source_relative_path@),
{
    let extension: String = match path_extension(source_relative_path) {
        Some(extension) => extension,
        None => "txt".to_owned(),
    };
    let stem = stem_text(source_relative_path, "generated");
    let parent = parent_text(source_relative_path);
    let mut name: String;
    if same(extension.as_str(), "go") {
        name = stem;
        name.append("_test.");
    } else if same(extension.as_str(), "py") {
        name = "test_".to_owned();
        name.append(stem.as_str());
        name.append(".");
    } else {
        name = stem;
        name.append(".test.");
    }
    name.append(extension.as_str());
    let directory: String = if parent.as_str().is_empty() {
        "tests".to_owned()
    } else {
        path_join("tests", parent.as_str())
    };
    normalize_relative_path(path_join(directory.as_str(), name.as_str()).as_str())
}

// ---------------------------------------------------------------------------
// The agent
// ---------------------------------------------------------------------------
/// The agent for the second phase.
#[derive(Debug)]
pub struct ExecutorAgent {
    legacy_root: String,
    output_root: String,
    provider: String,
    model: String,
}

impl Agent for ExecutorAgent {
    open spec fn label(&self) -> Seq<char> {
        EXECUTOR_NAME@
    }

    closed spec fn model_name(&self) -> Seq<char> {
        self.model@
    }

    fn name(&self) -> (res: &str) {
        EXECUTOR_NAME
    }

    fn model(&self) -> (res: &str) {
        self.model.as_str()
    }
}

/// Where the legacy code of a ticket comes from: a text, or files that are to be read with the
/// arguments.
#[derive(Debug)]
pub enum ContextSource {
    Inline(String),
    Files(Vec<String>),
}

/// What the executor asks for, and where it wants the answer.
#[derive(Debug)]
pub struct ExecutorPlan {
    pub request: ChatRequest,
    pub source_path: String,
    pub test_path: String,
}

/// A generated file.
#[derive(Debug)]
pub struct GeneratedFile {
    pub path: String,
    pub content: String,
}

/// What a model hands over.
#[derive(Debug)]
pub struct GeneratedArtifactsPayload {
    pub source_files: Vec<GeneratedFile>,
    pub test_files: Vec<GeneratedFile>,
}

/// The paths of the files that were written.
#[derive(Debug)]
pub struct PersistedArtifacts {
    pub source_files: Vec<String>,
    pub test_files: Vec<String>,
}

pub const EXECUTOR_RULES: &'static str =
    " migrations.\nTranslate the provided legacy code into compile-ready source files and matching runnable tests.\nYou must respond by calling the provided tool exactly once.\nRules:\n1. Return both `source_files` and `test_files`.\n2. Each file `content` must be raw compile-ready source code.\n3. Tests run in a two-phase Docker sandbox: dependencies may be preinstalled during a warm-up step with temporary network access, but the actual execution phase has no network access.\n4. Include any required dependency manifests or lockfiles (for example `package.json`, `requirements.txt`, or `go.mod`) when the generated code relies on third-party packages.\n5. Use relative paths only.\n6. Preserve semantic behavior, data contracts, and side effects from the legacy code.\n7. Make the tests deterministic and self-contained.\n";

pub open spec fn system_prompt(framework: Seq<char>) -> Seq<char> {
    "You are a Senior Developer specializing in "@ + framework + EXECUTOR_RULES@
}

/// The entries in one line, or a substitute where there are none.
pub open spec fn listed_or(list: Seq<Seq<char>>, substitute: Seq<char>) -> Seq<char> {
    if list.len() == 0 {
        substitute
    } else {
        compose::join(list, ", "@)
    }
}

fn list_text(list: &[String], substitute: &str) -> (res: String)
    ensures
        res@ == listed_or(list.deep_view(), substitute@),
{
    assert(list.deep_view().len() == list@.len());
    if list.len() == 0 {
        substitute.to_owned()
    } else {
        join_list(list, ", ")
    }
}

pub open spec fn user_prompt(
    ticket: TicketModel,
    context: Seq<char>,
    source_path: Seq<char>,
    test_path: Seq<char>,
) -> Seq<char> {
    "Ticket ID: "@ + ticket.id + "\nTask: "@ + ticket.description + "\nTarget framework: "@
        + ticket.target_framework + "\nSuggested primary source path: "@ + source_path
        + "\nSuggested primary test path: "@ + test_path + "\nDependencies: "@ + listed_or(
        ticket.dependencies,
        "None"@,
    ) + "\nRelevant legacy files: "@ + listed_or(ticket.context_files, "legacy_snippet.txt"@)
        + "\nLegacy snippet anchor:\n"@ + ticket.legacy_code_snippet + "\n\nLegacy context:\n"@
        + context + "\n"@
}

/// The schema of a list of files.
pub open spec fn files_schema() -> Json {
    tools::list_of(
        tools::object_of(
            seq![("content"@, tools::typed("string"@)), ("path"@, tools::typed("string"@))],
            seq!["path"@, "content"@],
        ),
    )
}

pub open spec fn artifacts_schema() -> Json {
    tools::object_of(
        seq![("source_files"@, files_schema()), ("test_files"@, files_schema())],
        seq!["source_files"@, "test_files"@],
    )
}

/// The arguments with which a skill reads files below a root.
pub open spec fn reading_args(root: Seq<char>, paths: Seq<Seq<char>>) -> Seq<Seq<char>> {
    seq![root] + paths
}

pub fn args_for_reading(root: &str, paths: &[String]) -> (res: Vec<String>)
    ensures
        res.deep_view() == reading_args(root@, paths.deep_view()),
{
    let mut args: Vec<String> = Vec::new();
    args.push(root.to_owned());
    assert(args.deep_view() =~= seq![root@]);
    let mut rest: Vec<String> = copy_list(paths);
    let ghost tail = rest.deep_view();
    args.append(&mut rest);
    assert(args.deep_view() =~= seq![root@] + tail);
    args
}

pub fn file_array_schema() -> (res: JsonValue)
    ensures
        res@ == files_schema(),
{
    let mut fields: Vec<(String, JsonValue)> = Vec::new();
    assert(json::entries_model(fields@) =~= Seq::empty());
    push_entry(&mut fields, "content", typed_schema("string"));
    push_entry(&mut fields, "path", typed_schema("string"));
    assert(json::entries_model(fields@) =~= seq![
        ("content"@, tools::typed("string"@)),
        ("path"@, tools::typed("string"@)),
    ]);
    let required: Vec<&'static str> = vec!["path", "content"];
    assert(tools::names(required@) =~= seq!["path"@, "content"@]);
    list_schema(object_schema(fields, &required))
}

/// The ticket after the executor has worked on it.
pub open spec fn executed(
    ticket: TicketModel,
    outcome: Result<PersistedArtifacts, Failure>,
) -> TicketModel {
    match outcome {
        Ok(artifacts) => TicketModel {
            status: StatusModel::InProgress,
            modern_file_paths: artifacts.source_files.deep_view(),
            test_file_paths: artifacts.test_files.deep_view(),
            ..ticket
        },
        Err(error) => ticket.now(StatusModel::Failed(error@[0])),
    }
}

impl ExecutorAgent {
    pub closed spec fn provider_name(&self) -> Seq<char> {
        self.provider@
    }

    pub closed spec fn legacy(&self) -> Seq<char> {
        self.legacy_root@
    }

    pub closed spec fn output(&self) -> Seq<char> {
        self.output_root@
    }

    pub fn new(legacy_root: String, output_root: String, llm_client: &ZeroClawClient) -> (res: Self)
        ensures
            res.legacy() == legacy_root@,
            res.output() == output_root@,
            match client::config_for(llm_client.configs(), TaskKind::Executor) {
                Some(config) => res.model_name() == config.model && res.provider_name()
                    == config.provider,
                None => res.model_name() == "unconfigured"@ && res.provider_name()
                    == "unconfigured"@,
            },
    {
        ExecutorAgent {
            legacy_root,
            output_root,
            provider: llm_client.provider_for(TaskKind::Executor).to_owned(),
            model: llm_client.model_for(TaskKind::Executor).to_owned(),
        }
    }

    pub fn default_model() -> (res: &'static str)
        ensures
            res@ == DEFAULT_EXECUTOR_MODEL@,
    {
        DEFAULT_EXECUTOR_MODEL
    }

    pub fn provider(&self) -> (res: &str)
        ensures
            res@ == self.provider_name(),
    {
        self.provider.as_str()
    }

    /// Finds out where the legacy code of the ticket comes from.
    pub fn load_legacy_context(&self, ticket: &Ticket) -> (res: Result<ContextSource, Failure>)
        ensures
            if ticket@.context_files.len() > 0 {
                res matches Ok(ContextSource::Files(args)) && args.deep_view() == reading_args(
                    self.legacy(),
                    ticket@.context_files,
                )
            } else if text::is_blank(ticket@.legacy_code_snippet) {
                res matches Err(error) && error@ == failure::plain(
                    "ticket "@ + ticket@.id
                        + " does not contain context_files or a legacy_code_snippet"@,
                )
            } else {
                res matches Ok(ContextSource::Inline(text)) && text@
                    == "// File: legacy_snippet.txt\n"@ + ticket@.legacy_code_snippet
            },
    {
        assert(ticket@.context_files.len() == ticket.context_files@.len());
        if ticket.context_files.len() == 0 {
            if blank(ticket.legacy_code_snippet.as_str()) {
                let mut message = "ticket ".to_owned();
                message.append(ticket.id.as_str());
                message.append(" does not contain context_files or a legacy_code_snippet");
                return Err(Failure::new(message));
            }
            let mut context = "// File: legacy_snippet.txt\n".to_owned();
            context.append(ticket.legacy_code_snippet.as_str());
            return Ok(ContextSource::Inline(context));
        }
        Ok(
            ContextSource::Files(
                args_for_reading(self.legacy_root.as_str(), ticket.context_files.as_slice()),
            ),
        )
    }

    /// Plans the request for a ticket. `loaded` says whether the legacy code could be gathered,
    /// `context` is its text.
    pub fn plan_request(
        ticket: &Ticket,
        loaded: Result<(), Failure>,
        context: Result<String, Failure>,
    ) -> (res: Result<ExecutorPlan, Failure>)
        ensures
            match loaded {
                Err(cause) => res matches Err(error) && error@ == failure::in_context(
                    "failed to load legacy context for ticket "@ + ticket@.id,
                    cause@,
                ),
                Ok(_) => match output_path(ticket@) {
                    Err(chain) => res matches Err(error) && error@ == chain,
                    Ok(source) => match test_output_path(source) {
                        Err(chain) => res matches Err(error) && error@ == chain,
                        Ok(test) => match context {
                            Err(cause) => res matches Err(error) && error@
                                == failure::in_context(
                                "failed to build executor prompt for ticket "@ + ticket@.id,
                                cause@,
                            ),
                            Ok(text) => res matches Ok(plan) && plan.source_path@ == source
                                && plan.test_path@ == test && plan.request.system_prompt@
                                == system_prompt(ticket@.target_framework)
                                && plan.request.user_prompt@ == user_prompt(
                                ticket@,
                                text@,
                                source,
                                test,
                            ) && plan.request.tool.name@ == "submit_generated_artifacts"@
                                && plan.request.tool.description@
                                == "Return the generated modern source files and runnable tests"@
                                && plan.request.tool.parameters@ == artifacts_schema(),
                        },
                    },
                },
            },
    {
        if let Err(cause) = loaded {
            return Err(
                in_ticket(
                    cause,
                    "failed to load legacy context for ticket ",
                    ticket.id.as_str(),
                ),
            );
        }
        let source_path: String = match determine_output_relative_path(ticket) {
            Ok(path) => path,
            Err(error) => {
                return Err(error);
            },
        };
        let test_path: String = match determine_test_output_relative_path(source_path.as_str()) {
            Ok(path) => path,
            Err(error) => {
                return Err(error);
            },
        };
        match context {
            Err(cause) => Err(
                in_ticket(
                    cause,
                    "failed to build executor prompt for ticket ",
                    ticket.id.as_str(),
                ),
            ),
            Ok(text) => {
                let request = ChatRequest {
                    system_prompt: Self::system_prompt(ticket),
                    user_prompt: Self::user_prompt(
                        ticket,
                        text.as_str(),
                        source_path.as_str(),
                        test_path.as_str(),
                    ),
                    tool: Self::generated_artifacts_tool(),
                };
                Ok(ExecutorPlan { request, source_path, test_path })
            },
        }
    }

    pub fn system_prompt(ticket: &Ticket) -> (res: String)
        ensures
            res@ == system_prompt(ticket@.target_framework),
    {
        let mut out = "You are a Senior Developer specializing in ".to_owned();
        out.append(ticket.target_framework.as_str());
        out.append(EXECUTOR_RULES);
        out
    }

    pub fn user_prompt(
        ticket: &Ticket,
        legacy_context: &str,
        suggested_source_path: &str,
        suggested_test_path: &str,
    ) -> (res: String)
        ensures
            res@ == user_prompt(
                ticket@,
                legacy_context@,
                suggested_source_path@,
                suggested_test_path@,
            ),
    {
        let mut out = "Ticket ID: ".to_owned();
        out.append(ticket.id.as_str());
        out.append("\nTask: ");
        out.append(ticket.description.as_str());
        out.append("\nTarget framework: ");
        out.append(ticket.target_framework.as_str());
        out.append("\nSuggested primary source path: ");
        out.append(suggested_source_path);
        out.append("\nSuggested primary test path: ");
        out.append(suggested_test_path);
        out.append("\nDependencies: ");
        out.append(list_text(ticket.dependencies.as_slice(), "None").as_str());
        out.append("\nRelevant legacy files: ");
        out.append(list_text(ticket.context_files.as_slice(), "legacy_snippet.txt").as_str());
        out.append("\nLegacy snippet anchor:\n");
        out.append(ticket.legacy_code_snippet.as_str());
        out.append("\n\nLegacy context:\n");
        out.append(legacy_context);
        out.append("\n");
        out
    }

    pub fn generated_artifacts_tool() -> (res: ToolSpec)
        ensures
            res.name@ == "submit_generated_artifacts"@,
            res.description@ == "Return the generated modern source files and runnable tests"@,
            res.parameters@ == artifacts_schema(),
    {
        let mut fields: Vec<(String, JsonValue)> = Vec::new();
        assert(json::entries_model(fields@) =~= Seq::empty());
        push_entry(&mut fields, "source_files", file_array_schema());
        push_entry(&mut fields, "test_files", file_array_schema());
        assert(json::entries_model(fields@) =~= seq![
            ("source_files"@, files_schema()),
            ("test_files"@, files_schema()),
        ]);
        let required: Vec<&'static str> = vec!["source_files", "test_files"];
        assert(tools::names(required@) =~= seq!["source_files"@, "test_files"@]);
        ToolSpec {
            name: "submit_generated_artifacts".to_owned(),
            description: "Return the generated modern source files and runnable tests".to_owned(),
            parameters: object_schema(fields, &required),
        }
    }

    /// Takes the answer of the model. The ticket pays for it, whatever it holds. `payload` is
    /// what came of reading the arguments of its call.
    pub fn accept_answer(
        ticket: &mut Ticket,
        answer: Result<StructuredCall, Failure>,
        payload: Result<GeneratedArtifactsPayload, String>,
    ) -> (res: Result<GeneratedArtifactsPayload, Failure>)
        ensures
            match answer {
                Err(cause) => final(ticket)@ == old(ticket)@ && (res matches Err(error) && error@
                    == failure::in_context(
                    "executor model failed for ticket "@ + old(ticket)@.id,
                    cause@,
                )),
                Ok(call) => final(ticket)@ == old(ticket)@.charged(call.usage) && match payload {
                    Err(cause) => res matches Err(error) && error@ == call.unreadable(cause@),
                    Ok(given) => if given.source_files@.len() == 0 {
                        res matches Err(error) && error@ == failure::plain(
                            "executor returned no source files for ticket "@ + old(ticket)@.id,
                        )
                    } else if given.test_files@.len() == 0 {
                        res matches Err(error) && error@ == failure::plain(
                            "executor returned no test files for ticket "@ + old(ticket)@.id,
                        )
                    } else {
                        res matches Ok(taken) && taken == given
                    },
                },
            },
    {
        let call: StructuredCall = match answer {
            Ok(call) => call,
            Err(cause) => {
                return Err(
                    in_ticket(cause, "executor model failed for ticket ", ticket.id.as_str()),
                );
            },
        };
        ticket.record_llm_usage(&call.usage);
        let given: GeneratedArtifactsPayload = match call.deserialize_arguments(payload) {
            Ok(given) => given,
            Err(error) => {
                return Err(error);
            },
        };
        if given.source_files.len() == 0 {
            return Err(
                about_ticket("executor returned no source files for ticket ", ticket.id.as_str()),
            );
        }
        if given.test_files.len() == 0 {
            return Err(
                about_ticket("executor returned no test files for ticket ", ticket.id.as_str()),
            );
        }
        Ok(given)
    }

    /// Settles what the executor made of a ticket.
    pub fn process_ticket(ticket: Ticket, outcome: Result<PersistedArtifacts, Failure>) -> (res:
        Ticket)
        ensures
            res@ == executed(ticket@, outcome),
    {
        let mut updated = ticket;
        match outcome {
            Ok(artifacts) => {
                updated.status = TicketStatus::InProgress;
                updated.modern_file_paths = artifacts.source_files;
                updated.test_file_paths = artifacts.test_files;
            },
            Err(error) => {
                updated.fail(&error);
            },
        }
        updated
    }
}

// ---------------------------------------------------------------------------
// Writing generated files
// ---------------------------------------------------------------------------
/// Where a generated file goes, relative to the output, or why it is refused.
pub open spec fn placed(role: Seq<char>, id: Seq<char>, file: GeneratedFile) -> Result<
    Seq<char>,
    Seq<Seq<char>>,
> {
    if text::is_blank(file.content@) {
        Err(
            failure::plain(
                "executor returned empty "@ + role + " content for ticket "@ + id + " at path `"@
                    + file.path@ + "`"@,
            ),
        )
    } else {
        match generated_path(file.path@) {
            Ok(relative) => Ok(relative),
            Err(chain) => Err(
                failure::in_context(
                    "executor returned an invalid "@ + role + " file path for ticket "@ + id,
                    chain,
                ),
            ),
        }
    }
}

/// The places of files, each once, in the order of their first mention.
pub open spec fn places(role: Seq<char>, id: Seq<char>, files: Seq<GeneratedFile>) -> Seq<Seq<char>>
    decreases files.len(),
{
    if files.len() == 0 {
        Seq::empty()
    } else {
        let done = places(role, id, files.drop_last());
        match placed(role, id, files.last()) {
            Ok(relative) => if done.contains(relative) {
                done
            } else {
                done.push(relative)
            },
            Err(_) => done,
        }
    }
}

/// What is to be done next about generated files.
#[derive(Debug)]
pub enum PersistStep {
    Write(Vec<String>),
    Done(Vec<String>),
    Failed(Failure),
}

/// Writes generated files one after another.
#[derive(Debug)]
pub struct PersistRun {
    role: String,
    ticket_id: String,
    output_root: String,
    files: Vec<GeneratedFile>,
    next: usize,
    paths: Vec<String>,
}

fn place_file(role: &str, id: &str, file: &GeneratedFile) -> (res: Result<String, Failure>)
    ensures
        routing::text_result(res) == placed(role@, id@, *file),
{
    if blank(file.content.as_str()) {
        let mut message = "executor returned empty ".to_owned();
        message.append(role);
        message.append(" content for ticket ");
        message.append(id);
        message.append(" at path `");
        message.append(file.path.as_str());
        message.append("`");
        return Err(Failure::new(message));
    }
    match normalize_relative_path(file.path.as_str()) {
        Ok(relative) => Ok(relative),
        Err(cause) => {
            let mut message = "executor returned an invalid ".to_owned();
            message.append(role);
            message.append(" file path for ticket ");
            message.append(id);
            Err(cause.context(message))
        },
    }
}

impl PersistRun {
    pub closed spec fn kind(&self) -> Seq<char> {
        self.role@
    }

    pub closed spec fn ticket(&self) -> Seq<char> {
        self.ticket_id@
    }

    pub closed spec fn root(&self) -> Seq<char> {
        self.output_root@
    }

    pub closed spec fn all_files(&self) -> Seq<GeneratedFile> {
        self.files@
    }

    /// How many files were written.
    pub closed spec fn written(&self) -> nat {
        self.next as nat
    }

    #[verifier::type_invariant]
    spec fn well_formed(self) -> bool {
        &&& self.next <= self.files@.len()
        &&& self.paths.deep_view() == places(
            self.role@,
            self.ticket_id@,
            self.files@.take(self.next as int),
        )
    }

    /// Starts to write files of a ticket below the output directory.
    pub fn new(agent: &ExecutorAgent, role: &str, ticket: &Ticket, files: Vec<GeneratedFile>) -> (res:
        Self)
        ensures
            res.kind() == role@,
            res.ticket() == ticket@.id,
            res.root() == agent.output(),
            res.all_files() == files@,
            res.written() == 0,
    {
        let paths: Vec<String> = Vec::new();
        assert(paths.deep_view() =~= Seq::empty());
        assert(files@.take(0) =~= Seq::empty());
        PersistRun {
            role: role.to_owned(),
            ticket_id: ticket.id.clone(),
            output_root: agent.output_root.clone(),
            files,
            next: 0,
            paths,
        }
    }

    /// The next file has a place and is to be written.
    pub open spec fn is_writing(&self) -> bool {
        self.written() < self.all_files().len() && placed(
            self.kind(),
            self.ticket(),
            self.all_files()[self.written() as int],
        ) is Ok
    }

    /// What is to be done next. A file goes below the output directory.
    #[verifier::rlimit(60)]
    pub fn next_step(&self) -> (res: PersistStep)
        ensures
            if self.written() == self.all_files().len() {
                res matches PersistStep::Done(paths) && paths.deep_view() == places(
                    self.kind(),
                    self.ticket(),
                    self.all_files(),
                )
            } else {
                let file = self.all_files()[self.written() as int];
                match placed(self.kind(), self.ticket(), file) {
                    Ok(relative) => res matches PersistStep::Write(args) && args.deep_view()
                        == seq![posix::joined(self.root(), relative), file.content@],
                    Err(chain) => res matches PersistStep::Failed(error) && error@ == chain,
                }
            },
    {
        proof {
            use_type_invariant(self);
        }
        if self.next == self.files.len() {
            assert(self.files@.take(self.next as int) =~= self.files@);
            return PersistStep::Done(copy_list(self.paths.as_slice()));
        }
        let file = &self.files[self.next];
        match place_file(self.role.as_str(), self.ticket_id.as_str(), file) {
            Ok(relative) => {
                let mut args: Vec<String> = Vec::new();
                args.push(path_join(self.output_root.as_str(), relative.as_str()));
                args.push(file.content.clone());
                assert(args.deep_view() =~= seq![
                    posix::joined(self.output_root@, relative@),
                    file.content@,
                ]);
                PersistStep::Write(args)
            },
            Err(error) => PersistStep::Failed(error),
        }
    }

    /// Goes on after a file was written or not.
    pub fn record(self, outcome: Result<(), Failure>) -> (res: Result<Self, Failure>)
        requires
            self.is_writing(),
        ensures
            match outcome {
                Ok(_) => res matches Ok(run) && run.kind() == self.kind() && run.ticket()
                    == self.ticket() && run.root() == self.root() && run.all_files()
                    == self.all_files() && run.written() == self.written() + 1,
                Err(cause) => res matches Err(error) && error@ == failure::in_context(
                    "failed to persist generated "@ + self.kind() + " output `"@ + placed(
                        self.kind(),
                        self.ticket(),
                        self.all_files()[self.written() as int],
                    )->Ok_0 + "` for ticket "@ + self.ticket(),
                    cause@,
                ),
            },
    {
        proof {
            use_type_invariant(&self);
        }
        let relative: String = match place_file(
            self.role.as_str(),
            self.ticket_id.as_str(),
            &self.files[self.next],
        ) {
            Ok(relative) => relative,
            Err(error) => {
                return Err(error);
            },
        };
        if let Err(cause) = outcome {
            let mut message = "failed to persist generated ".to_owned();
            message.append(self.role.as_str());
            message.append(" output `");
            message.append(relative.as_str());
            message.append("` for ticket ");
            message.append(self.ticket_id.as_str());
            return Err(cause.context(message));
        }
        let ghost n = self.next as int;
        let count: usize = self.files.len();
        assert(self.next < count);
        proof {
            assert(self.files@.take(n + 1).drop_last() =~= self.files@.take(n));
            assert(self.files@.take(n + 1).last() == self.files@[n]);
        }
        let mut paths: Vec<String> = self.paths;
        let ghost before = paths.deep_view();
        if !is_listed(paths.as_slice(), relative.as_str()) {
            paths.push(relative);
            assert(paths.deep_view() =~= before.push(relative@));
        }
        Ok(
            PersistRun {
                role: self.role,
                ticket_id: self.ticket_id,
                output_root: self.output_root,
                files: self.files,
                next: self.next + 1,
                paths,
            },
        )
    }
}

/// The paths that are kept on a ticket are different from each other.
pub proof fn lemma_places_differ(role: Seq<char>, id: Seq<char>, files: Seq<GeneratedFile>)
    ensures
        places(role, id, files).no_duplicates(),
    decreases files.len(),
{
    if files.len() > 0 {
        lemma_places_differ(role, id, files.drop_last());
    }
}

/// Every file that was accepted is among the paths that are kept.
pub proof fn lemma_places_complete(
    role: Seq<char>,
    id: Seq<char>,
    files: Seq<GeneratedFile>,
    i: int,
)
    requires
        0 <= i < files.len(),
        placed(role, id, files[i]) is Ok,
    ensures
        places(role, id, files).contains(placed(role, id, files[i])->Ok_0),
    decreases files.len(),
{
    let relative = placed(role, id, files[i])->Ok_0;
    let done = places(role, id, files.drop_last());
    if i == files.len() - 1 {
        if !done.contains(relative) {
            assert(done.push(relative).last() == relative);
        }
    } else {
        assert(files.drop_last()[i] == files[i]);
        lemma_places_complete(role, id, files.drop_last(), i);
        let k = choose|k: int| 0 <= k < done.len() && done[k] == relative;
        assert(places(role, id, files)[k] == relative);
    }
}

// ---------------------------------------------------------------------------
// Laws of the executor
// ---------------------------------------------------------------------------
/// The files that were written are the files of the ticket, in their order; a failure changes
/// nothing but the status.
pub proof fn lemma_executed(ticket: TicketModel, outcome: Result<PersistedArtifacts, Failure>)
    ensures
        ({
            let after = executed(ticket, outcome);
            &&& outcome is Ok <==> after.status is InProgress
            &&& outcome is Err <==> after.status is Failed
            &&& outcome matches Ok(artifacts) ==> {
                &&& after.modern_file_paths.len() == artifacts.source_files@.len()
                &&& forall|i: int|
                    0 <= i < artifacts.source_files@.len()
                        ==> #[trigger] after.modern_file_paths[i] == artifacts.source_files@[i]@
                &&& after.test_file_paths.len() == artifacts.test_files@.len()
                &&& forall|i: int|
                    0 <= i < artifacts.test_files@.len() ==> #[trigger] after.test_file_paths[i]
                        == artifacts.test_files@[i]@
            }
            &&& outcome matches Err(error) ==> {
                &&& after.status == StatusModel::Failed(error@[0])
                &&& after.modern_file_paths == ticket.modern_file_paths
                &&& after.test_file_paths == ticket.test_file_paths
            }
            &&& after == (TicketModel {
                status: after.status,
                modern_file_paths: after.modern_file_paths,
                test_file_paths: after.test_file_paths,
                ..ticket
            })
        }),
{
}

/// The model is told of the ticket, of where its answer is wanted, and of all legacy code.
pub proof fn lemma_prompt_tells(
    ticket: TicketModel,
    context: Seq<char>,
    source_path: Seq<char>,
    test_path: Seq<char>,
)
    ensures
        ({
            let prompt = user_prompt(ticket, context, source_path, test_path);
            &&& search::contains(prompt, "Ticket ID: "@ + ticket.id)
            &&& search::contains(prompt, "\nTask: "@ + ticket.description)
            &&& search::contains(prompt, "\nTarget framework: "@ + ticket.target_framework)
            &&& search::contains(prompt, "\nSuggested primary source path: "@ + source_path)
            &&& search::contains(prompt, "\nSuggested primary test path: "@ + test_path)
            &&& ticket.dependencies.len() > 0 ==> search::contains(
                prompt,
                "\nDependencies: "@ + compose::join(ticket.dependencies, ", "@),
            )
            &&& ticket.context_files.len() > 0 ==> search::contains(
                prompt,
                "\nRelevant legacy files: "@ + compose::join(ticket.context_files, ", "@),
            )
            &&& search::contains(
                prompt,
                "\nLegacy snippet anchor:\n"@ + ticket.legacy_code_snippet,
            )
            &&& search::contains(prompt, "\n\nLegacy context:\n"@ + context)
        }),
{
    search::lemma_parts_found();
    let start = "Ticket ID: "@ + ticket.id;
    assert(Seq::<char>::empty() + start =~= start);
    assert(search::contains(Seq::<char>::empty() + start, start));
}

/// Reading asks for the root first, then for every path, in order.
pub proof fn lemma_reading_args(root: Seq<char>, paths: Seq<Seq<char>>)
    ensures
        reading_args(root, paths).len() == paths.len() + 1,
        reading_args(root, paths)[0] == root,
        forall|i: int|
            0 <= i < paths.len() ==> #[trigger] reading_args(root, paths)[i + 1] == paths[i],
{
}

/// A framework that is known by its name has the extension of that name, whatever the source.
pub proof fn lemma_known_framework(framework: Seq<char>, source: Option<Seq<char>>)
    requires
        text::trimmed(framework) == framework,
        compose::lowered(framework) == framework,
        framework.len() > 0,
        known_extension(framework) is Some,
    ensures
        extension_for(framework, source) == known_extension(framework)->0,
{
    let keys = lookup_keys(framework);
    let none = Seq::<Seq<char>>::empty();
    let first = with_key(none, framework);
    assert(!none.contains(framework));
    assert(first[0] == framework);
    let second = with_key(first, compose::replace_all(framework, " "@, ""@));
    assert(second[0] == framework);
    let tokens = search::split_by(framework, text::non_keyword()).filter(search::non_empty());
    lemma_tokens_keep(second, tokens);
    assert(keys[0] == framework);
}

proof fn lemma_tokens_keep(keys: Seq<Seq<char>>, tokens: Seq<Seq<char>>)
    ensures
        with_tokens(keys, tokens).len() >= keys.len(),
        forall|i: int|
            0 <= i < keys.len() ==> #[trigger] with_tokens(keys, tokens)[i] == keys[i],
    decreases tokens.len(),
{
    if tokens.len() > 0 {
        lemma_tokens_keep(keys, tokens.drop_last());
    }
}

/// The extension is that of the first key that stands for one; keys that stand for none do not
/// count.
pub proof fn lemma_first_extension(keys: Seq<Seq<char>>, i: int)
    requires
        0 <= i <= keys.len(),
        forall|j: int| 0 <= j < i ==> known_extension(#[trigger] keys[j]) is None,
        i < keys.len() ==> known_extension(keys[i]) is Some,
    ensures
        first_extension(keys) == if i < keys.len() {
            known_extension(keys[i])
        } else {
            None
        },
    decreases keys.len(),
{
    if i > 0 {
        let rest = keys.drop_first();
        assert(known_extension(keys[0]) is None);
        assert forall|j: int| 0 <= j < i - 1 implies known_extension(#[trigger] rest[j]) is None by {
            assert(rest[j] == keys[j + 1]);
        }
        assert(i < keys.len() ==> rest[i - 1] == keys[i]);
        lemma_first_extension(rest, i - 1);
    }
}

/// Without a key that stands for an extension, the generated file has the extension of the source.
pub proof fn lemma_unknown_framework(framework: Seq<char>, source: Option<Seq<char>>)
    requires
        forall|j: int|
            0 <= j < lookup_keys(framework).len() ==> known_extension(
                #[trigger] lookup_keys(framework)[j],
            ) is None,
    ensures
        source matches Some(extension) ==> extension_for(framework, source) == extension,
        source is None ==> extension_for(framework, source) == "txt"@,
{
    lemma_first_extension(lookup_keys(framework), lookup_keys(framework).len() as int);
}

/// The path of a file: the names of its directories, its stem and its extension.
pub open spec fn file_at(
    directories: Seq<Seq<char>>,
    stem: Seq<char>,
    extension: Seq<char>,
) -> Seq<char> {
    compose::join(directories.push(stem + "."@ + extension), "/"@)
}

/// A path that can be given from outside and means what it says.
pub open spec fn is_plain(
    directories: Seq<Seq<char>>,
    stem: Seq<char>,
    extension: Seq<char>,
) -> bool {
    &&& stem.len() > 0
    &&& !extension.contains('.')
    &&& forall|i: int|
        0 <= i <= directories.len() ==> path::is_portable(
            #[trigger] directories.push(stem + "."@ + extension)[i],
        )
    &&& text::trimmed(file_at(directories, stem, extension)) == file_at(
        directories,
        stem,
        extension,
    )
    &&& !path::has_windows_prefix(file_at(directories, stem, extension))
}

/// The main generated file stands where the first legacy file of the ticket stands, under its
/// name, with the extension for the framework.
pub proof fn lemma_output_path(
    ticket: TicketModel,
    directories: Seq<Seq<char>>,
    stem: Seq<char>,
    extension: Seq<char>,
)
    requires
        ticket.context_files.len() > 0,
        ticket.context_files[0] == file_at(directories, stem, extension),
        is_plain(directories, stem, extension),
        is_plain(directories, stem, extension_for(ticket.target_framework, Some(extension))),
    ensures
        output_path(ticket) == Ok::<Seq<char>, Seq<Seq<char>>>(
            file_at(directories, stem, extension_for(ticket.target_framework, Some(extension))),
        ),
{
    reveal_strlit(".");
    reveal_strlit("/");
    assert("."@ =~= seq!['.']);
    assert("/"@ =~= seq!['/']);
    let source = ticket.context_files[0];
    let wanted = extension_for(ticket.target_framework, Some(extension));
    lemma_file_parts(directories, stem, extension);
    let name = stem + "."@ + wanted;
    let names = directories.push(name);
    lemma_placed_in(directories, name);
    path::lemma_normalized_names(names, '/', "generated file path"@);
}

proof fn lemma_file_parts(
    directories: Seq<Seq<char>>,
    stem: Seq<char>,
    extension: Seq<char>,
)
    requires
        is_plain(directories, stem, extension),
    ensures
        posix::file_stem(file_at(directories, stem, extension)) == Some(stem),
        posix::extension(file_at(directories, stem, extension)) == Some(extension),
        posix::parent(file_at(directories, stem, extension)) == Some(
            compose::join(directories, "/"@),
        ),
{
    reveal_strlit(".");
    assert("."@ =~= seq!['.']);
    let names = directories.push(stem + "."@ + extension);
    assert(posix::are_names(names)) by {
        assert forall|i: int| 0 <= i < names.len() implies posix::is_name(#[trigger] names[i]) by {
            assert(path::is_portable(names[i]));
        }
    }
    posix::lemma_file_name_of_names(names);
    posix::lemma_parent_of_names(names);
    posix::lemma_name_parts(stem, extension);
    assert(names.drop_last() =~= directories);
}

/// A name in a directory has the names of the directory before it.
proof fn lemma_placed_in(directories: Seq<Seq<char>>, name: Seq<char>)
    requires
        forall|i: int| 0 <= i <= directories.len() ==> path::is_portable(
            #[trigger] directories.push(name)[i],
        ),
    ensures
        directories.len() == 0 ==> compose::join(directories, "/"@).len() == 0
            && compose::join(directories.push(name), "/"@) == name,
        directories.len() > 0 ==> compose::join(directories, "/"@).len() > 0 && posix::joined(
            compose::join(directories, "/"@),
            name,
        ) == compose::join(directories.push(name), "/"@),
{
    let names = directories.push(name);
    if directories.len() == 0 {
        assert(names =~= seq![name]);
    } else {
        assert(posix::are_names(directories)) by {
            assert forall|i: int| 0 <= i < directories.len() implies posix::is_name(
                #[trigger] directories[i],
            ) by {
                assert(path::is_portable(names[i]));
            }
        }
        assert(posix::are_names(seq![name])) by {
            assert(path::is_portable(names[directories.len() as int]));
        }
        posix::lemma_joined_names(directories, seq![name]);
        assert(compose::join(seq![name], "/"@) == name);
        assert(directories + seq![name] =~= names);
        compose::lemma_join_len(directories, "/"@, 0);
        assert(path::is_portable(names[0]));
    }
}

/// The test of a generated file stands below the tests, in the directories of the file, under a
/// name that the extension gives.
pub proof fn lemma_test_output_path(
    directories: Seq<Seq<char>>,
    stem: Seq<char>,
    extension: Seq<char>,
)
    requires
        is_plain(directories, stem, extension),
        forall|i: int|
            0 <= i <= directories.len() + 1 ==> path::is_portable(
                #[trigger] (seq!["tests"@] + directories).push(test_name(stem, extension))[i],
            ),
        text::trimmed(
            compose::join(
                (seq!["tests"@] + directories).push(test_name(stem, extension)),
                "/"@,
            ),
        ) == compose::join(
            (seq!["tests"@] + directories).push(test_name(stem, extension)),
            "/"@,
        ),
    ensures
        test_output_path(file_at(directories, stem, extension)) == Ok::<
            Seq<char>,
            Seq<Seq<char>>,
        >(
            compose::join(
                (seq!["tests"@] + directories).push(test_name(stem, extension)),
                "/"@,
            ),
        ),
{
    reveal_strlit("tests");
    reveal_strlit("/");
    assert("/"@ =~= seq!['/']);
    let name = test_name(stem, extension);
    let under = seq!["tests"@] + directories;
    let names = under.push(name);
    lemma_file_parts(directories, stem, extension);
    lemma_placed_in(under, name);
    assert(posix::are_names(under)) by {
        assert forall|i: int| 0 <= i < under.len() implies posix::is_name(#[trigger] under[i]) by {
            assert(path::is_portable(names[i]));
        }
    }
    let parent = compose::join(directories, "/"@);
    if directories.len() == 0 {
        assert(under =~= seq!["tests"@]);
        assert(parent.len() == 0);
    } else {
        assert(posix::are_names(directories)) by {
            assert forall|i: int| 0 <= i < directories.len() implies posix::is_name(
                #[trigger] directories[i],
            ) by {
                assert(directories[i] == under[i + 1]);
            }
        }
        assert(posix::are_names(seq!["tests"@])) by {
            assert(under[0] == "tests"@);
        }
        posix::lemma_joined_names(seq!["tests"@], directories);
        assert(compose::join(seq!["tests"@], "/"@) == "tests"@);
        compose::lemma_join_len(directories, "/"@, 0);
        assert(posix::is_name(directories[0]));
    }
    let whole = compose::join(names, "/"@);
    compose::lemma_join_first(names, "/"@);
    assert(names[0] == "tests"@);
    assert(whole[1] == 'e');
    path::lemma_normalized_names(names, '/', "generated file path"@);
}

/// Files for a framework of a language are source files of that language.
pub proof fn lemma_framework_language(
    directories: Seq<Seq<char>>,
    stem: Seq<char>,
    key: Seq<char>,
)
    requires
        known_extension(key) is Some,
        is_plain(directories, stem, known_extension(key)->0),
    ensures
        ({
            let language = syntax::language_of(
                file_at(directories, stem, known_extension(key)->0),
            );
            &&& key == "python"@ || key == "django"@ || key == "fastapi"@ || key == "flask"@
                ==> language == Some(syntax::SourceLanguage::Python)
            &&& key == "go"@ || key == "gin"@ || key == "fiber"@ ==> language == Some(
                syntax::SourceLanguage::Go,
            )
            &&& key == "rust"@ || key == "axum"@ || key == "actix"@ || key == "rocket"@ ==> language
                == Some(syntax::SourceLanguage::Rust)
            &&& key == "typescript"@ || key == "node"@ || key == "node.js"@ || key == "nest"@ || key
                == "angular"@ ==> language == Some(syntax::SourceLanguage::TypeScript)
            &&& key == "react"@ || key == "next"@ || key == "next.js"@ || key == "tsx"@ ==> language
                == Some(syntax::SourceLanguage::Tsx)
        }),
{
    lemma_file_parts(directories, stem, known_extension(key)->0);
    lemma_extensions(key);
}

proof fn lemma_extensions(key: Seq<char>)
    ensures
        key == "python"@ || key == "django"@ || key == "fastapi"@ || key == "flask"@
            ==> known_extension(key) == Some("py"@),
        key == "go"@ || key == "gin"@ || key == "fiber"@ ==> known_extension(key) == Some("go"@),
        key == "rust"@ || key == "axum"@ || key == "actix"@ || key == "rocket"@
            ==> known_extension(key) == Some("rs"@),
        key == "typescript"@ || key == "node"@ || key == "node.js"@ || key == "nest"@ || key
            == "angular"@ ==> known_extension(key) == Some("ts"@),
        key == "react"@ || key == "next"@ || key == "next.js"@ || key == "tsx"@
            ==> known_extension(key) == Some("tsx"@),
        "py"@.len() == 2 && "go"@.len() == 2 && "rs"@.len() == 2 && "ts"@.len() == 2,
        "py"@[0] == 'p' && "go"@[0] == 'g' && "rs"@[0] == 'r' && "ts"@[0] == 't',
        "tsx"@.len() == 3 && "tsx"@[0] == 't',
        "js"@.len() == 2 && "js"@[0] == 'j',
        "mjs"@.len() == 3 && "mjs"@[0] == 'm',
        "cjs"@.len() == 3 && "cjs"@[0] == 'c',
        "jsx"@.len() == 3 && "jsx"@[0] == 'j',
{
    reveal_strlit("py");
    reveal_strlit("go");
    reveal_strlit("rs");
    reveal_strlit("ts");
    reveal_strlit("tsx");
    reveal_strlit("js");
    reveal_strlit("mjs");
    reveal_strlit("cjs");
    reveal_strlit("jsx");
    reveal_strlit("python");
    reveal_strlit("django");
    reveal_strlit("fastapi");
    reveal_strlit("flask");
    reveal_strlit("gin");
    reveal_strlit("fiber");
    reveal_strlit("rust");
    reveal_strlit("axum");
    reveal_strlit("actix");
    reveal_strlit("rocket");
    reveal_strlit("typescript");
    reveal_strlit("node");
    reveal_strlit("node.js");
    reveal_strlit("nest");
    reveal_strlit("angular");
    reveal_strlit("react");
    reveal_strlit("next");
    reveal_strlit("next.js");
    assert("python"@.len() == 6 && "python"@[0] == 'p');
    assert("django"@.len() == 6 && "django"@[0] == 'd');
    assert("fastapi"@.len() == 7 && "fastapi"@[0] == 'f');
    assert("flask"@.len() == 5 && "flask"@[0] == 'f' && "flask"@[1] == 'l');
    assert("gin"@.len() == 3 && "gin"@[0] == 'g');
    assert("fiber"@.len() == 5 && "fiber"@[0] == 'f' && "fiber"@[1] == 'i');
    assert("rust"@.len() == 4 && "rust"@[0] == 'r');
    assert("axum"@.len() == 4 && "axum"@[0] == 'a');
    assert("actix"@.len() == 5 && "actix"@[0] == 'a');
    assert("rocket"@.len() == 6 && "rocket"@[0] == 'r');
    assert("typescript"@.len() == 10);
    assert("node"@.len() == 4 && "node"@[1] == 'o' && "node"@[0] == 'n');
    assert("node.js"@.len() == 7 && "node.js"@[0] == 'n' && "node.js"@[1] == 'o');
    assert("nest"@.len() == 4 && "nest"@[0] == 'n' && "nest"@[2] == 's');
    assert("angular"@.len() == 7 && "angular"@[0] == 'a');
    assert("react"@.len() == 5 && "react"@[0] == 'r');
    assert("next"@.len() == 4 && "next"@[0] == 'n' && "next"@[2] == 'x' && "next"@[1] == 'e');
    assert("next.js"@.len() == 7 && "next.js"@[0] == 'n' && "next.js"@[1] == 'e');
}

/// The name of a test holds the name of the file and has its extension.
pub proof fn lemma_test_name(stem: Seq<char>, extension: Seq<char>)
    ensures
        search::contains(test_name(stem, extension), stem),
        search::ends_with(test_name(stem, extension), extension),
        extension == "go"@ ==> search::ends_with(test_name(stem, extension), "_test."@ + extension),
        extension == "py"@ ==> search::starts_with(test_name(stem, extension), "test_"@),
{
    search::lemma_parts_found();
    reveal_strlit("go");
    reveal_strlit("py");
    assert("go"@[0] == 'g' && "py"@[0] == 'p');
    let name = test_name(stem, extension);
    assert(name.skip(name.len() - extension.len()) =~= extension);
    if extension == "go"@ {
        let end = "_test."@ + extension;
        assert(name.skip(name.len() - end.len()) =~= end);
        assert(Seq::<char>::empty() + stem =~= stem);
        assert(search::contains(Seq::<char>::empty() + stem, stem));
    } else if extension == "py"@ {
        assert(name.take("test_"@.len() as int) =~= "test_"@);
    } else {
        assert(Seq::<char>::empty() + stem =~= stem);
        assert(search::contains(Seq::<char>::empty() + stem, stem));
    }
}

/// The value lists files, each with its path and its content.
pub open spec fn lists_files(value: Json) -> bool {
    &&& value is List
    &&& forall|i: int|
        0 <= i < value->List_0.len() ==> (#[trigger] value->List_0[i]) is Record && json::has_key(
            value->List_0[i]->Record_0,
            "path"@,
        ) && json::has_key(value->List_0[i]->Record_0, "content"@)
}

/// Artifacts that are accepted list source files and test files.
pub proof fn lemma_artifacts_demands(value: Json)
    requires
        schema::meets(value, artifacts_schema()),
    ensures
        value is Record,
        json::entry(value->Record_0, "source_files"@) is Some,
        lists_files(json::entry(value->Record_0, "source_files"@)->0),
        json::entry(value->Record_0, "test_files"@) is Some,
        lists_files(json::entry(value->Record_0, "test_files"@)->0),
{
    let whole = seq![("source_files"@, files_schema()), ("test_files"@, files_schema())];
    let required = seq!["source_files"@, "test_files"@];
    assert(artifacts_schema() == tools::object_of(whole, required));
    assert(required[0] == whole[0].0 && required[1] == whole[1].0);
    assert(required.contains(required[0]) && required.contains(required[1]));
    tools::lemma_property(value, whole, required, 0);
    tools::lemma_property(value, whole, required, 1);
    lemma_files_listed(json::entry(value->Record_0, "source_files"@)->0);
    lemma_files_listed(json::entry(value->Record_0, "test_files"@)->0);
}

proof fn lemma_files_listed(value: Json)
    requires
        schema::meets(value, files_schema()),
    ensures
        lists_files(value),
{
    let fields = seq![
        ("content"@, tools::typed("string"@)),
        ("path"@, tools::typed("string"@)),
    ];
    let required = seq!["path"@, "content"@];
    let file = tools::object_of(fields, required);
    tools::lemma_list_of(value, file);
    assert forall|i: int| 0 <= i < value->List_0.len() implies (
    #[trigger] value->List_0[i]) is Record && json::has_key(
        value->List_0[i]->Record_0,
        "path"@,
    ) && json::has_key(value->List_0[i]->Record_0, "content"@) by {
        let item = value->List_0[i];
        assert(schema::meets(item, file));
        tools::lemma_object_of(item, fields, required);
        assert(required[0] == "path"@ && required[1] == "content"@);
        assert(required.contains(required[0]) && required.contains(required[1]));
    }
}

proof fn lemma_key_added(keys: Seq<Seq<char>>, key: Seq<char>, other: Seq<char>)
    ensures
        with_key(keys, key).contains(other) <==> keys.contains(other) || other == key && key.len()
            > 0,
        keys.no_duplicates() ==> with_key(keys, key).no_duplicates(),
{
    let all = with_key(keys, key);
    if key.len() > 0 && !keys.contains(key) {
        assert(all[keys.len() as int] == key);
        if keys.contains(other) {
            let i = choose|i: int| 0 <= i < keys.len() && keys[i] == other;
            assert(all[i] == other);
        }
        if all.contains(other) {
            let i = choose|i: int| 0 <= i < all.len() && all[i] == other;
            if i < keys.len() {
                assert(keys[i] == other);
            }
        }
    }
}

/// The key stands for the token: it is the token, or the token without `.js` at its end.
pub open spec fn stands_for(key: Seq<char>, token: Seq<char>) -> bool {
    key.len() > 0 && (key == token || token == key + ".js"@)
}

proof fn lemma_token_added(keys: Seq<Seq<char>>, token: Seq<char>, key: Seq<char>)
    ensures
        with_token(keys, token).contains(key) <==> keys.contains(key) || stands_for(key, token),
        keys.no_duplicates() ==> with_token(keys, token).no_duplicates(),
{
    let end = ".js"@;
    lemma_key_added(keys, token, key);
    if let Some(stripped) = search::strip_suffix(token, end) {
        lemma_key_added(with_key(keys, token), stripped, key);
        assert(token =~= stripped + end);
        if token == key + end {
            assert(key =~= stripped);
        }
    } else {
        if token == key + end {
            assert(token.skip(token.len() - end.len()) =~= end);
        }
    }
}

/// The tokens of a framework add the keys that stand for them, each once, and no others.
pub proof fn lemma_tokens_added(keys: Seq<Seq<char>>, tokens: Seq<Seq<char>>, key: Seq<char>)
    ensures
        with_tokens(keys, tokens).contains(key) <==> keys.contains(key) || exists|i: int|
            0 <= i < tokens.len() && stands_for(key, #[trigger] tokens[i]),
        keys.no_duplicates() ==> with_tokens(keys, tokens).no_duplicates(),
    decreases tokens.len(),
{
    if tokens.len() > 0 {
        let rest = tokens.drop_last();
        let n = tokens.len() - 1;
        lemma_tokens_added(keys, rest, key);
        lemma_token_added(with_tokens(keys, rest), tokens.last(), key);
        if exists|i: int| 0 <= i < rest.len() && stands_for(key, #[trigger] rest[i]) {
            let i = choose|i: int| 0 <= i < rest.len() && stands_for(key, #[trigger] rest[i]);
            assert(stands_for(key, tokens[i]));
        }
        if stands_for(key, tokens.last()) {
            assert(stands_for(key, tokens[n]));
        }
        if exists|i: int| 0 <= i < tokens.len() && stands_for(key, #[trigger] tokens[i]) {
            let i = choose|i: int| 0 <= i < tokens.len() && stands_for(key, #[trigger] tokens[i]);
            if i < n {
                assert(stands_for(key, rest[i]));
            }
        }
    }
}

/// A framework of several words is looked up under each of them.
pub proof fn lemma_words_are_keys(words: Seq<Seq<char>>, i: int)
    requires
        0 <= i < words.len(),
        forall|j: int| 0 <= j < words.len() ==> (#[trigger] words[j]).len() > 0,
        forall|j: int, k: int|
            0 <= j < words.len() && 0 <= k < words[j].len() ==> !text::non_keyword()(
                #[trigger] words[j][k],
            ),
        text::trimmed(compose::join(words, " "@)) == compose::join(words, " "@),
        compose::lowered(compose::join(words, " "@)) == compose::join(words, " "@),
    ensures
        lookup_keys(compose::join(words, " "@)).contains(words[i]),
        lookup_keys(compose::join(words, " "@)).no_duplicates(),
{
    reveal_strlit(" ");
    assert(" "@ =~= seq![' ']);
    let name = compose::join(words, " "@);
    search::lemma_split_of_join(words, ' ', text::non_keyword());
    assert forall|j: int| 0 <= j < words.len() implies search::non_empty()(
        #[trigger] words[j],
    ) by {}
    search::lemma_filter_all(words, search::non_empty());
    let none = Seq::<Seq<char>>::empty();
    let first = with_key(none, name);
    let second = with_key(first, compose::replace_all(name, " "@, ""@));
    lemma_key_added(none, name, words[i]);
    lemma_key_added(first, compose::replace_all(name, " "@, ""@), words[i]);
    assert(none.no_duplicates());
    lemma_tokens_added(second, words, words[i]);
    assert(stands_for(words[i], words[i]));
}

} // verus!
