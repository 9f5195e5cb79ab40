//! The start-up menus: their entries, the settings file, and the roots of a migration.
use crate::compose;
use crate::compose::{join_list, replace_text, split_lines};
use crate::config::routing;
use crate::config::routing::{
    EnvReading, ReadingModel, DEFAULT_DOCKER_SANDBOX_CPUS, DEFAULT_DOCKER_SANDBOX_MEMORY,
};
use crate::failure;
use crate::failure::Failure;
use crate::pipeline;
use crate::pipeline::env_value_or;
use crate::search;
use crate::search::{has_prefix, split_at_text, without_prefix};
use crate::skills::file_io::FileState;
use crate::text;
use crate::text::{blank, same, trim, trim_start};
use crate::utils::posix;
use crate::utils::posix::{absolute, path_components, path_join};
use vstd::prelude::*;

verus! {

pub const ENV_FILE: &'static str = ".env";

/// Another name for a file of tickets. The pipeline reads and writes no such file, but to clear
/// the state removes it too, so that no ticket is left under either name.
pub const STATE_DB_FILE: &'static str = ".migration_state.db";

/// Where the pipeline stores its tickets: a database that holds each of them as JSON text.
pub const STATE_JSON_FILE: &'static str = ".migration_state.json";

pub const PIPELINE_LEGACY_ROOT_ENV: &'static str = "PIPELINE_LEGACY_ROOT";

pub const PIPELINE_MODERN_ROOT_ENV: &'static str = "PIPELINE_MODERN_ROOT";

pub const DEFAULT_NONINTERACTIVE_LEGACY_ROOT: &'static str = "legacy_app";

pub const DEFAULT_MODERN_ROOT: &'static str = "./modern_app";

pub const BLUEPRINTER_MODEL_ENV: &'static str = "BLUEPRINTER_MODEL";

pub const EXECUTOR_MODEL_ENV: &'static str = "EXECUTOR_MODEL";

pub const VERIFIER_MODEL_ENV: &'static str = "VERIFIER_MODEL";

pub const SURGEON_MODEL_ENV: &'static str = "SURGEON_MODEL";

pub const CUSTOM_MODEL: &'static str = "Custom model...";

pub const CURRENT_MODEL: &'static str = "Current: ";

pub const SAME_ROOTS: &'static str =
    "modernized output directory must differ from the legacy codebase directory";

// ---------------------------------------------------------------------------
// Menus
// ---------------------------------------------------------------------------
#[derive(Debug, Clone, Copy, PartialEq, Eq, Structural)]
pub enum MainMenuAction {
    StartMigration,
    SettingsAndConfiguration,
    Exit,
}

#[derive(Debug, Clone, Copy, PartialEq, Eq, Structural)]
pub enum SettingsMenuAction {
    ManageApiKeys,
    ConfigureTaskModels,
    ConfigureDockerLimits,
    BackToMainMenu,
}

impl MainMenuAction {
    /// The entry in the menu.
    pub fn label(self) -> (res: &'static str)
        ensures
            res@ == match self {
                MainMenuAction::StartMigration => "Start Migration"@,
                MainMenuAction::SettingsAndConfiguration => "Settings & Configuration"@,
                MainMenuAction::Exit => "Exit"@,
            },
    {
        match self {
            MainMenuAction::StartMigration => "Start Migration",
            MainMenuAction::SettingsAndConfiguration => "Settings & Configuration",
            MainMenuAction::Exit => "Exit",
        }
    }
}

impl SettingsMenuAction {
    /// The entry in the menu.
    pub fn label(self) -> (res: &'static str)
        ensures
            res@ == match self {
                SettingsMenuAction::ManageApiKeys => "Manage API Keys"@,
                SettingsMenuAction::ConfigureTaskModels => "Configure Task Models"@,
                SettingsMenuAction::ConfigureDockerLimits => "Configure Docker Limits"@,
                SettingsMenuAction::BackToMainMenu => "Back to Main Menu"@,
            },
    {
        match self {
            SettingsMenuAction::ManageApiKeys => "Manage API Keys",
            SettingsMenuAction::ConfigureTaskModels => "Configure Task Models",
            SettingsMenuAction::ConfigureDockerLimits => "Configure Docker Limits",
            SettingsMenuAction::BackToMainMenu => "Back to Main Menu",
        }
    }
}

/// The model of a task, as it can be set.
#[derive(Debug)]
pub struct ModelSetting {
    pub label: &'static str,
    pub env_key: &'static str,
    pub recommendations: Vec<String>,
}

#[verifier::ext_equal]
pub struct SettingModel {
    pub label: Seq<char>,
    pub env_key: Seq<char>,
    pub recommendations: Seq<Seq<char>>,
}

impl DeepView for ModelSetting {
    type V = SettingModel;

    open spec fn deep_view(&self) -> SettingModel {
        SettingModel {
            label: self.label@,
            env_key: self.env_key@,
            recommendations: self.recommendations.deep_view(),
        }
    }
}

/// The preferred model of the deployment, if it has one.
pub open spec fn if_any(preferred: Seq<char>) -> Seq<Seq<char>> {
    if preferred.len() == 0 {
        Seq::empty()
    } else {
        seq![preferred]
    }
}

pub open spec fn task_model_settings(preferred: Seq<char>) -> Seq<SettingModel> {
    seq![
        SettingModel {
            label: "Blueprinter Model"@,
            env_key: BLUEPRINTER_MODEL_ENV@,
            recommendations: seq!["gpt-5.4"@, "google/gemini-3-flash-preview"@] + if_any(preferred),
        },
        SettingModel {
            label: "Executor Model"@,
            env_key: EXECUTOR_MODEL_ENV@,
            recommendations: seq![
                "moonshotai/Kimi-K2.5"@,
                "minimax/minimax-m2.5"@,
                "gpt-5.4"@,
            ],
        },
        SettingModel {
            label: "Verifier Model"@,
            env_key: VERIFIER_MODEL_ENV@,
            recommendations: seq!["zai-org/GLM-5"@, "gpt-5.4"@] + if_any(preferred),
        },
        SettingModel {
            label: "Surgeon Model"@,
            env_key: SURGEON_MODEL_ENV@,
            recommendations: seq!["gpt-5.4"@] + if_any(preferred) + seq![
                "google/gemini-3-flash-preview"@,
            ],
        },
    ]
}

fn add_preferred(list: &mut Vec<String>, preferred: &str)
    ensures
        final(list).deep_view() == old(list).deep_view() + if_any(preferred@),
{
    let ghost before = list.deep_view();
    if !preferred.is_empty() {
        list.push(preferred.to_owned());
        assert(list.deep_view() =~= before + seq![preferred@]);
    } else {
        assert(list.deep_view() =~= before + Seq::empty());
    }
}

fn add_model(list: &mut Vec<String>, model: &str)
    ensures
        final(list).deep_view() == old(list).deep_view() + seq![model@],
{
    let ghost before = list.deep_view();
    list.push(model.to_owned());
    assert(list.deep_view() =~= before + seq![model@]);
}

fn model_setting(label: &'static str, env_key: &'static str, recommendations: Vec<String>) -> (res:
    ModelSetting)
    ensures
        res.deep_view() == (SettingModel {
            label: label@,
            env_key: env_key@,
            recommendations: recommendations.deep_view(),
        }),
{
    ModelSetting { label, env_key, recommendations }
}

/// The models that can be set, in the order in which they are asked for. The preferred model of
/// the deployment is recommended where its name is not empty.
pub fn model_settings(preferred: &str) -> (res: Vec<ModelSetting>)
    ensures
        res.deep_view() == task_model_settings(preferred@),
{
    let ghost wanted = task_model_settings(preferred@);
    let mut models: Vec<String> = Vec::new();
    add_model(&mut models, "gpt-5.4");
    add_model(&mut models, "google/gemini-3-flash-preview");
    add_preferred(&mut models, preferred);
    assert(models.deep_view() =~= wanted[0].recommendations);
    let blueprinter = model_setting("Blueprinter Model", BLUEPRINTER_MODEL_ENV, models);
    let mut models: Vec<String> = Vec::new();
    add_model(&mut models, "moonshotai/Kimi-K2.5");
    add_model(&mut models, "minimax/minimax-m2.5");
    add_model(&mut models, "gpt-5.4");
    assert(models.deep_view() =~= wanted[1].recommendations);
    let executor = model_setting("Executor Model", EXECUTOR_MODEL_ENV, models);
    let mut models: Vec<String> = Vec::new();
    add_model(&mut models, "zai-org/GLM-5");
    add_model(&mut models, "gpt-5.4");
    add_preferred(&mut models, preferred);
    assert(models.deep_view() =~= wanted[2].recommendations);
    let verification = model_setting("Verifier Model", VERIFIER_MODEL_ENV, models);
    let mut models: Vec<String> = Vec::new();
    add_model(&mut models, "gpt-5.4");
    add_preferred(&mut models, preferred);
    add_model(&mut models, "google/gemini-3-flash-preview");
    assert(models.deep_view() =~= wanted[3].recommendations);
    let surgeon = model_setting("Surgeon Model", SURGEON_MODEL_ENV, models);
    let mut settings: Vec<ModelSetting> = Vec::new();
    settings.push(blueprinter);
    settings.push(executor);
    settings.push(verification);
    settings.push(surgeon);
    assert(settings.deep_view() =~= wanted);
    settings
}

/// The value that a variable has now, unless it is blank.
pub open spec fn current_value(reading: ReadingModel) -> Option<Seq<char>> {
    match reading {
        ReadingModel::Value(value) => if text::is_blank(value) {
            None
        } else {
            Some(value)
        },
        _ => None,
    }
}

pub fn current_setting(reading: &EnvReading) -> (res: Option<String>)
    ensures
        res.deep_view() == current_value(reading@),
{
    match reading {
        EnvReading::Value(value) => if blank(value.as_str()) {
            None
        } else {
            Some(value.clone())
        },
        _ => None,
    }
}

pub open spec fn is_other(current: Option<Seq<char>>) -> spec_fn(Seq<char>) -> bool {
    |value: Seq<char>| current != Some(value)
}

/// What can be chosen for a model: the current one, the other recommended ones, and any other.
pub open spec fn options_for(current: Option<Seq<char>>, recommendations: Seq<Seq<char>>) -> Seq<
    Seq<char>,
> {
    (match current {
        Some(value) => seq![CURRENT_MODEL@ + value],
        None => Seq::empty(),
    }) + recommendations.filter(is_other(current)) + seq![CUSTOM_MODEL@]
}

pub fn model_options(current: &Option<String>, recommendations: &[String]) -> (res: Vec<String>)
    ensures
        res.deep_view() == options_for(current.deep_view(), recommendations.deep_view()),
{
    let ghost now = current.deep_view();
    let ghost all = recommendations.deep_view();
    let mut options: Vec<String> = Vec::new();
    if let Some(value) = current {
        let mut entry = CURRENT_MODEL.to_owned();
        entry.append(value.as_str());
        options.push(entry);
        assert(options.deep_view() =~= seq![CURRENT_MODEL@ + value@]);
    } else {
        assert(options.deep_view() =~= Seq::empty());
    }
    let ghost head = options.deep_view();
    let mut i: usize = 0;
    proof {
        reveal(Seq::filter);
        assert(all.take(0) =~= Seq::empty());
        assert(head + Seq::empty() =~= head);
    }
    while i < recommendations.len()
        invariant
            i <= recommendations.len(),
            all == recommendations.deep_view(),
            now == current.deep_view(),
            options.deep_view() == head + all.take(i as int).filter(is_other(now)),
        decreases recommendations.len() - i,
    {
        proof {
            search::lemma_filter_step(all, is_other(now), i as int);
            assert(all[i as int] == recommendations@[i as int]@);
        }
        let recommended: &str = recommendations[i].as_str();
        let is_current: bool = match current {
            Some(value) => same(value.as_str(), recommended),
            None => false,
        };
        let ghost before = options.deep_view();
        if !is_current {
            options.push(recommended.to_owned());
            assert(options.deep_view() =~= before.push(all[i as int]));
            assert(options.deep_view() =~= head + all.take(i as int + 1).filter(is_other(now)));
        }
        i += 1;
    }
    assert(all.take(all.len() as int) == all);
    let ghost before = options.deep_view();
    options.push(CUSTOM_MODEL.to_owned());
    assert(options.deep_view() =~= before + seq![CUSTOM_MODEL@]);
    options
}

/// What an option stands for: a model, or the wish to enter another one.
#[derive(Debug)]
pub enum ModelChoice {
    Custom,
    Model(String),
}

pub fn read_model_choice(selection: &str) -> (res: ModelChoice)
    ensures
        if selection@ == CUSTOM_MODEL@ {
            res is Custom
        } else {
            res matches ModelChoice::Model(model) && model@ == match search::strip_prefix(
                selection@,
                CURRENT_MODEL@,
            ) {
                Some(current) => current,
                None => selection@,
            }
        },
{
    if same(selection, CUSTOM_MODEL) {
        return ModelChoice::Custom;
    }
    match without_prefix(selection, CURRENT_MODEL) {
        Some(current) => ModelChoice::Model(current),
        None => ModelChoice::Model(selection.to_owned()),
    }
}

fn empty_setting(env_key: &str) -> (res: Failure)
    ensures
        res@ == failure::plain(env_key@ + " cannot be empty"@),
{
    let mut message = env_key.to_owned();
    message.append(" cannot be empty");
    Failure::new(message)
}

/// A model that was entered.
pub fn accept_custom_model(env_key: &str, value: &str) -> (res: Result<String, Failure>)
    ensures
        if text::is_blank(value@) {
            res matches Err(error) && error@ == failure::plain(env_key@ + " cannot be empty"@)
        } else {
            res matches Ok(model) && model@ == text::trimmed(value@)
        },
{
    if blank(value) {
        Err(empty_setting(env_key))
    } else {
        Ok(trim(value))
    }
}

/// An API key that was entered.
pub fn accept_api_key(env_key: &str, value: String) -> (res: Result<String, Failure>)
    ensures
        if text::is_blank(value@) {
            res matches Err(error) && error@ == failure::plain(env_key@ + " cannot be empty"@)
        } else {
            res matches Ok(key) && key@ == value@
        },
{
    if blank(value.as_str()) {
        Err(empty_setting(env_key))
    } else {
        Ok(value)
    }
}

/// The memory limit that is offered.
pub fn default_memory_limit(reading: &EnvReading) -> (res: String)
    ensures
        res@ == pipeline::value_or(reading@, DEFAULT_DOCKER_SANDBOX_MEMORY@),
{
    env_value_or(reading, DEFAULT_DOCKER_SANDBOX_MEMORY)
}

/// The processor limit that is offered.
pub fn default_cpu_limit(reading: &EnvReading) -> (res: String)
    ensures
        res@ == pipeline::value_or(reading@, DEFAULT_DOCKER_SANDBOX_CPUS@),
{
    env_value_or(reading, DEFAULT_DOCKER_SANDBOX_CPUS)
}

// ---------------------------------------------------------------------------
// Roots
// ---------------------------------------------------------------------------
/// Where a migration reads and where it writes.
#[derive(Debug)]
pub struct StartMigrationConfig {
    pub legacy_root: String,
    pub modern_root: String,
}

impl Clone for StartMigrationConfig {
    fn clone(&self) -> (res: Self)
        ensures
            res.legacy_root@ == self.legacy_root@,
            res.modern_root@ == self.modern_root@,
    {
        StartMigrationConfig {
            legacy_root: self.legacy_root.clone(),
            modern_root: self.modern_root.clone(),
        }
    }
}

/// The root that is meant where the program was started.
pub fn absolute_project_root(startup_root: &str, configured_path: &str) -> (res: String)
    ensures
        res@ == posix::joined(startup_root@, configured_path@),
{
    if absolute(configured_path) {
        configured_path.to_owned()
    } else {
        path_join(startup_root, configured_path)
    }
}

/// A root has to be a directory.
pub fn check_project_root(root: &str, state: FileState) -> (res: Result<(), Failure>)
    ensures
        match state {
            FileState::Missing => res matches Err(error) && error@ == failure::plain(
                "required project directory does not exist: "@ + root@,
            ),
            FileState::File | FileState::Other => res matches Err(error) && error@ == failure::plain(
                "required project path is not a directory: "@ + root@,
            ),
            FileState::Directory => res is Ok,
        },
{
    match state {
        FileState::Missing => {
            let mut message = "required project directory does not exist: ".to_owned();
            message.append(root);
            Err(Failure::new(message))
        },
        FileState::File | FileState::Other => {
            let mut message = "required project path is not a directory: ".to_owned();
            message.append(root);
            Err(Failure::new(message))
        },
        FileState::Directory => Ok(()),
    }
}

/// Whether two roots are the same path, component by component.
pub fn same_root(a: &str, b: &str) -> (res: bool)
    ensures
        res == (posix::components(a@) == posix::components(b@)),
{
    let left: Vec<String> = path_components(a);
    let right: Vec<String> = path_components(b);
    let ghost x = left.deep_view();
    let ghost y = right.deep_view();
    assert(x.len() == left@.len() && y.len() == right@.len());
    if left.len() != right.len() {
        return false;
    }
    let mut i: usize = 0;
    while i < left.len()
        invariant
            i <= left.len(),
            left.len() == right.len(),
            x == left.deep_view(),
            y == right.deep_view(),
            x == posix::components(a@),
            y == posix::components(b@),
            forall|j: int| 0 <= j < i ==> x[j] == y[j],
        decreases left.len() - i,
    {
        assert(x[i as int] == left@[i as int]@ && y[i as int] == right@[i as int]@);
        if !same(left[i].as_str(), right[i].as_str()) {
            return false;
        }
        i += 1;
    }
    assert(x =~= y);
    true
}

/// The roots where nobody can be asked: those of the environment, or the usual ones.
pub fn noninteractive_roots(
    startup_root: &str,
    legacy: &EnvReading,
    modern: &EnvReading,
) -> (res: StartMigrationConfig)
    ensures
        res.legacy_root@ == posix::joined(
            startup_root@,
            text::trimmed(pipeline::value_or(legacy@, DEFAULT_NONINTERACTIVE_LEGACY_ROOT@)),
        ),
        res.modern_root@ == posix::joined(
            startup_root@,
            text::trimmed(pipeline::value_or(modern@, DEFAULT_MODERN_ROOT@)),
        ),
{
    let legacy_path = env_value_or(legacy, DEFAULT_NONINTERACTIVE_LEGACY_ROOT);
    let modern_path = env_value_or(modern, DEFAULT_MODERN_ROOT);
    StartMigrationConfig {
        legacy_root: absolute_project_root(startup_root, trim(legacy_path.as_str()).as_str()),
        modern_root: absolute_project_root(startup_root, trim(modern_path.as_str()).as_str()),
    }
}

// ---------------------------------------------------------------------------
// The settings file
// ---------------------------------------------------------------------------
/// The variable that a line of the file sets.
pub open spec fn assigned_key(line: Seq<char>) -> Option<Seq<char>> {
    let body = text::trimmed_start(line);
    if body.len() == 0 || search::starts_with(body, "#"@) {
        None
    } else {
        let assignment = match search::strip_prefix(body, "export "@) {
            Some(rest) => rest,
            None => body,
        };
        match search::split_once(assignment, "="@) {
            None => None,
            Some((name, _)) => if text::is_blank(name) {
                None
            } else {
                Some(text::trimmed(name))
            },
        }
    }
}

pub fn env_assignment_key(line: &str) -> (res: Option<String>)
    ensures
        res.deep_view() == assigned_key(line@),
{
    let body = trim_start(line);
    if body.as_str().is_empty() || has_prefix(body.as_str(), "#") {
        return None;
    }
    let assignment: String = match without_prefix(body.as_str(), "export ") {
        Some(rest) => rest,
        None => body,
    };
    match split_at_text(assignment.as_str(), "=") {
        None => None,
        Some(parts) => if blank(parts.0.as_str()) {
            None
        } else {
            Some(trim(parts.0.as_str()))
        },
    }
}

/// The characters that have a meaning in a quoted value, with a backslash before them.
pub open spec fn escaped(value: Seq<char>) -> Seq<char> {
    compose::replace_all(
        compose::replace_all(
            compose::replace_all(
                compose::replace_all(value, "\\"@, "\\\\"@),
                "\""@,
                "\\\""@,
            ),
            "\n"@,
            "\\n"@,
        ),
        "\r"@,
        "\\r"@,
    )
}

pub open spec fn quoted_value(value: Seq<char>) -> Seq<char> {
    "\""@ + escaped(value) + "\""@
}

pub fn format_env_value(value: &str) -> (res: String)
    ensures
        res@ == quoted_value(value@),
{
    proof {
        reveal_strlit("\\");
        reveal_strlit("\"");
        reveal_strlit("\n");
        reveal_strlit("\r");
    }
    let backslashes = replace_text(value, "\\", "\\\\");
    let quotes = replace_text(backslashes.as_str(), "\"", "\\\"");
    let newlines = replace_text(quotes.as_str(), "\n", "\\n");
    let carriages = replace_text(newlines.as_str(), "\r", "\\r");
    let mut out = "\"".to_owned();
    out.append(carriages.as_str());
    out.append("\"");
    out
}

/// The line that sets a variable.
pub open spec fn setting_line(key: Seq<char>, value: Seq<char>) -> Seq<char> {
    key + "="@ + quoted_value(value)
}

/// A line after the variable was set.
pub open spec fn updated_line(line: Seq<char>, key: Seq<char>, value: Seq<char>) -> Seq<char> {
    if assigned_key(line) == Some(key) {
        setting_line(key, value)
    } else {
        line
    }
}

pub open spec fn sets_key(lines: Seq<Seq<char>>, key: Seq<char>) -> bool {
    exists|i: int| 0 <= i < lines.len() && assigned_key(#[trigger] lines[i]) == Some(key)
}

/// The lines of the file after the variable was set: in its place, or at the end.
pub open spec fn updated_lines(lines: Seq<Seq<char>>, key: Seq<char>, value: Seq<char>) -> Seq<
    Seq<char>,
> {
    let replaced = lines.map_values(|line: Seq<char>| updated_line(line, key, value));
    if sets_key(lines, key) {
        replaced
    } else {
        replaced.push(setting_line(key, value))
    }
}

/// The file after the variable was set.
pub open spec fn updated_file(contents: Seq<char>, key: Seq<char>, value: Seq<char>) -> Seq<char> {
    let rendered = compose::join(updated_lines(compose::lines(contents), key, value), "\n"@);
    if rendered.len() == 0 {
        rendered
    } else {
        rendered + "\n"@
    }
}

fn setting_text(key: &str, value: &str) -> (res: String)
    ensures
        res@ == setting_line(key@, value@),
{
    let mut out = key.to_owned();
    out.append("=");
    out.append(format_env_value(value).as_str());
    out
}

/// The contents of the settings file once the variable is set. All other lines stay as they are.
pub fn update_env_file(contents: &str, key: &str, value: &str) -> (res: String)
    ensures
        res@ == updated_file(contents@, key@, value@),
{
    let lines: Vec<String> = split_lines(contents);
    let ghost all = lines.deep_view();
    let ghost wanted = all.map_values(|line: Seq<char>| updated_line(line, key@, value@));
    let mut updated: Vec<String> = Vec::new();
    let mut replaced = false;
    let mut i: usize = 0;
    assert(updated.deep_view() =~= wanted.take(0));
    while i < lines.len()
        invariant
            i <= lines.len(),
            all == lines.deep_view(),
            wanted == all.map_values(|line: Seq<char>| updated_line(line, key@, value@)),
            updated.deep_view() == wanted.take(i as int),
            replaced == exists|j: int|
                0 <= j < i && assigned_key(#[trigger] all[j]) == Some(key@),
        decreases lines.len() - i,
    {
        let ghost before = updated.deep_view();
        assert(all[i as int] == lines@[i as int]@);
        let sets_it: bool = match env_assignment_key(lines[i].as_str()) {
            Some(existing_key) => same(existing_key.as_str(), key),
            None => false,
        };
        assert(sets_it == (assigned_key(all[i as int]) == Some(key@)));
        if sets_it {
            updated.push(setting_text(key, value));
            replaced = true;
        } else {
            updated.push(lines[i].clone());
        }
        assert(updated.deep_view() =~= before.push(wanted[i as int]));
        assert(wanted.take(i as int + 1) =~= wanted.take(i as int).push(wanted[i as int]));
        i += 1;
    }
    assert(wanted.take(wanted.len() as int) =~= wanted);
    if !replaced {
        updated.push(setting_text(key, value));
        assert(updated.deep_view() =~= wanted.push(setting_line(key@, value@)));
    }
    let mut rendered = join_list(updated.as_slice(), "\n");
    if !rendered.as_str().is_empty() {
        rendered.append("\n");
    }
    rendered
}

// ---------------------------------------------------------------------------
// Laws of the settings file
// ---------------------------------------------------------------------------
/// A name that a line of the file can set.
pub open spec fn is_env_name(key: Seq<char>) -> bool {
    &&& key.len() > 0
    &&& !text::is_white(key[0])
    &&& !text::is_white(key.last())
    &&& key[0] != '#'
    &&& !key.contains('=')
    &&& !search::starts_with(key, "export "@)
}

/// The line that sets a variable is read as one that does.
pub proof fn lemma_setting_line_sets(key: Seq<char>, value: Seq<char>)
    requires
        is_env_name(key),
    ensures
        assigned_key(setting_line(key, value)) == Some(key),
{
    reveal_strlit("=");
    reveal_strlit("#");
    reveal_strlit("export ");
    let line = setting_line(key, value);
    let n = key.len() as int;
    assert(line[0] == key[0]);
    assert(line[n] == '=');
    assert(text::trimmed_start(line) == line);
    if search::starts_with(line, "#"@) {
        assert(line.take(1)[0] == '#');
    }
    if search::starts_with(line, "export "@) {
        if n >= 7 {
            assert(key.take(7) =~= line.take(7));
        } else {
            assert(line.take(7)[n] == '=');
        }
        assert(false);
    }
    assert(line.subrange(n, n + 1) =~= "="@);
    assert forall|j: int| 0 <= j < n implies !search::occurs_at(line, "="@, j) by {
        if search::occurs_at(line, "="@, j) {
            assert(line.subrange(j, j + 1)[0] == '=');
            assert(key[j] == '=');
        }
    }
    search::lemma_find_is(line, "="@, n);
    assert(line.take(n) =~= key);
    assert(text::trim_start_by(key, text::white()) == key);
    assert(text::trim_end_by(key, text::white()) == key);
}

/// Setting a variable leaves one value for it and all other lines as they were.
pub proof fn lemma_update_keeps_other_lines(
    lines: Seq<Seq<char>>,
    key: Seq<char>,
    value: Seq<char>,
)
    requires
        is_env_name(key),
    ensures
        sets_key(updated_lines(lines, key, value), key),
        forall|i: int|
            0 <= i < updated_lines(lines, key, value).len() && assigned_key(
                #[trigger] updated_lines(lines, key, value)[i],
            ) == Some(key) ==> updated_lines(lines, key, value)[i] == setting_line(key, value),
        forall|i: int|
            0 <= i < lines.len() && assigned_key(#[trigger] lines[i]) != Some(key)
                ==> updated_lines(lines, key, value)[i] == lines[i],
        lines.len() <= updated_lines(lines, key, value).len() <= lines.len() + 1,
{
    lemma_setting_line_sets(key, value);
    let after = updated_lines(lines, key, value);
    if sets_key(lines, key) {
        let i = choose|i: int| 0 <= i < lines.len() && assigned_key(#[trigger] lines[i]) == Some(
            key,
        );
        assert(after[i] == setting_line(key, value));
        assert(assigned_key(after[i]) == Some(key));
    } else {
        assert(after[lines.len() as int] == setting_line(key, value));
        assert(assigned_key(after[lines.len() as int]) == Some(key));
    }
}

/// Setting a variable twice is setting it to the later value.
pub proof fn lemma_later_value_counts(
    lines: Seq<Seq<char>>,
    key: Seq<char>,
    first: Seq<char>,
    second: Seq<char>,
)
    requires
        is_env_name(key),
    ensures
        updated_lines(updated_lines(lines, key, first), key, second) == updated_lines(
            lines,
            key,
            second,
        ),
{
    lemma_setting_line_sets(key, first);
    lemma_setting_line_sets(key, second);
    lemma_update_keeps_other_lines(lines, key, first);
    let once = updated_lines(lines, key, first);
    let twice = updated_lines(once, key, second);
    let direct = updated_lines(lines, key, second);
    assert(twice =~= direct);
}

/// What a quoted value stands for: a backslash gives the character after it its plain meaning,
/// and `n` and `r` that of the end of a line.
pub open spec fn unescaped(s: Seq<char>) -> Seq<char>
    decreases s.len(),
{
    if s.len() == 0 {
        Seq::empty()
    } else if s[0] == '\\' && s.len() > 1 {
        seq![
            if s[1] == 'n' {
                '\n'
            } else if s[1] == 'r' {
                '\r'
            } else {
                s[1]
            },
        ] + unescaped(s.skip(2))
    } else {
        seq![s[0]] + unescaped(s.skip(1))
    }
}

/// A character as it stands in a quoted value.
pub open spec fn escaped_char(c: char) -> Seq<char> {
    if c == '\\' {
        seq!['\\', '\\']
    } else if c == '"' {
        seq!['\\', '"']
    } else if c == '\n' {
        seq!['\\', 'n']
    } else if c == '\r' {
        seq!['\\', 'r']
    } else {
        seq![c]
    }
}

proof fn lemma_escaped_first(value: Seq<char>)
    requires
        value.len() > 0,
    ensures
        escaped(value) == escaped_char(value[0]) + escaped(value.skip(1)),
{
    reveal_strlit("\\");
    reveal_strlit("\"");
    reveal_strlit("\n");
    reveal_strlit("\r");
    reveal_strlit("\\\\");
    reveal_strlit("\\\"");
    reveal_strlit("\\n");
    reveal_strlit("\\r");
    let c = value[0];
    let rest = value.skip(1);
    assert(value =~= seq![c] + rest);
    let (p1, w1) = ("\\"@, "\\\\"@);
    let (p2, w2) = ("\""@, "\\\""@);
    let (p3, w3) = ("\n"@, "\\n"@);
    let (p4, w4) = ("\r"@, "\\r"@);
    let a1 = compose::char_replaced(c, '\\', w1);
    let r1 = compose::replace_all(rest, p1, w1);
    assert(p1 =~= seq!['\\'] && p2 =~= seq!['"'] && p3 =~= seq!['\n'] && p4 =~= seq!['\r']);
    assert(w1 =~= seq!['\\', '\\'] && w2 =~= seq!['\\', '"'] && w3 =~= seq!['\\', 'n'] && w4
        =~= seq!['\\', 'r']);
    compose::lemma_replace_first(value, '\\', w1);
    let r2 = compose::replace_all(r1, p2, w2);
    let r3 = compose::replace_all(r2, p3, w3);
    let a2 = compose::replace_all(a1, p2, w2);
    let a3 = compose::replace_all(a2, p3, w3);
    let a4 = compose::replace_all(a3, p4, w4);
    compose::lemma_replace_parts(a1, r1, '"', w2);
    compose::lemma_replace_parts(a2, r2, '\n', w3);
    compose::lemma_replace_parts(a3, r3, '\r', w4);
    lemma_one_char(c, a1, a2, a3, a4);
}

proof fn lemma_one_char(c: char, a1: Seq<char>, a2: Seq<char>, a3: Seq<char>, a4: Seq<char>)
    requires
        a1 == compose::char_replaced(c, '\\', seq!['\\', '\\']),
        a2 == compose::replace_all(a1, seq!['"'], seq!['\\', '"']),
        a3 == compose::replace_all(a2, seq!['\n'], seq!['\\', 'n']),
        a4 == compose::replace_all(a3, seq!['\r'], seq!['\\', 'r']),
    ensures
        a4 == escaped_char(c),
{
    compose::lemma_replace_short(a1, '"', seq!['\\', '"']);
    compose::lemma_replace_short(a2, '\n', seq!['\\', 'n']);
    compose::lemma_replace_short(a3, '\r', seq!['\\', 'r']);
    assert(a4 =~= escaped_char(c));
}

/// A quoted value stands for the value that it was made of, whatever that is.
pub proof fn lemma_value_reads_back(value: Seq<char>)
    ensures
        unescaped(escaped(value)) == value,
    decreases value.len(),
{
    if value.len() == 0 {
        compose::lemma_replace_nothing("\\"@, "\\\\"@);
        compose::lemma_replace_nothing("\""@, "\\\""@);
        compose::lemma_replace_nothing("\n"@, "\\n"@);
        compose::lemma_replace_nothing("\r"@, "\\r"@);
        assert(value =~= Seq::empty());
    } else {
        let rest = value.skip(1);
        lemma_escaped_first(value);
        lemma_value_reads_back(rest);
        let head = escaped_char(value[0]);
        let whole = head + escaped(rest);
        assert(whole[0] == head[0]);
        if head.len() == 2 {
            assert(whole[1] == head[1]);
            assert(whole.skip(2) =~= escaped(rest));
        } else {
            assert(whole.skip(1) =~= escaped(rest));
        }
        assert(value =~= seq![value[0]] + rest);
    }
}

proof fn lemma_escaped_in_one_line(value: Seq<char>)
    ensures
        forall|j: int|
            0 <= j < escaped(value).len() ==> #[trigger] escaped(value)[j] != '\n'
                && escaped(value)[j] != '\r',
    decreases value.len(),
{
    if value.len() == 0 {
        compose::lemma_replace_nothing("\\"@, "\\\\"@);
        compose::lemma_replace_nothing("\""@, "\\\""@);
        compose::lemma_replace_nothing("\n"@, "\\n"@);
        compose::lemma_replace_nothing("\r"@, "\\r"@);
        assert(value =~= Seq::empty());
    } else {
        lemma_escaped_first(value);
        lemma_escaped_in_one_line(value.skip(1));
        let head = escaped_char(value[0]);
        let tail = escaped(value.skip(1));
        assert forall|j: int| 0 <= j < escaped(value).len() implies #[trigger] escaped(value)[j]
            != '\n' && escaped(value)[j] != '\r' by {
            if j < head.len() {
                assert(escaped(value)[j] == head[j]);
            } else {
                assert(escaped(value)[j] == tail[j - head.len()]);
            }
        }
    }
}

/// A quoted value stays in one line, whatever it is made of.
pub proof fn lemma_quoted_value_in_one_line(value: Seq<char>)
    ensures
        !quoted_value(value).contains('\n'),
        !quoted_value(value).contains('\r'),
{
    reveal_strlit("\"");
    lemma_escaped_in_one_line(value);
    let quoted = quoted_value(value);
    assert forall|j: int| 0 <= j < quoted.len() implies #[trigger] quoted[j] != '\n' && quoted[j]
        != '\r' by {
        if 0 < j < quoted.len() - 1 {
            assert(quoted[j] == escaped(value)[j - 1]);
        }
    }
}

/// Setting a variable changes the lines of the file as `updated_lines` says, and the file is
/// read as these lines again. A line that is kept must not end in a carriage return, which
/// reading would take for a part of its end.
pub proof fn lemma_file_has_updated_lines(contents: Seq<char>, key: Seq<char>, value: Seq<char>)
    requires
        is_env_name(key),
        !key.contains('\n'),
        forall|i: int|
            0 <= i < compose::lines(contents).len() && assigned_key(
                #[trigger] compose::lines(contents)[i],
            ) != Some(key) ==> compose::is_line(compose::lines(contents)[i]),
    ensures
        compose::lines(updated_file(contents, key, value)) == updated_lines(
            compose::lines(contents),
            key,
            value,
        ),
{
    reveal_strlit("=");
    reveal_strlit("\"");
    let before = compose::lines(contents);
    let after = updated_lines(before, key, value);
    let line = setting_line(key, value);
    lemma_escaped_in_one_line(value);
    assert(compose::is_line(line)) by {
        assert(line.last() == '"');
        if line.contains('\n') {
            let j = choose|j: int| 0 <= j < line.len() && line[j] == '\n';
            let n = key.len() as int;
            if j < n {
                assert(key[j] == '\n');
            } else if j > n + 1 && j < line.len() - 1 {
                assert(escaped(value)[j - n - 2] == '\n');
            }
        }
    }
    assert forall|i: int| 0 <= i < after.len() implies compose::is_line(#[trigger] after[i]) by {
        if i < before.len() && assigned_key(before[i]) != Some(key) {
            assert(compose::is_line(before[i]));
        }
    }
    lemma_update_keeps_other_lines(before, key, value);
    let k = choose|k: int| 0 <= k < after.len() && assigned_key(#[trigger] after[k]) == Some(key);
    assert(after[k] == line);
    compose::lemma_join_len(after, "\n"@, k);
    compose::lemma_lines_of_join(after);
}

// ---------------------------------------------------------------------------
// Laws of choices
// ---------------------------------------------------------------------------
/// What can be chosen is the current model, each recommended model that is not the current one,
/// and any other; the current one comes first, and any other comes last.
pub proof fn lemma_options(current: Option<Seq<char>>, recommendations: Seq<Seq<char>>)
    ensures
        ({
            let options = options_for(current, recommendations);
            &&& options.last() == CUSTOM_MODEL@
            &&& current matches Some(value) ==> options[0] == CURRENT_MODEL@ + value
            &&& forall|option: Seq<char>| #[trigger]
                options.contains(option) <==> {
                    ||| option == CUSTOM_MODEL@
                    ||| current matches Some(value) && option == CURRENT_MODEL@ + value
                    ||| recommendations.contains(option) && current != Some(option)
                }
        }),
{
    let options = options_for(current, recommendations);
    let others = recommendations.filter(is_other(current));
    let first = match current {
        Some(value) => seq![CURRENT_MODEL@ + value],
        None => Seq::empty(),
    };
    assert forall|option: Seq<char>| #[trigger]
        options.contains(option) <==> {
            ||| option == CUSTOM_MODEL@
            ||| current matches Some(value) && option == CURRENT_MODEL@ + value
            ||| recommendations.contains(option) && current != Some(option)
        } by {
        lemma_kept(recommendations, is_other(current), option);
        if options.contains(option) {
            let k = choose|k: int| 0 <= k < options.len() && options[k] == option;
            if k < first.len() {
                assert(first[k] == option);
            } else if k < first.len() + others.len() {
                assert(others[k - first.len()] == option);
                assert(others.contains(option));
            }
        }
        if option == CUSTOM_MODEL@ {
            assert(options[options.len() - 1] == option);
        }
        if current matches Some(value) && option == CURRENT_MODEL@ + value {
            assert(options[0] == option);
        }
        if recommendations.contains(option) && current != Some(option) {
            assert(others.contains(option));
            let k = choose|k: int| 0 <= k < others.len() && others[k] == option;
            assert(options[k + first.len()] == option);
        }
    }
}

proof fn lemma_kept(list: Seq<Seq<char>>, f: spec_fn(Seq<char>) -> bool, x: Seq<char>)
    ensures
        list.filter(f).contains(x) <==> list.contains(x) && f(x),
    decreases list.len(),
{
    reveal(Seq::filter);
    if list.len() > 0 {
        let rest = list.drop_last();
        lemma_kept(rest, f, x);
        let kept = rest.filter(f);
        if list.contains(x) {
            let k = choose|k: int| 0 <= k < list.len() && list[k] == x;
            if k < rest.len() {
                assert(rest[k] == x);
            }
        }
        if rest.contains(x) {
            let k = choose|k: int| 0 <= k < rest.len() && rest[k] == x;
            assert(list[k] == x);
        }
        if f(list.last()) {
            let all = kept.push(list.last());
            assert(list.filter(f) == all);
            if all.contains(x) {
                let k = choose|k: int| 0 <= k < all.len() && all[k] == x;
                if k < kept.len() {
                    assert(kept[k] == x);
                } else {
                    assert(list[list.len() - 1] == x);
                }
            }
            if kept.contains(x) {
                let k = choose|k: int| 0 <= k < kept.len() && kept[k] == x;
                assert(all[k] == x);
            }
            if list.last() == x {
                assert(all[kept.len() as int] == x);
            }
        }
    }
}

/// Each setting is kept in the variable from which the task reads its model.
pub proof fn lemma_settings_are_read(preferred: Seq<char>)
    ensures
        task_model_settings(preferred).len() == 4,
        task_model_settings(preferred)[0].env_key == routing::TaskKind::Blueprinter.prefix()
            + "_MODEL"@,
        task_model_settings(preferred)[1].env_key == routing::TaskKind::Executor.prefix()
            + "_MODEL"@,
        task_model_settings(preferred)[2].env_key == routing::TaskKind::Verifier.prefix()
            + "_MODEL"@,
        task_model_settings(preferred)[3].env_key == routing::TaskKind::Surgeon.prefix()
            + "_MODEL"@,
        forall|i: int|
            0 <= i < 4 ==> (#[trigger] task_model_settings(preferred)[i]).recommendations.len() > 0,
{
    reveal_strlit("_MODEL");
    reveal_strlit("BLUEPRINTER");
    reveal_strlit("EXECUTOR");
    reveal_strlit("VERIFIER");
    reveal_strlit("SURGEON");
    reveal_strlit("BLUEPRINTER_MODEL");
    reveal_strlit("EXECUTOR_MODEL");
    reveal_strlit("VERIFIER_MODEL");
    reveal_strlit("SURGEON_MODEL");
    assert("BLUEPRINTER_MODEL"@ =~= "BLUEPRINTER"@ + "_MODEL"@);
    assert("EXECUTOR_MODEL"@ =~= "EXECUTOR"@ + "_MODEL"@);
    assert("VERIFIER_MODEL"@ =~= "VERIFIER"@ + "_MODEL"@);
    assert("SURGEON_MODEL"@ =~= "SURGEON"@ + "_MODEL"@);
}

} // verus!
