//! Which provider and model serve which task, and what the environment says about them.
use crate::compose;
use crate::compose::to_lower;
use crate::failure;
use crate::failure::Failure;
use crate::search;
use crate::search::without_prefix;
use crate::text;
use crate::text::{blank, same, trim};
use vstd::prelude::*;

verus! {

pub const OPENAI_API_KEY_ENV: &'static str = "OPENAI_API_KEY";

pub const TOGETHER_API_KEY_ENV: &'static str = "TOGETHER_API_KEY";

pub const OPENROUTER_API_KEY_ENV: &'static str = "OPENROUTER_API_KEY";

pub const DOCKER_SANDBOX_MEMORY_ENV: &'static str = "DOCKER_SANDBOX_MEMORY";

pub const DOCKER_SANDBOX_CPUS_ENV: &'static str = "DOCKER_SANDBOX_CPUS";

pub const DEFAULT_TASK_PROVIDER: &'static str = "openrouter";

pub const DEFAULT_DOCKER_SANDBOX_MEMORY: &'static str = "256m";

pub const DEFAULT_DOCKER_SANDBOX_CPUS: &'static str = "0.5";

pub const DEFAULT_STRUCTURED_FALLBACK_MODEL: &'static str = "gpt-5.4";

// ---------------------------------------------------------------------------
// Environment variables
// ---------------------------------------------------------------------------
/// What came of reading an environment variable: it is not set, it has a value, or it could
/// not be read, with the text of the error.
#[derive(Debug)]
pub enum EnvReading {
    Missing,
    Value(String),
    Unreadable(String),
}

#[verifier::ext_equal]
pub enum ReadingModel {
    Missing,
    Value(Seq<char>),
    Unreadable(Seq<char>),
}

impl View for EnvReading {
    type V = ReadingModel;

    open spec fn view(&self) -> ReadingModel {
        match *self {
            EnvReading::Missing => ReadingModel::Missing,
            EnvReading::Value(value) => ReadingModel::Value(value@),
            EnvReading::Unreadable(error) => ReadingModel::Unreadable(error@),
        }
    }
}

/// The value of the variable, if it is set.
pub open spec fn optional_env(key: Seq<char>, reading: ReadingModel) -> Result<
    Option<Seq<char>>,
    Seq<Seq<char>>,
> {
    match reading {
        ReadingModel::Missing => Ok(None),
        ReadingModel::Value(value) => Ok(Some(value)),
        ReadingModel::Unreadable(error) => Err(
            failure::in_context("failed to read `"@ + key + "`"@, failure::plain(error)),
        ),
    }
}

/// The value of the variable, if it is set and not blank.
pub open spec fn filled_env(key: Seq<char>, reading: ReadingModel) -> Result<
    Option<Seq<char>>,
    Seq<Seq<char>>,
> {
    match optional_env(key, reading) {
        Ok(Some(value)) => if text::is_blank(value) {
            Ok(None)
        } else {
            Ok(Some(value))
        },
        other => other,
    }
}

pub open spec fn env_or(key: Seq<char>, reading: ReadingModel, default: Seq<char>) -> Result<
    Seq<char>,
    Seq<Seq<char>>,
> {
    match filled_env(key, reading) {
        Ok(Some(value)) => Ok(value),
        Ok(None) => Ok(default),
        Err(error) => Err(error),
    }
}

/// The outcome of an operation that gives text or fails.
pub open spec fn text_result(res: Result<String, Failure>) -> Result<Seq<char>, Seq<Seq<char>>> {
    match res {
        Ok(value) => Ok(value@),
        Err(error) => Err(error@),
    }
}

/// The outcome of an operation that may give text, or fails.
pub open spec fn option_result(res: Result<Option<String>, Failure>) -> Result<
    Option<Seq<char>>,
    Seq<Seq<char>>,
> {
    match res {
        Ok(value) => Ok(value.deep_view()),
        Err(error) => Err(error@),
    }
}

pub fn read_optional_env(key: &str, reading: &EnvReading) -> (res: Result<Option<String>, Failure>)
    ensures
        option_result(res) == optional_env(key@, reading@),
{
    match reading {
        EnvReading::Missing => Ok(None),
        EnvReading::Value(value) => Ok(Some(value.clone())),
        EnvReading::Unreadable(error) => {
            let mut message = "failed to read `".to_owned();
            message.append(key);
            message.append("`");
            Err(Failure::new(error.clone()).context(message))
        },
    }
}

pub fn read_filled_env(key: &str, reading: &EnvReading) -> (res: Result<Option<String>, Failure>)
    ensures
        option_result(res) == filled_env(key@, reading@),
{
    match read_optional_env(key, reading) {
        Ok(Some(value)) => if blank(value.as_str()) {
            Ok(None)
        } else {
            Ok(Some(value))
        },
        Ok(None) => Ok(None),
        Err(error) => Err(error),
    }
}

pub fn read_env_with_default(key: &str, reading: &EnvReading, default: &str) -> (res: Result<
    String,
    Failure,
>)
    ensures
        text_result(res) == env_or(key@, reading@, default@),
{
    match read_filled_env(key, reading) {
        Ok(Some(value)) => Ok(value),
        Ok(None) => Ok(default.to_owned()),
        Err(error) => Err(error),
    }
}

// ---------------------------------------------------------------------------
// Tasks
// ---------------------------------------------------------------------------
/// A kind of work that the pipeline hands to a model.
#[derive(Debug, Clone, Copy, PartialEq, Eq, Structural, Hash)]
pub enum TaskKind {
    Blueprinter,
    Executor,
    Verifier,
    Surgeon,
}

impl TaskKind {
    pub open spec fn label(self) -> Seq<char> {
        match self {
            TaskKind::Blueprinter => "blueprinter"@,
            TaskKind::Executor => "executor"@,
            TaskKind::Verifier => "verifier"@,
            TaskKind::Surgeon => "surgeon"@,
        }
    }

    pub open spec fn prefix(self) -> Seq<char> {
        match self {
            TaskKind::Blueprinter => "BLUEPRINTER"@,
            TaskKind::Executor => "EXECUTOR"@,
            TaskKind::Verifier => "VERIFIER"@,
            TaskKind::Surgeon => "SURGEON"@,
        }
    }

    pub fn as_str(self) -> (res: &'static str)
        ensures
            res@ == self.label(),
    {
        match self {
            TaskKind::Blueprinter => "blueprinter",
            TaskKind::Executor => "executor",
            TaskKind::Verifier => "verifier",
            TaskKind::Surgeon => "surgeon",
        }
    }

    pub fn env_prefix(self) -> (res: &'static str)
        ensures
            res@ == self.prefix(),
    {
        match self {
            TaskKind::Blueprinter => "BLUEPRINTER",
            TaskKind::Executor => "EXECUTOR",
            TaskKind::Verifier => "VERIFIER",
            TaskKind::Surgeon => "SURGEON",
        }
    }

    /// The environment variable that names the model for the task.
    pub fn model_env(self) -> (res: String)
        ensures
            res@ == self.prefix() + "_MODEL"@,
    {
        let mut out = self.env_prefix().to_owned();
        out.append("_MODEL");
        out
    }

    /// The environment variable that names the provider for the task.
    pub fn provider_env(self) -> (res: String)
        ensures
            res@ == self.prefix() + "_PROVIDER"@,
    {
        let mut out = self.env_prefix().to_owned();
        out.append("_PROVIDER");
        out
    }
}

// ---------------------------------------------------------------------------
// Providers
// ---------------------------------------------------------------------------
/// The name under which the provider is known.
pub open spec fn provider_name(provider: Seq<char>) -> Seq<char> {
    let name = compose::lowered(text::trimmed(provider));
    if name == "together.ai"@ || name == "together-ai"@ {
        "together"@
    } else {
        name
    }
}

/// The environment variable with the key for the provider, if the provider is supported.
pub open spec fn key_env(provider: Seq<char>) -> Option<Seq<char>> {
    let name = provider_name(provider);
    if name == "openai"@ {
        Some(OPENAI_API_KEY_ENV@)
    } else if name == "together"@ {
        Some(TOGETHER_API_KEY_ENV@)
    } else if name == "openrouter"@ {
        Some(OPENROUTER_API_KEY_ENV@)
    } else {
        None
    }
}

pub fn normalize_provider_name(provider: &str) -> (res: String)
    ensures
        res@ == provider_name(provider@),
{
    let name = to_lower(trim(provider).as_str());
    if same(name.as_str(), "together.ai") || same(name.as_str(), "together-ai") {
        "together".to_owned()
    } else {
        name
    }
}

pub fn provider_api_key_env(provider: &str) -> (res: Option<&'static str>)
    ensures
        key_env(provider@) == match res {
            Some(env) => Some(env@),
            None => None,
        },
{
    let name = normalize_provider_name(provider);
    if same(name.as_str(), "openai") {
        Some(OPENAI_API_KEY_ENV)
    } else if same(name.as_str(), "together") {
        Some(TOGETHER_API_KEY_ENV)
    } else if same(name.as_str(), "openrouter") {
        Some(OPENROUTER_API_KEY_ENV)
    } else {
        None
    }
}

/// What the environment holds of the keys of the supported providers.
#[derive(Debug)]
pub struct ProviderKeys {
    pub openai: EnvReading,
    pub together: EnvReading,
    pub openrouter: EnvReading,
}

#[verifier::ext_equal]
pub struct KeysModel {
    pub openai: ReadingModel,
    pub together: ReadingModel,
    pub openrouter: ReadingModel,
}

impl View for ProviderKeys {
    type V = KeysModel;

    open spec fn view(&self) -> KeysModel {
        KeysModel {
            openai: self.openai@,
            together: self.together@,
            openrouter: self.openrouter@,
        }
    }
}

impl KeysModel {
    /// What was read of the key of the provider.
    pub open spec fn of(self, provider: Seq<char>) -> ReadingModel {
        let name = provider_name(provider);
        if name == "openai"@ {
            self.openai
        } else if name == "together"@ {
            self.together
        } else if name == "openrouter"@ {
            self.openrouter
        } else {
            ReadingModel::Missing
        }
    }
}

/// The key for the provider, where there is one.
pub open spec fn api_key(provider: Seq<char>, keys: KeysModel) -> Result<
    Option<Seq<char>>,
    Seq<Seq<char>>,
> {
    match key_env(provider) {
        Some(env) => filled_env(env, keys.of(provider)),
        None => Ok(None),
    }
}

/// The key for the provider, or why there is none.
pub open spec fn required_key(provider: Seq<char>, keys: KeysModel) -> Result<
    Seq<char>,
    Seq<Seq<char>>,
> {
    match key_env(provider) {
        None => Err(
            failure::plain(
                "provider `"@ + provider
                    + "` is not supported by this pipeline wrapper; supported providers are `openai`, `together`, and `openrouter`"@,
            ),
        ),
        Some(env) => match api_key(provider, keys) {
            Err(error) => Err(error),
            Ok(Some(key)) => Ok(key),
            Ok(None) => Err(
                failure::plain(
                    "`"@ + env + "` is not configured for provider `"@ + provider + "`"@,
                ),
            ),
        },
    }
}

impl ProviderKeys {
    /// What was read of the key of the provider.
    pub fn reading(&self, provider: &str) -> (res: &EnvReading)
        requires
            key_env(provider@) is Some,
        ensures
            res@ == self@.of(provider@),
    {
        let name = normalize_provider_name(provider);
        if same(name.as_str(), "openai") {
            &self.openai
        } else if same(name.as_str(), "together") {
            &self.together
        } else {
            &self.openrouter
        }
    }
}

pub fn provider_api_key(provider: &str, keys: &ProviderKeys) -> (res: Result<
    Option<String>,
    Failure,
>)
    ensures
        option_result(res) == api_key(provider@, keys@),
{
    match provider_api_key_env(provider) {
        Some(env_key) => read_filled_env(env_key, keys.reading(provider)),
        None => Ok(None),
    }
}

pub fn require_provider_api_key(provider: &str, keys: &ProviderKeys) -> (res: Result<
    String,
    Failure,
>)
    ensures
        text_result(res) == required_key(provider@, keys@),
{
    let env_key: &'static str = match provider_api_key_env(provider) {
        Some(env_key) => env_key,
        None => {
            let mut message = "provider `".to_owned();
            message.append(provider);
            message.append(
                "` is not supported by this pipeline wrapper; supported providers are `openai`, `together`, and `openrouter`",
            );
            return Err(Failure::new(message));
        },
    };
    match provider_api_key(provider, keys) {
        Err(error) => Err(error),
        Ok(Some(key)) => Ok(key),
        Ok(None) => {
            let mut message = "`".to_owned();
            message.append(env_key);
            message.append("` is not configured for provider `");
            message.append(provider);
            message.append("`");
            Err(Failure::new(message))
        },
    }
}

// ---------------------------------------------------------------------------
// Routes
// ---------------------------------------------------------------------------
/// The provider and the model that serve a task, and the hint by which requests are routed.
#[derive(Debug, PartialEq, Eq)]
pub struct TaskModelConfig {
    pub task: TaskKind,
    pub provider: String,
    pub model: String,
    pub hint: String,
}

#[verifier::ext_equal]
pub struct ConfigModel {
    pub task: TaskKind,
    pub provider: Seq<char>,
    pub model: Seq<char>,
    pub hint: Seq<char>,
}

impl View for TaskModelConfig {
    type V = ConfigModel;

    open spec fn view(&self) -> ConfigModel {
        ConfigModel {
            task: self.task,
            provider: self.provider@,
            model: self.model@,
            hint: self.hint@,
        }
    }
}

impl DeepView for TaskModelConfig {
    type V = ConfigModel;

    open spec fn deep_view(&self) -> ConfigModel {
        self@
    }
}

impl Clone for TaskModelConfig {
    fn clone(&self) -> (res: Self)
        ensures
            res@ == self@,
    {
        TaskModelConfig {
            task: self.task,
            provider: self.provider.clone(),
            model: self.model.clone(),
            hint: self.hint.clone(),
        }
    }
}

/// A route as the provider router takes it.
#[derive(Debug)]
pub struct ModelRouteConfig {
    pub hint: String,
    pub provider: String,
    pub model: String,
    pub api_key: Option<String>,
}

#[verifier::ext_equal]
pub struct RouteModel {
    pub hint: Seq<char>,
    pub provider: Seq<char>,
    pub model: Seq<char>,
    pub api_key: Option<Seq<char>>,
}

impl View for ModelRouteConfig {
    type V = RouteModel;

    open spec fn view(&self) -> RouteModel {
        RouteModel {
            hint: self.hint@,
            provider: self.provider@,
            model: self.model@,
            api_key: self.api_key.deep_view(),
        }
    }
}

impl DeepView for ModelRouteConfig {
    type V = RouteModel;

    open spec fn deep_view(&self) -> RouteModel {
        self@
    }
}

/// The configuration of a task for the provider and the model.
pub open spec fn task_config(task: TaskKind, provider: Seq<char>, model: Seq<char>) -> ConfigModel {
    ConfigModel { task, provider: provider_name(provider), model, hint: "hint:"@ + task.label() }
}

pub open spec fn route_label(config: ConfigModel) -> Seq<char> {
    match search::strip_prefix(config.hint, "hint:"@) {
        Some(name) => name,
        None => config.hint,
    }
}

pub open spec fn model_route(config: ConfigModel, keys: KeysModel) -> Result<
    RouteModel,
    Seq<Seq<char>>,
> {
    match api_key(config.provider, keys) {
        Ok(key) => Ok(
            RouteModel {
                hint: route_label(config),
                provider: config.provider,
                model: config.model,
                api_key: key,
            },
        ),
        Err(error) => Err(error),
    }
}

impl TaskModelConfig {
    pub fn new(task: TaskKind, provider: &str, model: &str) -> (res: Self)
        ensures
            res@ == task_config(task, provider@, model@),
    {
        let mut hint = "hint:".to_owned();
        hint.append(task.as_str());
        TaskModelConfig {
            task,
            provider: normalize_provider_name(provider),
            model: model.to_owned(),
            hint,
        }
    }

    /// The hint without the mark that it is one.
    pub fn route_name(&self) -> (res: String)
        ensures
            res@ == route_label(self@),
    {
        match without_prefix(self.hint.as_str(), "hint:") {
            Some(name) => name,
            None => self.hint.clone(),
        }
    }

    pub fn as_model_route(&self, keys: &ProviderKeys) -> (res: Result<ModelRouteConfig, Failure>)
        ensures
            model_route(self@, keys@) == match res {
                Ok(route) => Ok::<RouteModel, Seq<Seq<char>>>(route@),
                Err(error) => Err::<RouteModel, Seq<Seq<char>>>(error@),
            },
    {
        match provider_api_key(self.provider.as_str(), keys) {
            Ok(key) => Ok(
                ModelRouteConfig {
                    hint: self.route_name(),
                    provider: self.provider.clone(),
                    model: self.model.clone(),
                    api_key: key,
                },
            ),
            Err(error) => Err(error),
        }
    }
}

/// Picks the provider and the model of a task.
pub struct ModelRouter;

/// What the environment, and the default model where it is silent, say about a task.
pub open spec fn routed(
    task: TaskKind,
    default_model: Seq<char>,
    provider: ReadingModel,
    model: ReadingModel,
) -> Result<ConfigModel, Seq<Seq<char>>> {
    match filled_env(task.prefix() + "_PROVIDER"@, provider) {
        Err(error) => Err(error),
        Ok(provider_value) => match env_or(task.prefix() + "_MODEL"@, model, default_model) {
            Err(error) => Err(error),
            Ok(model_value) => Ok(
                task_config(
                    task,
                    match provider_value {
                        Some(value) => provider_name(value),
                        None => DEFAULT_TASK_PROVIDER@,
                    },
                    model_value,
                ),
            ),
        },
    }
}

impl ModelRouter {
    /// Takes what was read of the variables `provider_env` and `model_env` of the task.
    pub fn from_env(
        task: TaskKind,
        default_model: &str,
        provider: &EnvReading,
        model: &EnvReading,
    ) -> (res: Result<TaskModelConfig, Failure>)
        ensures
            routed(task, default_model@, provider@, model@) == match res {
                Ok(config) => Ok::<ConfigModel, Seq<Seq<char>>>(config@),
                Err(error) => Err::<ConfigModel, Seq<Seq<char>>>(error@),
            },
    {
        let provider_value: String = match read_filled_env(
            task.provider_env().as_str(),
            provider,
        ) {
            Ok(Some(value)) => normalize_provider_name(value.as_str()),
            Ok(None) => DEFAULT_TASK_PROVIDER.to_owned(),
            Err(error) => {
                return Err(error);
            },
        };
        match read_env_with_default(task.model_env().as_str(), model, default_model) {
            Ok(model_value) => Ok(
                TaskModelConfig::new(task, provider_value.as_str(), model_value.as_str()),
            ),
            Err(error) => Err(error),
        }
    }
}

// ---------------------------------------------------------------------------
// Sandbox limits
// ---------------------------------------------------------------------------
/// How much of the machine a container may use.
#[derive(Debug, PartialEq, Eq)]
pub struct DockerSandboxConfig {
    pub memory_limit: String,
    pub cpu_limit: String,
}

impl Clone for DockerSandboxConfig {
    fn clone(&self) -> (res: Self)
        ensures
            res.memory_limit@ == self.memory_limit@,
            res.cpu_limit@ == self.cpu_limit@,
    {
        DockerSandboxConfig {
            memory_limit: self.memory_limit.clone(),
            cpu_limit: self.cpu_limit.clone(),
        }
    }
}

impl Default for DockerSandboxConfig {
    fn default() -> (res: Self)
        ensures
            res.memory_limit@ == DEFAULT_DOCKER_SANDBOX_MEMORY@,
            res.cpu_limit@ == DEFAULT_DOCKER_SANDBOX_CPUS@,
    {
        DockerSandboxConfig {
            memory_limit: DEFAULT_DOCKER_SANDBOX_MEMORY.to_owned(),
            cpu_limit: DEFAULT_DOCKER_SANDBOX_CPUS.to_owned(),
        }
    }
}

impl DockerSandboxConfig {
    /// Takes what was read of the variables for the memory and for the processors.
    pub fn from_env(memory: &EnvReading, cpus: &EnvReading) -> (res: Result<Self, Failure>)
        ensures
            match res {
                Ok(config) => env_or(
                    DOCKER_SANDBOX_MEMORY_ENV@,
                    memory@,
                    DEFAULT_DOCKER_SANDBOX_MEMORY@,
                ) == Ok::<Seq<char>, Seq<Seq<char>>>(config.memory_limit@) && env_or(
                    DOCKER_SANDBOX_CPUS_ENV@,
                    cpus@,
                    DEFAULT_DOCKER_SANDBOX_CPUS@,
                ) == Ok::<Seq<char>, Seq<Seq<char>>>(config.cpu_limit@),
                Err(error) => if memory@ is Unreadable {
                    optional_env(DOCKER_SANDBOX_MEMORY_ENV@, memory@) == Err::<
                        Option<Seq<char>>,
                        Seq<Seq<char>>,
                    >(error@)
                } else {
                    optional_env(DOCKER_SANDBOX_CPUS_ENV@, cpus@) == Err::<
                        Option<Seq<char>>,
                        Seq<Seq<char>>,
                    >(error@)
                },
            },
    {
        let memory_limit: String = match read_env_with_default(
            DOCKER_SANDBOX_MEMORY_ENV,
            memory,
            DEFAULT_DOCKER_SANDBOX_MEMORY,
        ) {
            Ok(value) => value,
            Err(error) => {
                return Err(error);
            },
        };
        match read_env_with_default(
            DOCKER_SANDBOX_CPUS_ENV,
            cpus,
            DEFAULT_DOCKER_SANDBOX_CPUS,
        ) {
            Ok(cpu_limit) => Ok(DockerSandboxConfig { memory_limit, cpu_limit }),
            Err(error) => Err(error),
        }
    }
}

// ---------------------------------------------------------------------------
// Laws
// ---------------------------------------------------------------------------
/// A variable that says something is taken at its word; without one the default counts; one that
/// cannot be read is an error.
pub proof fn lemma_env_or(key: Seq<char>, reading: ReadingModel, default: Seq<char>)
    ensures
        reading matches ReadingModel::Value(value) ==> {
            &&& !text::is_blank(value) ==> env_or(key, reading, default) == Ok::<
                Seq<char>,
                Seq<Seq<char>>,
            >(value)
            &&& text::is_blank(value) ==> env_or(key, reading, default) == Ok::<
                Seq<char>,
                Seq<Seq<char>>,
            >(default)
        },
        reading is Missing ==> env_or(key, reading, default) == Ok::<Seq<char>, Seq<Seq<char>>>(
            default,
        ),
        reading is Unreadable <==> env_or(key, reading, default) is Err,
{
}

/// The key of a provider is the one that was read for it, and for no other.
pub proof fn lemma_required_key(provider: Seq<char>, keys: KeysModel)
    ensures
        provider_name(provider) == "openai"@ ==> is_key_from(
            required_key(provider, keys),
            keys.openai,
        ),
        provider_name(provider) == "together"@ ==> is_key_from(
            required_key(provider, keys),
            keys.together,
        ),
        provider_name(provider) == "openrouter"@ ==> is_key_from(
            required_key(provider, keys),
            keys.openrouter,
        ),
        provider_name(provider) != "openai"@ && provider_name(provider) != "together"@
            && provider_name(provider) != "openrouter"@ ==> required_key(provider, keys) is Err,
{
    reveal_strlit("openai");
    reveal_strlit("together");
    reveal_strlit("openrouter");
    assert("openai"@.len() == 6);
    assert("together"@.len() == 8);
    assert("openrouter"@.len() == 10);
}

/// There is a key exactly where the variable says something, and it is what the variable says.
pub open spec fn is_key_from(
    key: Result<Seq<char>, Seq<Seq<char>>>,
    reading: ReadingModel,
) -> bool {
    match reading {
        ReadingModel::Value(value) => if text::is_blank(value) {
            key is Err
        } else {
            key == Ok::<Seq<char>, Seq<Seq<char>>>(value)
        },
        _ => key is Err,
    }
}

/// A route names the task, its provider and its model, and carries the key of the provider.
pub proof fn lemma_model_route(
    task: TaskKind,
    provider: Seq<char>,
    model: Seq<char>,
    keys: KeysModel,
)
    ensures
        ({
            let config = task_config(task, provider, model);
            &&& config.task == task
            &&& config.model == model
            &&& config.provider == provider_name(provider)
            &&& route_label(config) == task.label()
            &&& model_route(config, keys) matches Ok(route) ==> {
                &&& route.hint == task.label()
                &&& route.provider == config.provider
                &&& route.model == model
                &&& api_key(config.provider, keys) == Ok::<Option<Seq<char>>, Seq<Seq<char>>>(
                    route.api_key,
                )
            }
            &&& model_route(config, keys) is Ok <==> api_key(config.provider, keys) is Ok
        }),
{
    let hint = "hint:"@ + task.label();
    assert(hint.take("hint:"@.len() as int) =~= "hint:"@);
    assert(hint.skip("hint:"@.len() as int) =~= task.label());
}

/// The provider and the model that are set for a task are the ones of its route; the model that is
/// not set is the default one.
pub proof fn lemma_routed(
    task: TaskKind,
    default_model: Seq<char>,
    provider: ReadingModel,
    model: ReadingModel,
)
    ensures
        routed(task, default_model, provider, model) is Ok <==> !(provider is Unreadable) && !(
        model is Unreadable),
        routed(task, default_model, provider, model) matches Ok(config) ==> {
            &&& config.task == task
            &&& model matches ReadingModel::Value(value) ==> config.model == if text::is_blank(
                value,
            ) {
                default_model
            } else {
                value
            }
            &&& model is Missing ==> config.model == default_model
            &&& provider is Missing ==> config.provider == provider_name(DEFAULT_TASK_PROVIDER@)
        },
{
}

/// A provider is known by its name without white space around it and in small letters, whatever the
/// letters were; all spellings of one name are the same provider.
pub proof fn lemma_provider_name(provider: Seq<char>)
    requires
        text::trimmed(provider) == provider,
        forall|i: int| 0 <= i < provider.len() ==> !('A' <= #[trigger] provider[i] <= 'Z'),
    ensures
        provider != "together.ai"@ && provider != "together-ai"@ ==> provider_name(provider)
            == provider,
        provider == "together.ai"@ || provider == "together-ai"@ ==> provider_name(provider)
            == "together"@,
        forall|spelling: Seq<char>|
            compose::lowered(text::trimmed(spelling)) == provider ==> #[trigger] provider_name(
                spelling,
            ) == provider_name(provider),
{
    compose::lemma_lowered(provider);
}

} // verus!
