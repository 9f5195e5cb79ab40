//! The client that asks models for structured answers, request by request.
use crate::compose;
use crate::compose::{decimal_text, parse_number};
use crate::config::calls;
use crate::config::calls::{
    build_format_retry_prompt, parse_structured_call, ChatResponse, TokenUsage, ToolSpec,
};
use crate::config::literals;
use crate::config::literals::truncate_for_error;
use crate::config::routing;
use crate::config::routing::{
    provider_api_key_env, read_optional_env, require_provider_api_key, ConfigModel, EnvReading,
    KeysModel, ModelRouteConfig, ProviderKeys, ReadingModel, RouteModel, TaskKind, TaskModelConfig,
    DEFAULT_STRUCTURED_FALLBACK_MODEL, DEFAULT_TASK_PROVIDER, OPENAI_API_KEY_ENV,
};
use crate::failure;
use crate::failure::Failure;
use crate::json;
use crate::json::{json_text, JsonValue};
use crate::search;
use crate::search::{split_at_text, split_words};
use crate::text;
use crate::text::same;
use vstd::prelude::*;

verus! {

/// How often an answer in the wrong form is asked for again.
pub const MAX_FORMAT_RETRIES: usize = 3;

// ---------------------------------------------------------------------------
// Errors of a provider
// ---------------------------------------------------------------------------
/// An HTTP status with which a provider refused a request.
#[derive(Debug)]
pub struct ProviderHttpStatusError {
    pub provider: String,
    pub status_code: u16,
    pub message: String,
}

/// An error of a request: an HTTP status of the provider, or another failure, with the HTTP
/// status that the transport knows of, if any.
#[derive(Debug)]
pub enum ChatError {
    Status(ProviderHttpStatusError),
    Other(Failure, Option<u16>),
}

#[verifier::ext_equal]
pub enum ChatErrorModel {
    Status(Seq<char>, u16, Seq<char>),
    Other(Seq<Seq<char>>, Option<u16>),
}

impl View for ChatError {
    type V = ChatErrorModel;

    open spec fn view(&self) -> ChatErrorModel {
        match *self {
            ChatError::Status(error) => ChatErrorModel::Status(
                error.provider@,
                error.status_code,
                error.message@,
            ),
            ChatError::Other(error, status) => ChatErrorModel::Other(error@, status),
        }
    }
}

impl ChatErrorModel {
    /// The messages of the error, the outermost one first.
    pub open spec fn chain(self) -> Seq<Seq<char>> {
        match self {
            ChatErrorModel::Status(provider, code, message) => failure::plain(
                provider + " provider HTTP error ("@ + compose::decimal(code as nat) + "): "@
                    + message,
            ),
            ChatErrorModel::Other(chain, _) => chain,
        }
    }

    /// The HTTP status of the error, as far as it is known.
    pub open spec fn status(self) -> Option<u16> {
        match self {
            ChatErrorModel::Status(_, code, _) => Some(code),
            ChatErrorModel::Other(chain, Some(code)) => Some(code),
            ChatErrorModel::Other(chain, None) => reported_status(chain[0]),
        }
    }

    /// The provider is asked to slow down or is not available now.
    pub open spec fn is_retryable(self) -> bool {
        self.status() == Some(429u16) || self.status() == Some(503u16)
    }
}

/// The HTTP status in a message of the form `.. API error (429 ..): ..`.
pub open spec fn reported_status(message: Seq<char>) -> Option<u16> {
    match search::split_once(message, " API error ("@) {
        None => None,
        Some((_, remainder)) => match search::split_once(remainder, "):"@) {
            None => None,
            Some((status, _)) => {
                let words = search::words(status);
                if words.len() == 0 {
                    None
                } else {
                    match compose::parsed_number(words[0], 65535) {
                        Some(code) => Some(code as u16),
                        None => None,
                    }
                }
            },
        },
    }
}

impl ProviderHttpStatusError {
    pub fn new(provider: &str, status_code: u16, message: String) -> (res: Self)
        ensures
            res.provider@ == provider@,
            res.status_code == status_code,
            res.message@ == message@,
    {
        ProviderHttpStatusError { provider: provider.to_owned(), status_code, message }
    }
}

impl ChatError {
    /// The error as a failure.
    pub fn to_failure(&self) -> (res: Failure)
        ensures
            res@ == self@.chain(),
    {
        match self {
            ChatError::Status(error) => {
                let mut message = error.provider.clone();
                message.append(" provider HTTP error (");
                message.append(decimal_text(error.status_code as u64).as_str());
                message.append("): ");
                message.append(error.message.as_str());
                Failure::new(message)
            },
            ChatError::Other(error, _) => error.copied(),
        }
    }
}

/// Looks for an HTTP status in the message of an error.
pub fn extract_provider_api_status_code(message: &str) -> (res: Option<u16>)
    ensures
        res == reported_status(message@),
{
    let (_, remainder) = match split_at_text(message, " API error (") {
        Some(parts) => parts,
        None => {
            return None;
        },
    };
    let (status, _) = match split_at_text(remainder.as_str(), "):") {
        Some(parts) => parts,
        None => {
            return None;
        },
    };
    let words: Vec<String> = split_words(status.as_str());
    assert(words.deep_view().len() == words@.len());
    if words.len() == 0 {
        return None;
    }
    assert(words.deep_view()[0] == words@[0]@);
    match parse_number(words[0].as_str(), 65535) {
        Some(code) => Some(code as u16),
        None => None,
    }
}

pub fn extract_http_status_code(error: &ChatError) -> (res: Option<u16>)
    ensures
        res == error@.status(),
{
    match error {
        ChatError::Status(status) => Some(status.status_code),
        ChatError::Other(_, Some(code)) => Some(*code),
        ChatError::Other(cause, None) => extract_provider_api_status_code(cause.message().as_str()),
    }
}

pub fn is_rate_limit_error(error: &ChatError) -> (res: bool)
    ensures
        res == error@.is_retryable(),
{
    match extract_http_status_code(error) {
        Some(code) => code == 429 || code == 503,
        None => false,
    }
}

/// The provider behind each hint.
#[derive(Debug)]
pub struct ZeroClawBackend {
    pub providers_by_hint: Vec<(String, String)>,
}

/// The provider that was last set for the hint, or the default one.
pub open spec fn provider_of(pairs: Seq<(Seq<char>, Seq<char>)>, hint: Seq<char>) -> Seq<char>
    decreases pairs.len(),
{
    if pairs.len() == 0 {
        DEFAULT_TASK_PROVIDER@
    } else if pairs.last().0 == hint {
        pairs.last().1
    } else {
        provider_of(pairs.drop_last(), hint)
    }
}

pub open spec fn pairs_model(pairs: Seq<(String, String)>) -> Seq<(Seq<char>, Seq<char>)> {
    pairs.map_values(|p: (String, String)| (p.0@, p.1@))
}

impl ZeroClawBackend {
    pub fn provider_for_hint(&self, hint: &str) -> (res: &str)
        ensures
            res@ == provider_of(pairs_model(self.providers_by_hint@), hint@),
    {
        let ghost all = pairs_model(self.providers_by_hint@);
        let mut i: usize = self.providers_by_hint.len();
        assert(all.take(i as int) == all);
        while i > 0
            invariant
                i <= self.providers_by_hint.len(),
                all == pairs_model(self.providers_by_hint@),
                provider_of(all, hint@) == provider_of(all.take(i as int), hint@),
            decreases i,
        {
            let pair = &self.providers_by_hint[i - 1];
            assert(all.take(i as int).last() == (pair.0@, pair.1@));
            assert(all.take(i as int).drop_last() == all.take(i as int - 1));
            if same(pair.0.as_str(), hint) {
                return pair.1.as_str();
            }
            i -= 1;
        }
        DEFAULT_TASK_PROVIDER
    }

    /// Gives an error whose HTTP status is known the form of a provider error.
    pub fn normalize_error(provider: &str, error: ChatError) -> (res: ChatError)
        ensures
            res@ == match error@.status() {
                Some(code) => ChatErrorModel::Status(provider@, code, error@.chain()[0]),
                None => error@,
            },
    {
        match extract_http_status_code(&error) {
            Some(status_code) => {
                let message = error.to_failure().message();
                ChatError::Status(ProviderHttpStatusError::new(provider, status_code, message))
            },
            None => error,
        }
    }
}

// ---------------------------------------------------------------------------
// Token usage
// ---------------------------------------------------------------------------
/// The tokens that requests to a model have used.
#[derive(Debug, Clone, Copy, PartialEq, Eq, Structural)]
pub struct ProjectTokenUsage {
    pub prompt_tokens: u64,
    pub completion_tokens: u64,
    pub total_tokens: u64,
}

/// The sum, or the largest number where the sum is larger.
pub open spec fn capped_sum(a: u64, b: u64) -> u64 {
    if a + b > u64::MAX {
        u64::MAX
    } else {
        (a + b) as u64
    }
}

pub open spec fn count_or_zero(count: Option<u64>) -> u64 {
    match count {
        Some(n) => n,
        None => 0,
    }
}

impl ProjectTokenUsage {
    pub open spec fn none() -> Self {
        ProjectTokenUsage { prompt_tokens: 0, completion_tokens: 0, total_tokens: 0 }
    }

    /// The usage that a provider reports; what it does not report counts as zero.
    pub open spec fn reported(usage: Option<TokenUsage>) -> Self {
        let prompt = match usage {
            Some(value) => count_or_zero(value.input_tokens),
            None => 0,
        };
        let completion = match usage {
            Some(value) => count_or_zero(value.output_tokens),
            None => 0,
        };
        ProjectTokenUsage {
            prompt_tokens: prompt,
            completion_tokens: completion,
            total_tokens: capped_sum(prompt, completion),
        }
    }

    pub open spec fn plus(self, other: Self) -> Self {
        ProjectTokenUsage {
            prompt_tokens: capped_sum(self.prompt_tokens, other.prompt_tokens),
            completion_tokens: capped_sum(self.completion_tokens, other.completion_tokens),
            total_tokens: capped_sum(self.total_tokens, other.total_tokens),
        }
    }

    pub fn from_provider_usage(usage: Option<TokenUsage>) -> (res: Self)
        ensures
            res == Self::reported(usage),
    {
        let prompt_tokens: u64 = match usage {
            Some(value) => match value.input_tokens {
                Some(n) => n,
                None => 0,
            },
            None => 0,
        };
        let completion_tokens: u64 = match usage {
            Some(value) => match value.output_tokens {
                Some(n) => n,
                None => 0,
            },
            None => 0,
        };
        ProjectTokenUsage {
            prompt_tokens,
            completion_tokens,
            total_tokens: prompt_tokens.saturating_add(completion_tokens),
        }
    }

    pub fn accumulate(&mut self, other: Self)
        ensures
            *final(self) == old(self).plus(other),
    {
        self.prompt_tokens = self.prompt_tokens.saturating_add(other.prompt_tokens);
        self.completion_tokens = self.completion_tokens.saturating_add(other.completion_tokens);
        self.total_tokens = self.total_tokens.saturating_add(other.total_tokens);
    }
}

impl Default for ProjectTokenUsage {
    fn default() -> (res: Self)
        ensures
            res == Self::none(),
    {
        ProjectTokenUsage { prompt_tokens: 0, completion_tokens: 0, total_tokens: 0 }
    }
}

/// Adding usage never makes a count smaller.
pub proof fn lemma_usage_grows(a: ProjectTokenUsage, b: ProjectTokenUsage)
    ensures
        a.prompt_tokens <= a.plus(b).prompt_tokens,
        a.completion_tokens <= a.plus(b).completion_tokens,
        a.total_tokens <= a.plus(b).total_tokens,
{
}

// ---------------------------------------------------------------------------
// Structured calls
// ---------------------------------------------------------------------------
/// A call that a model made, with the tokens that it took to get it.
#[derive(Debug)]
pub struct StructuredCall {
    pub tool_name: String,
    pub arguments: JsonValue,
    pub usage: ProjectTokenUsage,
}

impl StructuredCall {
    /// The failure of reading the arguments of the call.
    pub open spec fn unreadable(self, cause: Seq<char>) -> Seq<Seq<char>> {
        failure::in_context(
            "failed to deserialize structured call `"@ + self.tool_name@
                + "` arguments from payload `"@ + literals::excerpt(
                json::rendered_json(self.arguments@),
            ) + "`"@,
            failure::plain(cause),
        )
    }

    /// Takes what came of reading the arguments as some type: the value, or the error with the
    /// call that it is about.
    pub fn deserialize_arguments<T>(&self, outcome: Result<T, String>) -> (res: Result<T, Failure>)
        ensures
            match (outcome, res) {
                (Ok(value), Ok(given)) => value == given,
                (Err(cause), Err(error)) => error@ == self.unreadable(cause@),
                _ => false,
            },
    {
        match outcome {
            Ok(value) => Ok(value),
            Err(cause) => {
                let mut message = "failed to deserialize structured call `".to_owned();
                message.append(self.tool_name.as_str());
                message.append("` arguments from payload `");
                message.append(truncate_for_error(json_text(&self.arguments).as_str()).as_str());
                message.append("`");
                Err(Failure::new(cause).context(message))
            },
        }
    }
}

// ---------------------------------------------------------------------------
// Routes of a client
// ---------------------------------------------------------------------------
/// The position of the first configuration of the task, or the number of configurations.
pub open spec fn config_index(configs: Seq<ConfigModel>, task: TaskKind) -> int
    decreases configs.len(),
{
    if configs.len() == 0 {
        0
    } else if configs[0].task == task {
        0
    } else {
        1 + config_index(configs.drop_first(), task)
    }
}

pub open spec fn config_for(configs: Seq<ConfigModel>, task: TaskKind) -> Option<ConfigModel> {
    let i = config_index(configs, task);
    if 0 <= i < configs.len() {
        Some(configs[i])
    } else {
        None
    }
}

/// No task has two configurations.
pub open spec fn tasks_differ(configs: Seq<ConfigModel>) -> bool {
    forall|i: int, j: int| 0 <= i < j < configs.len() ==> configs[i].task != configs[j].task
}

proof fn lemma_config_index(configs: Seq<ConfigModel>, task: TaskKind, i: int)
    requires
        0 <= i <= configs.len(),
        forall|j: int| 0 <= j < i ==> (#[trigger] configs[j]).task != task,
        i < configs.len() ==> configs[i].task == task,
    ensures
        config_index(configs, task) == i,
    decreases configs.len(),
{
    if i > 0 {
        let rest = configs.drop_first();
        assert(configs[0].task != task);
        assert forall|j: int| 0 <= j < i - 1 implies (#[trigger] rest[j]).task != task by {
            assert(rest[j] == configs[j + 1]);
        }
        assert(i < configs.len() ==> rest[i - 1] == configs[i]);
        lemma_config_index(rest, task, i - 1);
    }
}

fn find_config(configs: &[TaskModelConfig], task: TaskKind) -> (res: usize)
    ensures
        res == config_index(configs.deep_view(), task),
        res <= configs@.len(),
{
    let ghost all = configs.deep_view();
    let mut i: usize = 0;
    while i < configs.len()
        invariant
            i <= configs.len(),
            all == configs.deep_view(),
            forall|j: int| 0 <= j < i ==> (#[trigger] all[j]).task != task,
        decreases configs.len() - i,
    {
        assert(all[i as int].task == configs@[i as int].task);
        if configs[i].task == task {
            proof {
                lemma_config_index(all, task, i as int);
            }
            return i;
        }
        i += 1;
    }
    proof {
        lemma_config_index(all, task, i as int);
    }
    i
}

/// The route that takes over when the executor's own one gives no structured answer.
pub open spec fn fallback_config() -> ConfigModel {
    ConfigModel {
        hint: "hint:executor:openai"@,
        ..routing::task_config(
            TaskKind::Executor,
            "openai"@,
            DEFAULT_STRUCTURED_FALLBACK_MODEL@,
        )
    }
}

/// The routes that are needed beside those of the tasks.
pub open spec fn supplemental_routes(configs: Seq<ConfigModel>, openai: ReadingModel) -> Result<
    Seq<ConfigModel>,
    Seq<Seq<char>>,
> {
    match config_for(configs, TaskKind::Executor) {
        None => Ok(Seq::empty()),
        Some(executor) => if executor.provider == "openai"@ {
            Ok(Seq::empty())
        } else {
            match routing::optional_env(OPENAI_API_KEY_ENV@, openai) {
                Err(error) => Err(error),
                Ok(Some(_)) => Ok(seq![fallback_config()]),
                Ok(None) => Ok(Seq::empty()),
            }
        },
    }
}

pub fn supplemental_task_routes(primary_task_configs: &[TaskModelConfig], openai: &EnvReading) -> (res:
    Result<Vec<TaskModelConfig>, Failure>)
    ensures
        supplemental_routes(primary_task_configs.deep_view(), openai@) == match res {
            Ok(routes) => Ok::<Seq<ConfigModel>, Seq<Seq<char>>>(routes.deep_view()),
            Err(error) => Err::<Seq<ConfigModel>, Seq<Seq<char>>>(error@),
        },
{
    let mut routes: Vec<TaskModelConfig> = Vec::new();
    assert(routes.deep_view() =~= Seq::empty());
    let i: usize = find_config(primary_task_configs, TaskKind::Executor);
    if i == primary_task_configs.len() {
        return Ok(routes);
    }
    assert(primary_task_configs.deep_view()[i as int] == primary_task_configs@[i as int]@);
    if !same(primary_task_configs[i].provider.as_str(), "openai") {
        match read_optional_env(OPENAI_API_KEY_ENV, openai) {
            Ok(Some(_)) => {
                let mut fallback_route = TaskModelConfig::new(
                    TaskKind::Executor,
                    "openai",
                    DEFAULT_STRUCTURED_FALLBACK_MODEL,
                );
                fallback_route.hint = "hint:executor:openai".to_owned();
                assert(fallback_route@ == fallback_config());
                routes.push(fallback_route);
                assert(routes.deep_view() =~= seq![fallback_config()]);
            },
            Ok(None) => {},
            Err(error) => {
                return Err(error);
            },
        }
    }
    Ok(routes)
}

/// What is wrong with the key that the configuration needs.
pub open spec fn key_problem(config: ConfigModel, keys: KeysModel) -> Option<Seq<Seq<char>>> {
    match routing::required_key(config.provider, keys) {
        Ok(_) => None,
        Err(error) => Some(
            failure::in_context(
                "missing API key for task `"@ + config.task.label() + "` provider `"@
                    + config.provider + "`; expected `"@ + match routing::key_env(
                    config.provider,
                ) {
                    Some(env) => env,
                    None => "UNKNOWN_API_KEY"@,
                } + "`"@,
                error,
            ),
        ),
    }
}

/// What is wrong with the first configuration whose key is missing.
pub open spec fn first_key_problem(configs: Seq<ConfigModel>, keys: KeysModel) -> Option<
    Seq<Seq<char>>,
>
    decreases configs.len(),
{
    if configs.len() == 0 {
        None
    } else if key_problem(configs[0], keys) is Some {
        key_problem(configs[0], keys)
    } else {
        first_key_problem(configs.drop_first(), keys)
    }
}

/// How requests are routed: the provider that serves what no route names, and the routes.
#[derive(Debug)]
pub struct RoutePlan {
    pub primary_provider: String,
    pub primary_api_key: Option<String>,
    pub default_model: String,
    pub routes: Vec<ModelRouteConfig>,
    pub backend: ZeroClawBackend,
}

#[verifier::ext_equal]
pub struct PlanModel {
    pub primary_provider: Seq<char>,
    pub primary_api_key: Option<Seq<char>>,
    pub default_model: Seq<char>,
    pub routes: Seq<RouteModel>,
    pub providers_by_hint: Seq<(Seq<char>, Seq<char>)>,
}

impl View for RoutePlan {
    type V = PlanModel;

    open spec fn view(&self) -> PlanModel {
        PlanModel {
            primary_provider: self.primary_provider@,
            primary_api_key: self.primary_api_key.deep_view(),
            default_model: self.default_model@,
            routes: self.routes.deep_view(),
            providers_by_hint: pairs_model(self.backend.providers_by_hint@),
        }
    }
}

/// The route of a configuration whose key could be read.
pub open spec fn route_of(config: ConfigModel, keys: KeysModel) -> RouteModel {
    RouteModel {
        hint: routing::route_label(config),
        provider: config.provider,
        model: config.model,
        api_key: match routing::api_key(config.provider, keys) {
            Ok(key) => key,
            Err(_) => None,
        },
    }
}

/// The key of the first route to the provider.
pub open spec fn key_of_first(routes: Seq<RouteModel>, provider: Seq<char>) -> Option<Seq<char>>
    decreases routes.len(),
{
    if routes.len() == 0 {
        None
    } else if routes[0].provider == provider {
        routes[0].api_key
    } else {
        key_of_first(routes.drop_first(), provider)
    }
}

/// How the requests of the tasks are routed, or what keeps them from being routed.
pub open spec fn planned(configs: Seq<ConfigModel>, keys: KeysModel) -> Result<
    PlanModel,
    Seq<Seq<char>>,
> {
    if configs.len() == 0 {
        Err(failure::plain("at least one task model configuration is required"@))
    } else {
        match supplemental_routes(configs, keys.openai) {
            Err(error) => Err(error),
            Ok(more) => {
                let all = configs + more;
                match first_key_problem(all, keys) {
                    Some(error) => Err(error),
                    None => {
                        let routes = all.map_values(|c: ConfigModel| route_of(c, keys));
                        Ok(
                            PlanModel {
                                primary_provider: configs[0].provider,
                                primary_api_key: key_of_first(routes, configs[0].provider),
                                default_model: configs[0].model,
                                routes,
                                providers_by_hint: all.map_values(
                                    |c: ConfigModel| (c.hint, c.provider),
                                ),
                            },
                        )
                    },
                }
            },
        }
    }
}

fn check_key(config: &TaskModelConfig, keys: &ProviderKeys) -> (res: Result<(), Failure>)
    ensures
        match res {
            Ok(_) => key_problem(config@, keys@) is None,
            Err(error) => key_problem(config@, keys@) == Some(error@),
        },
{
    match require_provider_api_key(config.provider.as_str(), keys) {
        Ok(_) => Ok(()),
        Err(error) => {
            let mut message = "missing API key for task `".to_owned();
            message.append(config.task.as_str());
            message.append("` provider `");
            message.append(config.provider.as_str());
            message.append("`; expected `");
            match provider_api_key_env(config.provider.as_str()) {
                Some(env) => {
                    message.append(env);
                },
                None => {
                    message.append("UNKNOWN_API_KEY");
                },
            }
            message.append("`");
            Err(error.context(message))
        },
    }
}

fn check_keys(configs: &[TaskModelConfig], keys: &ProviderKeys) -> (res: Result<(), Failure>)
    ensures
        match res {
            Ok(_) => first_key_problem(configs.deep_view(), keys@) is None && forall|i: int|
                0 <= i < configs@.len() ==> key_problem(#[trigger] configs.deep_view()[i], keys@)
                    is None,
            Err(error) => first_key_problem(configs.deep_view(), keys@) == Some(error@),
        },
{
    let ghost all = configs.deep_view();
    let mut i: usize = 0;
    assert(all.skip(0) == all);
    while i < configs.len()
        invariant
            i <= configs.len(),
            all == configs.deep_view(),
            first_key_problem(all, keys@) == first_key_problem(all.skip(i as int), keys@),
            forall|j: int| 0 <= j < i ==> key_problem(#[trigger] all[j], keys@) is None,
        decreases configs.len() - i,
    {
        proof {
            assert(all.skip(i as int)[0] == configs@[i as int]@);
            assert(all.skip(i as int).drop_first() == all.skip(i as int + 1));
        }
        match check_key(&configs[i], keys) {
            Ok(_) => {},
            Err(error) => {
                return Err(error);
            },
        }
        i += 1;
    }
    Ok(())
}

fn find_key(routes: &[ModelRouteConfig], provider: &str) -> (res: Option<String>)
    ensures
        res.deep_view() == key_of_first(routes.deep_view(), provider@),
{
    let ghost all = routes.deep_view();
    let mut i: usize = 0;
    assert(all.skip(0) == all);
    while i < routes.len()
        invariant
            i <= routes.len(),
            all == routes.deep_view(),
            key_of_first(all, provider@) == key_of_first(all.skip(i as int), provider@),
        decreases routes.len() - i,
    {
        proof {
            assert(all.skip(i as int)[0] == routes@[i as int]@);
            assert(all.skip(i as int).drop_first() == all.skip(i as int + 1));
        }
        if same(routes[i].provider.as_str(), provider) {
            return routes[i].api_key.clone();
        }
        i += 1;
    }
    None
}

/// Works out how the requests of the tasks are routed. Every route needs the key of its
/// provider.
pub fn plan_routes(task_configs: &Vec<TaskModelConfig>, keys: &ProviderKeys) -> (res: Result<
    RoutePlan,
    Failure,
>)
    ensures
        planned(task_configs.deep_view(), keys@) == match res {
            Ok(plan) => Ok::<PlanModel, Seq<Seq<char>>>(plan@),
            Err(error) => Err::<PlanModel, Seq<Seq<char>>>(error@),
        },
{
    let ghost primary = task_configs.deep_view();
    if task_configs.len() == 0 {
        return Err(
            Failure::new("at least one task model configuration is required".to_owned()),
        );
    }
    assert(primary[0] == task_configs@[0]@);
    let more: Vec<TaskModelConfig> = match supplemental_task_routes(
        task_configs.as_slice(),
        &keys.openai,
    ) {
        Ok(more) => more,
        Err(error) => {
            return Err(error);
        },
    };
    let mut all: Vec<TaskModelConfig> = copy_configs(task_configs);
    let mut extra: Vec<TaskModelConfig> = more;
    all.append(&mut extra);
    let ghost configs = primary + more.deep_view();
    assert(all.deep_view() =~= configs);
    match check_keys(all.as_slice(), keys) {
        Ok(_) => {},
        Err(error) => {
            return Err(error);
        },
    }
    let ghost wanted_routes = configs.map_values(|c: ConfigModel| route_of(c, keys@));
    let ghost wanted_pairs = configs.map_values(|c: ConfigModel| (c.hint, c.provider));
    let mut routes: Vec<ModelRouteConfig> = Vec::new();
    let mut pairs: Vec<(String, String)> = Vec::new();
    let mut i: usize = 0;
    assert(routes.deep_view() =~= wanted_routes.take(0));
    assert(pairs_model(pairs@) =~= wanted_pairs.take(0));
    while i < all.len()
        invariant
            i <= all.len(),
            all.deep_view() == configs,
            wanted_routes == configs.map_values(|c: ConfigModel| route_of(c, keys@)),
            wanted_pairs == configs.map_values(|c: ConfigModel| (c.hint, c.provider)),
            routes.deep_view() == wanted_routes.take(i as int),
            pairs_model(pairs@) == wanted_pairs.take(i as int),
            forall|j: int| 0 <= j < configs.len() ==> key_problem(#[trigger] configs[j], keys@)
                is None,
        decreases all.len() - i,
    {
        let ghost routes_before = routes.deep_view();
        let ghost pairs_before = pairs_model(pairs@);
        assert(configs[i as int] == all@[i as int]@);
        match all[i].as_model_route(keys) {
            Ok(route) => {
                assert(route@ == wanted_routes[i as int]);
                routes.push(route);
            },
            Err(error) => {
                assert(false);
                return Err(error);
            },
        }
        pairs.push((all[i].hint.clone(), all[i].provider.clone()));
        proof {
            assert(routes.deep_view() =~= routes_before.push(wanted_routes[i as int]));
            assert(pairs_model(pairs@) =~= pairs_before.push(wanted_pairs[i as int]));
            assert(wanted_routes.take(i as int + 1) =~= wanted_routes.take(i as int).push(
                wanted_routes[i as int],
            ));
            assert(wanted_pairs.take(i as int + 1) =~= wanted_pairs.take(i as int).push(
                wanted_pairs[i as int],
            ));
        }
        i += 1;
    }
    proof {
        assert(wanted_routes.take(configs.len() as int) =~= wanted_routes);
        assert(wanted_pairs.take(configs.len() as int) =~= wanted_pairs);
    }
    let primary_api_key: Option<String> = find_key(
        routes.as_slice(),
        task_configs[0].provider.as_str(),
    );
    Ok(
        RoutePlan {
            primary_provider: task_configs[0].provider.clone(),
            primary_api_key,
            default_model: task_configs[0].model.clone(),
            routes,
            backend: ZeroClawBackend { providers_by_hint: pairs },
        },
    )
}

fn copy_configs(configs: &Vec<TaskModelConfig>) -> (res: Vec<TaskModelConfig>)
    ensures
        res.deep_view() == configs.deep_view(),
{
    let mut out: Vec<TaskModelConfig> = Vec::new();
    let mut i: usize = 0;
    while i < configs.len()
        invariant
            i <= configs.len(),
            out@.len() == i,
            forall|j: int| 0 <= j < i ==> (#[trigger] out@[j])@ == configs@[j]@,
        decreases configs.len() - i,
    {
        out.push(configs[i].clone());
        i += 1;
    }
    assert(out.deep_view() =~= configs.deep_view());
    out
}

/// An earlier configuration has the same task.
pub open spec fn is_repeated(configs: Seq<ConfigModel>, j: int) -> bool {
    0 <= j < configs.len() && exists|i: int| 0 <= i < j && configs[i].task == configs[j].task
}

/// The error names the task of the first configuration whose task an earlier one has too.
pub open spec fn is_duplicate_error(configs: Seq<ConfigModel>, error: Seq<Seq<char>>) -> bool {
    exists|j: int| #[trigger]
        is_repeated(configs, j) && tasks_differ(configs.take(j)) && error == failure::plain(
            "duplicate task model configuration provided for task `"@ + configs[j].task.label()
                + "`"@,
        )
}

/// The configurations, each for another task.
pub fn build_task_config_map(task_configs: Vec<TaskModelConfig>) -> (res: Result<
    Vec<TaskModelConfig>,
    Failure,
>)
    ensures
        match res {
            Ok(configs) => configs.deep_view() == task_configs.deep_view() && tasks_differ(
                configs.deep_view(),
            ),
            Err(error) => is_duplicate_error(task_configs.deep_view(), error@),
        },
{
    let ghost all = task_configs.deep_view();
    let mut i: usize = 0;
    while i < task_configs.len()
        invariant
            i <= task_configs.len(),
            all == task_configs.deep_view(),
            tasks_differ(all.take(i as int)),
        decreases task_configs.len() - i,
    {
        let mut k: usize = 0;
        while k < i
            invariant
                k <= i < task_configs.len(),
                all == task_configs.deep_view(),
                tasks_differ(all.take(i as int)),
                forall|j: int| 0 <= j < k ==> (#[trigger] all[j]).task != all[i as int].task,
            decreases i - k,
        {
            assert(all[k as int].task == task_configs@[k as int].task);
            assert(all[i as int].task == task_configs@[i as int].task);
            if task_configs[k].task == task_configs[i].task {
                assert(is_repeated(all, i as int));
                let mut message =
                    "duplicate task model configuration provided for task `".to_owned();
                message.append(task_configs[i].task.as_str());
                message.append("`");
                return Err(Failure::new(message));
            }
            k += 1;
        }
        proof {
            let next = all.take(i as int + 1);
            assert forall|a: int, b: int| 0 <= a < b < next.len() implies next[a].task
                != next[b].task by {
                if b < i {
                    assert(all.take(i as int)[a] == all[a]);
                    assert(all.take(i as int)[b] == all[b]);
                } else {
                    assert(all[a].task != all[i as int].task);
                }
            }
        }
        i += 1;
    }
    assert(all.take(all.len() as int) == all);
    Ok(task_configs)
}

// ---------------------------------------------------------------------------
// The client
// ---------------------------------------------------------------------------
/// A client for the tasks of the pipeline. No task has two configurations.
#[derive(Debug)]
pub struct ZeroClawClient {
    backend: ZeroClawBackend,
    task_configs: Vec<TaskModelConfig>,
    rate_limit_backoffs: Vec<u64>,
    max_format_retries: usize,
}

/// The waits, in milliseconds, between requests that a provider has no room for.
pub open spec fn default_backoffs() -> Seq<u64> {
    seq![1000u64, 2000u64, 4000u64, 8000u64]
}

impl ZeroClawClient {
    pub closed spec fn configs(&self) -> Seq<ConfigModel> {
        self.task_configs.deep_view()
    }

    pub closed spec fn backoffs(&self) -> Seq<u64> {
        self.rate_limit_backoffs@
    }

    pub closed spec fn format_retries(&self) -> nat {
        self.max_format_retries as nat
    }

    pub closed spec fn hints(&self) -> Seq<(Seq<char>, Seq<char>)> {
        pairs_model(self.backend.providers_by_hint@)
    }

    #[verifier::type_invariant]
    spec fn well_formed(&self) -> bool {
        tasks_differ(self.configs())
    }

    /// A client with the given limits.
    pub fn with_limits(
        task_configs: Vec<TaskModelConfig>,
        backend: ZeroClawBackend,
        rate_limit_backoffs: Vec<u64>,
        max_format_retries: usize,
    ) -> (res: Result<Self, Failure>)
        ensures
            match res {
                Ok(client) => tasks_differ(task_configs.deep_view()) && client.configs()
                    == task_configs.deep_view() && client.hints() == pairs_model(
                    backend.providers_by_hint@,
                ) && client.backoffs() == rate_limit_backoffs@ && client.format_retries()
                    == max_format_retries,
                Err(error) => is_duplicate_error(task_configs.deep_view(), error@),
            },
    {
        match build_task_config_map(task_configs) {
            Ok(configs) => Ok(
                ZeroClawClient {
                    backend,
                    task_configs: configs,
                    rate_limit_backoffs,
                    max_format_retries,
                },
            ),
            Err(error) => Err(error),
        }
    }

    /// A client for the tasks. `connected` says whether a provider router could be made for
    /// the routes that `plan_routes` gives.
    pub fn new(
        task_configs: Vec<TaskModelConfig>,
        keys: &ProviderKeys,
        connected: Result<(), Failure>,
    ) -> (res: Result<Self, Failure>)
        ensures
            match planned(task_configs.deep_view(), keys@) {
                Err(chain) => res matches Err(error) && error@ == chain,
                Ok(plan) => match connected {
                    Err(cause) => res matches Err(error) && error@ == failure::in_context(
                        "failed to initialize ZeroClaw provider router with primary provider `"@
                            + plan.primary_provider + "`"@,
                        cause@,
                    ),
                    Ok(_) => match res {
                        Ok(client) => tasks_differ(task_configs.deep_view()) && client.configs()
                            == task_configs.deep_view() && client.hints()
                            == plan.providers_by_hint && client.backoffs() == default_backoffs()
                            && client.format_retries() == MAX_FORMAT_RETRIES,
                        Err(error) => is_duplicate_error(task_configs.deep_view(), error@),
                    },
                },
            },
    {
        let plan = match plan_routes(&task_configs, keys) {
            Ok(plan) => plan,
            Err(error) => {
                return Err(error);
            },
        };
        match connected {
            Ok(_) => {},
            Err(cause) => {
                let mut message =
                    "failed to initialize ZeroClaw provider router with primary provider `".to_owned();
                message.append(plan.primary_provider.as_str());
                message.append("`");
                return Err(cause.context(message));
            },
        }
        let mut backoffs: Vec<u64> = Vec::new();
        backoffs.push(1000);
        backoffs.push(2000);
        backoffs.push(4000);
        backoffs.push(8000);
        assert(backoffs@ =~= default_backoffs());
        Self::with_limits(task_configs, plan.backend, backoffs, MAX_FORMAT_RETRIES)
    }

    /// The provider that serves the hint.
    pub fn provider_for_hint(&self, hint: &str) -> (res: &str)
        ensures
            res@ == provider_of(self.hints(), hint@),
    {
        self.backend.provider_for_hint(hint)
    }

    pub fn model_for(&self, task: TaskKind) -> (res: &str)
        ensures
            res@ == match config_for(self.configs(), task) {
                Some(config) => config.model,
                None => "unconfigured"@,
            },
    {
        let i: usize = find_config(self.task_configs.as_slice(), task);
        if i < self.task_configs.len() {
            assert(self.configs()[i as int] == self.task_configs@[i as int]@);
            self.task_configs[i].model.as_str()
        } else {
            "unconfigured"
        }
    }

    pub fn provider_for(&self, task: TaskKind) -> (res: &str)
        ensures
            res@ == match config_for(self.configs(), task) {
                Some(config) => config.provider,
                None => "unconfigured"@,
            },
    {
        let i: usize = find_config(self.task_configs.as_slice(), task);
        if i < self.task_configs.len() {
            assert(self.configs()[i as int] == self.task_configs@[i as int]@);
            self.task_configs[i].provider.as_str()
        } else {
            "unconfigured"
        }
    }

    /// The configuration of the task.
    pub fn task_config(&self, task: TaskKind) -> (res: Result<TaskModelConfig, Failure>)
        ensures
            match config_for(self.configs(), task) {
                Some(config) => res matches Ok(found) && found@ == config,
                None => res matches Err(error) && error@ == failure::plain(
                    "missing task model configuration for task `"@ + task.label() + "`"@,
                ),
            },
    {
        let i: usize = find_config(self.task_configs.as_slice(), task);
        if i < self.task_configs.len() {
            assert(self.configs()[i as int] == self.task_configs@[i as int]@);
            Ok(self.task_configs[i].clone())
        } else {
            let mut message = "missing task model configuration for task `".to_owned();
            message.append(task.as_str());
            message.append("`");
            Err(Failure::new(message))
        }
    }
}

// ---------------------------------------------------------------------------
// One request
// ---------------------------------------------------------------------------
/// What follows an attempt to send a request: it was answered, it is sent again after a wait
/// of some milliseconds, or it failed.
#[derive(Debug)]
pub enum DispatchStep {
    Done(ChatResponse),
    Wait(u64),
    Failed(Failure),
}

/// What a failed request to the route is reported as.
pub open spec fn request_failure(route: ConfigModel, cause: Seq<Seq<char>>) -> Seq<Seq<char>> {
    failure::in_context(
        "ZeroClaw provider request failed for task `"@ + route.task.label() + "` using model `"@
            + route.model + "`"@,
        cause,
    )
}

/// The attempt is followed by another one.
pub open spec fn is_repeated_request(backoffs: nat, attempt: nat, error: ChatErrorModel) -> bool {
    attempt < backoffs && error.is_retryable()
}

/// How many requests are sent from the attempt on, where `errors` are the errors that they meet.
pub open spec fn requests_from(
    backoffs: nat,
    attempt: nat,
    errors: spec_fn(nat) -> ChatErrorModel,
) -> nat
    decreases backoffs - attempt,
{
    if is_repeated_request(backoffs, attempt, errors(attempt)) {
        1 + requests_from(backoffs, attempt + 1, errors)
    } else {
        1
    }
}

/// However a provider behaves, a request is sent at most once more than there are waits.
pub proof fn lemma_requests_bounded(
    backoffs: nat,
    attempt: nat,
    errors: spec_fn(nat) -> ChatErrorModel,
)
    requires
        attempt <= backoffs,
    ensures
        requests_from(backoffs, attempt, errors) <= backoffs - attempt + 1,
    decreases backoffs - attempt,
{
    if is_repeated_request(backoffs, attempt, errors(attempt)) {
        lemma_requests_bounded(backoffs, attempt + 1, errors);
    }
}

impl ZeroClawClient {
    /// Decides what follows the attempt. Attempts count from zero.
    pub fn dispatch_with_backoff(
        &self,
        route: &TaskModelConfig,
        attempt: usize,
        outcome: Result<ChatResponse, ChatError>,
    ) -> (res: DispatchStep)
        ensures
            match outcome {
                Ok(response) => res == DispatchStep::Done(response),
                Err(error) => if is_repeated_request(
                    self.backoffs().len(),
                    attempt as nat,
                    error@,
                ) {
                    res == DispatchStep::Wait(self.backoffs()[attempt as int])
                } else {
                    res matches DispatchStep::Failed(failed) && failed@ == request_failure(
                        route@,
                        error@.chain(),
                    )
                },
            },
    {
        match outcome {
            Ok(response) => DispatchStep::Done(response),
            Err(error) => {
                if attempt < self.rate_limit_backoffs.len() && is_rate_limit_error(&error) {
                    DispatchStep::Wait(self.rate_limit_backoffs[attempt])
                } else {
                    let mut message = "ZeroClaw provider request failed for task `".to_owned();
                    message.append(route.task.as_str());
                    message.append("` using model `");
                    message.append(route.model.as_str());
                    message.append("`");
                    DispatchStep::Failed(error.to_failure().context(message))
                }
            },
        }
    }

    /// The answer to a request without a tool, with the tokens that it took. The request is for
    /// a task that has a configuration, and `outcome` is what came of it.
    pub fn chat(&self, task: TaskKind, outcome: Result<ChatResponse, Failure>) -> (res: Result<
        (ChatResponse, ProjectTokenUsage),
        Failure,
    >)
        ensures
            match (config_for(self.configs(), task), outcome) {
                (None, _) => res matches Err(error) && error@ == failure::plain(
                    "missing task model configuration for task `"@ + task.label() + "`"@,
                ),
                (Some(_), Ok(response)) => res == Ok::<_, Failure>(
                    (response, ProjectTokenUsage::reported(response.usage)),
                ),
                (Some(_), Err(cause)) => res matches Err(error) && error@ == failure::in_context(
                    "zeroclaw chat failed for task `"@ + task.label() + "`"@,
                    cause@,
                ),
            },
    {
        match self.task_config(task) {
            Ok(_) => {},
            Err(error) => {
                return Err(error);
            },
        }
        match outcome {
            Ok(response) => {
                let usage = ProjectTokenUsage::from_provider_usage(response.usage);
                Ok((response, usage))
            },
            Err(cause) => {
                let mut message = "zeroclaw chat failed for task `".to_owned();
                message.append(task.as_str());
                message.append("`");
                Err(cause.context(message))
            },
        }
    }
}

// ---------------------------------------------------------------------------
// Structured answers
// ---------------------------------------------------------------------------
/// A request for a call of a tool that is under way: the route that it goes to, how often the
/// model was asked there to correct the form of its answer, and the tokens spent there.
#[derive(Debug)]
pub struct SchemaChat {
    pub task: TaskKind,
    pub system_prompt: String,
    pub tool: ToolSpec,
    pub route: TaskModelConfig,
    pub is_fallback: bool,
    pub format_attempt: usize,
    pub usage: ProjectTokenUsage,
}

/// What follows an answer: the model is asked again, it made the call, or the request failed.
#[derive(Debug)]
pub enum SchemaStep {
    Ask(SchemaChat),
    Done(StructuredCall),
    Failed(Failure),
}

/// The route for the executor's structured answers when its own route gave none.
pub open spec fn fallback_route(task: TaskKind, route: ConfigModel, openai: ReadingModel) -> Result<
    Option<ConfigModel>,
    Seq<Seq<char>>,
> {
    if task != TaskKind::Executor || route.provider == "openai"@ {
        Ok(None)
    } else {
        match routing::optional_env(OPENAI_API_KEY_ENV@, openai) {
            Err(error) => Err(error),
            Ok(None) => Ok(None),
            Ok(Some(_)) => Ok(
                Some(
                    ConfigModel {
                        hint: "hint:"@ + task.label() + ":openai"@,
                        ..routing::task_config(
                            task,
                            "openai"@,
                            DEFAULT_STRUCTURED_FALLBACK_MODEL@,
                        )
                    },
                ),
            ),
        }
    }
}

impl SchemaChat {
    /// A wrong answer on this route is not asked for again, since another route takes over or
    /// it cannot be found out whether there is one.
    pub open spec fn is_impatient(self, openai: ReadingModel) -> bool {
        fallback_route(self.task, self.route@, openai) != Ok::<
            Option<ConfigModel>,
            Seq<Seq<char>>,
        >(None)
    }

    /// The same request on another route, from the start.
    pub open spec fn is_restart(self, next: SchemaChat, route: ConfigModel) -> bool {
        &&& next.task == self.task
        &&& next.system_prompt@ == self.system_prompt@
        &&& next.tool == self.tool
        &&& next.route@ == route
        &&& next.is_fallback
        &&& next.format_attempt == 0
        &&& next.usage == ProjectTokenUsage::none()
    }

    /// The same request on the same route, once more.
    pub open spec fn is_retry(self, next: SchemaChat, usage: ProjectTokenUsage) -> bool {
        &&& next.task == self.task
        &&& next.system_prompt@ == self.system_prompt@
        &&& next.tool == self.tool
        &&& next.route@ == self.route@
        &&& next.is_fallback == self.is_fallback
        &&& next.format_attempt == self.format_attempt + 1
        &&& next.usage == usage
    }

    /// What follows when the route gave no structured answer because of the error.
    pub open spec fn after_route(
        self,
        error: Seq<Seq<char>>,
        openai: ReadingModel,
        step: SchemaStep,
    ) -> bool {
        if self.is_fallback {
            step matches SchemaStep::Failed(failed) && failed@ == failure::in_context(
                "structured output fallback failed after the primary route exhausted retries for task `"@
                    + self.task.label() + "`"@,
                error,
            )
        } else {
            match fallback_route(self.task, self.route@, openai) {
                Err(problem) => step matches SchemaStep::Failed(failed) && failed@ == problem,
                Ok(None) => step matches SchemaStep::Failed(failed) && failed@ == error,
                Ok(Some(route)) => step matches SchemaStep::Ask(next) && self.is_restart(
                    next,
                    route,
                ),
            }
        }
    }

    /// What follows the outcome of a request.
    pub open spec fn after_outcome(
        self,
        outcome: Result<ChatResponse, Failure>,
        openai: ReadingModel,
        retries: nat,
        step: SchemaStep,
    ) -> bool {
        match outcome {
            Err(cause) => self.after_route(
                failure::in_context(
                    "zeroclaw structured chat failed for task `"@ + self.task.label() + "`"@,
                    cause@,
                ),
                openai,
                step,
            ),
            Ok(response) => {
                let usage = self.usage.plus(ProjectTokenUsage::reported(response.usage));
                match calls::structured_call(response, self.tool) {
                    Ok((name, arguments)) => step matches SchemaStep::Done(call)
                        && call.tool_name@ == name && call.arguments@ == arguments && call.usage
                        == usage,
                    Err(error) => if self.is_impatient(openai) || self.format_attempt >= retries {
                        self.after_route(error, openai, step)
                    } else {
                        step matches SchemaStep::Ask(next) && self.is_retry(next, usage)
                    },
                }
            },
        }
    }

    /// How many requests can still follow.
    pub open spec fn requests_left(self, retries: nat) -> int {
        (if self.is_fallback {
            0
        } else {
            retries + 1
        }) + (retries - self.format_attempt)
    }

    /// The system prompt of the request.
    pub fn prompt(&self) -> (res: String)
        ensures
            res@ == calls::retry_prompt(
                self.system_prompt@,
                self.tool,
                self.format_attempt as nat,
            ),
    {
        build_format_retry_prompt(
            self.system_prompt.as_str(),
            &self.tool,
            self.format_attempt as u64,
        )
    }
}

/// Each further request leaves fewer to follow, so that every request for a structured answer
/// comes to an end.
pub proof fn lemma_schema_chat_ends(
    chat: SchemaChat,
    outcome: Result<ChatResponse, Failure>,
    openai: ReadingModel,
    retries: nat,
    next: SchemaChat,
)
    requires
        chat.format_attempt <= retries,
        chat.after_outcome(outcome, openai, retries, SchemaStep::Ask(next)),
    ensures
        next.format_attempt <= retries,
        0 <= next.requests_left(retries) < chat.requests_left(retries),
{
}

impl ZeroClawClient {
    pub fn structured_output_fallback_route(
        &self,
        task: TaskKind,
        primary_route: &TaskModelConfig,
        openai: &EnvReading,
    ) -> (res: Result<Option<TaskModelConfig>, Failure>)
        ensures
            match res {
                Ok(Some(route)) => fallback_route(task, primary_route@, openai@) == Ok::<
                    Option<ConfigModel>,
                    Seq<Seq<char>>,
                >(Some(route@)),
                Ok(None) => fallback_route(task, primary_route@, openai@) == Ok::<
                    Option<ConfigModel>,
                    Seq<Seq<char>>,
                >(None),
                Err(error) => fallback_route(task, primary_route@, openai@) == Err::<
                    Option<ConfigModel>,
                    Seq<Seq<char>>,
                >(error@),
            },
    {
        if task != TaskKind::Executor || same(primary_route.provider.as_str(), "openai") {
            return Ok(None);
        }
        match read_optional_env(OPENAI_API_KEY_ENV, openai) {
            Err(error) => Err(error),
            Ok(None) => Ok(None),
            Ok(Some(_)) => {
                let mut route = TaskModelConfig::new(
                    task,
                    "openai",
                    DEFAULT_STRUCTURED_FALLBACK_MODEL,
                );
                let mut hint = "hint:".to_owned();
                hint.append(task.as_str());
                hint.append(":openai");
                route.hint = hint;
                Ok(Some(route))
            },
        }
    }

    /// Starts a request for a call of the tool.
    pub fn chat_with_schema(&self, task: TaskKind, system_prompt: &str, tool: ToolSpec) -> (res:
        Result<SchemaChat, Failure>)
        ensures
            match config_for(self.configs(), task) {
                Some(config) => res matches Ok(chat) && chat.task == task && chat.system_prompt@
                    == system_prompt@ && chat.tool == tool && chat.route@ == config
                    && !chat.is_fallback && chat.format_attempt == 0 && chat.usage
                    == ProjectTokenUsage::none(),
                None => res matches Err(error) && error@ == failure::plain(
                    "missing task model configuration for task `"@ + task.label() + "`"@,
                ),
            },
    {
        match self.task_config(task) {
            Ok(route) => Ok(
                SchemaChat {
                    task,
                    system_prompt: system_prompt.to_owned(),
                    tool,
                    route,
                    is_fallback: false,
                    format_attempt: 0,
                    usage: ProjectTokenUsage::default(),
                },
            ),
            Err(error) => Err(error),
        }
    }

    fn leave_route(&self, chat: SchemaChat, error: Failure, openai: &EnvReading) -> (res:
        SchemaStep)
        ensures
            chat.after_route(error@, openai@, res),
    {
        if chat.is_fallback {
            let mut message =
                "structured output fallback failed after the primary route exhausted retries for task `".to_owned();
            message.append(chat.task.as_str());
            message.append("`");
            return SchemaStep::Failed(error.context(message));
        }
        match self.structured_output_fallback_route(chat.task, &chat.route, openai) {
            Err(problem) => SchemaStep::Failed(problem),
            Ok(None) => SchemaStep::Failed(error),
            Ok(Some(route)) => SchemaStep::Ask(
                SchemaChat {
                    task: chat.task,
                    system_prompt: chat.system_prompt,
                    tool: chat.tool,
                    route,
                    is_fallback: true,
                    format_attempt: 0,
                    usage: ProjectTokenUsage::default(),
                },
            ),
        }
    }

    /// Decides what follows the outcome of a request. `openai` is what was read of the key
    /// that a fallback needs.
    pub fn chat_with_schema_on_route(
        &self,
        chat: SchemaChat,
        outcome: Result<ChatResponse, Failure>,
        openai: &EnvReading,
    ) -> (res: SchemaStep)
        requires
            outcome matches Ok(response) ==> calls::is_readable(response),
        ensures
            chat.after_outcome(outcome, openai@, self.format_retries(), res),
    {
        let response: ChatResponse = match outcome {
            Ok(response) => response,
            Err(cause) => {
                let mut message = "zeroclaw structured chat failed for task `".to_owned();
                message.append(chat.task.as_str());
                message.append("`");
                return self.leave_route(chat, cause.context(message), openai);
            },
        };
        let mut usage = chat.usage;
        usage.accumulate(ProjectTokenUsage::from_provider_usage(response.usage));
        match parse_structured_call(&response, &chat.tool) {
            Ok((tool_name, arguments)) => SchemaStep::Done(
                StructuredCall { tool_name, arguments, usage },
            ),
            Err(error) => {
                let is_impatient: bool = match self.structured_output_fallback_route(
                    chat.task,
                    &chat.route,
                    openai,
                ) {
                    Ok(None) => false,
                    _ => true,
                };
                if is_impatient || chat.format_attempt >= self.max_format_retries {
                    self.leave_route(chat, error, openai)
                } else {
                    SchemaStep::Ask(
                        SchemaChat {
                            task: chat.task,
                            system_prompt: chat.system_prompt,
                            tool: chat.tool,
                            route: chat.route,
                            is_fallback: chat.is_fallback,
                            format_attempt: chat.format_attempt + 1,
                            usage,
                        },
                    )
                }
            },
        }
    }
}

// ---------------------------------------------------------------------------
// Routes that are planned
// ---------------------------------------------------------------------------
/// The hint with which the configuration of a task is made.
pub open spec fn task_hint(task: TaskKind) -> Seq<char> {
    "hint:"@ + task.label()
}

proof fn lemma_hints_differ(a: TaskKind, b: TaskKind)
    requires
        a != b,
    ensures
        task_hint(a) != task_hint(b),
{
    reveal_strlit("hint:");
    reveal_strlit("blueprinter");
    reveal_strlit("executor");
    reveal_strlit("verifier");
    reveal_strlit("surgeon");
    assert(task_hint(a)[5] == a.label()[0]);
    assert(task_hint(b)[5] == b.label()[0]);
}

proof fn lemma_fallback_hint(task: TaskKind)
    ensures
        fallback_config().hint == task_hint(TaskKind::Executor) + ":openai"@,
        fallback_config().hint != task_hint(task),
{
    reveal_strlit("hint:");
    reveal_strlit("blueprinter");
    reveal_strlit("executor");
    reveal_strlit("verifier");
    reveal_strlit("surgeon");
    reveal_strlit(":openai");
    reveal_strlit("hint:executor:openai");
    assert(fallback_config().hint =~= task_hint(TaskKind::Executor) + ":openai"@);
    assert(fallback_config().hint.len() == 20);
    assert(task_hint(task).len() <= 16);
}

proof fn lemma_provider_of(pairs: Seq<(Seq<char>, Seq<char>)>, i: int)
    requires
        0 <= i < pairs.len(),
        forall|j: int| i < j < pairs.len() ==> (#[trigger] pairs[j]).0 != pairs[i].0,
    ensures
        provider_of(pairs, pairs[i].0) == pairs[i].1,
    decreases pairs.len(),
{
    if i < pairs.len() - 1 {
        let rest = pairs.drop_last();
        assert(pairs[pairs.len() - 1].0 != pairs[i].0);
        assert forall|j: int| i < j < rest.len() implies (#[trigger] rest[j]).0 != rest[i].0 by {
            assert(rest[j] == pairs[j]);
        }
        lemma_provider_of(rest, i);
    }
}

proof fn lemma_no_key_problem(configs: Seq<ConfigModel>, keys: KeysModel, i: int)
    requires
        first_key_problem(configs, keys) is None,
        0 <= i < configs.len(),
    ensures
        key_problem(configs[i], keys) is None,
    decreases configs.len(),
{
    if i > 0 {
        assert(configs.drop_first()[i - 1] == configs[i]);
        lemma_no_key_problem(configs.drop_first(), keys, i - 1);
    }
}

/// Where requests can be routed, every route has the key of its provider.
pub proof fn lemma_routes_have_keys(configs: Seq<ConfigModel>, keys: KeysModel)
    requires
        planned(configs, keys) is Ok,
    ensures
        forall|i: int|
            0 <= i < planned(configs, keys)->Ok_0.routes.len() ==> (
            #[trigger] planned(configs, keys)->Ok_0.routes[i]).api_key is Some,
{
    let plan = planned(configs, keys)->Ok_0;
    let all = configs + supplemental_routes(configs, keys.openai)->Ok_0;
    assert forall|i: int| 0 <= i < plan.routes.len() implies (
    #[trigger] plan.routes[i]).api_key is Some by {
        lemma_no_key_problem(all, keys, i);
        assert(plan.routes[i] == route_of(all[i], keys));
    }
}

/// Where requests can be routed, the hint of each task leads to the provider that is configured
/// for the task.
pub proof fn lemma_hints_lead_to_providers(configs: Seq<ConfigModel>, keys: KeysModel, i: int)
    requires
        planned(configs, keys) is Ok,
        tasks_differ(configs),
        forall|j: int|
            0 <= j < configs.len() ==> (#[trigger] configs[j]).hint == task_hint(configs[j].task),
        0 <= i < configs.len(),
    ensures
        provider_of(planned(configs, keys)->Ok_0.providers_by_hint, configs[i].hint)
            == configs[i].provider,
{
    let more = supplemental_routes(configs, keys.openai)->Ok_0;
    let all = configs + more;
    let pairs = planned(configs, keys)->Ok_0.providers_by_hint;
    assert(pairs =~= all.map_values(|c: ConfigModel| (c.hint, c.provider)));
    assert(all[i] == configs[i]);
    assert forall|j: int| i < j < pairs.len() implies (#[trigger] pairs[j]).0 != pairs[i].0 by {
        if j < configs.len() {
            assert(all[j] == configs[j]);
            lemma_hints_differ(configs[i].task, configs[j].task);
        } else {
            assert(all[j] == more[j - configs.len()]);
            lemma_fallback_hint(configs[i].task);
        }
    }
    lemma_provider_of(pairs, i);
}

/// The route that takes over from the one of the executor is among the routes that were
/// planned, and its hint leads to its provider.
pub proof fn lemma_fallback_is_planned(
    configs: Seq<ConfigModel>,
    keys: KeysModel,
    primary: ConfigModel,
    route: ConfigModel,
)
    requires
        planned(configs, keys) is Ok,
        config_for(configs, TaskKind::Executor) == Some(primary),
        fallback_route(TaskKind::Executor, primary, keys.openai) == Ok::<
            Option<ConfigModel>,
            Seq<Seq<char>>,
        >(Some(route)),
    ensures
        planned(configs, keys)->Ok_0.routes.contains(route_of(route, keys)),
        provider_of(planned(configs, keys)->Ok_0.providers_by_hint, route.hint) == route.provider,
{
    lemma_fallback_hint(TaskKind::Executor);
    assert(route == fallback_config());
    let all = configs + seq![fallback_config()];
    let plan = planned(configs, keys)->Ok_0;
    assert(plan.routes == all.map_values(|c: ConfigModel| route_of(c, keys)));
    assert(all[configs.len() as int] == route);
    assert(plan.routes[configs.len() as int] == route_of(route, keys));
    assert(plan.providers_by_hint == all.map_values(|c: ConfigModel| (c.hint, c.provider)));
    assert(plan.providers_by_hint.last() == (route.hint, route.provider));
}

// ---------------------------------------------------------------------------
// Laws of providers and their errors
// ---------------------------------------------------------------------------
/// The provider for a hint is the one that was set for it last.
pub proof fn lemma_last_provider(pairs: Seq<(Seq<char>, Seq<char>)>, hint: Seq<char>, i: int)
    requires
        -1 <= i < pairs.len(),
        i >= 0 ==> pairs[i].0 == hint,
        forall|j: int| i < j < pairs.len() ==> (#[trigger] pairs[j]).0 != hint,
    ensures
        provider_of(pairs, hint) == if i >= 0 {
            pairs[i].1
        } else {
            DEFAULT_TASK_PROVIDER@
        },
    decreases pairs.len(),
{
    if pairs.len() > 0 && i < pairs.len() - 1 {
        let rest = pairs.drop_last();
        assert(pairs[pairs.len() - 1].0 != hint);
        assert forall|j: int| i < j < rest.len() implies (#[trigger] rest[j]).0 != hint by {
            assert(rest[j] == pairs[j]);
        }
        lemma_last_provider(rest, hint, i);
    }
}

/// The configuration of a task is the one that names it.
pub proof fn lemma_config_for(configs: Seq<ConfigModel>, task: TaskKind, i: int)
    requires
        tasks_differ(configs),
    ensures
        0 <= i < configs.len() && configs[i].task == task ==> config_for(configs, task) == Some(
            configs[i],
        ),
        (forall|j: int| 0 <= j < configs.len() ==> (#[trigger] configs[j]).task != task)
            ==> config_for(configs, task) is None,
{
    if 0 <= i < configs.len() && configs[i].task == task {
        assert forall|j: int| 0 <= j < i implies (#[trigger] configs[j]).task != task by {
            assert(configs[j].task != configs[i].task);
        }
        lemma_config_index(configs, task, i);
    }
    if forall|j: int| 0 <= j < configs.len() ==> (#[trigger] configs[j]).task != task {
        lemma_config_index(configs, task, configs.len() as int);
    }
}

/// What a provider reports is counted, and the total is the sum of both parts.
pub proof fn lemma_reported(usage: TokenUsage)
    ensures
        ({
            let counted = ProjectTokenUsage::reported(Some(usage));
            &&& usage.input_tokens matches Some(n) ==> counted.prompt_tokens == n
            &&& usage.input_tokens is None ==> counted.prompt_tokens == 0
            &&& usage.output_tokens matches Some(n) ==> counted.completion_tokens == n
            &&& usage.output_tokens is None ==> counted.completion_tokens == 0
            &&& counted.prompt_tokens + counted.completion_tokens <= u64::MAX
                ==> counted.total_tokens == counted.prompt_tokens + counted.completion_tokens
        }),
        ProjectTokenUsage::reported(None).total_tokens == 0,
{
}

/// The status that a message of a provider reports is the number in it.
pub proof fn lemma_reported_status(
    before: Seq<char>,
    code: u16,
    reason: Seq<char>,
    behind: Seq<char>,
)
    requires
        search::first_occurrence(
            before + " API error ("@ + (compose::decimal(code as nat) + reason + "):"@ + behind),
            " API error ("@,
            before.len() as int,
        ),
        search::first_occurrence(
            compose::decimal(code as nat) + reason + "):"@ + behind,
            "):"@,
            (compose::decimal(code as nat) + reason).len() as int,
        ),
        reason.len() > 0 ==> text::is_white(reason[0]),
    ensures
        reported_status(
            before + " API error ("@ + (compose::decimal(code as nat) + reason + "):"@ + behind),
        ) == Some(code),
{
    let digits = compose::decimal(code as nat);
    let inner = digits + reason;
    let remainder = inner + "):"@ + behind;
    let message = before + " API error ("@ + remainder;
    search::lemma_find_is(message, " API error ("@, before.len() as int);
    assert(message.skip(before.len() as int + " API error ("@.len()) =~= remainder);
    search::lemma_find_is(remainder, "):"@, inner.len() as int);
    assert(remainder.take(inner.len() as int) =~= inner);
    compose::lemma_decimal_digits(code as nat);
    compose::lemma_decimal_reads_back(code as nat, 65535);
    let none = Seq::<char>::empty();
    assert(inner =~= none + digits + reason);
    assert forall|i: int| 0 <= i < digits.len() implies !text::is_white(#[trigger] digits[i]) by {
        assert(text::is_digit(digits[i]));
    }
    assert(search::leads(inner, digits, none, reason));
    search::lemma_first_word(inner, digits, none, reason);
    assert(search::words(inner)[0] == digits);
}

} // verus!
