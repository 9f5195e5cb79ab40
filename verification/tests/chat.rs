use migration_pipeline::config::client::{
    is_rate_limit_error, plan_routes, ChatError, DispatchStep, ProviderHttpStatusError,
    SchemaStep, ZeroClawBackend,
};
use migration_pipeline::config::calls::{response_is_readable, ChatResponse, ToolCall, ToolSpec};
use migration_pipeline::config::literals::sanitize_invalid_json_literals;
use migration_pipeline::config::routing::{
    DEFAULT_TASK_PROVIDER, OPENAI_API_KEY_ENV, OPENROUTER_API_KEY_ENV,
};
use migration_pipeline::config::schema::{
    parse_json_arguments, validate_arguments_against_schema, validate_structured_arguments,
};
use migration_pipeline::config::{
    DockerSandboxConfig, EnvReading, ModelRouter, ProjectTokenUsage, ProviderKeys, StructuredCall,
    TaskKind, TaskModelConfig, TokenUsage, ZeroClawClient,
};
use migration_pipeline::failure::Failure;
use migration_pipeline::json::{values_alike, JsonNumber, JsonValue};

fn json(text: &str) -> JsonValue {
    parse_json_arguments(text, "fixture").expect("fixture should be valid JSON")
}

fn alike(value: &JsonValue, expected: &str) -> bool {
    values_alike(value, &json(expected))
}

fn item(value: &JsonValue, index: usize) -> &JsonValue {
    match value {
        JsonValue::Array(items) => &items[index],
        other => panic!("expected a list, found {other:?}"),
    }
}

fn field<'a>(value: &'a JsonValue, key: &str) -> &'a JsonValue {
    value.get(key).expect("field should be present")
}

fn set(value: &str) -> EnvReading {
    EnvReading::Value(value.to_owned())
}

fn keys(openai: EnvReading, together: EnvReading, openrouter: EnvReading) -> ProviderKeys {
    ProviderKeys { openai, together, openrouter }
}

fn build_task_configs() -> Vec<TaskModelConfig> {
    vec![
        TaskModelConfig::new(
            TaskKind::Blueprinter,
            DEFAULT_TASK_PROVIDER,
            "google/gemini-3-flash-preview",
        ),
        TaskModelConfig::new(TaskKind::Executor, DEFAULT_TASK_PROVIDER, "minimax/minimax-m2.5"),
        TaskModelConfig::new(TaskKind::Verifier, DEFAULT_TASK_PROVIDER, "z-ai/glm-5"),
        TaskModelConfig::new(TaskKind::Surgeon, DEFAULT_TASK_PROVIDER, "gpt-5.4"),
    ]
}

fn client(backoffs: Vec<u64>, max_format_retries: usize) -> ZeroClawClient {
    let backend = ZeroClawBackend {
        providers_by_hint: Vec::new(),
    };
    ZeroClawClient::with_limits(build_task_configs(), backend, backoffs, max_format_retries)
        .expect("test task configs")
}

fn verification_tool() -> ToolSpec {
    ToolSpec {
        name: "submit_verification_report".to_owned(),
        description: "Return the verification result".to_owned(),
        parameters: json(
            r#"{
                "type": "object",
                "properties": {
                    "tests_passed": { "type": "boolean" },
                    "sandbox_execution_errors": {
                        "type": "array",
                        "items": { "type": "string" }
                    }
                },
                "required": [
                    "tests_passed",
                    "sandbox_execution_errors"
                ],
                "additionalProperties": false
            }"#,
        ),
    }
}

fn shadow_fixture_tool() -> ToolSpec {
    ToolSpec {
        name: "generate_shadow_fixtures".to_owned(),
        description: "Return shadow execution fixtures".to_owned(),
        parameters: json(
            r#"{
                "type": "object",
                "properties": {
                    "fixtures": {
                        "type": "array",
                        "maxItems": 8,
                        "items": {
                            "type": "object",
                            "properties": {
                                "id": { "type": "string" },
                                "description": { "type": "string" },
                                "args": {
                                    "type": "array",
                                    "items": {}
                                }
                            },
                            "required": ["id", "description", "args"],
                            "additionalProperties": false
                        }
                    }
                },
                "required": ["fixtures"],
                "additionalProperties": false
            }"#,
        ),
    }
}

fn response_with_tool_call(arguments: &str, usage: Option<TokenUsage>) -> ChatResponse {
    ChatResponse {
        text: None,
        tool_calls: vec![ToolCall {
            id: "tool_1".to_owned(),
            name: "submit_verification_report".to_owned(),
            arguments: arguments.to_owned(),
        }],
        usage,
        reasoning_content: None,
    }
}

fn response_with_text_tool_call(text: &str) -> ChatResponse {
    ChatResponse {
        text: Some(text.to_owned()),
        tool_calls: Vec::new(),
        usage: None,
        reasoning_content: None,
    }
}

fn response_with_raw_tool_call_arguments(tool_name: &str, arguments: &str) -> ChatResponse {
    ChatResponse {
        text: None,
        tool_calls: vec![ToolCall {
            id: "tool_1".to_owned(),
            name: tool_name.to_owned(),
            arguments: arguments.to_owned(),
        }],
        usage: None,
        reasoning_content: None,
    }
}

/// Answers requests from a script, first answer first.
fn run(
    client: &ZeroClawClient,
    task: TaskKind,
    tool: ToolSpec,
    mut script: Vec<Result<ChatResponse, ChatError>>,
    openai: &EnvReading,
) -> Result<StructuredCall, Failure> {
    let mut chat = client.chat_with_schema(task, "Use the tool schema", tool)?;
    loop {
        let mut attempt = 0;
        let outcome = loop {
            let answer = if script.is_empty() {
                Err(ChatError::Other(
                    Failure::new("scripted backend ran out of responses".to_owned()),
                    None,
                ))
            } else {
                script.remove(0)
            };
            match client.dispatch_with_backoff(&chat.route, attempt, answer) {
                DispatchStep::Done(response) => break Ok(response),
                DispatchStep::Wait(_) => attempt += 1,
                DispatchStep::Failed(error) => break Err(error),
            }
        };
        if let Ok(response) = &outcome {
            assert!(response_is_readable(response));
        }
        match client.chat_with_schema_on_route(chat, outcome, openai) {
            SchemaStep::Ask(next) => chat = next,
            SchemaStep::Done(call) => return Ok(call),
            SchemaStep::Failed(error) => return Err(error),
        }
    }
}

const REPORT: &str = r#"{"tests_passed": true, "sandbox_execution_errors": []}"#;

#[test]
fn model_router_uses_default_provider_and_model_when_env_is_missing() {
    let route = ModelRouter::from_env(
        TaskKind::Blueprinter,
        "google/gemini-3-flash-preview",
        &EnvReading::Missing,
        &EnvReading::Missing,
    )
    .expect("model route should resolve");

    assert_eq!(route.provider, DEFAULT_TASK_PROVIDER);
    assert_eq!(route.model, "google/gemini-3-flash-preview");
    assert_eq!(route.hint, "hint:blueprinter");
}

#[test]
fn model_router_uses_task_specific_provider_override() {
    let route = ModelRouter::from_env(
        TaskKind::Blueprinter,
        "google/gemini-3-flash-preview",
        &set("Together.ai"),
        &set("meta-llama/Llama-4-Maverick"),
    )
    .expect("model route should resolve");

    assert_eq!(route.provider, "together");
    assert_eq!(route.model, "meta-llama/Llama-4-Maverick");
}

#[test]
fn docker_sandbox_config_uses_defaults_when_env_is_missing() {
    let config = DockerSandboxConfig::from_env(&EnvReading::Missing, &EnvReading::Missing)
        .expect("sandbox config should load");

    assert_eq!(config.memory_limit, "256m");
    assert_eq!(config.cpu_limit, "0.5");
}

#[test]
fn zeroclaw_client_requires_openrouter_api_key() {
    let error = ZeroClawClient::new(
        build_task_configs(),
        &keys(EnvReading::Missing, EnvReading::Missing, EnvReading::Missing),
        Ok(()),
    )
    .err()
    .expect("client should fail");

    assert!(error.message().contains(OPENROUTER_API_KEY_ENV));
}

#[test]
fn zeroclaw_client_requires_openai_api_key_for_openai_routes() {
    let error = ZeroClawClient::new(
        vec![TaskModelConfig::new(TaskKind::Blueprinter, "openai", "gpt-5")],
        &keys(EnvReading::Missing, EnvReading::Missing, EnvReading::Missing),
        Ok(()),
    )
    .err()
    .expect("client should fail");

    assert!(error.message().contains(OPENAI_API_KEY_ENV));
}

#[test]
fn task_model_config_injects_provider_specific_api_keys() {
    let all = keys(set("openai-key"), set("together-key"), set("openrouter-key"));
    let openai_route = TaskModelConfig::new(TaskKind::Blueprinter, "openai", "gpt-5")
        .as_model_route(&all)
        .expect("openai route should resolve");
    let together_route = TaskModelConfig::new(
        TaskKind::Executor,
        "Together.ai",
        "meta-llama/Llama-4-Maverick",
    )
    .as_model_route(&all)
    .expect("together route should resolve");
    let openrouter_route = TaskModelConfig::new(TaskKind::Verifier, "openrouter", "z-ai/glm-5")
        .as_model_route(&all)
        .expect("openrouter route should resolve");

    assert_eq!(openai_route.provider, "openai");
    assert_eq!(openai_route.api_key.as_deref(), Some("openai-key"));
    assert_eq!(together_route.provider, "together");
    assert_eq!(together_route.api_key.as_deref(), Some("together-key"));
    assert_eq!(openrouter_route.provider, "openrouter");
    assert_eq!(openrouter_route.api_key.as_deref(), Some("openrouter-key"));
}

#[test]
fn chat_with_schema_falls_back_after_executor_plain_text_response() {
    let call = run(
        &client(vec![0], 3),
        TaskKind::Executor,
        verification_tool(),
        vec![
            Ok(ChatResponse {
                text: Some("Here is the report".to_owned()),
                tool_calls: Vec::new(),
                usage: Some(TokenUsage { input_tokens: Some(11), output_tokens: Some(5) }),
                reasoning_content: None,
            }),
            Ok(response_with_tool_call(
                REPORT,
                Some(TokenUsage { input_tokens: Some(7), output_tokens: Some(3) }),
            )),
        ],
        &set("test-openai-key"),
    )
    .expect("structured call should succeed");

    assert_eq!(call.tool_name, "submit_verification_report");
    assert_eq!(
        call.usage,
        ProjectTokenUsage { prompt_tokens: 7, completion_tokens: 3, total_tokens: 10 }
    );
}

#[test]
fn chat_with_schema_retries_rate_limits() {
    let call = run(
        &client(vec![0], 0),
        TaskKind::Executor,
        verification_tool(),
        vec![
            Err(ChatError::Status(ProviderHttpStatusError::new(
                "openrouter",
                429,
                "Too Many Requests".to_owned(),
            ))),
            Ok(response_with_tool_call(REPORT, None)),
        ],
        &EnvReading::Missing,
    )
    .expect("structured call should succeed after rate-limit retry");

    assert_eq!(call.tool_name, "submit_verification_report");
    assert_eq!(call.usage, ProjectTokenUsage::default());
}

#[test]
fn chat_with_schema_retries_when_provider_flattens_arguments_to_empty_object() {
    let call = run(
        &client(vec![0], 1),
        TaskKind::Executor,
        verification_tool(),
        vec![
            Ok(response_with_raw_tool_call_arguments("submit_verification_report", "{}")),
            Ok(response_with_tool_call(REPORT, None)),
        ],
        &EnvReading::Missing,
    )
    .expect("structured call should succeed after retrying flattened arguments");

    assert_eq!(call.tool_name, "submit_verification_report");
    assert!(alike(field(&call.arguments, "tests_passed"), "true"));
    assert!(alike(field(&call.arguments, "sandbox_execution_errors"), "[]"));
}

fn accept_report(text: &str) {
    let call = run(
        &client(Vec::new(), 0),
        TaskKind::Executor,
        verification_tool(),
        vec![Ok(response_with_text_tool_call(text))],
        &EnvReading::Missing,
    )
    .expect("structured call should succeed");

    assert_eq!(call.tool_name, "submit_verification_report");
    assert!(alike(field(&call.arguments, "tests_passed"), "true"));
    assert!(alike(field(&call.arguments, "sandbox_execution_errors"), "[]"));
}

#[test]
fn chat_with_schema_accepts_minimax_json_wrapped_tool_arguments() {
    accept_report(
        r#"<minimax:tool_call>{"tests_passed":true,"sandbox_execution_errors":[]}</minimax:tool_call>"#,
    );
}

#[test]
fn chat_with_schema_accepts_minimax_xml_parameter_payload() {
    accept_report(
        r#"<minimax:tool_call>
<invoke name="submit_verification_report">
<parameter name="tests_passed">true</parameter>
<parameter name="sandbox_execution_errors">[]</parameter>
</invoke>
</minimax:tool_call>"#,
    );
}

#[test]
fn chat_with_schema_accepts_markdown_fenced_json_payload() {
    accept_report(
        r#"```json
{"tests_passed":true,"sandbox_execution_errors":[]}
```"#,
    );
}

#[test]
fn chat_with_schema_accepts_kimi_delimited_tool_arguments() {
    accept_report(
        r#"<|tool_calls_section_begin|>
<|tool_call_begin|> functions.submit_verification_report:0
<|tool_call_argument_begin|>
{"tests_passed":true,"sandbox_execution_errors":[]}
<|tool_call_argument_end|>
<|tool_call_end|>
<|tool_calls_section_end|>"#,
    );
}

#[test]
fn chat_with_schema_sanitizes_non_finite_literals_in_native_tool_calls() {
    let call = run(
        &client(Vec::new(), 0),
        TaskKind::Executor,
        verification_tool(),
        vec![Ok(response_with_raw_tool_call_arguments(
            "submit_verification_report",
            r#"{"tests_passed":true,"sandbox_execution_errors":["myNaNValue",NaN,Infinity,-Infinity]}"#,
        ))],
        &EnvReading::Missing,
    )
    .expect("structured call should succeed");

    assert!(alike(field(&call.arguments, "tests_passed"), "true"));
    assert!(alike(
        field(&call.arguments, "sandbox_execution_errors"),
        r#"["myNaNValue", null, null, null]"#
    ));
}

#[test]
fn chat_with_schema_sanitizes_non_finite_literals_in_minimax_parameters() {
    let call = run(
        &client(Vec::new(), 0),
        TaskKind::Executor,
        verification_tool(),
        vec![Ok(response_with_text_tool_call(
            r#"<minimax:tool_call>
<invoke name="submit_verification_report">
<parameter name="tests_passed">true</parameter>
<parameter name="sandbox_execution_errors">["Infinity marker", NaN, Infinity, -Infinity]</parameter>
</invoke>
</minimax:tool_call>"#,
        ))],
        &EnvReading::Missing,
    )
    .expect("structured call should succeed");

    assert!(alike(field(&call.arguments, "tests_passed"), "true"));
    assert!(alike(
        field(&call.arguments, "sandbox_execution_errors"),
        r#"["Infinity marker", null, null, null]"#
    ));
}

#[test]
fn chat_with_schema_coerces_stringified_array_properties() {
    let call = run(
        &client(Vec::new(), 0),
        TaskKind::Verifier,
        shadow_fixture_tool(),
        vec![Ok(response_with_raw_tool_call_arguments(
            "generate_shadow_fixtures",
            r#"{"fixtures":"[{\"id\":\"happy-path\",\"description\":\"callback fixture\",\"args\":[\"1\",{\"capture\":\"callback\"}]}]"}"#,
        ))],
        &EnvReading::Missing,
    )
    .expect("structured call should succeed");

    assert_eq!(call.tool_name, "generate_shadow_fixtures");
    let fixture = item(field(&call.arguments, "fixtures"), 0);
    assert!(alike(field(fixture, "id"), r#""happy-path""#));
    assert!(alike(item(field(fixture, "args"), 1), r#"{ "capture": "callback" }"#));
}

#[test]
fn chat_with_schema_sanitizes_undefined_inside_stringified_array_properties() {
    let call = run(
        &client(Vec::new(), 0),
        TaskKind::Verifier,
        shadow_fixture_tool(),
        vec![Ok(response_with_raw_tool_call_arguments(
            "generate_shadow_fixtures",
            r#"{"fixtures":"[{\"id\":\"undefined-arg\",\"description\":\"sanitized fixture\",\"args\":[undefined,{\"__fn__\":true},NaN,Infinity,-Infinity]}]"}"#,
        ))],
        &EnvReading::Missing,
    )
    .expect("structured call should succeed");

    let fixture = item(field(&call.arguments, "fixtures"), 0);
    assert!(alike(field(fixture, "args"), r#"[null, { "__fn__": true }, null, null, null]"#));
}

#[test]
fn chat_with_schema_retries_when_top_level_shape_does_not_match_schema() {
    let call = run(
        &client(vec![0], 1),
        TaskKind::Verifier,
        shadow_fixture_tool(),
        vec![
            Ok(response_with_raw_tool_call_arguments(
                "generate_shadow_fixtures",
                r#"[{"id":"wrong-top-level"}]"#,
            )),
            Ok(response_with_raw_tool_call_arguments(
                "generate_shadow_fixtures",
                r#"{"fixtures":[{"id":"happy-path","description":"callback fixture","args":["1",{"capture":"callback"}]}]}"#,
            )),
        ],
        &EnvReading::Missing,
    )
    .expect("structured call should succeed after retrying schema mismatch");

    assert_eq!(call.tool_name, "generate_shadow_fixtures");
    assert!(alike(field(item(field(&call.arguments, "fixtures"), 0), "id"), r#""happy-path""#));
}

#[test]
fn rate_limit_detection_only_accepts_typed_retryable_status_codes() {
    let status = |code: u16, message: &str| {
        ChatError::Status(ProviderHttpStatusError::new("openrouter", code, message.to_owned()))
    };
    let too_many_requests = status(429, "Too Many Requests");
    let service_unavailable = status(503, "Service Unavailable");
    let unauthorized = status(401, "Unauthorized");
    let free_form = ChatError::Other(Failure::new("429 Too Many Requests".to_owned()), None);

    assert!(is_rate_limit_error(&too_many_requests));
    assert!(is_rate_limit_error(&service_unavailable));
    assert!(!is_rate_limit_error(&unauthorized));
    assert!(!is_rate_limit_error(&free_form));
}

#[test]
fn zero_claw_backend_normalizes_provider_api_status_errors() {
    let normalized = ZeroClawBackend::normalize_error(
        "openrouter",
        ChatError::Other(
            Failure::new("OpenRouter API error (429 Too Many Requests): retry later".to_owned()),
            None,
        ),
    );
    let ChatError::Status(status_error) = normalized else {
        panic!("provider status error should be normalized");
    };

    assert_eq!(status_error.provider, "openrouter");
    assert_eq!(status_error.status_code, 429);
}

#[test]
fn chat_with_schema_rejects_wrong_tool_name() {
    let error = run(
        &client(Vec::new(), 0),
        TaskKind::Executor,
        verification_tool(),
        vec![Ok(response_with_raw_tool_call_arguments("unexpected_tool", "{}"))],
        &EnvReading::Missing,
    )
    .expect_err("structured call should fail");

    assert!(error.message().contains("unexpected_tool"));
}

#[test]
fn structured_call_deserializes_arguments() {
    let call = StructuredCall {
        tool_name: "submit_verification_report".to_owned(),
        arguments: json(REPORT),
        usage: ProjectTokenUsage::default(),
    };
    let value = call
        .deserialize_arguments(Ok(call.arguments.copied()))
        .expect("arguments should deserialize");

    assert!(alike(field(&value, "tests_passed"), "true"));
}

#[test]
fn unreadable_arguments_name_the_call_and_its_payload() {
    let call = StructuredCall {
        tool_name: "t".to_owned(),
        arguments: json(r#"{"b":1,"a":[null,2.5]}"#),
        usage: ProjectTokenUsage::default(),
    };
    let error = call.deserialize_arguments::<u8>(Err("wrong type".to_owned())).unwrap_err();
    assert_eq!(
        error.chain(),
        vec![
            r#"failed to deserialize structured call `t` arguments from payload `{"a":[null,2.5],"b":1}`"#
                .to_owned(),
            "wrong type".to_owned(),
        ]
    );
}

#[test]
fn executor_without_a_fallback_is_asked_again() {
    let answers = |wrong: usize| {
        let mut script = Vec::new();
        for _ in 0..wrong {
            script.push(Ok(response_with_text_tool_call("no call")));
        }
        script.push(Ok(response_with_tool_call(REPORT, None)));
        run(
            &client(vec![0], 2),
            TaskKind::Executor,
            verification_tool(),
            script,
            &EnvReading::Missing,
        )
    };
    assert!(answers(2).is_ok());
    let error = answers(3).unwrap_err();
    assert!(!error.message().contains("fallback"));
}

#[test]
fn executor_with_an_unreadable_fallback_key_fails_after_one_wrong_answer() {
    let error = run(
        &client(vec![0], 3),
        TaskKind::Executor,
        verification_tool(),
        vec![
            Ok(response_with_text_tool_call("no call")),
            Ok(response_with_tool_call(REPORT, None)),
        ],
        &EnvReading::Unreadable("not unicode".to_owned()),
    )
    .unwrap_err();
    assert_eq!(
        error.chain(),
        vec!["failed to read `OPENAI_API_KEY`".to_owned(), "not unicode".to_owned()]
    );
}

#[test]
fn failed_fallback_names_the_task() {
    let error = run(
        &client(Vec::new(), 0),
        TaskKind::Executor,
        verification_tool(),
        vec![
            Ok(response_with_text_tool_call("no call")),
            Ok(response_with_text_tool_call("no call either")),
        ],
        &set("key"),
    )
    .unwrap_err();
    assert_eq!(
        error.message(),
        "structured output fallback failed after the primary route exhausted retries for task `executor`"
    );
}

#[test]
fn requests_are_repeated_at_most_once_per_wait() {
    let limited = || {
        Err(ChatError::Status(ProviderHttpStatusError::new("openrouter", 503, "busy".to_owned())))
    };
    let error = run(
        &client(vec![1, 2], 0),
        TaskKind::Verifier,
        verification_tool(),
        vec![limited(), limited(), limited(), Ok(response_with_tool_call(REPORT, None))],
        &EnvReading::Missing,
    )
    .unwrap_err();
    let chain = error.chain();
    assert_eq!(chain[0], "zeroclaw structured chat failed for task `verifier`");
    assert_eq!(
        chain[1],
        "ZeroClaw provider request failed for task `verifier` using model `z-ai/glm-5`"
    );
    assert_eq!(chain[2], "openrouter provider HTTP error (503): busy");
}

#[test]
fn wrong_answers_of_other_tasks_are_asked_for_again() {
    let call = run(
        &client(Vec::new(), 2),
        TaskKind::Verifier,
        verification_tool(),
        vec![
            Ok(ChatResponse {
                usage: Some(TokenUsage { input_tokens: Some(1), output_tokens: None }),
                ..response_with_text_tool_call("one")
            }),
            Ok(response_with_text_tool_call("two")),
            Ok(response_with_tool_call(
                REPORT,
                Some(TokenUsage { input_tokens: Some(2), output_tokens: Some(4) }),
            )),
        ],
        &EnvReading::Missing,
    )
    .unwrap();
    assert_eq!(
        call.usage,
        ProjectTokenUsage { prompt_tokens: 3, completion_tokens: 4, total_tokens: 7 }
    );
}

#[test]
fn usage_counts_stop_at_the_largest_number() {
    let mut usage = ProjectTokenUsage {
        prompt_tokens: u64::MAX,
        completion_tokens: 1,
        total_tokens: u64::MAX - 1,
    };
    usage.accumulate(ProjectTokenUsage {
        prompt_tokens: 5,
        completion_tokens: 2,
        total_tokens: 1,
    });
    assert_eq!(
        usage,
        ProjectTokenUsage {
            prompt_tokens: u64::MAX,
            completion_tokens: 3,
            total_tokens: u64::MAX,
        }
    );
}

#[test]
fn tasks_without_configuration_are_unconfigured() {
    let backend = ZeroClawBackend {
        providers_by_hint: Vec::new(),
    };
    let empty = ZeroClawClient::with_limits(Vec::new(), backend, Vec::new(), 0).unwrap();
    assert_eq!(empty.model_for(TaskKind::Executor), "unconfigured");
    assert_eq!(empty.provider_for(TaskKind::Executor), "unconfigured");
    assert_eq!(
        empty.chat_with_schema(TaskKind::Executor, "", verification_tool()).unwrap_err().message(),
        "missing task model configuration for task `executor`"
    );
}

#[test]
fn routes_are_planned_with_their_keys() {
    let plan = plan_routes(
        &build_task_configs(),
        &keys(EnvReading::Missing, EnvReading::Missing, set("router-key")),
    )
    .unwrap();
    assert_eq!(plan.primary_provider, "openrouter");
    assert_eq!(plan.primary_api_key.as_deref(), Some("router-key"));
    assert_eq!(plan.routes.len(), 4);
}

#[test]
fn schema_violations_say_where_they_stand() {
    let schema = shadow_fixture_tool().parameters;
    let message = |text: &str| {
        validate_arguments_against_schema(&json(text), &schema, "$").unwrap_err().message()
    };
    assert_eq!(
        message("{}"),
        "structured arguments missing required property `$.fixtures`"
    );
    assert_eq!(
        message(r#"{"fixtures":[],"more":1}"#),
        "structured arguments contained unexpected property `$.more`"
    );
    assert_eq!(
        message(r#"{"fixtures":[{"id":"a","description":"b"}]}"#),
        "structured arguments missing required property `$.fixtures[0].args`"
    );
    assert_eq!(
        message(r#"{"fixtures":1}"#),
        "structured arguments at `$.fixtures` must be a JSON array"
    );
    assert_eq!(
        message(r#"{"fixtures":[1,2,3,4,5,6,7,8,9]}"#),
        "structured arguments at `$.fixtures` exceeded the maximum item count of 8"
    );
    assert_eq!(message("[]"), "structured arguments at `$` must be a JSON object");
}

#[test]
fn accepted_arguments_meet_the_schema() {
    let schema = shadow_fixture_tool().parameters;
    let accepted = validate_structured_arguments(
        &json(r#"{"fixtures":"[{\"id\":\"a\",\"description\":\"b\",\"args\":[NaN]}]"}"#),
        &schema,
        "t",
    )
    .unwrap();
    assert!(validate_arguments_against_schema(&accepted, &schema, "$").is_ok());
}

#[test]
fn numbers_are_compared_by_value() {
    assert!(alike(&json("0.0"), "-0.0"));
    assert!(!alike(&json("1"), "2"));
    assert!(alike(&json(r#"{"a":1,"b":[true]}"#), r#"{"b":[true],"a":1}"#));
    assert!(matches!(json("7"), JsonValue::Number(JsonNumber::Unsigned(7))));
    assert!(matches!(json("-7"), JsonValue::Number(JsonNumber::Negative(-7))));
}

#[test]
fn plain_answers_come_with_their_usage() {
    let answer = response_with_tool_call(
        "{}",
        Some(TokenUsage { input_tokens: Some(5), output_tokens: Some(7) }),
    );
    let (response, usage) =
        client(Vec::new(), 0).chat(TaskKind::Verifier, Ok(answer)).expect("answer");
    assert_eq!(response.tool_calls[0].id, "tool_1");
    assert_eq!((usage.prompt_tokens, usage.completion_tokens, usage.total_tokens), (5, 7, 12));

    let error = client(Vec::new(), 0)
        .chat(TaskKind::Verifier, Err(Failure::new("closed".to_owned())))
        .unwrap_err();
    assert_eq!(
        error.chain(),
        vec!["zeroclaw chat failed for task `verifier`".to_owned(), "closed".to_owned()]
    );

    let backend = ZeroClawBackend { providers_by_hint: Vec::new() };
    let bare = ZeroClawClient::with_limits(Vec::new(), backend, Vec::new(), 0).expect("client");
    let error = bare.chat(TaskKind::Verifier, Err(Failure::new("closed".to_owned()))).unwrap_err();
    assert_eq!(
        error.chain(),
        vec!["missing task model configuration for task `verifier`".to_owned()]
    );
}

#[test]
fn decimals_keep_their_digits_in_messages() {
    for digits in ["31.245270191439438", "121.48791951161945", "100.78399658203125", "-2.5e-7"] {
        let arguments = json(digits);
        let JsonValue::Number(JsonNumber::Decimal(text)) = &arguments else {
            panic!("expected a decimal");
        };
        let text = text.clone();
        let call = StructuredCall {
            tool_name: "t".to_owned(),
            arguments,
            usage: ProjectTokenUsage::default(),
        };
        let error = call.deserialize_arguments::<u8>(Err("wrong".to_owned())).unwrap_err();
        assert!(error.message().ends_with(&format!("payload `{text}`")));
    }
}

#[test]
fn sanitizing_again_changes_nothing() {
    let raw = r#"{"a": NaN, "b": [-Infinity, undefined], "c": "NaN", "d": NaNs, NaN: Infinity}"#;
    let (once, replaced) = sanitize_invalid_json_literals(raw);
    assert!(replaced);
    assert_eq!(once, r#"{"a": null, "b": [null, null], "c": "NaN", "d": NaNs, null: null}"#);
    let quoted = r#"{"a\"NaN": "[NaN]", "b": "\\"}"#;
    assert_eq!(sanitize_invalid_json_literals(quoted), (quoted.to_owned(), false));
    let (twice, replaced) = sanitize_invalid_json_literals(&once);
    assert!(!replaced);
    assert_eq!(twice, once);
}

#[test]
fn planned_routes_have_keys_and_hold_the_fallback() {
    let configs = build_task_configs();
    let keys = keys(set("ok"), EnvReading::Missing, set("or"));
    let plan = plan_routes(&configs, &keys).expect("plan");
    assert_eq!(plan.routes.len(), 5);
    assert!(plan.routes.iter().all(|route| route.api_key.is_some()));
    for config in &configs {
        assert_eq!(plan.backend.provider_for_hint(&config.hint), "openrouter");
    }
    let client = ZeroClawClient::new(build_task_configs(), &keys, Ok(())).expect("client");
    let fallback = client
        .structured_output_fallback_route(TaskKind::Executor, &configs[1], &keys.openai)
        .expect("fallback")
        .expect("route");
    assert_eq!(fallback.hint, "hint:executor:openai");
    assert_eq!(client.provider_for_hint(&fallback.hint), "openai");
    let route = plan.routes.last().expect("routes");
    assert_eq!((route.hint.as_str(), route.model.as_str()), ("executor:openai", "gpt-5.4"));
    assert_eq!(route.api_key.as_deref(), Some("ok"));
}
