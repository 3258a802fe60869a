//! Requests to a chat-completions endpoint.
use pipecrab_adapters::json::Json;
use pipecrab_adapters::lm::{
    Conversation, GenParams, LmError, Message, ToolCall, ToolDefinition,
};
use pipecrab_adapters::openai::client::{body_failed, endpoint, excerpt, headers, refusal, request_failed, OpenAiClient};
use pipecrab_adapters::openai::config::{OpenAiBuildError, OpenAiConfig};
use pipecrab_adapters::openai::wire::{build_request, error_detail, response_format};
use pipecrab_adapters::records::member_of;

fn json(text: &str) -> Json {
    Json::parse(text).expect("a document")
}

fn object(text: &str) -> Vec<(String, Json)> {
    match json(text) {
        Json::Object(members) => members,
        other => panic!("expected an object, got {other:?}"),
    }
}

fn member(document: &Json, key: &str) -> String {
    member_of(document, key).expect("a member").to_text()
}

fn same(text: String, expected: &str) {
    assert_eq!(text, json(expected).to_text());
}

fn conversation(messages: Vec<Message>) -> Conversation {
    Conversation { messages }
}

fn defaults() -> GenParams {
    GenParams {
        max_tokens: None,
        temperature: None,
        grammar: None,
    }
}

fn weather_tool() -> ToolDefinition {
    ToolDefinition {
        name: "weather".into(),
        description: "look up weather".into(),
        parameters: json(r#"{ "type": "object", "properties": { "city": { "type": "string" } } }"#),
    }
}

fn request(conversation: &Conversation, tools: &[ToolDefinition]) -> Json {
    build_request(
        "gpt-5",
        conversation,
        &defaults(),
        tools,
        true,
        &Vec::new(),
    )
    .expect("valid request")
}

#[test]
fn system_and_user_turns_render_by_role() {
    let convo = conversation(vec![Message::system("be brief"), Message::user("hello")]);
    same(
        member(&request(&convo, &[]), "messages"),
        r#"[
            { "role": "system", "content": "be brief" },
            { "role": "user", "content": "hello" }
        ]"#,
    );
}

#[test]
fn a_plain_assistant_turn_keeps_string_content_and_omits_tool_calls() {
    let convo = conversation(vec![Message::assistant("sure")]);
    same(
        member(&request(&convo, &[]), "messages"),
        r#"[{ "role": "assistant", "content": "sure" }]"#,
    );
}

#[test]
fn a_tool_call_only_assistant_turn_sends_null_content() {
    let call = ToolCall {
        id: "call-1".into(),
        name: "weather".into(),
        arguments_json: r#"{"city":"paris"}"#.into(),
    };
    let convo = conversation(vec![Message::assistant_with_tool_calls("", vec![call])]);
    same(
        member(&request(&convo, &[]), "messages"),
        r#"[{
            "role": "assistant",
            "content": null,
            "tool_calls": [{
                "id": "call-1",
                "type": "function",
                "function": { "name": "weather", "arguments": "{\"city\":\"paris\"}" }
            }]
        }]"#,
    );
}

#[test]
fn an_assistant_turn_with_both_text_and_calls_keeps_the_text() {
    let call = ToolCall {
        id: "call-1".into(),
        name: "weather".into(),
        arguments_json: "{}".into(),
    };
    let convo = conversation(vec![Message::assistant_with_tool_calls(
        "one moment",
        vec![call],
    )]);
    same(
        member(&request(&convo, &[]), "messages"),
        r#"[{
            "role": "assistant",
            "content": "one moment",
            "tool_calls": [{
                "id": "call-1",
                "type": "function",
                "function": { "name": "weather", "arguments": "{}" }
            }]
        }]"#,
    );
}

#[test]
fn a_tool_result_renders_as_a_tool_message_without_its_name() {
    let convo = conversation(vec![Message::ToolResult {
        tool_call_id: "call-1".into(),
        name: "weather".into(),
        content: "18C".into(),
    }]);
    let messages = member(&request(&convo, &[]), "messages");
    assert!(!messages.contains("\"name\""), "{messages}");
    same(
        messages,
        r#"[{ "role": "tool", "tool_call_id": "call-1", "content": "18C" }]"#,
    );
}

#[test]
fn an_event_renders_as_a_labelled_user_turn() {
    let convo = conversation(vec![Message::Event {
        source: "hermes".into(),
        kind: "completion".into(),
        content: "the errand is done".into(),
    }]);
    same(
        member(&request(&convo, &[]), "messages"),
        r#"[{ "role": "user", "content": "[hermes/completion] the errand is done" }]"#,
    );
}

#[test]
fn tools_render_as_function_declarations() {
    let convo = conversation(vec![Message::user("weather?")]);
    same(
        member(&request(&convo, &[weather_tool()]), "tools"),
        r#"[{
            "type": "function",
            "function": {
                "name": "weather",
                "description": "look up weather",
                "parameters": { "type": "object", "properties": { "city": { "type": "string" } } }
            }
        }]"#,
    );
}

#[test]
fn an_empty_tool_set_omits_the_field() {
    let convo = conversation(vec![Message::user("hi")]);
    assert!(member_of(&request(&convo, &[]), "tools").is_none());
}

#[test]
fn generation_params_are_sent_only_when_set() {
    let convo = conversation(vec![Message::user("hi")]);
    let bare = request(&convo, &[]);
    assert!(member_of(&bare, "max_tokens").is_none());
    assert!(member_of(&bare, "temperature").is_none());
    assert!(member_of(&bare, "response_format").is_none());

    let params = GenParams {
        max_tokens: Some(64),
        temperature: Some(json("0.2")),
        grammar: None,
    };
    let set = build_request("gpt-5", &convo, &params, &[], true, &Vec::new()).unwrap();
    assert_eq!(member(&set, "max_tokens"), "64");
    assert_eq!(member(&set, "temperature"), "0.2");
}

#[test]
fn a_grammar_becomes_a_json_schema_response_format() {
    let convo = conversation(vec![Message::user("hi")]);
    let params = GenParams {
        grammar: Some(r#"{"type":"object"}"#.into()),
        ..defaults()
    };
    let body = build_request("gpt-5", &convo, &params, &[], true, &Vec::new()).unwrap();
    same(
        member(&body, "response_format"),
        r#"{
            "type": "json_schema",
            "json_schema": { "name": "response", "schema": { "type": "object" } }
        }"#,
    );
}

#[test]
fn a_grammar_that_is_not_json_fails_the_request() {
    let convo = conversation(vec![Message::user("hi")]);
    let params = GenParams {
        grammar: Some("root ::= \"yes\"".into()),
        ..defaults()
    };
    let error = build_request("gpt-5", &convo, &params, &[], true, &Vec::new()).unwrap_err();
    assert!(matches!(error, LmError::Engine(_)), "{error:?}");
    assert!(response_format("{}").is_ok());
}

#[test]
fn non_streaming_omits_the_stream_field() {
    let convo = conversation(vec![Message::user("hi")]);
    let body = build_request("gpt-5", &convo, &defaults(), &[], false, &Vec::new()).unwrap();
    assert!(member_of(&body, "stream").is_none());
    assert_eq!(member(&request(&convo, &[]), "stream"), "true");
}

#[test]
fn extra_body_merges_into_the_root_and_can_correct_a_field() {
    let convo = conversation(vec![Message::user("hi")]);
    let extra = object(r#"{"provider": { "order": ["together"] }, "model": "overridden"}"#);
    let body = build_request("gpt-5", &convo, &defaults(), &[], true, &extra).unwrap();
    same(member(&body, "provider"), r#"{ "order": ["together"] }"#);
    same(member(&body, "model"), r#""overridden""#);
}

#[test]
fn error_detail_reads_a_string_an_object_and_falls_back() {
    assert_eq!(error_detail(&json(r#""boom""#)), "boom");
    assert_eq!(
        error_detail(&json(r#"{ "message": "rate limited", "code": 429 }"#)),
        "rate limited"
    );
    assert_eq!(error_detail(&json(r#"{ "code": 429 }"#)), r#"{"code":429}"#);
}

fn config(base_url: &str) -> OpenAiConfig {
    OpenAiConfig::new("gpt-5", "sk-secret").with_base_url(base_url)
}

#[test]
fn the_endpoint_appends_to_the_base_path() {
    assert_eq!(
        endpoint("https://openrouter.ai/api/v1").unwrap(),
        "https://openrouter.ai/api/v1/chat/completions"
    );
}

#[test]
fn a_trailing_slash_does_not_double_up() {
    assert_eq!(
        endpoint("http://127.0.0.1:8080/v1/").unwrap(),
        "http://127.0.0.1:8080/v1/chat/completions"
    );
}

#[test]
fn a_url_that_cannot_be_a_base_is_rejected() {
    let error = endpoint("mailto:someone@example.com").unwrap_err();
    assert!(matches!(error, OpenAiBuildError::BaseUrl(_)), "{error:?}");
}

#[test]
fn the_api_key_becomes_a_sensitive_bearer_header() {
    let headers = headers(&config("https://api.openai.com/v1")).unwrap();
    let value = headers.get("authorization").expect("an authorization header");
    assert!(value.sensitive);
    assert_eq!(value.value, "Bearer sk-secret");
}

#[test]
fn an_empty_key_omits_the_authorization_header() {
    let config = OpenAiConfig::new("qwen3", "");
    assert!(headers(&config).unwrap().get("authorization").is_none());
}

#[test]
fn extra_headers_are_applied() {
    let config = config("https://openrouter.ai/api/v1")
        .with_header("HTTP-Referer", "https://example.com")
        .with_header("X-Title", "pipecrab");
    let headers = headers(&config).unwrap();
    assert_eq!(
        headers.get("http-referer").unwrap().value,
        "https://example.com"
    );
    assert_eq!(headers.get("x-title").unwrap().value, "pipecrab");
}

#[test]
fn an_invalid_header_name_is_a_build_error() {
    let config = config("https://api.openai.com/v1").with_header("bad header", "x");
    let error = headers(&config).unwrap_err();
    assert!(
        matches!(&error, OpenAiBuildError::Header { name, .. } if name == "bad header"),
        "{error:?}"
    );
}

#[test]
fn an_invalid_header_value_does_not_echo_the_value() {
    let config = config("https://api.openai.com/v1").with_header("x-tenant", "line\nbreak");
    let error = headers(&config).unwrap_err();
    assert!(!error.message().contains("line"), "{error:?}");
}

#[test]
fn an_own_authorization_header_replaces_the_bearer_token() {
    let config = config("https://api.openai.com/v1")
        .with_header("Authorization", "Basic abc")
        .with_header("X-Title", "one")
        .with_header("x-title", "two");
    let client = OpenAiClient::new(&config).unwrap();
    let all: Vec<(&str, &str, bool)> = client
        .headers
        .list
        .iter()
        .map(|header| (header.name.as_str(), header.value.as_str(), header.sensitive))
        .collect();
    assert_eq!(
        all,
        [("authorization", "Basic abc", false), ("x-title", "two", false)]
    );
}

#[test]
fn errors_are_the_same_whatever_the_key() {
    let one = OpenAiConfig::new("gpt-5", "sk-one").with_header("bad header", "x");
    let two = OpenAiConfig::new("gpt-5", "sk-two").with_header("bad header", "x");
    assert_eq!(
        headers(&one).unwrap_err().message(),
        headers(&two).unwrap_err().message()
    );
    let one = OpenAiConfig::new("gpt-5", "sk\none");
    let two = OpenAiConfig::new("gpt-5", "sk\ntwo");
    let message = headers(&one).unwrap_err().message();
    assert_eq!(message, headers(&two).unwrap_err().message());
    assert!(!message.contains("sk"), "{message}");
}

#[test]
fn every_header_but_the_bearer_token_is_the_callers_own() {
    let config = config("https://api.openai.com/v1").with_header("X-Title", "pipecrab");
    let headers = headers(&config).unwrap();
    assert!(headers.get("authorization").is_some());
    assert!(!headers.get("x-title").unwrap().sensitive);
    assert!(headers.get("x-api-key").is_none());
}

#[test]
fn an_empty_model_is_rejected_before_any_request() {
    let config = OpenAiConfig::new("", "sk-secret");
    assert!(matches!(
        OpenAiClient::new(&config),
        Err(OpenAiBuildError::EmptyModel)
    ));
}

#[test]
fn openai_excerpts_truncate_on_a_char_boundary() {
    let long = "x".repeat(250);
    let out = excerpt(&long);
    assert!(out.ends_with('…'));
    assert!(out.len() <= 204);
}

#[test]
fn a_description_shows_the_extra_members_with_their_types() {
    let config = OpenAiConfig::new("gpt-5", "sk-secret")
        .with_extra_body(&object(r#"{"seed": 7, "user": "u"}"#));
    let rendered = config.describe();
    assert!(
        rendered.contains(r#", extra_body: {"seed": Number(7), "user": String("u")}, "#),
        "{rendered}"
    );
}

#[test]
fn debug_redacts_the_api_key() {
    let config = OpenAiConfig::new("gpt-5", "sk-super-secret");
    let rendered = config.describe();
    assert!(!rendered.contains("sk-super-secret"), "{rendered}");
    assert!(rendered.contains("<redacted>"), "{rendered}");
}

#[test]
fn defaults_target_openai_with_streaming_on() {
    let config = OpenAiConfig::new("gpt-5", "");
    assert_eq!(config.base_url, "https://api.openai.com/v1");
    assert!(config.streaming);
    assert!(config.headers.is_empty());
    assert!(config.extra_body.is_empty());
}

#[test]
fn extra_body_accumulates_across_calls() {
    let config = OpenAiConfig::new("gpt-5", "")
        .with_extra_body(&object(r#"{"top_p": 0.5}"#))
        .with_extra_body(&object(r#"{"seed": 7}"#));
    let body = Json::Object(config.extra_body);
    assert_eq!(member(&body, "top_p"), "0.5");
    assert_eq!(member(&body, "seed"), "7");
}

#[test]
fn config_builders_change_one_setting_each() {
    let config = OpenAiConfig::new("m", "k")
        .with_connect_timeout(1_500)
        .with_read_timeout(20_000)
        .with_streaming(false)
        .with_header("a", "b");
    assert_eq!(config.connect_timeout_ms, 1_500);
    assert_eq!(config.read_timeout_ms, 20_000);
    let rendered = config.describe();
    assert!(rendered.contains("connect_timeout: 1.5s, read_timeout: 20s"), "{rendered}");
    assert!(rendered.contains("headers: [(\"a\", \"b\")]"), "{rendered}");
    assert!(rendered.ends_with("streaming: false }"), "{rendered}");
    let client = OpenAiClient::new(&config).unwrap();
    assert!(!client.streaming());
}

#[test]
fn the_request_carries_the_model_history_tools_and_bearer_token() {
    let config = OpenAiConfig::new("test-model", "sk-test-secret");
    let client = OpenAiClient::new(&config).unwrap();
    let convo = conversation(vec![Message::system("be brief"), Message::user("hello")]);
    let body = client
        .request_body(&convo, &defaults(), &[weather_tool()])
        .unwrap();
    same(member(&body, "model"), r#""test-model""#);
    same(member(&body, "stream"), "true");
    assert!(member(&body, "tools").contains("\"name\":\"weather\""));
    assert!(!body.to_text().contains("sk-test-secret"));
}

#[test]
fn an_unauthorized_response_reports_the_status_without_the_key() {
    let error = refusal(401, r#"{"error":{"message":"invalid api key"}}"#).expect("a refusal");
    match error {
        LmError::Engine(message) => {
            assert!(message.contains("401"), "{message}");
            assert!(message.contains("invalid api key"), "{message}");
        }
        other => panic!("expected an engine error, got {other:?}"),
    }
}

#[test]
fn a_server_error_reports_its_status() {
    match refusal(500, "upstream exploded").expect("a refusal") {
        LmError::Engine(message) => {
            assert!(message.contains("500"), "{message}");
            assert!(message.contains("upstream exploded"), "{message}");
        }
        other => panic!("expected an engine error, got {other:?}"),
    }
    assert!(refusal(200, "").is_none());
    assert_eq!(
        request_failed("reset"),
        LmError::Engine("completion request failed: reset".into())
    );
    assert_eq!(
        body_failed("reset"),
        LmError::ProviderStream("completion body failed: reset".into())
    );
}
