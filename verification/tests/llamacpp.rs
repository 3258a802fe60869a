//! Local models: configuration, the tool dialect, interception of calls, and turns.
use pipecrab_adapters::ids::mint_call_id;
use pipecrab_adapters::json::Json;
use pipecrab_adapters::llamacpp::config::{LlamaCppBuildError, LlamaCppConfig};
use pipecrab_adapters::llamacpp::dialect::{
    is_named_by, regex_escape, ChatMlXml, ToolDialect, TOOL_CALL_ROOT,
};
use pipecrab_adapters::llamacpp::intercept::{CallInterceptor, Intercepted};
use pipecrab_adapters::llamacpp::worker::{
    check_model, collapse_bos, emit, engine_failed, full_prompt, measured_name, plan,
    render_messages, samplers, turn_settings, DecodeLoop, EngineSettings, Prefill, SamplerStep,
    ToolPrompt,
};
use pipecrab_adapters::lm::{
    Conversation, LmError, Message, ModelDelta, ToolCall, ToolDefinition,
};


const OPEN: &str = "<tool_call>";
const CLOSE: &str = "</tool_call>";

/// Drive the interceptor with a scripted token sequence.
fn run(pieces: &[&str]) -> (Vec<Intercepted>, Result<Option<Intercepted>, LmError>) {
    let mut interceptor = CallInterceptor::new(OPEN, CLOSE);
    let mut out = Vec::new();
    for piece in pieces {
        interceptor.push(piece, &mut out);
    }
    let tail = interceptor.finish();
    (out, tail)
}

fn text(items: &[Intercepted]) -> String {
    items.iter().fold(String::new(), |mut all, item| {
        if let Intercepted::Text(piece) = item {
            all.push_str(piece);
        }
        all
    })
}

fn calls(items: &[Intercepted]) -> Vec<&str> {
    items
        .iter()
        .filter_map(|item| match item {
            Intercepted::Call(body) => Some(body.as_str()),
            Intercepted::Text(_) => None,
        })
        .collect()
}

#[test]
fn plain_text_is_emitted_as_it_arrives() {
    let mut interceptor = CallInterceptor::new(OPEN, CLOSE);
    let mut out = Vec::new();
    for piece in ["Sure", ", I", " can help."] {
        let before = out.len();
        interceptor.push(piece, &mut out);
        assert_eq!(out.len(), before + 1, "piece {piece:?} was held back");
    }
    assert_eq!(text(&out), "Sure, I can help.");
    assert!(interceptor.finish().expect("clean finish").is_none());
}

#[test]
fn a_call_arriving_as_one_token_is_captured_whole() {
    let (out, tail) = run(&[OPEN, "\n{\"name\": \"t\", \"arguments\": {}}\n", CLOSE]);
    assert_eq!(calls(&out), ["\n{\"name\": \"t\", \"arguments\": {}}\n"]);
    assert_eq!(text(&out), "");
    assert!(tail.expect("clean finish").is_none());
}

#[test]
fn a_trigger_split_across_tokens_never_reaches_the_transcript() {
    let (out, tail) = run(&["<", "tool", "_call", ">", "{}", "</tool", "_call>"]);
    assert_eq!(text(&out), "", "a fragment of the call syntax was spoken");
    assert_eq!(calls(&out), ["{}"]);
    assert!(tail.expect("clean finish").is_none());
}

#[test]
fn withheld_text_that_is_not_a_trigger_is_flushed_intact() {
    let (mut out, tail) = run(&["a < b, ", "<too", "ls>", " done"]);
    out.extend(tail.expect("clean finish"));
    assert_eq!(text(&out), "a < b, <tools> done");
    assert!(calls(&out).is_empty());
}

#[test]
fn a_dangling_prefix_at_the_end_is_still_spoken() {
    let (out, tail) = run(&["done <"]);
    assert_eq!(text(&out), "done ");
    assert_eq!(
        tail.expect("clean finish"),
        Some(Intercepted::Text("<".into()))
    );
}

#[test]
fn text_before_and_after_a_call_both_survive() {
    let (mut out, tail) = run(&["One moment. ", OPEN, "{\"a\":1}", CLOSE, " Done."]);
    out.extend(tail.expect("clean finish"));
    assert_eq!(
        out,
        [
            Intercepted::Text("One moment. ".into()),
            Intercepted::Call("{\"a\":1}".into()),
            Intercepted::Text(" Done.".into()),
        ]
    );
}

#[test]
fn an_unterminated_call_fails_rather_than_yielding_half_of_one() {
    let (out, tail) = run(&[OPEN, "{\"name\": \"dispatch_task\", \"argum"]);
    assert!(calls(&out).is_empty(), "a partial call escaped");
    assert_eq!(tail, Err(LmError::IncompleteToolCall));
}

#[test]
fn two_sequential_calls_are_captured_separately() {
    let (out, tail) = run(&[OPEN, "{\"a\":1}", CLOSE, OPEN, "{\"b\":2}", CLOSE]);
    assert_eq!(calls(&out), ["{\"a\":1}", "{\"b\":2}"]);
    assert!(tail.expect("clean finish").is_none());
}

#[test]
fn minted_ids_are_unique() {
    let ids: std::collections::HashSet<_> = (0..1_000).map(|_| mint_call_id("call_")).collect();
    assert_eq!(ids.len(), 1_000);
}

fn tool(name: &str, parameters: &str) -> ToolDefinition {
    ToolDefinition {
        name: name.to_owned(),
        description: format!("{name} does a thing"),
        parameters: Json::parse(parameters).expect("a schema"),
    }
}

fn dispatch_tools() -> Vec<ToolDefinition> {
    vec![
        tool(
            "dispatch_task",
            r#"{
                "type": "object",
                "properties": {
                    "task": { "type": "string" },
                    "context": { "type": ["string", "null"] }
                },
                "required": ["task"]
            }"#,
        ),
        tool(
            "update_task",
            r#"{
                "type": "object",
                "properties": {
                    "task_id": { "type": "string" },
                    "message": { "type": "string" }
                },
                "required": ["task_id", "message"]
            }"#,
        ),
    ]
}

#[test]
fn declarations_carry_every_tool_in_a_tools_block() {
    let block = ChatMlXml.declarations(&dispatch_tools());
    assert!(block.contains("<tools>") && block.contains("</tools>"));
    assert!(block.contains(r#""name": "dispatch_task""#));
    assert!(block.contains(r#""name": "update_task""#));
    assert!(
        block.contains(r#"{"name": <function-name>, "arguments": <args-json-object>}"#),
        "the call shape Qwen's own template states must be present: {block}"
    );
}

#[test]
fn declarations_and_schemas_are_byte_stable_across_calls() {
    let tools = dispatch_tools();
    assert_eq!(
        ChatMlXml.declarations(&tools),
        ChatMlXml.declarations(&tools)
    );
    assert_eq!(ChatMlXml.schema(&tools), ChatMlXml.schema(&tools));
    assert_eq!(
        ChatMlXml.grammar(&tools, "root ::= x"),
        ChatMlXml.grammar(&tools, "root ::= x")
    );
}

#[test]
fn a_list_of_names_covers_a_model_whatever_the_case() {
    let names = vec!["Qwen".to_owned(), "HERMES".to_owned()];
    assert!(is_named_by(&names, "nous-hermes-2"));
    assert!(!is_named_by(&names, "gemma"));
    assert!(!is_named_by(&Vec::new(), "qwen"));
}

#[test]
fn a_grammar_wraps_the_converted_schema_in_the_delimiters() {
    let grammar = ChatMlXml
        .grammar(&dispatch_tools(), "root ::= x\nspace ::= y")
        .expect("a grammar");
    assert_eq!(
        grammar,
        "root ::= x\nspace ::= y\ntool-call ::= \"<tool_call>\" space root \"</tool_call>\"\n"
    );
    assert!(grammar.contains(&format!("{TOOL_CALL_ROOT} ::=")));
}

#[test]
fn a_schema_has_a_branch_per_tool_and_the_name_before_the_arguments() {
    let schema = ChatMlXml.schema(&dispatch_tools());
    assert!(schema.contains(r#"{"const":"dispatch_task"}"#), "{schema}");
    assert!(schema.contains(r#"{"const":"update_task"}"#), "{schema}");
    let name = schema.find("\"name\"").expect("a name");
    let arguments = schema.find("\"arguments\"").expect("arguments");
    assert!(name < arguments, "{schema}");
    assert!(Json::parse(&schema).is_ok());
    let one = ChatMlXml.schema(&[tool("only", r#"{ "type": "object" }"#)]);
    assert_eq!(
        one,
        "{\"oneOf\":[{\"type\":\"object\",\"properties\":{\"name\":{\"const\":\"only\"},\
         \"arguments\":{\"type\":\"object\"}},\"required\":[\"name\",\"arguments\"],\
         \"additionalProperties\":false}]}"
    );
}

#[test]
fn assistant_tool_calls_round_trip_into_the_prompt() {
    let call = ToolCall {
        id: "call-1".into(),
        name: "dispatch_task".into(),
        arguments_json: r#"{"task":"research otters"}"#.into(),
    };
    let calls = vec![call];
    assert_eq!(
        ChatMlXml.tool_calls(&calls),
        "\n<tool_call>\n{\"name\": \"dispatch_task\", \"arguments\": \
         {\"task\":\"research otters\"}}\n</tool_call>"
    );
    let body = ChatMlXml
        .tool_calls(&calls)
        .trim_start_matches("\n<tool_call>")
        .trim_end_matches("</tool_call>")
        .to_string();
    let (name, arguments) = ChatMlXml.parse(&body).expect("round trip");
    assert_eq!(name, "dispatch_task");
    assert_eq!(arguments.to_text(), r#"{"task":"research otters"}"#);
}

#[test]
fn tool_results_use_a_role_the_chat_template_knows() {
    let (role, content) = ChatMlXml.tool_result("task accepted");
    assert_eq!(role, "user");
    assert_eq!(content, "<tool_response>\ntask accepted\n</tool_response>");
}

#[test]
fn parse_reads_a_well_formed_body() {
    let (name, arguments) = ChatMlXml
        .parse("\n{\"name\": \"dispatch_task\", \"arguments\": {\"task\": \"x\"}}\n")
        .expect("parse");
    assert_eq!(name, "dispatch_task");
    assert_eq!(arguments.to_text(), r#"{"task":"x"}"#);
}

#[test]
fn parse_rejects_a_truncated_body() {
    let error = ChatMlXml
        .parse(r#"{"name": "dispatch_task", "arguments": {"task": "resea"#)
        .expect_err("truncated body");
    assert!(matches!(error, LmError::InvalidToolArguments(_)));
}

#[test]
fn parse_rejects_a_body_that_is_not_json() {
    assert!(matches!(
        ChatMlXml.parse("dispatch_task(task=x)"),
        Err(LmError::InvalidToolArguments(_))
    ));
}

#[test]
fn parse_rejects_a_missing_or_empty_name() {
    assert_eq!(
        ChatMlXml.parse(r#"{"arguments": {}}"#).unwrap_err(),
        LmError::IncompleteToolCall
    );
    assert_eq!(
        ChatMlXml.parse(r#"{"name": "", "arguments": {}}"#).unwrap_err(),
        LmError::IncompleteToolCall
    );
}

#[test]
fn parse_rejects_missing_or_non_object_arguments() {
    assert_eq!(
        ChatMlXml.parse(r#"{"name": "t"}"#).unwrap_err(),
        LmError::IncompleteToolCall
    );
    assert_eq!(
        ChatMlXml.parse(r#"{"name": "t", "arguments": "x"}"#).unwrap_err(),
        LmError::ToolArgumentsNotObject
    );
}

#[test]
fn supported_models_match_real_gguf_names_case_insensitively() {
    assert!(ChatMlXml.supports("qwen2.5-0.5b-instruct"));
    assert!(ChatMlXml.supports("Qwen3 1.7B"));
    assert!(ChatMlXml.supports("Nous Hermes 2 Pro"));
    assert!(!ChatMlXml.supports("gemma-4-e2b-it"));
    assert!(!ChatMlXml.supports("Meta Llama 3.1 8B Instruct"));
}

#[test]
fn regex_escape_leaves_a_plain_delimiter_alone_and_escapes_metacharacters() {
    assert_eq!(regex_escape("<tool_call>"), "<tool_call>");
    assert_eq!(regex_escape("[TOOL_CALLS]"), r"\[TOOL_CALLS\]");
}

#[test]
fn missing_model_is_rejected_before_worker_start() {
    let config = LlamaCppConfig::new("definitely-not-a-model.gguf", None);
    let is_file = std::path::Path::new(config.model_path()).is_file();
    assert!(matches!(
        config.validate(is_file),
        Err(LlamaCppBuildError::ModelNotFound(_))
    ));
}

#[test]
fn batch_cannot_exceed_context() {
    let file = tempfile::NamedTempFile::new().expect("temp file");
    let path = file.path().to_str().expect("a path");
    let config = LlamaCppConfig::new(path, None)
        .with_context_size(128)
        .with_batch_size(256);
    assert!(matches!(
        config.validate(file.path().is_file()),
        Err(LlamaCppBuildError::InvalidConfig(_))
    ));
}

#[test]
fn generation_defaults_are_non_zero() {
    let config = LlamaCppConfig::new("missing.gguf", None);
    assert_eq!(config.context_size, 4096);
    assert!(config.default_max_tokens > 0);
    assert_eq!(config.threads, 2);
    assert_eq!(LlamaCppConfig::new("m", Some(12)).threads, 6);
    assert_eq!(f32::from_bits(config.default_temperature_bits), 0.7);
}

#[test]
fn invalid_settings_are_told_apart() {
    let base = || LlamaCppConfig::new("m.gguf", Some(8));
    assert!(base().validate(true).is_ok());
    let told = |config: LlamaCppConfig| match config.validate(true) {
        Err(error @ LlamaCppBuildError::InvalidConfig(_)) => error.message(),
        other => panic!("expected a fault, got {other:?}"),
    };
    let hot = base().with_generation_defaults(10, f32::NAN.to_bits(), 1);
    assert!(told(hot).contains("temperature must be finite and non-negative"));
    let cold = base().with_generation_defaults(10, (-0.5f32).to_bits(), 1);
    assert!(told(cold).contains("temperature must be finite and non-negative"));
    let wide = base().with_threads(usize::MAX, 1);
    assert!(told(wide).contains("thread count exceeds"));
    let missing = base().validate(false).unwrap_err();
    assert!(missing.message().contains("m.gguf"), "{missing:?}");
}

#[test]
fn engine_settings_follow_the_config() {
    let config = LlamaCppConfig::new("m", Some(5)).with_batch_size(1024).with_gpu_layers(7);
    let settings = EngineSettings::new(&config, true).unwrap();
    assert_eq!(settings.micro_batch_size, 512);
    assert_eq!(settings.gpu_layers, 7);
    assert_eq!(settings.threads, 3);
    assert!(settings.use_devices && settings.offload_cache);
    assert_eq!(
        EngineSettings::new(&config, false).unwrap_err(),
        "GPU offload was requested but is unavailable"
    );
    let small = LlamaCppConfig::new("m", None).with_batch_size(64);
    let settings = EngineSettings::new(&small, false).unwrap();
    assert_eq!(settings.micro_batch_size, 64);
    assert!(!settings.use_devices);
}

fn conversation() -> Conversation {
    Conversation {
        messages: vec![
            Message::system("be brief"),
            Message::user("hi"),
            Message::assistant_with_tool_calls(
                "one moment",
                vec![ToolCall {
                    id: "c".into(),
                    name: "t".into(),
                    arguments_json: "{}".into(),
                }],
            ),
            Message::ToolResult {
                tool_call_id: "c".into(),
                name: "t".into(),
                content: "done".into(),
            },
            Message::Event {
                source: "hermes".into(),
                kind: "completion".into(),
                content: "ok".into(),
            },
        ],
    }
}

#[test]
fn a_prompt_without_tools_renders_plain_turns() {
    let turns = render_messages(&conversation(), &ChatMlXml, None);
    let expected = [
        ("system", "be brief"),
        ("user", "hi"),
        ("assistant", "one moment"),
        ("tool", "done"),
        ("user", "[hermes/completion] ok"),
    ];
    assert_eq!(turns.len(), expected.len());
    for (turn, wanted) in turns.iter().zip(expected) {
        assert_eq!((turn.0.as_str(), turn.1.as_str()), wanted);
    }
}

#[test]
fn a_prompt_with_tools_declares_them_and_renders_calls() {
    let turns = render_messages(&conversation(), &ChatMlXml, Some("[tools]"));
    assert_eq!(turns[0].1, "be brief[tools]");
    assert_eq!(
        turns[2].1,
        "one moment\n<tool_call>\n{\"name\": \"t\", \"arguments\": {}}\n</tool_call>"
    );
    assert_eq!(turns[3].0, "user");
    assert_eq!(turns[3].1, "<tool_response>\ndone\n</tool_response>");

    let bare = Conversation {
        messages: vec![Message::user("hi")],
    };
    let turns = render_messages(&bare, &ChatMlXml, Some("\n\n[tools]"));
    assert_eq!(turns.len(), 2);
    assert_eq!(turns[0].0, "system");
    assert!(turns[0].1.ends_with("[tools]"), "{turns:?}");
}

#[test]
fn a_kept_prompt_serves_the_same_tools_alone() {
    let tools = dispatch_tools();
    let prompt = ToolPrompt::build(&ChatMlXml, &tools, "root ::= x").expect("a prompt");
    assert!(prompt.is_for(&dispatch_tools()));
    assert!(!prompt.is_for(&tools[..1]));
    let renamed = vec![tool("other", "{}")];
    assert!(!prompt.is_for(&renamed));
}

#[test]
fn an_unknown_model_is_told_with_what_is_known() {
    assert!(check_model(&ChatMlXml, &None).is_ok());
    assert!(check_model(&ChatMlXml, &Some("Qwen3 1.7B".into())).is_ok());
    let message = check_model(&ChatMlXml, &Some("gemma \"x\"".into())).unwrap_err();
    assert!(message.starts_with("model \"gemma \\\"x\\\"\" is not one ChatMlXml handles ("));
    assert!(message.contains("Qwen") && message.contains("Hermes"), "{message}");
    assert_eq!(measured_name(true, Some("gemma".into())), None);
    assert_eq!(measured_name(false, Some("gemma".into())), Some("gemma".into()));
}

#[test]
fn a_doubled_start_token_collapses() {
    assert_eq!(collapse_bos(vec![1, 1, 5], 1), [1, 5]);
    assert_eq!(collapse_bos(vec![1, 5], 1), [1, 5]);
    assert_eq!(collapse_bos(vec![1, 1, 1], 1), [1, 1]);
    assert_eq!(collapse_bos(vec![1], 1), [1]);
}

#[test]
fn a_turn_reuses_what_the_cache_shares_with_the_prompt() {
    let planned = plan(&vec![1, 2, 3, 4], &vec![1, 2, 9], 100, 10).unwrap();
    assert_eq!((planned.shared, planned.max_tokens), (2, 10));
    let same = plan(&vec![1, 2, 3], &vec![1, 2, 3], 5, 10).unwrap();
    assert_eq!((same.shared, same.max_tokens), (2, 2));
    assert_eq!(
        plan(&vec![], &vec![], 5, 1).unwrap_err(),
        "chat template produced an empty prompt"
    );
    assert_eq!(
        plan(&vec![1, 2], &vec![], 2, 1).unwrap_err(),
        "prompt uses 2 tokens but context holds 2"
    );
}

#[test]
fn a_prompt_is_decoded_in_batches_from_what_is_shared() {
    let mut prefill = Prefill::new(vec![10, 11, 12, 13, 14], 2, true, 2);
    let mut positions = Vec::new();
    while !prefill.is_done() {
        for entry in prefill.batch() {
            positions.push((entry.token, entry.position, entry.logits));
        }
        prefill.decoded();
    }
    assert_eq!(
        positions,
        [(12, 2, false), (13, 3, false), (14, 4, true)]
    );
    assert_eq!(prefill.processed(), [10, 11, 12, 13, 14]);
    let lost = Prefill::new(vec![10, 11], 1, false, 8);
    assert_eq!(lost.batch().len(), 2);
}

#[test]
fn samplers_are_greedy_at_zero_and_draw_otherwise() {
    let zero = samplers(&None, None, 0, 7).unwrap();
    assert!(matches!(zero.as_slice(), [SamplerStep::Greedy]));
    let warm = samplers(&Some("root ::= x".into()), None, 0.7f32.to_bits(), 7).unwrap();
    assert!(matches!(
        warm.as_slice(),
        [
            SamplerStep::Grammar { .. },
            SamplerStep::TopK(40),
            SamplerStep::TopP,
            SamplerStep::Temperature { .. },
            SamplerStep::Draw { seed: 7 },
        ]
    ));
    let prompt =
        ToolPrompt::build(&ChatMlXml, &dispatch_tools(), "root ::= x").expect("a prompt");
    let lazy = samplers(&None, Some(&prompt), 0, 7).unwrap();
    match lazy.as_slice() {
        [SamplerStep::LazyGrammar { root, trigger, .. }, SamplerStep::Greedy] => {
            assert_eq!(root, TOOL_CALL_ROOT);
            assert!(trigger.contains("<tool_call>"), "{trigger}");
        }
        other => panic!("expected a lazy grammar, got {other:?}"),
    }
    assert!(samplers(&None, None, f32::INFINITY.to_bits(), 7).is_err());
}

#[test]
fn settings_of_a_turn_fall_back_to_the_config() {
    let config = LlamaCppConfig::new("m", None)
        .with_generation_defaults(33, 0.5f32.to_bits(), 9)
        .with_assistant_prefix("<think></think>");
    assert_eq!(turn_settings(&config, None, None), (33, 0.5f32.to_bits()));
    assert_eq!(turn_settings(&config, Some(1), Some(0)), (1, 0));
    assert_eq!(full_prompt("p:".into(), &config), "p:<think></think>");
    assert_eq!(full_prompt("p:".into(), &LlamaCppConfig::new("m", None)), "p:");
}

#[test]
fn a_captured_call_becomes_a_tool_call() {
    let (items, going) = emit(
        &ChatMlXml,
        vec![
            Intercepted::Text("ok ".into()),
            Intercepted::Call(r#"{"name": "t", "arguments": {"a": 1}}"#.into()),
        ],
    );
    assert!(going);
    assert_eq!(items[0], Ok(ModelDelta::Text("ok ".into())));
    match &items[1] {
        Ok(ModelDelta::ToolCall(call)) => {
            assert_eq!(call.name, "t");
            assert_eq!(call.arguments_json, r#"{"a":1}"#);
            assert!(!call.id.is_empty());
        }
        other => panic!("expected a call, got {other:?}"),
    }
    let (items, going) = emit(
        &ChatMlXml,
        vec![
            Intercepted::Call("nonsense".into()),
            Intercepted::Text("never said".into()),
        ],
    );
    assert!(!going);
    assert_eq!(items.len(), 1);
    assert!(matches!(items[0], Err(LmError::InvalidToolArguments(_))));
}

/// A turn behind a decoded prompt of five tokens.
fn turn_of(max_tokens: usize, with_tools: bool) -> DecodeLoop {
    let mut prefill = Prefill::new(vec![1, 2, 3, 4, 5], 0, true, 8);
    prefill.decoded();
    assert!(prefill.is_done());
    let delimiters = if with_tools {
        Some((OPEN.to_owned(), CLOSE.to_owned()))
    } else {
        None
    };
    DecodeLoop::new(prefill, max_tokens, delimiters)
}

#[test]
fn decoding_stops_at_the_limit_or_when_superseded() {
    let mut turn = turn_of(2, true);
    assert!(turn.goes_on(true));
    assert_eq!(turn.piece("a <"), [Intercepted::Text("a ".into())]);
    assert_eq!(turn.said(true, true), Some(5));
    turn.decoded(60);
    assert!(turn.goes_on(true));
    assert_eq!(turn.piece("b"), [Intercepted::Text("<b".into())]);
    assert_eq!(turn.said(true, true), Some(6));
    turn.decoded(70);
    assert!(!turn.goes_on(true));
    assert!(turn.finish().is_none());
    assert_eq!(turn.into_processed(), [1, 2, 3, 4, 5, 60, 70]);

    let mut cut = turn_of(9, true);
    assert!(cut.goes_on(true));
    cut.piece(OPEN);
    assert_eq!(cut.said(true, true), Some(5));
    cut.decoded(60);
    assert_eq!(cut.finish(), Some(Err(LmError::IncompleteToolCall)));
    assert!(cut.finish().is_none());

    let mut superseded = turn_of(9, true);
    assert!(superseded.goes_on(true));
    superseded.piece("half <tool");
    assert!(!superseded.goes_on(false));
    assert!(!superseded.goes_on(true));
    assert!(superseded.finish().is_none());
    assert_eq!(superseded.into_processed(), [1, 2, 3, 4, 5]);

    let mut unheard = turn_of(9, false);
    assert_eq!(unheard.piece("x"), [Intercepted::Text("x".into())]);
    assert_eq!(unheard.said(false, true), None);
    assert!(!unheard.goes_on(true));
    assert_eq!(engine_failed("boom"), LmError::Engine("boom".into()));
}

#[test]
fn a_tail_is_flushed_once() {
    let mut turn = turn_of(9, true);
    assert!(turn.goes_on(true));
    assert_eq!(turn.piece("done <"), [Intercepted::Text("done ".into())]);
    assert_eq!(turn.finish(), Some(Ok(Intercepted::Text("<".into()))));
    assert!(turn.finish().is_none());
}

#[test]
fn a_prompt_that_is_cut_short_keeps_what_was_decoded() {
    let mut prefill = Prefill::new(vec![1, 2, 3, 4, 5], 1, true, 3);
    assert_eq!(prefill.processed(), [1]);
    prefill.decoded();
    assert_eq!(prefill.processed(), [1, 2, 3, 4]);
    assert!(!prefill.is_done());
}

#[test]
fn the_longest_possible_opening_is_held_back_and_pieces_are_clean() {
    let mut interceptor = CallInterceptor::new("aab", "!");
    let mut out = Vec::new();
    interceptor.push("xaaa", &mut out);
    assert_eq!(out, [Intercepted::Text("xa".into())]);
    interceptor.push("bq!!aa", &mut out);
    assert_eq!(
        out,
        [
            Intercepted::Text("xa".into()),
            Intercepted::Call("q".into()),
            Intercepted::Text("!".into()),
        ]
    );
    assert_eq!(
        interceptor.finish().unwrap(),
        Some(Intercepted::Text("aa".into()))
    );
}

#[test]
fn cutting_a_reply_differently_says_the_same() {
    let reply = "Say <a> <tool_call>{\"x\":1}</tool_call> and <tool";
    let mut whole = CallInterceptor::new(OPEN, CLOSE);
    let mut expected = Vec::new();
    whole.push(reply, &mut expected);
    let expected_tail = whole.finish().unwrap();
    for size in 1..reply.len() {
        let mut out = Vec::new();
        let mut interceptor = CallInterceptor::new(OPEN, CLOSE);
        let chars: Vec<char> = reply.chars().collect();
        for piece in chars.chunks(size) {
            interceptor.push(&piece.iter().collect::<String>(), &mut out);
        }
        let tail = interceptor.finish().unwrap();
        let all = |items: &[Intercepted], tail: &Option<Intercepted>| {
            let mut said = text(items);
            if let Some(Intercepted::Text(piece)) = tail {
                said.push_str(piece);
            }
            said
        };
        assert_eq!(all(&out, &tail), all(&expected, &expected_tail));
        assert_eq!(calls(&out), calls(&expected));
    }
}
