//! Decoding of chat completions, streamed and whole.
use pipecrab_adapters::json::Json;
use pipecrab_adapters::lm::{LmError, ModelDelta};
use pipecrab_adapters::openai::chunk::{ChatChunk, FunctionFragment, ToolCallFragment};
use pipecrab_adapters::openai::model::{load_state, save_state, DecodedState, Epoch, Pull, SseState};
use pipecrab_adapters::openai::stream::{
    decode_document, decode_response, flush_as, parse_arguments, strip_cr, supersedes, OpenCall,
    SseDecoder,
};

/// Feed a whole body to a fresh decoder and collect everything it produced.
fn decode(body: &str) -> Vec<Result<ModelDelta, LmError>> {
    let mut decoder = SseDecoder::default();
    let mut out = decoder.push(body.as_bytes());
    out.extend(decoder.finish());
    out
}

/// Feed a body one byte at a time — every split point exercised at once.
fn decode_byte_by_byte(body: &str) -> Vec<Result<ModelDelta, LmError>> {
    let mut decoder = SseDecoder::default();
    let mut out = Vec::new();
    for byte in body.as_bytes() {
        out.extend(decoder.push(&[*byte]));
    }
    out.extend(decoder.finish());
    out
}

fn text(items: &[Result<ModelDelta, LmError>]) -> String {
    items
        .iter()
        .filter_map(|item| match item {
            Ok(ModelDelta::Text(text)) => Some(text.to_string()),
            _ => None,
        })
        .collect()
}

fn calls(items: Vec<Result<ModelDelta, LmError>>) -> Vec<(String, String, String)> {
    items
        .into_iter()
        .filter_map(|item| match item {
            Ok(ModelDelta::ToolCall(call)) => Some((
                call.id.to_string(),
                call.name.to_string(),
                call.arguments_json.to_string(),
            )),
            _ => None,
        })
        .collect()
}

fn errors(items: Vec<Result<ModelDelta, LmError>>) -> Vec<LmError> {
    items.into_iter().filter_map(Result::err).collect()
}

const TEXT_BODY: &str = "data: {\"choices\":[{\"delta\":{\"role\":\"assistant\",\"content\":\"Hel\"}}]}\n\n\
     data: {\"choices\":[{\"delta\":{\"content\":\"lo\"}}]}\n\n\
     data: {\"choices\":[{\"delta\":{},\"finish_reason\":\"stop\"}]}\n\n\
     data: [DONE]\n\n";

#[test]
fn text_deltas_concatenate() {
    let items = decode(TEXT_BODY);
    assert_eq!(text(&items), "Hello");
    assert!(errors(items).is_empty());
}

#[test]
fn a_body_split_at_every_byte_decodes_identically() {
    assert_eq!(text(&decode_byte_by_byte(TEXT_BODY)), "Hello");
}

#[test]
fn crlf_comments_and_other_fields_are_tolerated() {
    let body = ": ping\r\n\
     event: message\r\n\
     id: 1\r\n\
     data: {\"choices\":[{\"delta\":{\"content\":\"hi\"}}]}\r\n\
     \r\n\
     data: [DONE]\r\n\r\n";
    let items = decode(body);
    assert_eq!(text(&items), "hi");
    assert!(errors(items).is_empty());
}

#[test]
fn multi_line_data_joins_with_a_newline() {
    let body = "data: {\"choices\":[{\"delta\":\ndata: {\"content\":\"hi\"}}]}\n\n";
    assert_eq!(text(&decode(body)), "hi");
}

#[test]
fn empty_and_absent_content_emit_nothing() {
    let body = "data: {\"choices\":[{\"delta\":{\"content\":\"\"}}]}\n\n\
     data: {\"choices\":[{\"delta\":{\"content\":null}}]}\n\n\
     data: {\"choices\":[{\"delta\":{}}]}\n\n\
     data: {\"choices\":[]}\n\n";
    assert!(decode(body).is_empty());
}

#[test]
fn reasoning_fields_never_reach_the_stream() {
    let body = "data: {\"choices\":[{\"delta\":{\"reasoning_content\":\"let me think\"}}]}\n\n\
     data: {\"choices\":[{\"delta\":{\"reasoning\":\"still thinking\"}}]}\n\n\
     data: {\"choices\":[{\"delta\":{\"content\":\"done\"}}]}\n\n";
    let items = decode(body);
    assert_eq!(text(&items), "done");
    assert!(errors(items).is_empty());
}

#[test]
fn done_ends_the_stream_and_flushes_an_open_call() {
    let body = "data: {\"choices\":[{\"delta\":{\"tool_calls\":[{\"index\":0,\"id\":\"call_a\",\"function\":{\"name\":\"ping\",\"arguments\":\"{}\"}}]}}]}\n\n\
     data: [DONE]\n\n";
    let mut decoder = SseDecoder::default();
    let items = decoder.push(body.as_bytes());
    assert!(decoder.is_done());
    assert_eq!(calls(items).len(), 1);
}

#[test]
fn both_line_endings_read_the_same() {
    let body = "data: {\"choices\":[{\"delta\":{\"content\":\"a\"}}]}\n\n: note\n\
     data: {\"choices\":[{\"delta\":\ndata: {\"content\":\"b\"}}]}\n\ndata: oops\n\n";
    let crlf = body.replace('\n', "\r\n");
    let (lf, crlf) = (decode(body), decode(&crlf));
    assert_eq!(text(&lf), "ab");
    assert_eq!(lf, crlf);
}

#[test]
fn what_follows_the_announced_end_is_never_read() {
    let body = "data: [DONE]\n\ndata: {\"choices\":[{\"delta\":{\"content\":\"x\"}}]}\n\n";
    let mut decoder = SseDecoder::default();
    assert!(decoder.push(body.as_bytes()).is_empty());
    assert!(decoder.is_done());
    assert!(decoder.push(b"data: nonsense\n\ndata: half").is_empty());
    assert!(decoder.finish().is_empty());

    let mut state = SseState::new();
    state.chunk(body.as_bytes());
    assert!(matches!(state.next(true), Pull::End));
}

#[test]
fn one_tool_call_assembles_from_fragmented_arguments() {
    let body = "data: {\"choices\":[{\"delta\":{\"tool_calls\":[{\"index\":0,\"id\":\"call_a\",\"type\":\"function\",\"function\":{\"name\":\"weather\",\"arguments\":\"\"}}]}}]}\n\n\
     data: {\"choices\":[{\"delta\":{\"tool_calls\":[{\"index\":0,\"function\":{\"arguments\":\"{\\\"city\\\":\"}}]}}]}\n\n\
     data: {\"choices\":[{\"delta\":{\"tool_calls\":[{\"index\":0,\"function\":{\"arguments\":\"\\\"paris\\\"}\"}}]}}]}\n\n\
     data: {\"choices\":[{\"delta\":{},\"finish_reason\":\"tool_calls\"}]}\n\n\
     data: [DONE]\n\n";
    assert_eq!(
        calls(decode(body)),
        vec![(
            "call_a".into(),
            "weather".into(),
            r#"{"city":"paris"}"#.into()
        )]
    );
}

#[test]
fn a_call_arriving_whole_in_one_chunk_works() {
    let body = "data: {\"choices\":[{\"delta\":{\"tool_calls\":[{\"index\":0,\"id\":\"call_a\",\"function\":{\"name\":\"ping\",\"arguments\":\"{}\"}}]},\"finish_reason\":\"tool_calls\"}]}\n\n";
    assert_eq!(
        calls(decode(body)),
        vec![("call_a".into(), "ping".into(), "{}".into())]
    );
}

#[test]
fn two_calls_emit_in_index_order_and_the_first_does_not_wait() {
    let body = "data: {\"choices\":[{\"delta\":{\"tool_calls\":[{\"index\":0,\"id\":\"call_a\",\"function\":{\"name\":\"one\",\"arguments\":\"{\\\"a\\\":1}\"}}]}}]}\n\n\
     data: {\"choices\":[{\"delta\":{\"tool_calls\":[{\"index\":1,\"id\":\"call_b\",\"function\":{\"name\":\"two\",\"arguments\":\"{\\\"b\\\":2}\"}}]}}]}\n\n\
     data: {\"choices\":[{\"delta\":{},\"finish_reason\":\"tool_calls\"}]}\n\n";
    let names: Vec<String> = calls(decode(body))
        .into_iter()
        .map(|(_, name, _)| name)
        .collect();
    assert_eq!(names, vec!["one".to_string(), "two".to_string()]);
}

#[test]
fn an_interleaved_call_is_not_truncated_by_the_early_flush() {
    let body = "data: {\"choices\":[{\"delta\":{\"tool_calls\":[{\"index\":0,\"id\":\"call_a\",\"function\":{\"name\":\"one\",\"arguments\":\"{\\\"a\\\":\"}}]}}]}\n\n\
     data: {\"choices\":[{\"delta\":{\"tool_calls\":[{\"index\":1,\"id\":\"call_b\",\"function\":{\"name\":\"two\",\"arguments\":\"{\\\"b\\\":2}\"}}]}}]}\n\n\
     data: {\"choices\":[{\"delta\":{\"tool_calls\":[{\"index\":0,\"function\":{\"arguments\":\"1}\"}}]}}]}\n\n\
     data: {\"choices\":[{\"delta\":{},\"finish_reason\":\"tool_calls\"}]}\n\n";
    let decoded = calls(decode(body));
    assert_eq!(decoded.len(), 2, "{decoded:?}");
    assert!(
        decoded
            .iter()
            .any(|(_, name, arguments)| name == "one" && arguments == r#"{"a":1}"#),
        "{decoded:?}"
    );
}

#[test]
fn a_new_id_at_the_same_index_starts_a_new_call() {
    let body = "data: {\"choices\":[{\"delta\":{\"tool_calls\":[{\"id\":\"call_a\",\"function\":{\"name\":\"one\",\"arguments\":\"{}\"}}]}}]}\n\n\
     data: {\"choices\":[{\"delta\":{\"tool_calls\":[{\"id\":\"call_b\",\"function\":{\"name\":\"two\",\"arguments\":\"{}\"}}]}}]}\n\n\
     data: [DONE]\n\n";
    let ids: Vec<String> = calls(decode(body))
        .into_iter()
        .map(|(id, _, _)| id)
        .collect();
    assert_eq!(ids, vec!["call_a".to_string(), "call_b".to_string()]);
}

#[test]
fn a_missing_id_is_minted() {
    let body = "data: {\"choices\":[{\"delta\":{\"tool_calls\":[{\"index\":0,\"function\":{\"name\":\"ping\",\"arguments\":\"{}\"}}]}}]}\n\n\
     data: [DONE]\n\n";
    let decoded = calls(decode(body));
    assert_eq!(decoded.len(), 1);
    assert!(decoded[0].0.starts_with("call_"), "{decoded:?}");
    assert!(decoded[0].0.len() > "call_".len(), "{decoded:?}");
}

#[test]
fn a_missing_name_is_an_error() {
    let body = "data: {\"choices\":[{\"delta\":{\"tool_calls\":[{\"index\":0,\"id\":\"call_a\",\"function\":{\"arguments\":\"{}\"}}]}}]}\n\n\
     data: [DONE]\n\n";
    assert!(
        matches!(
            errors(decode(body)).as_slice(),
            [LmError::IncompleteToolCall]
        ),
        "a nameless call cannot be dispatched"
    );
}

#[test]
fn empty_arguments_become_an_empty_object() {
    let body = "data: {\"choices\":[{\"delta\":{\"tool_calls\":[{\"index\":0,\"id\":\"call_a\",\"function\":{\"name\":\"ping\",\"arguments\":\"\"}}]}}]}\n\n\
     data: [DONE]\n\n";
    assert_eq!(
        calls(decode(body)),
        vec![("call_a".into(), "ping".into(), "{}".into())]
    );
}

#[test]
fn unparsable_arguments_are_an_error() {
    let body = "data: {\"choices\":[{\"delta\":{\"tool_calls\":[{\"index\":0,\"id\":\"call_a\",\"function\":{\"name\":\"ping\",\"arguments\":\"{\\\"a\\\":\"}}]}}]}\n\n\
     data: [DONE]\n\n";
    assert!(
        matches!(
            errors(decode(body)).as_slice(),
            [LmError::InvalidToolArguments(_)]
        ),
        "half a call must not reach the pipeline"
    );
}

#[test]
fn non_object_arguments_are_rejected() {
    let body = "data: {\"choices\":[{\"delta\":{\"tool_calls\":[{\"index\":0,\"id\":\"call_a\",\"function\":{\"name\":\"ping\",\"arguments\":\"[1,2]\"}}]}}]}\n\n\
     data: [DONE]\n\n";
    assert!(
        matches!(
            errors(decode(body)).as_slice(),
            [LmError::ToolArgumentsNotObject]
        ),
        "arguments must be an object"
    );
}

#[test]
fn end_of_body_without_done_still_flushes_an_open_call() {
    let body = "data: {\"choices\":[{\"delta\":{\"tool_calls\":[{\"index\":0,\"id\":\"call_a\",\"function\":{\"name\":\"ping\",\"arguments\":\"{}\"}}]}}]}\n\n";
    assert_eq!(calls(decode(body)).len(), 1);
}

#[test]
fn an_error_chunk_becomes_a_provider_stream_error() {
    let body = "data: {\"error\":{\"message\":\"upstream is down\",\"code\":502}}\n\n";
    let reported = errors(decode(body));
    assert!(
        matches!(reported.as_slice(), [LmError::ProviderStream(message)] if message.as_str() == "upstream is down"),
        "{reported:?}"
    );
}

#[test]
fn a_body_that_ends_mid_event_is_a_provider_stream_error() {
    let body = "data: {\"choices\":[{\"delta\":{\"content\":\"hi\"";
    assert!(
        matches!(
            errors(decode(body)).as_slice(),
            [LmError::ProviderStream(_)]
        ),
        "a truncated event is a failed stream"
    );
}

#[test]
fn a_blocking_body_decodes_text_and_calls() {
    let body = r#"{
        "choices": [{
            "message": {
                "content": "one moment",
                "tool_calls": [
                    {"id": "call_a", "type": "function",
                     "function": {"name": "weather", "arguments": "{\"city\":\"paris\"}"}}
                ]
            }
        }]
    }"#;
    let items = decode_response(body.as_bytes());
    assert_eq!(text(&items), "one moment");
    assert_eq!(
        calls(items),
        vec![(
            "call_a".into(),
            "weather".into(),
            r#"{"city":"paris"}"#.into()
        )]
    );
}

#[test]
fn a_blocking_error_body_is_a_provider_stream_error() {
    let body = r#"{"error": "quota exceeded"}"#;
    let reported = errors(decode_response(body.as_bytes()));
    assert!(
        matches!(reported.as_slice(), [LmError::ProviderStream(message)] if message.as_str() == "quota exceeded"),
        "{reported:?}"
    );
}

const HELLO_STREAM: &str = "data: {\"choices\":[{\"delta\":{\"role\":\"assistant\",\"content\":\"Hel\"}}]}\n\n\
     data: {\"choices\":[{\"delta\":{\"content\":\"lo \"}}]}\n\n\
     data: {\"choices\":[{\"delta\":{\"content\":\"there\"}}]}\n\n\
     data: {\"choices\":[{\"delta\":{},\"finish_reason\":\"stop\"}]}\n\n\
     data: [DONE]\n\n";

const WEATHER_CALL_STREAM: &str = "data: {\"choices\":[{\"delta\":{\"tool_calls\":[{\"index\":0,\"id\":\"call_a\",\"type\":\"function\",\"function\":{\"name\":\"weather\",\"arguments\":\"\"}}]}}]}\n\n\
     data: {\"choices\":[{\"delta\":{\"tool_calls\":[{\"index\":0,\"function\":{\"arguments\":\"{\\\"city\\\":\"}}]}}]}\n\n\
     data: {\"choices\":[{\"delta\":{\"tool_calls\":[{\"index\":0,\"function\":{\"arguments\":\"\\\"paris\\\"}\"}}]}}]}\n\n\
     data: {\"choices\":[{\"delta\":{},\"finish_reason\":\"tool_calls\"}]}\n\n\
     data: [DONE]\n\n";

/// Pulls a whole turn out of a body that arrives in slices of `size` bytes.
fn drain(body: &str, size: usize) -> Vec<Result<ModelDelta, LmError>> {
    let mut state = SseState::new();
    let mut slices = body.as_bytes().chunks(size);
    let mut items = Vec::new();
    loop {
        match state.next(true) {
            Pull::Item(item) => items.push(item),
            Pull::Read => match slices.next() {
                Some(slice) => state.chunk(slice),
                None => state.end_of_body(),
            },
            Pull::End => return items,
        }
    }
}

#[test]
fn a_text_turn_streams_its_deltas_in_order() {
    let items = drain(HELLO_STREAM, 7);
    assert_eq!(text(&items), "Hello there");
    assert!(items.iter().all(Result::is_ok), "{items:?}");
}

#[test]
fn a_tool_turn_yields_one_complete_call_and_no_stray_text() {
    let items = drain(WEATHER_CALL_STREAM, 11);
    assert_eq!(text(&items), "");
    assert_eq!(
        calls(items),
        vec![(
            "call_a".into(),
            "weather".into(),
            r#"{"city":"paris"}"#.into()
        )]
    );
}

#[test]
fn slicing_a_body_does_not_change_its_items() {
    let whole = drain(WEATHER_CALL_STREAM, WEATHER_CALL_STREAM.len());
    for size in 1..40 {
        assert_eq!(drain(WEATHER_CALL_STREAM, size), whole);
    }
}

#[test]
fn a_body_that_ends_mid_event_fails_the_stream() {
    let items = drain("data: {\"choices\":[{\"delta\":{\"content\"", 1000);
    assert!(
        matches!(items.as_slice(), [Err(LmError::ProviderStream(_))]),
        "{items:?}"
    );
}

#[test]
fn cancel_mid_stream_ends_the_turn_without_an_error() {
    let mut state = SseState::new();
    assert!(matches!(state.next(true), Pull::Read));
    state.chunk(HELLO_STREAM.as_bytes());
    assert!(matches!(state.next(true), Pull::Item(Ok(_))));
    assert!(matches!(state.next(false), Pull::End));
}

#[test]
fn cancel_before_the_response_arrives_yields_nothing() {
    let mut state = SseState::new();
    assert!(matches!(state.next(false), Pull::End));
    let mut decoded = DecodedState::new(vec![Ok(ModelDelta::Text("late".into()))]);
    assert_eq!(decoded.next(false), None);
}

#[test]
fn a_lost_body_is_the_last_item() {
    let mut state = SseState::new();
    state.body_failed("connection reset");
    match state.next(true) {
        Pull::Item(Err(LmError::ProviderStream(message))) => {
            assert!(message.contains("connection reset"), "{message}");
        }
        other => panic!("expected a failure, got {other:?}"),
    }
    assert!(matches!(state.next(true), Pull::End));
}

#[test]
fn decoded_items_come_out_in_order() {
    let mut decoded = DecodedState::new(vec![
        Ok(ModelDelta::Text("a".into())),
        Err(LmError::IncompleteToolCall),
    ]);
    assert_eq!(decoded.next(true), Some(Ok(ModelDelta::Text("a".into()))));
    assert_eq!(decoded.next(true), Some(Err(LmError::IncompleteToolCall)));
    assert_eq!(decoded.next(true), None);
}

#[test]
fn an_epoch_is_current_until_the_next_begins() {
    let first = Epoch::after(0);
    assert!(first.is_current(first.value));
    let second = Epoch::after(first.value);
    assert!(!first.is_current(second.value));
    assert!(second.is_current(second.value));
}

#[test]
fn session_state_is_empty_and_refuses_a_foreign_blob() {
    assert!(save_state().is_empty());
    assert!(load_state(&[]).is_ok());
    assert!(matches!(
        load_state(b"something"),
        Err(LmError::Engine(_))
    ));
}

#[test]
fn a_call_is_complete_once_its_arguments_are_an_object() {
    let fragment = |id: Option<&str>, name: Option<&str>, arguments: Option<&str>| {
        ToolCallFragment {
            index: None,
            id: id.map(str::to_owned),
            function: Some(FunctionFragment {
                name: name.map(str::to_owned),
                arguments: arguments.map(str::to_owned),
            }),
        }
    };
    let mut call = OpenCall::new(3);
    assert!(!call.is_complete());
    call.merge(&fragment(Some("c"), Some("weather"), Some("{\"a\":")));
    assert!(!call.is_complete());
    call.merge(&fragment(None, None, Some("1}")));
    assert!(call.is_complete());
    assert!(supersedes(&call, &Some("d".into())));
    assert!(!supersedes(&call, &Some("c".into())));
    assert!(!supersedes(&call, &None));

    let list = OpenCall::complete(&fragment(Some("c"), Some("weather"), Some("[1]")));
    assert!(!list.is_complete());
    assert_eq!(
        flush_as(list, "c".into()),
        Err(LmError::ToolArgumentsNotObject)
    );
    assert_eq!(parse_arguments("").unwrap().to_text(), "{}");
    assert!(matches!(
        parse_arguments("{"),
        Err(LmError::InvalidToolArguments(_))
    ));
}

#[test]
fn one_carriage_return_is_stripped() {
    assert_eq!(strip_cr(&b"a\r".to_vec()), b"a");
    assert_eq!(strip_cr(&b"a\r\r".to_vec()), b"a\r");
    assert_eq!(strip_cr(&b"a".to_vec()), b"a");
}

#[test]
fn undecodable_bodies_are_provider_errors() {
    let reported = errors(decode_response(b"not json"));
    assert!(matches!(reported.as_slice(), [LmError::ProviderStream(_)]));
    let shapeless = Json::parse(r#"{"choices": 3}"#).unwrap();
    let reported = errors(decode_document(&shapeless));
    assert!(matches!(reported.as_slice(), [LmError::ProviderStream(_)]));
    let empty = Json::parse(r#"{"choices": []}"#).unwrap();
    assert!(decode_document(&empty).is_empty());
    let mut decoder = SseDecoder::default();
    let reported = errors(decoder.push(b"data: nonsense\n\n"));
    assert!(matches!(reported.as_slice(), [LmError::ProviderStream(_)]));
}

#[test]
fn a_chunk_is_read_field_by_field() {
    let read = |text: &str| ChatChunk::from_json(&Json::parse(text).unwrap());
    let chunk = read(r#"{"choices": [{"delta": {"content": "x"}, "finish_reason": "stop"}]}"#)
        .expect("a chunk");
    let mut decoder = SseDecoder::default();
    let mut out = Vec::new();
    decoder.read_chunk(&chunk, &mut out);
    assert_eq!(out, vec![Ok(ModelDelta::Text("x".into()))]);
    assert!(read("3").is_none());
    assert!(read(r#"{"choices": [{"delta": {"content": 4}}]}"#).is_none());
}

#[test]
fn bytes_that_are_no_text_are_replaced() {
    let mut decoder = SseDecoder::default();
    let mut body = b"data: {\"choices\":[{\"delta\":{\"content\":\"a".to_vec();
    body.push(0xff);
    body.extend_from_slice(b"b\"}}]}\n\n");
    let items = decoder.push(&body);
    assert_eq!(text(&items), "a\u{fffd}b");
}
