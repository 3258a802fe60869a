//! The browser language model.
use pipecrab_adapters::json::Json;
use pipecrab_adapters::lm::{
    Conversation, GenParams, LmError, Message, ModelDelta, ToolCall, ToolDefinition,
};
use pipecrab_adapters::web_lm::{
    messages, pulled, request, GenerateOptions, Pull, Pulled, TransformersLmConfig,
};

fn params() -> GenParams {
    GenParams {
        max_tokens: None,
        temperature: None,
        grammar: None,
    }
}

#[test]
fn a_hub_id_is_the_whole_configuration() {
    let mut config = TransformersLmConfig::new("HuggingFaceTB/SmolLM2-360M-Instruct");
    assert_eq!(config.model, "HuggingFaceTB/SmolLM2-360M-Instruct");
    assert_eq!(config.max_new_tokens, 256);
    assert!(config.pipeline_options().is_empty());
    config.device = Some("webgpu".into());
    assert_eq!(
        config.pipeline_options(),
        [("device".to_string(), "webgpu".to_string())]
    );
    config.dtype = Some("q8".into());
    assert_eq!(config.pipeline_options().len(), 2);
    assert_eq!(config.pipeline_options()[0].0, "dtype");
}

#[test]
fn tools_and_grammars_are_refused() {
    let tool = ToolDefinition {
        name: "t".into(),
        description: "d".into(),
        parameters: Json::parse("{}").unwrap(),
    };
    assert_eq!(
        request(256, &params(), None, &[tool]),
        Err(LmError::Engine(
            "TransformersLm does not support tool calling".into()
        ))
    );
    let grammar = GenParams {
        grammar: Some("root".into()),
        ..params()
    };
    assert_eq!(
        request(256, &grammar, None, &[]),
        Err(LmError::Engine(
            "TransformersLm does not support grammar-constrained generation".into()
        ))
    );
}

#[test]
fn a_reply_samples_at_a_positive_temperature() {
    assert_eq!(
        request(256, &params(), None, &[]),
        Ok(GenerateOptions {
            max_new_tokens: 256,
            sampling: None
        })
    );
    let limited = GenParams {
        max_tokens: Some(7),
        ..params()
    };
    let half = 0.5f32.to_bits();
    assert_eq!(
        request(256, &limited, Some(half), &[]),
        Ok(GenerateOptions {
            max_new_tokens: 7,
            sampling: Some((true, half))
        })
    );
    for zero in [0.0f32, -0.0f32] {
        assert_eq!(
            request(256, &params(), Some(zero.to_bits()), &[]).unwrap().sampling,
            Some((false, zero.to_bits()))
        );
    }
    for bad in [-1.0f32, f32::NAN, f32::INFINITY, f32::NEG_INFINITY] {
        assert_eq!(
            request(256, &params(), Some(bad.to_bits()), &[]),
            Err(LmError::Engine(
                "temperature must be finite and non-negative".into()
            ))
        );
    }
}

#[test]
fn a_conversation_renders_by_role() {
    let conversation = Conversation {
        messages: vec![
            Message::system("s"),
            Message::user("u"),
            Message::assistant_with_tool_calls(
                "a",
                vec![ToolCall {
                    id: "1".into(),
                    name: "n".into(),
                    arguments_json: "{}".into(),
                }],
            ),
            Message::ToolResult {
                tool_call_id: "1".into(),
                name: "n".into(),
                content: "r".into(),
            },
            Message::Event {
                source: "hermes".into(),
                kind: "completion".into(),
                content: "done".into(),
            },
        ],
    };
    let pairs: Vec<(String, String)> = messages(&conversation);
    let expected = [
        ("system", "s"),
        ("user", "u"),
        ("assistant", "a"),
        ("tool", "r"),
        ("user", "[hermes/completion] done"),
    ];
    assert_eq!(pairs.len(), expected.len());
    for (pair, wanted) in pairs.iter().zip(expected) {
        assert_eq!((pair.0.as_str(), pair.1.as_str()), wanted);
    }
}

#[test]
fn pieces_become_text_and_anything_else_an_error() {
    assert!(matches!(pulled(Pulled::End), Pull::Over));
    assert!(matches!(pulled(Pulled::Text(String::new())), Pull::Again));
    match pulled(Pulled::Text("hi".into())) {
        Pull::Item(item) => assert_eq!(item, Ok(ModelDelta::Text("hi".into()))),
        other => panic!("expected text, got {other:?}"),
    }
    match pulled(Pulled::Other("7".into())) {
        Pull::Item(item) => assert_eq!(
            item,
            Err(LmError::ProviderStream(
                "streamer yielded 7, not a string".into()
            ))
        ),
        other => panic!("expected an error, got {other:?}"),
    }
    match pulled(Pulled::Failed("lost".into())) {
        Pull::Item(item) => assert_eq!(item, Err(LmError::ProviderStream("lost".into()))),
        other => panic!("expected an error, got {other:?}"),
    }
}
