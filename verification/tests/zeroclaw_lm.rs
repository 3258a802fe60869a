//! The ZeroClaw daemon: its protocol, turns, connection and delegated tasks.
use pipecrab_adapters::dispatch::DispatchEvent;
use pipecrab_adapters::json::Json;
use pipecrab_adapters::lm::{Conversation, LmError, Message, ModelDelta};
use pipecrab_adapters::records::member_of;
use pipecrab_adapters::zeroclaw_lm::client::{
    await_response, classify, read_ended, receive, Incoming, RequestIds,
};
use pipecrab_adapters::zeroclaw_lm::config::{
    dial_failed, PollConfig, SocketPlace, ZeroclawLmBuildError, ZeroclawLmConfig,
};
use pipecrab_adapters::zeroclaw_lm::protocol::{
    initialize_params, session_id_params, session_new_params, session_prompt_params,
    InitializeResult, SessionNewResult, SessionUpdate, TurnOutcome,
};
use pipecrab_adapters::zeroclaw_lm::render::{render_last, Rendered};
use pipecrab_adapters::zeroclaw_lm::source::{result_stem, Instant, Poller, Wait};
use pipecrab_adapters::zeroclaw_lm::turn::{Notice, Turn, TurnCommand, TurnEnd, TurnEvent};
use pipecrab_adapters::zeroclaw_lm::worker::{
    after_turn, desired_session, may_start, prompt_failed, refuse_tools, request, tick_connected,
    unavailable, AfterTurn, CommandKind, Handshake, HandshakeStep, Identity, IdleAction, IdleEvent,
    Link, RequestOutcome, RECONNECT_MAX_MS,
};

fn json(text: &str) -> Json {
    Json::parse(text).expect("a document")
}

fn same(document: &Json, expected: &str) {
    assert_eq!(document.to_text(), json(expected).to_text());
}

#[test]
fn classifies_responses_updates_and_noise() {
    let ok = classify(r#"{"jsonrpc":"2.0","id":3,"result":{"x":1}}"#).unwrap();
    assert!(matches!(
        ok,
        Incoming::Response {
            id: 3,
            result: Ok(_)
        }
    ));

    let err =
        classify(r#"{"jsonrpc":"2.0","id":4,"error":{"code":-32000,"message":"gone"}}"#).unwrap();
    let Incoming::Response {
        id: 4,
        result: Err(error),
    } = err
    else {
        panic!("expected error response, got {err:?}");
    };
    assert_eq!(error.code, -32000);

    let update = classify(
        r#"{"jsonrpc":"2.0","method":"session/update","params":{"type":"plan","session_id":"s"}}"#,
    )
    .unwrap();
    assert!(matches!(
        update,
        Incoming::Update(SessionUpdate::Plan { .. })
    ));

    assert!(classify(r#"{"jsonrpc":"2.0","method":"logs/event","params":{}}"#).is_none());
    assert!(classify("not json at all").is_none());
}

#[test]
fn classifies_message_chunk() {
    let update = SessionUpdate::from_params(&json(
        r#"{"type": "agent_message_chunk", "session_id": "s1", "text": "hi"}"#,
    ));
    let SessionUpdate::MessageChunk { session_id, text } = update else {
        panic!("expected MessageChunk, got {update:?}");
    };
    assert_eq!(session_id, "s1");
    assert_eq!(text, "hi");
}

#[test]
fn classifies_turn_complete_outcomes() {
    for (wire, expected) in [
        ("completed", TurnOutcome::Completed),
        ("cancelled", TurnOutcome::Cancelled),
        ("failed", TurnOutcome::Failed),
        ("some_future_outcome", TurnOutcome::Failed),
    ] {
        let update = SessionUpdate::from_params(&json(&format!(
            r#"{{"type": "turn_complete", "session_id": "s1", "outcome": "{wire}", "content": "c"}}"#
        )));
        let SessionUpdate::TurnComplete { outcome, .. } = update else {
            panic!("expected TurnComplete, got {update:?}");
        };
        assert_eq!(outcome, expected, "wire outcome {wire:?}");
    }
}

#[test]
fn unknown_type_and_missing_session_degrade_gracefully() {
    let unknown =
        SessionUpdate::from_params(&json(r#"{"type": "brand_new_event", "session_id": "s1"}"#));
    assert!(matches!(
        unknown,
        SessionUpdate::Unknown { session_id: Some(ref s) } if s == "s1"
    ));

    let sessionless = SessionUpdate::from_params(&json(r#"{ "type": "plan" }"#));
    assert!(matches!(
        sessionless,
        SessionUpdate::Unknown { session_id: None }
    ));
}

#[test]
fn params_serialize_snake_case_and_skip_absent_options() {
    same(
        &session_new_params("voice", &Some("pc-voice-1".into()), None),
        r#"{"agent_alias": "voice", "session_id": "pc-voice-1", "chat_mode": "chat"}"#,
    );
    same(
        &initialize_params(1, &None, &None),
        r#"{ "protocol_version": 1 }"#,
    );
    same(
        &session_prompt_params("s", "hello"),
        r#"{"session_id": "s", "prompt": "hello"}"#,
    );
    same(&session_id_params("s"), r#"{"session_id": "s"}"#);
}

fn convo(messages: Vec<Message>) -> Conversation {
    Conversation { messages }
}

#[test]
fn user_text_renders_verbatim() {
    let c = convo(vec![
        Message::system("sys"),
        Message::user("turn the lights on"),
    ]);
    assert_eq!(
        render_last(&c).unwrap(),
        Rendered::Prompt("turn the lights on".into())
    );
}

#[test]
fn dispatch_event_renders_bracketed() {
    let c = convo(vec![Message::Event {
        source: "dispatch".into(),
        kind: "completion".into(),
        content: "task pc-1 (agent research): done".into(),
    }]);
    assert_eq!(
        render_last(&c).unwrap(),
        Rendered::Prompt("[dispatch/completion] task pc-1 (agent research): done".into())
    );
}

#[test]
fn tool_result_renders_bracketed() {
    let c = convo(vec![Message::ToolResult {
        tool_call_id: "call-1".into(),
        name: "dispatch_task".into(),
        content: "{\"task_id\":\"t1\"}".into(),
    }]);
    assert_eq!(
        render_last(&c).unwrap(),
        Rendered::Prompt("[dispatch_task] {\"task_id\":\"t1\"}".into())
    );
}

#[test]
fn whitespace_only_is_empty_not_an_error() {
    let c = convo(vec![Message::user("   \n\t")]);
    assert_eq!(render_last(&c).unwrap(), Rendered::Empty);
}

#[test]
fn assistant_tail_is_a_protocol_violation() {
    let c = convo(vec![Message::assistant("hello")]);
    assert!(matches!(render_last(&c), Err(LmError::Engine(_))));
}

#[test]
fn empty_conversation_is_a_protocol_violation() {
    assert!(matches!(
        render_last(&convo(vec![])),
        Err(LmError::Engine(_))
    ));
}

/// A turn of the session `sess-test`, and what it said so far.
struct Run {
    turn: Turn,
    said: Vec<Result<ModelDelta, LmError>>,
    end: Option<TurnEnd>,
    commands: Vec<TurnCommand>,
    notices: Vec<Notice>,
}

const PROMPT_ID: u64 = 3;

fn run(surface_tool_calls: bool) -> Run {
    Run {
        turn: Turn::new("sess-test", surface_tool_calls, 0, PROMPT_ID),
        said: Vec::new(),
        end: None,
        commands: Vec::new(),
        notices: Vec::new(),
    }
}

impl Run {
    fn event(&mut self, event: TurnEvent) {
        assert!(self.end.is_none(), "the turn is over");
        let step = self.turn.step(event);
        self.said.extend(step.deltas);
        self.commands.extend(step.command);
        self.notices.extend(step.notice);
        self.end = step.end;
    }

    fn update(&mut self, params: &str) {
        let line = format!(r#"{{"jsonrpc":"2.0","method":"session/update","params":{params}}}"#);
        self.event(TurnEvent::Message(receive(&line).expect("an update")));
    }

    fn chunk(&mut self, session: &str, text: &str) {
        self.update(&format!(
            r#"{{"type":"agent_message_chunk","session_id":"{session}","text":"{text}"}}"#
        ));
    }

    fn turn_complete(&mut self, outcome: &str, content: &str) {
        self.update(&format!(
            r#"{{"type":"turn_complete","session_id":"sess-test","outcome":"{outcome}","content":"{content}"}}"#
        ));
    }

    fn respond(&mut self, answer: &str) {
        let line = format!(r#"{{"jsonrpc":"2.0","id":{PROMPT_ID},{answer}}}"#);
        self.event(TurnEvent::Message(receive(&line).expect("a response")));
    }
}

fn text(text: &str) -> Result<ModelDelta, LmError> {
    Ok(ModelDelta::Text(text.into()))
}

#[test]
fn streams_chunks_and_ignores_non_speech_updates() {
    let mut run = run(true);
    run.update(r#"{"type":"tool_result","session_id":"sess-test","tool_call_id":"c1"}"#);
    run.chunk("sess-test", "Hel");
    run.update(r#"{"type":"agent_thought_chunk","session_id":"sess-test","text":"hmm"}"#);
    run.update(r#"{"type":"context_usage","session_id":"sess-test","input_tokens":10}"#);
    run.update(r#"{"type":"plan","session_id":"sess-test","entries":[]}"#);
    run.chunk("sess-test", "lo");
    run.turn_complete("completed", "Hello");
    assert_eq!(run.said, vec![text("Hel"), text("lo")]);
    assert!(matches!(run.end, Some(TurnEnd::Done)));
}

#[test]
fn foreign_session_updates_are_ignored() {
    let mut run = run(true);
    run.chunk("someone-else", "intruder");
    run.update(
        r#"{"type":"turn_complete","session_id":"someone-else","outcome":"completed","content":"x"}"#,
    );
    run.chunk("sess-test", "mine");
    run.turn_complete("completed", "mine");
    assert_eq!(run.said, vec![text("mine")]);
}

#[test]
fn tool_calls_surface_with_object_arguments_only() {
    let mut run = run(true);
    run.update(
        r#"{"type":"tool_call","session_id":"sess-test","tool_call_id":"call-1",
            "name":"http_request","raw_input":{"url":"https://example.com"}}"#,
    );
    run.update(
        r#"{"type":"tool_call","session_id":"sess-test","tool_call_id":"call-2",
            "name":"shell","raw_input":"ls"}"#,
    );
    run.turn_complete("completed", "");
    assert_eq!(run.said.len(), 1, "got {:?}", run.said);
    let Ok(ModelDelta::ToolCall(call)) = &run.said[0] else {
        panic!("expected a tool-call delta, got {:?}", run.said);
    };
    assert_eq!(call.id, "call-1");
    assert_eq!(call.name, "http_request");
}

#[test]
fn surfacing_can_be_disabled() {
    let mut run = run(false);
    run.update(
        r#"{"type":"tool_call","session_id":"sess-test","tool_call_id":"call-1",
            "name":"shell","raw_input":{}}"#,
    );
    run.turn_complete("completed", "done");
    assert_eq!(run.said, vec![text("done")]);
}

#[test]
fn a_tool_boundary_injects_a_speakable_gap() {
    let mut run = run(true);
    run.chunk("sess-test", "I'll get that.");
    run.update(
        r#"{"type":"tool_call","session_id":"sess-test","tool_call_id":"call-1",
            "name":"delegate","raw_input":{"agent":"research","background":true}}"#,
    );
    run.update(r#"{"type":"tool_result","session_id":"sess-test","tool_call_id":"call-1"}"#);
    run.chunk("sess-test", "I've started it.");
    run.turn_complete("completed", "I'll get that. I've started it.");
    assert_eq!(run.said.len(), 4, "got {:?}", run.said);
    assert_eq!(run.said[0], text("I'll get that."));
    assert_eq!(run.said[1], text(" "));
    assert!(
        matches!(&run.said[2], Ok(ModelDelta::ToolCall(call)) if call.name == "delegate"),
        "got {:?}",
        run.said
    );
    assert_eq!(run.said[3], text("I've started it."));
}

#[test]
fn no_gap_when_the_text_already_ends_in_whitespace() {
    let mut run = run(true);
    run.chunk("sess-test", "One moment. ");
    run.update(
        r#"{"type":"tool_call","session_id":"sess-test","tool_call_id":"call-1",
            "name":"delegate","raw_input":{}}"#,
    );
    run.chunk("sess-test", "Started.");
    run.turn_complete("completed", "");
    assert_eq!(
        run.said,
        vec![
            text("One moment. "),
            ModelDelta::tool_call("call-1".into(), "delegate".into(), &json("{}")),
            text("Started."),
        ]
    );
}

#[test]
fn non_streamed_turn_emits_terminal_content_once() {
    let mut run = run(true);
    run.turn_complete("completed", "whole reply at once");
    assert_eq!(run.said, vec![text("whole reply at once")]);
    assert!(matches!(run.notices.as_slice(), [Notice::NotStreamed]));
}

#[test]
fn failed_turn_surfaces_a_recoverable_error() {
    let mut run = run(true);
    run.turn_complete("failed", "provider exploded");
    assert_eq!(run.said.len(), 1);
    assert!(
        matches!(&run.said[0], Err(LmError::Engine(m)) if m.contains("provider exploded")),
        "got {:?}",
        run.said
    );
}

#[test]
fn rejected_prompt_is_the_turn_terminal() {
    let mut run = run(true);
    run.respond(r#""error":{"code":-32602,"message":"empty user message"}"#);
    assert_eq!(run.said.len(), 1);
    assert!(
        matches!(&run.said[0], Err(LmError::Engine(m)) if m.contains("empty user message")),
        "got {:?}",
        run.said
    );
    assert!(matches!(run.end, Some(TurnEnd::Done)));
}

#[test]
fn a_response_without_an_end_is_waited_for_and_then_said() {
    let mut run = run(true);
    assert!(!run.turn.grace_runs());
    run.respond(r#""result":{"content":"late reply"}"#);
    assert!(run.turn.grace_runs());
    assert!(run.end.is_none());
    run.event(TurnEvent::GraceElapsed);
    assert_eq!(run.said, vec![text("late reply")]);
    assert!(matches!(run.end, Some(TurnEnd::Done)));
}

#[test]
fn cancel_sends_session_cancel_and_suppresses_stale_deltas() {
    let mut run = run(true);
    run.chunk("sess-test", "Once upon");
    run.event(TurnEvent::CancelChanged { latest: 1 });
    assert!(matches!(run.commands.as_slice(), [TurnCommand::SendCancel]));
    run.chunk("sess-test", " a time");
    run.event(TurnEvent::CancelChanged { latest: 2 });
    assert_eq!(run.commands.len(), 1, "a second cancel sends nothing");
    run.turn_complete("cancelled", "Once upon a time");
    assert_eq!(run.said, vec![text("Once upon")]);
    assert!(matches!(run.end, Some(TurnEnd::Done)));
}

#[test]
fn generate_during_cancelled_turn_waits_for_the_terminal() {
    let mut run = run(true);
    run.event(TurnEvent::CancelChanged { latest: 1 });
    run.event(TurnEvent::Generate);
    assert!(matches!(
        run.commands.as_slice(),
        [TurnCommand::SendCancel, TurnCommand::Queue]
    ));
    run.event(TurnEvent::Generate);
    assert!(matches!(run.commands[2], TurnCommand::Refuse(_)));
    run.turn_complete("cancelled", "");
    assert!(run.said.is_empty());
    assert!(matches!(after_turn(TurnEnd::Done, true), AfterTurn::RunQueued));
    assert!(matches!(after_turn(TurnEnd::Done, false), AfterTurn::Wait));
    assert!(may_start(4, 4));
    assert!(!may_start(4, 5));
}

#[test]
fn a_lost_connection_fails_the_turn_and_reconnects() {
    let mut run = run(true);
    run.event(TurnEvent::ReaderEnded);
    assert_eq!(run.said.len(), 1);
    assert!(matches!(run.said[0], Err(LmError::Engine(_))));
    assert!(matches!(run.end, Some(TurnEnd::ConnDown)));
    match after_turn(TurnEnd::ConnDown, true) {
        AfterTurn::Reconnect { queued: Some(error) } => assert_eq!(error, unavailable()),
        other => panic!("expected a reconnect, got {other:?}"),
    }
    assert!(matches!(after_turn(TurnEnd::Shutdown, true), AfterTurn::Exit));
}

#[test]
fn notices_tell_of_approvals_and_trimming() {
    let mut run = run(true);
    run.update(r#"{"type":"approval_request","session_id":"sess-test","tool_name":"shell"}"#);
    run.update(
        r#"{"type":"history_trimmed","session_id":"sess-test","dropped_messages":4,"reason":"full"}"#,
    );
    match run.notices.as_slice() {
        [Notice::Approval { tool_name }, Notice::Trimmed {
            dropped_messages,
            reason,
        }] => {
            assert_eq!(tool_name, "shell");
            assert_eq!(*dropped_messages, 4);
            assert_eq!(reason, "full");
        }
        other => panic!("expected two notices, got {other:?}"),
    }
    assert!(run.notices[0].message().starts_with("approval_request for tool \"shell\" cannot"));
    assert_eq!(
        run.notices[1].message(),
        "daemon trimmed 4 message(s) from session history (full)"
    );
    assert!(Notice::NotStreamed.message().contains("not streamed"));
    assert!(Notice::ResponseOnly.message().contains("no turn_complete"));
}

#[test]
fn tools_are_rejected_and_gen_params_ignored() {
    assert!(matches!(
        refuse_tools(1),
        Some(LmError::Engine(m)) if m.contains("agent profile")
    ));
    assert!(refuse_tools(0).is_none());
}

fn answered(text: &str) -> RequestOutcome {
    RequestOutcome::Answered(Ok(json(text)))
}

#[test]
fn connect_bootstraps_and_surfaces_session_metadata() {
    let config = ZeroclawLmConfig::new("voice").with_session_id("sess-test");
    let mut identity = Identity {
        tui_id: None,
        tui_sig: None,
    };
    let session = desired_session(&config);
    assert_eq!(session, "sess-test");
    let (mut handshake, first) = Handshake::start(&identity);
    match first {
        HandshakeStep::Request { method, params } => {
            assert_eq!(method, "initialize");
            same(&params, r#"{"protocol_version": 1}"#);
        }
        other => panic!("expected a request, got {other:?}"),
    }
    let second = handshake.step(
        &mut identity,
        &config,
        &session,
        answered(r#"{"protocol_version": 1, "tui_id": "tui-1", "tui_sig": "sig-1"}"#),
    );
    match second {
        HandshakeStep::Request { method, params } => {
            assert_eq!(method, "session/new");
            same(
                &params,
                r#"{"agent_alias": "voice", "session_id": "sess-test", "chat_mode": "chat"}"#,
            );
        }
        other => panic!("expected a request, got {other:?}"),
    }
    let ready = handshake.step(
        &mut identity,
        &config,
        &session,
        answered(r#"{"session_id": "sess-test", "message_count": 2, "workspace_dir": "/w"}"#),
    );
    match ready {
        HandshakeStep::Ready(bootstrap) => {
            assert_eq!(bootstrap.session_id, "sess-test");
            assert_eq!(bootstrap.workspace_dir, "/w");
            assert_eq!(bootstrap.message_count, 2);
        }
        other => panic!("expected a session, got {other:?}"),
    }

    // A reconnect echoes the identity.
    let (_, again) = Handshake::start(&identity);
    match again {
        HandshakeStep::Request { params, .. } => same(
            &params,
            r#"{"protocol_version": 1, "tui_id": "tui-1", "tui_sig": "sig-1"}"#,
        ),
        other => panic!("expected a request, got {other:?}"),
    }
}

#[test]
fn a_handshake_result_of_another_shape_is_told() {
    for (result, told) in [
        ("null", "invalid type: null, expected struct InitializeResult"),
        ("1.5", "invalid type: floating point `1.5`, expected struct InitializeResult"),
        ("-3", "invalid type: integer `-3`, expected struct InitializeResult"),
        (r#""x""#, r#"invalid type: string "x", expected struct InitializeResult"#),
        (r#"{"tui_sig": [], "tui_id": 7}"#, "invalid type: integer `7`, expected a string"),
        (r#"{"tui_sig": [], "tui_id": null}"#, "invalid type: sequence, expected a string"),
        (r#"["a", null, 3]"#, "invalid length 3, expected fewer elements in array"),
    ] {
        match InitializeResult::from_json(&json(result)) {
            Err(message) => assert_eq!(message, told),
            other => panic!("expected a fault, got {other:?}"),
        }
    }
    assert_eq!(
        InitializeResult::from_json(&json("[\"a\"]")).unwrap().tui_id.as_deref(),
        Some("a")
    );
    for (result, told) in [
        ("true", "invalid type: boolean `true`, expected struct SessionNewResult"),
        ("{}", "missing field `session_id`"),
        (r#"{"session_id": "s"}"#, "missing field `workspace_dir`"),
        (
            r#"{"session_id": 1, "message_count": -1, "workspace_dir": "w"}"#,
            "invalid value: integer `-1`, expected usize",
        ),
        (
            r#"{"session_id": {}, "workspace_dir": null}"#,
            "invalid type: map, expected a string",
        ),
        (
            r#"{"session_id": "s", "message_count": null, "workspace_dir": "w"}"#,
            "invalid type: null, expected usize",
        ),
        ("[]", "invalid length 0, expected struct SessionNewResult with 3 elements"),
        (r#"["s", 1]"#, "invalid length 2, expected struct SessionNewResult with 3 elements"),
        (r#"["s", 1, "w", 2]"#, "invalid length 4, expected fewer elements in array"),
    ] {
        match SessionNewResult::from_json(&json(result)) {
            Err(message) => assert_eq!(message, told),
            other => panic!("expected a fault, got {other:?}"),
        }
    }
    let config = ZeroclawLmConfig::new("voice");
    let mut identity = Identity {
        tui_id: None,
        tui_sig: None,
    };
    let (mut handshake, _) = Handshake::start(&identity);
    match handshake.step(&mut identity, &config, "s", answered("3")) {
        HandshakeStep::Failed(error) => assert!(error.message().ends_with(
            "bad initialize result: invalid type: integer `3`, expected struct InitializeResult"
        )),
        other => panic!("expected a failure, got {other:?}"),
    }
}

#[test]
fn connect_fails_on_unknown_agent() {
    let config = ZeroclawLmConfig::new("nope").with_exclude_memory(true);
    let mut identity = Identity {
        tui_id: None,
        tui_sig: None,
    };
    let (mut handshake, _) = Handshake::start(&identity);
    let step = handshake.step(&mut identity, &config, "s", answered("{}"));
    match step {
        HandshakeStep::Request { params, .. } => {
            assert_eq!(member_of(&params, "exclude_memory").unwrap().to_text(), "true");
        }
        other => panic!("expected a request, got {other:?}"),
    }
    let refused = RequestOutcome::Answered(Err("unknown agent alias: nope".into()));
    match handshake.step(&mut identity, &config, "s", refused) {
        HandshakeStep::Failed(error) => {
            let message = error.message();
            assert!(message.contains("unknown agent alias"), "{message}");
        }
        other => panic!("expected a failure, got {other:?}"),
    }
}

#[test]
fn handshake_requests_fail_with_their_method() {
    assert_eq!(
        request("initialize", RequestOutcome::TimedOut).unwrap_err(),
        "initialize timed out after 10s"
    );
    assert_eq!(
        request("initialize", RequestOutcome::SendFailed("pipe".into())).unwrap_err(),
        "sending initialize failed: pipe"
    );
    assert_eq!(
        request("x", RequestOutcome::Answered(Err("no".into()))).unwrap_err(),
        "x failed: no"
    );
    assert_eq!(
        prompt_failed("pipe"),
        LmError::Engine("sending session/prompt failed: pipe".into())
    );
    assert_eq!(
        dial_failed("/run/zc.sock", "refused").message(),
        "dialing the zeroclaw daemon socket failed: /run/zc.sock: refused"
    );
    for error in [
        ZeroclawLmBuildError::Handshake("a".into()),
        ZeroclawLmBuildError::Session("a".into()),
    ] {
        assert!(error.message().contains('a'));
    }
}

#[test]
fn requests_are_numbered_and_answered_by_number() {
    let mut ids = RequestIds::new();
    let (first, line) = ids.request("initialize", &json(r#"{"a": 1}"#));
    assert_eq!(first, 1);
    assert!(line.ends_with('\n'));
    same(
        &json(&line),
        r#"{"jsonrpc": "2.0", "id": 1, "method": "initialize", "params": {"a": 1}}"#,
    );
    let (second, _) = ids.request("x", &json("{}"));
    assert_eq!(second, 2);

    let answer = |text: &str| await_response(receive(text), 2);
    assert!(answer(r#"{"id": 1, "result": 7}"#).is_none());
    assert_eq!(
        answer(r#"{"id": 2, "result": 7}"#).unwrap().unwrap().to_text(),
        "7"
    );
    let refused = answer(r#"{"id": 2, "error": {"code": -1, "message": "no"}}"#);
    assert!(refused.unwrap().unwrap_err().contains("no"));
    assert_eq!(
        await_response(None, 2).unwrap().unwrap_err(),
        "connection reader ended"
    );
    assert_eq!(
        await_response(Some(read_ended(None)), 2).unwrap().unwrap_err(),
        "daemon closed the connection"
    );
    assert_eq!(
        await_response(Some(read_ended(Some("reset"))), 2)
            .unwrap()
            .unwrap_err(),
        "socket read failed: reset"
    );
    assert_eq!(
        await_response(Some(Incoming::Closed("eof".into())), 2)
            .unwrap()
            .unwrap_err(),
        "eof"
    );
}

#[test]
fn between_turns_only_commands_and_a_lost_connection_matter() {
    assert_eq!(
        tick_connected(&IdleEvent::Command(CommandKind::Generate)),
        IdleAction::RunTurn
    );
    assert_eq!(
        tick_connected(&IdleEvent::Command(CommandKind::Shutdown)),
        IdleAction::Exit
    );
    assert_eq!(
        tick_connected(&IdleEvent::Message(Incoming::Closed("x".into()))),
        IdleAction::MarkDown
    );
    assert_eq!(tick_connected(&IdleEvent::ReaderEnded), IdleAction::MarkDown);
    assert_eq!(tick_connected(&IdleEvent::CancelChanged), IdleAction::Wait);
    let noise = receive(r#"{"id": 9, "result": 1}"#).unwrap();
    assert_eq!(tick_connected(&IdleEvent::Message(noise)), IdleAction::Wait);
}

#[test]
fn reconnect_pauses_double_up_to_the_longest() {
    let mut link = Link::new("sess", 0);
    assert_eq!(link.next_attempt_ms(), 0);
    link.mark_down(1_000);
    assert_eq!(link.next_attempt_ms(), 1_000);
    let mut pauses = Vec::new();
    for _ in 0..6 {
        link.attempt_failed(0);
        pauses.push(link.next_attempt_ms());
    }
    assert_eq!(pauses, [500, 1_000, 2_000, 4_000, 5_000, 5_000]);
    assert_eq!(RECONNECT_MAX_MS, 5_000);
    assert!(!link.reconnected("sess"));
    assert!(link.reconnected("other"));
    assert_eq!(link.session_id(), "other");
    link.attempt_failed(10);
    assert_eq!(link.next_attempt_ms(), 510);
}

#[test]
fn the_socket_is_found_by_config_then_environment_then_home() {
    let config = ZeroclawLmConfig::new("voice");
    let resolve = |socket, dir, home| config.resolve_socket_path(socket, dir, home);
    assert_eq!(resolve(Some("/tmp/s"), None, None), "/tmp/s");
    assert_eq!(
        resolve(Some("  "), Some("/etc/zc"), Some("/home/u")),
        "/etc/zc/data/daemon.sock"
    );
    assert_eq!(
        resolve(None, None, Some("/home/u")),
        "/home/u/.zeroclaw/data/daemon.sock"
    );
    assert_eq!(resolve(None, None, None), ".zeroclaw/data/daemon.sock");
    assert!(matches!(
        config.socket_place(None, Some(" ")),
        SocketPlace::UnderHome(path) if path == ".zeroclaw/data/daemon.sock"
    ));
    assert!(matches!(
        config.socket_place(None, Some("/etc/zc/")),
        SocketPlace::At(path) if path == "/etc/zc/data/daemon.sock"
    ));
    let fixed = ZeroclawLmConfig::new("voice").with_socket_path("/run/zc.sock");
    assert_eq!(
        fixed.resolve_socket_path(Some("/tmp/s"), None, None),
        "/run/zc.sock"
    );
}

#[test]
fn config_defaults_and_builders() {
    let config = ZeroclawLmConfig::new("voice");
    assert_eq!(config.agent_alias, "voice");
    assert!(config.surface_tool_calls);
    assert!(!config.exclude_memory);
    let minted = desired_session(&config);
    assert!(minted.starts_with("pc-voice-"), "{minted}");
    let poll = PollConfig {
        interval_ms: 1,
        settle_backoff_ms: 2,
        stale_after_ms: 3,
    };
    let config = config.with_poll(poll).with_surface_tool_calls(false);
    assert_eq!(config.poll.stale_after_ms, 3);
    assert!(!config.surface_tool_calls);
}

const CONNECTED: &str = "2026-01-01T00:00:00+00:00";
const DURING: &str = "2026-01-01T00:00:05+00:00";

fn poller() -> Poller {
    let poll = PollConfig {
        interval_ms: 50,
        settle_backoff_ms: 200,
        stale_after_ms: 400,
    };
    // 2026-01-01T00:00:00Z
    let connect_time = Instant {
        seconds: 1_767_225_600,
        nanos: 0,
    };
    Poller::new(poll, connect_time)
}

fn result(task: &str, status: &str, output: &str, error: &str, started_at: &str) -> Option<String> {
    Some(format!(
        r#"{{"task_id": "{task}", "agent": "research", "status": "{status}",
            "output": {output}, "error": {error}, "started_at": "{started_at}"}}"#
    ))
}

/// One scan of a directory that holds the one file.
fn scan(poller: &mut Poller, stem: &str, body: Option<String>, now: u64) -> Option<DispatchEvent> {
    let event = if poller.sight(stem, now) {
        poller.read(stem, &body, now)
    } else {
        None
    };
    assert!(poller.scan_done(now).is_empty());
    event
}

#[test]
fn completion_emits_once_with_task_id_and_agent_in_the_message() {
    let mut poller = poller();
    assert_eq!(poller.wait(0), Wait::TurnSettled);
    let running = result("task-1", "running", "null", "null", DURING);
    assert!(scan(&mut poller, "task-1", running, 0).is_none());
    assert_eq!(poller.wait(10), Wait::TurnSettledOr(50));
    assert_eq!(poller.wait(40_000), Wait::TurnSettledOr(200));
    let done = || result("task-1", "completed", "\"the answer is 42\"", "null", DURING);
    assert_eq!(
        scan(&mut poller, "task-1", done(), 50),
        Some(DispatchEvent::Completion {
            task_id: "task-1".into(),
            message: "task task-1 (agent research): the answer is 42".into(),
        })
    );
    assert!(scan(&mut poller, "task-1", done(), 100).is_none());
    assert_eq!(poller.wait(100), Wait::TurnSettled);
}

#[test]
fn failure_carries_the_error_and_is_not_retryable() {
    let failed = result("task-2", "failed", "null", "\"child agent exploded\"", CONNECTED);
    assert_eq!(
        scan(&mut poller(), "task-2", failed, 0),
        Some(DispatchEvent::Failure {
            task_id: "task-2".into(),
            message: "task task-2 (agent research) failed: child agent exploded".into(),
            retryable: false,
        })
    );
}

#[test]
fn cancelled_tasks_are_silent() {
    let mut poller = poller();
    let cancelled = result("task-3", "cancelled", "null", "null", DURING);
    assert!(scan(&mut poller, "task-3", cancelled, 0).is_none());
    assert_eq!(poller.wait(0), Wait::TurnSettled);
}

#[test]
fn files_from_before_this_session_are_ignored() {
    let stale = result(
        "task-old",
        "completed",
        "\"stale from last week\"",
        "null",
        "2020-01-01T00:00:00+00:00",
    );
    assert!(scan(&mut poller(), "task-old", stale, 0).is_none());
}

#[test]
fn unparseable_files_are_retried_until_valid() {
    let mut poller = poller();
    assert!(scan(&mut poller, "task-4", Some("{ not json".into()), 0).is_none());
    assert!(scan(&mut poller, "task-4", None, 10).is_none());
    let done = result("task-4", "completed", "\"eventually fine\"", "null", DURING);
    assert!(matches!(
        scan(&mut poller, "task-4", done, 50),
        Some(DispatchEvent::Completion { ref task_id, .. }) if task_id == "task-4"
    ));
}

#[test]
fn stuck_running_tasks_go_stale_and_later_terminals_are_ignored() {
    let mut poller = poller();
    let running = || result("task-5", "running", "null", "null", DURING);
    assert!(scan(&mut poller, "task-5", running(), 0).is_none());
    assert!(scan(&mut poller, "task-5", running(), 400).is_none());
    match scan(&mut poller, "task-5", running(), 401) {
        Some(DispatchEvent::Failure {
            task_id,
            message,
            retryable,
        }) => {
            assert_eq!(task_id, "task-5");
            assert!(!retryable);
            assert!(message.contains("no terminal status"), "message: {message}");
        }
        other => panic!("expected a failure, got {other:?}"),
    }
    let late = result("task-5", "completed", "\"too late\"", "null", DURING);
    assert!(scan(&mut poller, "task-5", late, 500).is_none());
}

#[test]
fn a_stale_task_whose_file_is_gone_is_reported_once_and_dropped() {
    let mut poller = poller();
    let running = |task: &str| result(task, "running", "null", "null", DURING);
    assert!(scan(&mut poller, "gone", running("gone"), 0).is_none());
    assert!(scan(&mut poller, "other", running("other"), 100).is_none());
    assert!(poller.scan_done(400).is_empty());
    let told = poller.scan_done(401);
    assert_eq!(told.len(), 1);
    match &told[0] {
        DispatchEvent::Failure {
            task_id,
            message,
            retryable,
        } => {
            assert_eq!(task_id, "gone");
            assert!(message.contains("no terminal status"), "message: {message}");
            assert!(!retryable);
        }
        other => panic!("expected a failure, got {other:?}"),
    }
    assert!(poller.scan_done(450).is_empty());
    assert!(!poller.sight("gone", 450));
    assert!(matches!(poller.wait(450), Wait::TurnSettledOr(_)));
    assert_eq!(poller.scan_done(501).len(), 1);
    assert_eq!(poller.wait(501), Wait::TurnSettled);
}

#[test]
fn a_status_may_stand_as_an_object_with_one_null_member() {
    let body = format!(
        r#"{{"task_id": "t", "agent": "a", "status": {{"completed": null}}, "output": "ok",
            "started_at": "{DURING}"}}"#
    );
    assert_eq!(
        scan(&mut poller(), "t", Some(body), 0),
        Some(DispatchEvent::Completion {
            task_id: "t".into(),
            message: "task t (agent a): ok".into(),
        })
    );
}

#[test]
fn only_result_files_are_looked_at() {
    assert_eq!(result_stem("task-1.json").as_deref(), Some("task-1"));
    assert_eq!(result_stem("task-1.json.tmp"), None);
    assert_eq!(result_stem("notes.txt"), None);
    assert_eq!(result_stem("a.b.json").as_deref(), Some("a.b"));
}

#[test]
fn a_task_of_unknown_provenance_is_ignored() {
    let mut poller = poller();
    let odd = result("task-6", "completed", "null", "null", "yesterday");
    assert!(scan(&mut poller, "task-6", odd, 0).is_none());
    assert_eq!(poller.wait(0), Wait::TurnSettled);
}

#[test]
fn a_silent_completion_says_so() {
    let done = result("task-7", "completed", "null", "null", DURING);
    let told = scan(&mut poller(), "task-7", done, 0);
    assert!(
        matches!(told, Some(DispatchEvent::Completion { ref message, .. }) if message.ends_with("(no output)")),
        "{told:?}"
    );
}
