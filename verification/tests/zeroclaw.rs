//! ZeroClaw webhook tasks: classification, the webhook, and the registry of tasks.
use pipecrab_adapters::dispatch::{self, DispatchEvent, EventRing, EVENT_RING_CAPACITY};
use pipecrab_adapters::http::BODY_EXCERPT_LIMIT;
use pipecrab_adapters::json::Json;
use pipecrab_adapters::zeroclaw::classify::{classify, Classified, NO_REPLY};
use pipecrab_adapters::zeroclaw::client::{
    compose_follow_up, compose_message, excerpt, headers, post_result, request_body, webhook_url,
    PostResult, ReplyBody,
};
use pipecrab_adapters::zeroclaw::config::ZeroclawConfig;
use pipecrab_adapters::zeroclaw::inner::{Inner, Update};
use pipecrab_adapters::zeroclaw::task::{
    TaskEntry, TaskId, Transcript, Turn, TRANSCRIPT_CAPACITY,
};

fn response(status: u16, body: ReplyBody) -> PostResult {
    PostResult::Response { status, body }
}

fn reply(text: &str) -> ReplyBody {
    ReplyBody {
        response: Some(text.to_owned()),
        error: None,
        status: None,
    }
}

fn error(text: &str) -> ReplyBody {
    ReplyBody {
        response: None,
        error: Some(text.to_owned()),
        status: None,
    }
}

#[test]
fn a_reply_completes_and_an_empty_one_gets_a_placeholder() {
    assert_eq!(
        classify(&response(200, reply("2+2 = 4"))),
        Classified::Completed {
            message: "2+2 = 4".to_owned()
        }
    );
    assert_eq!(
        classify(&response(200, reply(""))),
        Classified::Completed {
            message: NO_REPLY.to_owned()
        }
    );
    assert_eq!(
        classify(&response(200, ReplyBody::default())),
        Classified::Completed {
            message: NO_REPLY.to_owned()
        }
    );
}

#[test]
fn a_duplicate_dedupe_is_a_retryable_failure() {
    let dup = ReplyBody {
        response: None,
        error: None,
        status: Some("duplicate".to_owned()),
    };
    match classify(&response(200, dup)) {
        Classified::Failed {
            message, retryable, ..
        } => {
            assert!(retryable);
            assert!(message.contains("idempotency"), "message: {message}");
        }
        other => panic!("expected Failed, got {other:?}"),
    }
}

#[test]
fn client_errors_are_final_but_rate_limits_are_not() {
    for status in [400, 401, 404] {
        match classify(&response(status, error("nope"))) {
            Classified::Failed {
                message, retryable, ..
            } => {
                assert!(!retryable, "{status} must not be retryable");
                assert!(message.contains(&status.to_string()));
                assert!(message.contains("nope"));
            }
            other => panic!("expected Failed for {status}, got {other:?}"),
        }
    }
    assert_eq!(
        classify(&response(429, error("Too many webhook requests"))),
        Classified::Failed {
            message: "zeroclaw webhook returned 429: Too many webhook requests".to_owned(),
            retryable: true,
        }
    );
}

#[test]
fn server_errors_retry_except_an_unconfigured_gateway() {
    match classify(&response(500, error("LLM request failed"))) {
        Classified::Failed { retryable, .. } => assert!(retryable),
        other => panic!("expected Failed, got {other:?}"),
    }
    match classify(&response(503, error("needs_quickstart"))) {
        Classified::Failed { retryable, .. } => {
            assert!(!retryable, "an unconfigured gateway will not fix itself");
        }
        other => panic!("expected Failed, got {other:?}"),
    }
    match classify(&response(503, ReplyBody::default())) {
        Classified::Failed { retryable, .. } => assert!(retryable),
        other => panic!("expected Failed, got {other:?}"),
    }
}

#[test]
fn a_transport_error_is_retryable_and_flags_the_lost_reply() {
    let outcome = PostResult::Transport {
        message: "connection reset".to_owned(),
    };
    match classify(&outcome) {
        Classified::Failed {
            message, retryable, ..
        } => {
            assert!(retryable);
            assert!(message.contains("connection reset"));
            assert!(message.contains("reply is lost"), "message: {message}");
        }
        other => panic!("expected Failed, got {other:?}"),
    }
}

#[test]
fn compose_message_appends_labelled_context() {
    assert_eq!(compose_message("do it", None), "do it");
    assert_eq!(compose_message("do it", Some("")), "do it");
    assert_eq!(
        compose_message("do it", Some("carefully")),
        "do it\n\nContext:\ncarefully"
    );
}

#[test]
fn compose_follow_up_replays_the_transcript_before_the_new_message() {
    let turn = |user: &str, agent: &str| Turn {
        user: user.to_owned(),
        agent: agent.to_owned(),
    };

    assert_eq!(compose_follow_up(&[], "just this"), "just this");

    let out = compose_follow_up(
        &[turn("what is 2+2?", "4"), turn("and doubled?", "8")],
        "and again?",
    );
    for fragment in ["what is 2+2?", "4", "and doubled?", "8", "and again?"] {
        assert!(out.contains(fragment), "missing {fragment:?} in: {out}");
    }
    assert!(out.find("what is 2+2?") < out.find("and doubled?"));
    assert!(out.find("and doubled?") < out.find("and again?"));
    assert_eq!(
        compose_follow_up(&[turn("u", "a")], "m"),
        "You are continuing an earlier conversation. The transcript so far:\n\n\
         User:\nu\n\nYou:\na\n\nThe user's new message:\n\nm"
    );
}

#[test]
fn reply_body_parses_the_observed_shapes() {
    let ok = ReplyBody::parse(r#"{"response": "hi", "model": "glm-5"}"#);
    assert_eq!(ok.response.as_deref(), Some("hi"));
    assert_eq!(ok.error, None);

    let err = ReplyBody::parse(r#"{"error": "LLM request failed"}"#);
    assert_eq!(err.error.as_deref(), Some("LLM request failed"));

    let nested = ReplyBody::parse(r#"{"error": {"message": "nested", "code": 1}}"#);
    assert_eq!(nested.error.as_deref(), Some("nested"));

    let dup = ReplyBody::parse(
        r#"{"status": "duplicate", "idempotent": true, "message": "already processed"}"#,
    );
    assert_eq!(dup.status.as_deref(), Some("duplicate"));
}

#[test]
fn a_non_json_body_degrades_to_an_error_excerpt() {
    let body = ReplyBody::parse("<html>Bad Gateway</html>");
    assert_eq!(body.response, None);
    assert_eq!(body.error.as_deref(), Some("<html>Bad Gateway</html>"));
}

#[test]
fn a_body_of_another_shape_degrades_to_an_error_excerpt() {
    for text in [r#"{"response": 3}"#, "17", r#""text""#] {
        let body = ReplyBody::parse(text);
        assert_eq!(body.response, None);
        assert_eq!(body.error.as_deref(), Some(text));
    }
}

#[test]
fn client_excerpt_truncates_on_a_char_boundary() {
    let long = "x".repeat(BODY_EXCERPT_LIMIT + 50);
    let out = excerpt(&long);
    assert!(out.ends_with('…'));
    assert!(out.len() <= BODY_EXCERPT_LIMIT + 4);
}

#[test]
fn webhook_url_survives_trailing_slashes_and_carries_the_agent() {
    let config = ZeroclawConfig::new()
        .with_base_url("http://gw.local:42617/prefix/")
        .with_agent("researcher");
    assert_eq!(
        webhook_url(&config).unwrap(),
        "http://gw.local:42617/prefix/webhook?agent=researcher"
    );

    assert_eq!(
        webhook_url(&ZeroclawConfig::new()).unwrap(),
        "http://127.0.0.1:42617/webhook"
    );
}

#[test]
fn an_agent_name_is_encoded_into_the_query() {
    let config = ZeroclawConfig::new().with_agent("a b&c");
    assert_eq!(
        webhook_url(&config).unwrap(),
        "http://127.0.0.1:42617/webhook?agent=a+b%26c"
    );
    let unusable = ZeroclawConfig::new().with_base_url("mailto:x@example.com");
    assert_eq!(webhook_url(&unusable), None);
}

fn seed(inner: &mut Inner, task_id: &TaskId, in_flight: bool) {
    let mut entry = TaskEntry::new();
    entry.in_flight = in_flight;
    inner.keep(task_id, entry);
}

#[test]
fn finish_clears_in_flight_but_keeps_the_entry() {
    let mut inner = Inner::new();
    let task = TaskId::from("t1");
    seed(&mut inner, &task, true);

    inner.finish(&task);

    let entry = inner.entry(&task).expect("entry preserved");
    assert!(!entry.in_flight, "in-flight flag cleared");
}

#[test]
fn finish_on_an_unknown_task_is_a_no_op() {
    let mut inner = Inner::new();
    inner.finish(&TaskId::from("nope"));
    assert!(inner.entry(&TaskId::from("nope")).is_none());
}

#[test]
fn inner_rejected_has_no_task_and_is_skipped_by_the_ring() {
    let rejected = DispatchEvent::Rejected {
        tool_call_id: "c".into(),
        message: "no".into(),
    };
    assert!(dispatch::task_id_of(&rejected).is_none());

    let mut inner = Inner::new();
    let task = TaskId::from("t");
    seed(&mut inner, &task, true);
    assert_eq!(inner.emit(7, rejected.copy()), Ok(rejected));
    assert!(inner.task_events(&task).unwrap().is_empty());
}

#[test]
fn minted_ids_are_unique_prefixed_and_session_id_safe() {
    let a = TaskId::mint();
    let b = TaskId::mint();
    assert_ne!(a, b);
    assert!(a.as_str().starts_with("pc-"));
    assert!(a.as_str().len() <= 128);
    assert!(a
        .as_str()
        .bytes()
        .all(|b| b.is_ascii_alphanumeric() || b == b'-' || b == b'_' || b == b'.'));
}

#[test]
fn transcript_is_bounded_and_keeps_the_newest() {
    let mut transcript = Transcript::default();
    for i in 0..(TRANSCRIPT_CAPACITY + 3) {
        transcript.push(Turn {
            user: i.to_string(),
            agent: format!("reply {i}"),
        });
    }
    let snap = transcript.snapshot();
    assert_eq!(snap.len(), TRANSCRIPT_CAPACITY);
    assert_eq!(snap.first().unwrap().user, "3");
    assert_eq!(
        snap.last().unwrap().user,
        (TRANSCRIPT_CAPACITY + 2).to_string()
    );
}

fn completion(msg: &str) -> DispatchEvent {
    DispatchEvent::Completion {
        task_id: "t".into(),
        message: msg.into(),
    }
}

#[test]
fn task_ring_is_bounded_and_keeps_the_newest() {
    let mut ring = EventRing::default();
    for i in 0..(EVENT_RING_CAPACITY + 5) {
        ring.push(0, completion(&i.to_string()));
    }
    let snap = ring.snapshot();
    assert_eq!(snap.len(), EVENT_RING_CAPACITY);
    assert_eq!(snap.first().unwrap().1, completion("5"));
    assert_eq!(
        snap.last().unwrap().1,
        completion(&(EVENT_RING_CAPACITY + 4).to_string())
    );
}

#[test]
fn credentials_are_redacted_from_config_debug() {
    let config = ZeroclawConfig::new()
        .with_token("super-secret-token")
        .with_webhook_secret("super-secret-hook");
    let rendered = config.describe();
    assert!(
        !rendered.contains("super-secret"),
        "credentials must not appear: {rendered}"
    );
    assert!(rendered.contains("<redacted>"));
    assert_eq!(
        ZeroclawConfig::default().with_agent("a\"b").describe(),
        "ZeroclawConfig { base_url: \"http://127.0.0.1:42617/\", token: None, \
         webhook_secret: None, agent: Some(\"a\\\"b\"), request_timeout: 300s }"
    );
}

#[test]
fn task_id_round_trips_through_its_conversions() {
    let id = TaskId::from("pc-roundtrip");
    assert_eq!(id.as_str(), "pc-roundtrip");
    assert_eq!(id.to_text(), "pc-roundtrip");
}

#[test]
fn create_yields_accepted_then_completion_and_fills_the_ring() {
    let mut inner = Inner::new();
    let (sent, delivery) = inner.create(1, "call-1", "what is 2+2?", None);
    let task = TaskId::from(delivery.task_id.as_str());
    assert_eq!(
        sent,
        Ok(DispatchEvent::Accepted {
            tool_call_id: "call-1".into(),
            task_id: task.to_text(),
        })
    );
    assert_eq!(delivery.wire, "what is 2+2?");

    let outcome = post_result(Ok((200, r#"{"response": "4", "model": "m"}"#.into())));
    let told = inner.deliver(2, delivery, Some(outcome)).unwrap().unwrap();
    assert_eq!(
        told,
        DispatchEvent::Completion {
            task_id: task.to_text(),
            message: "4".into(),
        }
    );
    let trail = inner.task_events(&task).unwrap();
    assert_eq!(trail.len(), 2);
    assert_eq!(trail[1], (2, told));
    assert!(inner.task_events(&TaskId::from("nope")).is_none());
}

#[test]
fn context_rides_the_message_under_a_label() {
    let mut inner = Inner::new();
    let (_, delivery) = inner.create(1, "c", "summarize", Some("the notes"));
    assert_eq!(delivery.wire, "summarize\n\nContext:\nthe notes");
    assert_eq!(
        request_body(&delivery.wire).to_text(),
        r#"{"message":"summarize\n\nContext:\nthe notes"}"#
    );
}

fn failure_of(status: u16, body: &str) -> (String, bool) {
    let mut inner = Inner::new();
    let (_, delivery) = inner.create(1, "c", "x", None);
    match inner.deliver(2, delivery, Some(post_result(Ok((status, body.into()))))) {
        Some(Ok(DispatchEvent::Failure {
            message, retryable, ..
        })) => (message, retryable),
        other => panic!("expected a failure, got {other:?}"),
    }
}

#[test]
fn an_unpaired_gateway_fails_the_task_finally() {
    assert_eq!(
        failure_of(401, r#"{"error": "Unauthorized"}"#),
        ("zeroclaw webhook returned 401: Unauthorized".into(), false)
    );
}

#[test]
fn rate_limiting_and_provider_errors_are_retryable() {
    assert!(failure_of(429, r#"{"error": "slow down"}"#).1);
    assert!(failure_of(500, r#"{"error": "LLM request failed"}"#).1);
}

#[test]
fn an_unconfigured_gateway_is_a_final_failure() {
    assert!(!failure_of(503, r#"{"error": "needs_quickstart"}"#).1);
}

#[test]
fn a_duplicate_dedupe_reply_fails_retryably() {
    let (message, retryable) = failure_of(200, r#"{"status": "duplicate", "idempotent": true}"#);
    assert!(retryable);
    assert_eq!(
        message,
        "the gateway had already processed this idempotency key; \
         the original reply is unrecoverable"
    );
}

#[test]
fn integration_update_unknown_task_is_rejected_without_http() {
    let mut inner = Inner::new();
    match inner.update(1, "call-9", TaskId::from("nope"), "hello?") {
        Update::Refused(sent) => assert_eq!(
            sent,
            Ok(DispatchEvent::Rejected {
                tool_call_id: "call-9".into(),
                message: "unknown task_id".into(),
            })
        ),
        other => panic!("expected a refusal, got {other:?}"),
    }
}

#[test]
fn update_while_running_is_rejected_and_posts_nothing_new() {
    let mut inner = Inner::new();
    let (_, delivery) = inner.create(1, "c", "x", None);
    let task = TaskId::from(delivery.task_id.as_str());
    match inner.update(2, "call-2", task, "more") {
        Update::Refused(Ok(DispatchEvent::Rejected { message, .. })) => assert_eq!(
            message,
            "task is still running; the ZeroClaw webhook API has no way to deliver input to \
             an executing turn"
        ),
        other => panic!("expected a refusal, got {other:?}"),
    }
}

#[test]
fn a_follow_up_replays_answered_turns_as_the_user_wrote_them() {
    let mut inner = Inner::new();
    let (_, delivery) = inner.create(1, "c", "what is 2+2?", None);
    let task = TaskId::from(delivery.task_id.as_str());
    let answer = post_result(Ok((200, r#"{"response": "4"}"#.into())));
    inner.deliver(2, delivery, Some(answer));

    let first = match inner.update(3, "c2", TaskId::from(task.as_str()), "and doubled?") {
        Update::Post(delivery) => delivery,
        other => panic!("expected a request, got {other:?}"),
    };
    assert_eq!(first.user, "and doubled?");
    assert_eq!(
        first.wire,
        compose_follow_up(
            &[Turn {
                user: "what is 2+2?".into(),
                agent: "4".into()
            }],
            "and doubled?"
        )
    );
    // A failed turn joins nothing.
    let failed = post_result(Err("timed out".into()));
    match inner.deliver(4, first, Some(failed)) {
        Some(Ok(DispatchEvent::Failure {
            message, retryable, ..
        })) => {
            assert!(retryable);
            assert_eq!(
                message,
                "zeroclaw webhook request failed: timed out \
                 (the turn may still have run; its reply is lost)"
            );
        }
        other => panic!("expected a failure, got {other:?}"),
    }
    let turns = inner.entry(&task).unwrap().transcript.snapshot();
    assert_eq!(
        turns,
        vec![Turn {
            user: "what is 2+2?".into(),
            agent: "4".into()
        }]
    );
}

#[test]
fn cancel_abandons_an_in_flight_turn_without_a_failure_event() {
    let mut inner = Inner::new();
    let (_, delivery) = inner.create(1, "c", "x", None);
    let task = TaskId::from(delivery.task_id.as_str());
    inner.cancel();
    assert!(inner.deliver(2, delivery, None).is_none());
    assert!(!inner.entry(&task).unwrap().in_flight);
    assert_eq!(inner.task_events(&task).unwrap().len(), 1);
}

#[test]
fn integration_cancel_closes_the_source_issues_no_http_and_is_idempotent() {
    let mut inner = Inner::new();
    inner.cancel();
    inner.cancel();
    assert!(inner.is_cancelled());
    let refused = inner.accepts().unwrap_err();
    assert_eq!(refused.message, "dispatch transport cancelled");
    assert!(!refused.fatal);
    let (sent, _) = inner.create(1, "c", "x", None);
    let closed = sent.unwrap_err();
    assert_eq!(closed.message, "dispatch event channel closed");
    assert!(closed.fatal);
}

#[test]
fn an_outcome_that_does_not_go_out_is_not_in_the_trail() {
    for drop_receiver in [false, true] {
        let mut inner = Inner::new();
        let (sent, delivery) = inner.create(1, "c", "x", None);
        let accepted = sent.unwrap();
        let task = TaskId::from(delivery.task_id.as_str());
        if drop_receiver {
            inner.receiver_dropped();
            assert!(inner.accepts().is_ok());
        } else {
            inner.cancel();
        }
        let outcome = response(500, error("down"));
        let sent = inner.deliver(2, delivery, Some(outcome)).unwrap();
        assert!(sent.unwrap_err().fatal);
        assert!(!inner.entry(&task).unwrap().in_flight);
        assert_eq!(inner.task_events(&task).unwrap(), [(1, accepted)]);
    }
}

#[test]
fn only_the_503_of_an_unconfigured_gateway_is_final() {
    assert_eq!(
        failure_of(500, r#"{"error": "needs_quickstart"}"#),
        ("zeroclaw webhook returned 500: needs_quickstart".into(), true)
    );
    assert!(failure_of(502, r#"{"error": "needs_quickstart"}"#).1);
    assert!(!failure_of(503, r#"{"error": "still needs_quickstart"}"#).1);
}

#[test]
fn optional_credentials_and_agent_shape_the_request() {
    let config = ZeroclawConfig::new()
        .with_webhook_secret("hook-secret")
        .with_agent("researcher")
        .with_request_timeout(2_000);
    assert_eq!(config.request_timeout_ms, 2_000);
    let plain = headers(&config, "pc-1", "call-1");
    assert_eq!(plain.get("x-webhook-secret").unwrap().value, "hook-secret");
    assert_eq!(plain.get("x-session-id").unwrap().value, "pc-1");
    assert_eq!(plain.get("x-idempotency-key").unwrap().value, "call-1");
    assert!(plain.get("authorization").is_none());

    let paired = headers(&ZeroclawConfig::new().with_token("tok"), "s", "k");
    let token = paired.get("authorization").unwrap();
    assert_eq!(token.value, "Bearer tok");
    assert!(token.sensitive);
    assert!(paired.get("x-webhook-secret").is_none());
}

#[test]
fn a_parsed_body_is_read_by_its_document() {
    let document = Json::parse(r#"["hi", null, null]"#).unwrap();
    let body = ReplyBody::of("", Some(&document));
    assert_eq!(body.response.as_deref(), Some("hi"));
    assert_eq!(ReplyBody::of(" raw ", None).error.as_deref(), Some("raw"));
}
