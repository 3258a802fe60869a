//! Hermes tasks: classification, the runs API, and the registry of tasks.
use pipecrab_adapters::dispatch::{self, DispatchEvent, EventRing, EVENT_RING_CAPACITY};
use pipecrab_adapters::hermes::classify::{classify, Classified, FAILED_FALLBACK, NO_OUTPUT};
use pipecrab_adapters::hermes::client::{
    compose_input, create_headers, create_run, excerpt, get_run, headers, read_state, run_request,
    run_url, runs_url, PollResult, Response, RunStatusBody,
};
use pipecrab_adapters::hermes::config::HermesConfig;
use pipecrab_adapters::hermes::inner::{begin_create, Inner, Update};
use pipecrab_adapters::hermes::task::{HistoryTurn, RunId, TaskEntry, TaskId};
use pipecrab_adapters::http::BODY_EXCERPT_LIMIT;
use pipecrab_adapters::json::Json;

fn same(document: &Json, expected: &str) {
    let expected = Json::parse(expected).expect("a document");
    assert_eq!(document.to_text(), expected.to_text());
}

fn answered(status: u16, body: &str) -> Response {
    Response::Answered {
        status,
        body: body.as_bytes().to_vec(),
        text: body.to_owned(),
    }
}

#[test]
fn completed_uses_output_or_placeholder() {
    assert_eq!(
        classify("completed", Some("2+2 = 4"), None),
        Classified::Completed {
            message: "2+2 = 4".to_owned()
        }
    );
    assert_eq!(
        classify("completed", None, None),
        Classified::Completed {
            message: NO_OUTPUT.to_owned()
        }
    );
    assert_eq!(
        classify("completed", Some(""), None),
        Classified::Completed {
            message: NO_OUTPUT.to_owned()
        }
    );
}

#[test]
fn failed_prefers_error_then_output_then_fallback() {
    assert_eq!(
        classify("failed", None, Some("model exploded")),
        Classified::Failed {
            message: "model exploded".to_owned()
        }
    );
    assert_eq!(
        classify("failed", Some("partial"), None),
        Classified::Failed {
            message: "partial".to_owned()
        }
    );
    assert_eq!(
        classify("failed", None, None),
        Classified::Failed {
            message: FAILED_FALLBACK.to_owned()
        }
    );
}

#[test]
fn cancelled_is_its_own_outcome() {
    assert_eq!(classify("cancelled", None, None), Classified::Cancelled);
}

#[test]
fn non_terminal_and_unknown_statuses_are_in_flight() {
    for s in ["started", "running", "stopping", "queued", "some_new_status"] {
        assert_eq!(
            classify(s, None, None),
            Classified::InFlight {
                status: s.to_owned()
            }
        );
    }
}

#[test]
fn compose_input_appends_labelled_context() {
    assert_eq!(compose_input("do it", None), "do it");
    assert_eq!(compose_input("do it", Some("")), "do it");
    assert_eq!(
        compose_input("do it", Some("carefully")),
        "do it\n\nContext:\ncarefully"
    );
}

#[test]
fn error_detail_reads_string_object_and_explicit_message() {
    let string = RunStatusBody {
        status: "failed".into(),
        output: None,
        error: Some(Json::text("boom")),
        last_error: None,
        error_message: None,
    };
    assert_eq!(string.error_detail().as_deref(), Some("boom"));

    let object = RunStatusBody {
        status: "failed".into(),
        output: None,
        error: Some(Json::parse(r#"{ "message": "nested boom", "code": 1 }"#).unwrap()),
        last_error: None,
        error_message: None,
    };
    assert_eq!(object.error_detail().as_deref(), Some("nested boom"));

    let explicit = RunStatusBody {
        status: "failed".into(),
        output: None,
        error: None,
        last_error: Some(Json::text("ignored")),
        error_message: Some("explicit".into()),
    };
    assert_eq!(explicit.error_detail().as_deref(), Some("explicit"));

    let none = RunStatusBody {
        status: "failed".into(),
        output: None,
        error: None,
        last_error: None,
        error_message: None,
    };
    assert_eq!(none.error_detail(), None);
}

#[test]
fn excerpt_truncates_on_a_char_boundary() {
    let long = "x".repeat(BODY_EXCERPT_LIMIT + 50);
    let out = excerpt(&long);
    assert!(out.ends_with('…'));
    assert!(out.len() <= BODY_EXCERPT_LIMIT + 4);
}

#[test]
fn excerpts_of_wide_characters_stay_within_the_limit() {
    let wide = "é".repeat(150);
    let out = excerpt(&wide);
    assert_eq!(out, format!("{}…", "é".repeat(100)));
    let odd = format!("x{wide}");
    assert_eq!(excerpt(&odd), format!("x{}…", "é".repeat(99)));
    assert_eq!(excerpt("  short \n"), "short");
}

fn seed(inner: &mut Inner, task_id: &TaskId, run: &str) {
    inner.keep(task_id, TaskEntry::new(RunId::new(run), "the original task"));
}

fn in_flight(status: &str) -> Classified {
    Classified::InFlight {
        status: status.to_owned(),
    }
}

#[test]
fn in_flight_progress_dedupes_on_status_change() {
    let mut inner = Inner::new();
    let task = TaskId::from("t1");
    let run = RunId::new("run-1");
    seed(&mut inner, &task, "run-1");

    let first = inner.apply(&task, &run, in_flight("running"));
    assert!(matches!(first, Some(DispatchEvent::Progress { .. })));
    let repeat = inner.apply(&task, &run, in_flight("running"));
    assert!(repeat.is_none());
    let changed = inner.apply(&task, &run, in_flight("stopping"));
    assert!(matches!(changed, Some(DispatchEvent::Progress { .. })));
}

#[test]
fn terminal_status_clears_active_run_but_keeps_entry() {
    let mut inner = Inner::new();
    let task = TaskId::from("t2");
    let run = RunId::new("run-2");
    seed(&mut inner, &task, "run-2");

    let event = inner.apply(
        &task,
        &run,
        Classified::Completed {
            message: "done".into(),
        },
    );
    assert!(matches!(event, Some(DispatchEvent::Completion { .. })));

    let entry = inner.entry(&task).expect("entry preserved after completion");
    assert!(entry.active_run.is_none(), "active run cleared");
}

#[test]
fn a_completion_records_the_answer_for_follow_up_runs() {
    let mut inner = Inner::new();
    let task = TaskId::from("t-hist");
    let run = RunId::new("run-h");
    seed(&mut inner, &task, "run-h");

    inner.apply(
        &task,
        &run,
        Classified::Completed {
            message: "the answer".into(),
        },
    );

    assert_eq!(
        inner.entry(&task).unwrap().history,
        vec![
            HistoryTurn::user("the original task"),
            HistoryTurn::assistant("the answer"),
        ],
        "a follow-up run replays the task and its answer"
    );
}

#[test]
fn a_failure_records_no_assistant_turn() {
    let mut inner = Inner::new();
    let task = TaskId::from("t-fail");
    let run = RunId::new("run-f");
    seed(&mut inner, &task, "run-f");

    inner.apply(
        &task,
        &run,
        Classified::Failed {
            message: "boom".into(),
        },
    );

    assert_eq!(
        inner.entry(&task).unwrap().history,
        vec![HistoryTurn::user("the original task")],
        "a run that produced no answer adds nothing to say"
    );
}

#[test]
fn cancelled_is_retryable_failure() {
    let mut inner = Inner::new();
    let task = TaskId::from("t3");
    let run = RunId::new("run-3");
    seed(&mut inner, &task, "run-3");

    match inner.apply(&task, &run, Classified::Cancelled) {
        Some(DispatchEvent::Failure { retryable, .. }) => assert!(retryable),
        other => panic!("expected retryable Failure, got {other:?}"),
    }
}

#[test]
fn stale_run_observation_is_ignored() {
    let mut inner = Inner::new();
    let task = TaskId::from("t4");
    seed(&mut inner, &task, "run-current");
    let stale = RunId::new("run-old");
    let event = inner.apply(
        &task,
        &stale,
        Classified::Completed {
            message: "late".into(),
        },
    );
    assert!(event.is_none());
    assert!(
        inner.entry(&task).unwrap().active_run.is_some(),
        "the current run is untouched"
    );
}

#[test]
fn clear_run_only_clears_the_named_run() {
    let mut inner = Inner::new();
    let task = TaskId::from("t5");
    seed(&mut inner, &task, "run-5");
    assert!(!inner.clear_run(&task, &RunId::new("other")));
    assert!(inner.clear_run(&task, &RunId::new("run-5")));
    assert!(!inner.clear_run(&task, &RunId::new("run-5")));
}

#[test]
fn rejected_has_no_task_and_is_skipped_by_the_ring() {
    let rejected = DispatchEvent::Rejected {
        tool_call_id: "c".into(),
        message: "no".into(),
    };
    assert!(dispatch::task_id_of(&rejected).is_none());

    let mut inner = Inner::new();
    let task = TaskId::from("t6");
    seed(&mut inner, &task, "run-6");
    assert_eq!(inner.emit(7, rejected.copy()), Ok(rejected));
    assert!(inner.task_events(&task).unwrap().is_empty());
}

#[test]
fn minted_ids_are_unique_and_prefixed() {
    let a = TaskId::mint();
    let b = TaskId::mint();
    assert_ne!(a, b);
    assert!(a.as_str().starts_with("pc-"));
}

fn progress(msg: &str) -> DispatchEvent {
    DispatchEvent::Progress {
        task_id: "t".into(),
        message: msg.into(),
    }
}

#[test]
fn ring_is_bounded_and_keeps_the_newest() {
    let mut ring = EventRing::default();
    for i in 0..(EVENT_RING_CAPACITY + 5) {
        ring.push(0, progress(&i.to_string()));
    }
    let snap = ring.snapshot();
    assert_eq!(snap.len(), EVENT_RING_CAPACITY);
    assert_eq!(snap.first().unwrap().1, progress("5"));
    assert_eq!(
        snap.last().unwrap().1,
        progress(&(EVENT_RING_CAPACITY + 4).to_string())
    );
}

#[test]
fn api_key_is_redacted_from_config_debug() {
    let config = HermesConfig::new("super-secret-key");
    let rendered = config.describe();
    assert!(
        !rendered.contains("super-secret-key"),
        "key must not appear: {rendered}"
    );
    assert!(rendered.contains("<redacted>"));
    assert_eq!(
        rendered,
        "HermesConfig { base_url: \"http://127.0.0.1:8642/\", api_key: \"<redacted>\", \
         poll_interval: 1s, request_timeout: 10s }"
    );
}

#[test]
fn config_builders_override_one_setting_each() {
    let config = HermesConfig::new("k")
        .with_base_url("http://gw:1/")
        .with_poll_interval(250)
        .with_request_timeout(1_500);
    assert_eq!(config.base_url, "http://gw:1/");
    assert_eq!(config.api_key, "k");
    assert_eq!(config.poll_interval_ms, 250);
    assert_eq!(config.request_timeout_ms, 1_500);
    let rendered = config.describe();
    assert!(rendered.contains("poll_interval: 250ms"), "{rendered}");
    assert!(rendered.contains("request_timeout: 1.5s"), "{rendered}");
}

#[test]
fn create_yields_accepted_then_progress_then_completion_and_fills_the_ring() {
    let mut inner = Inner::new();
    let creation = begin_create("what is 2+2?", None);
    let task = creation.task_id;
    let outcome = create_run(&answered(202, r#"{"run_id": "run-1", "status": "started"}"#));
    let accepted = inner
        .created(1, "call-1", &task, &creation.input, outcome)
        .expect("an open channel");
    assert_eq!(
        accepted,
        DispatchEvent::Accepted {
            tool_call_id: "call-1".into(),
            task_id: task.to_text(),
        }
    );

    let active = inner.active_runs();
    assert_eq!(active.len(), 1);
    assert_eq!(active[0].0, task);
    assert_eq!(active[0].1.as_str(), "run-1");
    let run = RunId::new("run-1");

    let running = get_run(&answered(200, r#"{"status": "running"}"#));
    let told = inner.polled(2, &task, &run, running).expect("an event").unwrap();
    assert!(matches!(told, DispatchEvent::Progress { ref message, .. } if message == "running"));
    let again = get_run(&answered(200, r#"{"status": "running"}"#));
    assert!(inner.polled(3, &task, &run, again).is_none());

    let done = get_run(&answered(200, r#"{"status": "completed", "output": "4"}"#));
    let told = inner.polled(4, &task, &run, done).expect("an event").unwrap();
    assert_eq!(
        told,
        DispatchEvent::Completion {
            task_id: task.to_text(),
            message: "4".into(),
        }
    );
    assert!(inner.active_runs().is_empty());

    let trail = inner.task_events(&task).expect("a known task");
    assert_eq!(trail.len(), 3);
    assert_eq!(trail[0], (1, accepted));
    assert_eq!(trail[2], (4, told));
    assert!(inner.task_events(&TaskId::from("nope")).is_none());
}

#[test]
fn create_http_failure_is_rejected_not_an_error() {
    let mut inner = Inner::new();
    let creation = begin_create("x", Some("y"));
    assert_eq!(creation.input, "x\n\nContext:\ny");
    let outcome = create_run(&answered(500, "gateway exploded"));
    let told = inner
        .created(1, "call-1", &creation.task_id, &creation.input, outcome)
        .expect("a refusal is no failure of the transport");
    assert_eq!(
        told,
        DispatchEvent::Rejected {
            tool_call_id: "call-1".into(),
            message: "hermes create returned 500 Internal Server Error: gateway exploded".into(),
        }
    );
    assert!(inner.entry(&creation.task_id).is_none());
}

#[test]
fn create_run_tells_every_failure_apart() {
    assert_eq!(
        create_run(&Response::Failed("connection refused".into())),
        Err("hermes create request failed: connection refused".into())
    );
    for body in ["not json", "", r#"{"status": "started"}"#, r#"{"run_id": 3}"#] {
        assert_eq!(
            create_run(&answered(202, body)),
            Err(
                "hermes create returned an undecodable body: error decoding response body".into()
            ),
            "{body}"
        );
    }
    for body in ["not json", "", r#"{"run_id": "r"}"#, r#"{"status": 3}"#] {
        match get_run(&answered(200, body)) {
            PollResult::Transient(reason) => assert_eq!(
                reason,
                "poll returned an undecodable body: error decoding response body"
            ),
            other => panic!("expected a failed look, got {other:?}"),
        }
    }
    assert_eq!(
        create_run(&answered(200, r#"{"run_id": "r"}"#)),
        Ok(RunId::new("r"))
    );
}

#[test]
fn update_unknown_task_is_rejected_without_http() {
    let mut inner = Inner::new();
    match inner.begin_update(1, "call-9", &TaskId::from("nope"), "hello?") {
        Update::Refused(sent) => assert_eq!(
            sent,
            Ok(DispatchEvent::Rejected {
                tool_call_id: "call-9".into(),
                message: "unknown task_id".into(),
            })
        ),
        other => panic!("expected a refusal, got {other:?}"),
    }
}

#[test]
fn update_while_running_is_rejected_and_posts_no_new_run() {
    let mut inner = Inner::new();
    let task = TaskId::from("t7");
    seed(&mut inner, &task, "run-7");
    match inner.begin_update(1, "call-2", &task, "more") {
        Update::Refused(Ok(DispatchEvent::Rejected { message, .. })) => assert_eq!(
            message,
            "task is still running; the Hermes runs API has no endpoint that delivers input \
             to an in-flight run"
        ),
        other => panic!("expected a refusal, got {other:?}"),
    }
}

#[test]
fn update_after_completion_chains_a_new_run_under_the_same_task() {
    let mut inner = Inner::new();
    let task = TaskId::from("t8");
    seed(&mut inner, &task, "run-a");
    inner.apply(
        &task,
        &RunId::new("run-a"),
        Classified::Completed {
            message: "the answer".into(),
        },
    );
    match inner.begin_update(1, "call-2", &task, "and doubled?") {
        Update::Post(body) => same(
            &body,
            r#"{"input": "and doubled?", "session_id": "t8", "conversation_history": [
                {"role": "user", "content": "the original task"},
                {"role": "assistant", "content": "the answer"}]}"#,
        ),
        other => panic!("expected a request, got {other:?}"),
    }
    assert!(inner
        .updated(2, "call-2", &task, "and doubled?", Ok(RunId::new("run-b")))
        .is_none());
    let entry = inner.entry(&task).unwrap();
    assert_eq!(entry.active_run, Some(RunId::new("run-b")));
    assert_eq!(entry.last_status, None);
    assert_eq!(entry.history.len(), 3);

    let refused = inner.updated(3, "call-3", &task, "x", Err("no room".into()));
    assert!(matches!(refused, Some(Ok(DispatchEvent::Rejected { .. }))));
    assert_eq!(inner.entry(&task).unwrap().history.len(), 3);
}

#[test]
fn poll_404_on_a_tracked_run_is_an_expired_state_failure() {
    let mut inner = Inner::new();
    let task = TaskId::from("t9");
    let run = RunId::new("run-9");
    seed(&mut inner, &task, "run-9");
    let told = inner.polled(5, &task, &run, get_run(&answered(404, "{}")));
    assert_eq!(
        told,
        Some(Ok(DispatchEvent::Failure {
            task_id: "t9".into(),
            message: "run state expired before it was observed".into(),
            retryable: false,
        }))
    );
    assert!(inner.polled(6, &task, &run, PollResult::Gone).is_none());
}

#[test]
fn poll_side_network_errors_are_retried_silently() {
    let mut inner = Inner::new();
    let task = TaskId::from("t10");
    let run = RunId::new("run-10");
    seed(&mut inner, &task, "run-10");
    for response in [
        Response::Failed("reset".into()),
        answered(503, "busy"),
        answered(401, "no"),
        answered(200, "not json"),
        answered(200, "[1]"),
    ] {
        let look = get_run(&response);
        assert!(matches!(look, PollResult::Transient(_)), "{look:?}");
        assert!(inner.polled(1, &task, &run, look).is_none());
    }
    assert_eq!(inner.active_runs().len(), 1);
    match get_run(&answered(503, "busy")) {
        PollResult::Transient(reason) => {
            assert_eq!(reason, "poll returned 503 Service Unavailable");
        }
        other => panic!("expected a retry, got {other:?}"),
    }
}

#[test]
fn cancel_closes_the_source_issues_no_http_and_is_idempotent() {
    let mut inner = Inner::new();
    assert!(inner.accepts().is_ok());
    inner.cancel();
    inner.cancel();
    assert!(inner.is_cancelled());
    let refused = inner.accepts().unwrap_err();
    assert_eq!(refused.message, "dispatch transport cancelled");
    assert!(!refused.fatal);
    let closed = inner.emit(1, progress("x")).unwrap_err();
    assert_eq!(closed.message, "dispatch event channel closed");
    assert!(closed.fatal);
}

#[test]
fn an_event_that_does_not_go_out_is_not_in_the_trail() {
    let task = TaskId::from("t");
    let run = RunId::new("run-1");
    for drop_receiver in [false, true] {
        let mut inner = Inner::new();
        seed(&mut inner, &task, "run-1");
        assert!(inner.emit(1, progress("a")).is_ok());
        if drop_receiver {
            inner.receiver_dropped();
            assert!(inner.accepts().is_ok());
        } else {
            inner.cancel();
        }
        assert!(inner.emit(2, progress("b")).unwrap_err().fatal);
        let done = get_run(&answered(200, r#"{"status": "completed", "output": "4"}"#));
        assert!(inner.polled(3, &task, &run, done).unwrap().unwrap_err().fatal);
        assert_eq!(inner.task_events(&task).unwrap(), [(1, progress("a"))]);
        assert!(inner.active_runs().is_empty());
    }
}

#[test]
fn the_create_body_carries_the_minted_task_id_as_session_id() {
    let creation = begin_create("go", None);
    same(
        &creation.body,
        &format!(
            r#"{{"input": "go", "session_id": "{}"}}"#,
            creation.task_id.as_str()
        ),
    );
    same(
        &run_request("again", "s", &vec![HistoryTurn::user("first")]),
        r#"{"input": "again", "session_id": "s",
            "conversation_history": [{"role": "user", "content": "first"}]}"#,
    );
}

#[test]
fn urls_append_to_the_base_path() {
    assert_eq!(
        runs_url("http://127.0.0.1:8642").as_deref(),
        Some("http://127.0.0.1:8642/v1/runs")
    );
    assert_eq!(
        run_url("http://gw/prefix/", "run 1").as_deref(),
        Some("http://gw/prefix/v1/runs/run%201")
    );
    assert_eq!(runs_url("mailto:someone@example.com"), None);
    assert_eq!(runs_url("no url"), None);
}

#[test]
fn the_key_goes_out_as_a_sensitive_bearer_token() {
    let poll = headers("secret");
    let token = poll.get("authorization").unwrap();
    assert_eq!(token.value, "Bearer secret");
    assert!(token.sensitive);
    assert!(poll.get("idempotency-key").is_none());
    let create = create_headers("secret", "call-1");
    assert_eq!(create.get("idempotency-key").unwrap().value, "call-1");
    assert_eq!(create.get("authorization").unwrap().value, "Bearer secret");
}

#[test]
fn a_state_tells_its_error_from_whichever_field_holds_it() {
    let read = |text: &str| read_state(&Json::parse(text).unwrap());
    match read(r#"{"status": "failed", "last_error": {"message": "deep"}}"#) {
        PollResult::Status(class) => assert_eq!(
            class,
            Classified::Failed {
                message: "deep".into()
            }
        ),
        other => panic!("expected a state, got {other:?}"),
    }
    match read(r#"{"status": "failed", "error": null, "last_error": "flat", "output": "o"}"#) {
        PollResult::Status(class) => assert_eq!(
            class,
            Classified::Failed {
                message: "flat".into()
            }
        ),
        other => panic!("expected a state, got {other:?}"),
    }
    assert!(matches!(read(r#"{"output": "o"}"#), PollResult::Transient(_)));
    assert!(matches!(
        read(r#"{"status": "failed", "output": 3}"#),
        PollResult::Transient(_)
    ));
}

#[test]
fn active_runs_leave_out_tasks_between_runs() {
    let mut inner = Inner::new();
    for i in 0..5 {
        let task = TaskId::from(format!("t{i}").as_str());
        seed(&mut inner, &task, &format!("r{i}"));
    }
    assert!(inner.clear_run(&TaskId::from("t2"), &RunId::new("r2")));
    let mut tasks: Vec<String> = inner.active_runs().iter().map(|a| a.0.to_text()).collect();
    tasks.sort();
    assert_eq!(tasks, ["t0", "t1", "t3", "t4"]);
}
