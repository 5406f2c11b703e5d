use agent::json::Json;
use agent::llm::{
    clip, decide, llm_model, llm_request, llm_url, parse_error, single_call, Asking, Attempt,
    Calling, Next, Reply,
};
use agent::provider::Anthropic;

#[test]
fn ok_response_is_done() {
    assert!(matches!(decide(&Attempt::Answer(Json::object())), Next::Done));
}

#[test]
fn prompt_too_long_triggers_trim_retry() {
    let a = Attempt::Status(400, "error: prompt is too long for the window".into());
    assert!(matches!(decide(&a), Next::TrimRetry(_)));
}

#[test]
fn other_400_fails() {
    let a = Attempt::Status(400, "bad request".into());
    assert!(matches!(decide(&a), Next::Fail(_)));
}

#[test]
fn server_502_retries() {
    let a = Attempt::Status(502, "bad gateway".into());
    assert!(matches!(decide(&a), Next::Retry(_)));
}

#[test]
fn other_status_fails() {
    assert!(matches!(decide(&Attempt::Status(403, "no".into())), Next::Fail(_)));
}

#[test]
fn transient_network_retries_but_hard_errors_fail() {
    assert!(matches!(
        decide(&Attempt::Network("Connection refused".into())),
        Next::Retry(_)
    ));
    assert!(matches!(
        decide(&Attempt::Network("bad certificate".into())),
        Next::Fail(_)
    ));
}

#[test]
fn clip_bounds_body_length() {
    let long = "x".repeat(1000);
    assert_eq!(clip(&long).len(), 300);
}

#[test]
fn short_bodies_are_kept_whole() {
    assert_eq!(clip("short \u{e9}"), "short \u{e9}");
    let even = "\u{e9}".repeat(200);
    assert_eq!(clip(&even), "\u{e9}".repeat(150));
}

#[test]
fn decisions_carry_their_messages() {
    let text = |n: Next| match n {
        Next::Done => "done".to_string(),
        Next::Retry(m) => format!("retry {m}"),
        Next::TrimRetry(m) => format!("trim {m}"),
        Next::Fail(m) => format!("fail {m}"),
    };
    assert_eq!(text(decide(&Attempt::Status(400, "b".into()))), "fail HTTP 400: b");
    assert_eq!(text(decide(&Attempt::Status(502, "b".into()))), "retry HTTP 502: b");
    assert_eq!(text(decide(&Attempt::Status(503, "b".into()))), "fail HTTP 503: b");
    assert_eq!(
        text(decide(&Attempt::Status(400, "prompt is too long".into()))),
        "trim context trimmed after prompt-too-long"
    );
    assert_eq!(
        text(decide(&Attempt::Network("NetworkError x".into()))),
        "retry HTTP error: NetworkError x"
    );
    assert_eq!(text(decide(&Attempt::Network("x".into()))), "fail HTTP error: x");
    assert_eq!(parse_error("eof"), "Parse error: eof");
}

#[test]
fn settings_have_defaults() {
    assert_eq!(
        llm_url(None),
        "http://llm.aispec-system.svc.cluster.local/anthropic/v1/messages"
    );
    assert_eq!(llm_model(None, "d"), "d");
    assert_eq!(llm_url(Some("http://u".into())), "http://u");
    assert_eq!(llm_model(Some("m".into()), "d"), "m");
    assert_eq!(
        llm_request(None),
        vec![("Content-Type".to_string(), "application/json".to_string())]
    );
    assert_eq!(
        llm_request(Some("k".into()))[1],
        ("Authorization".to_string(), "Bearer k".to_string())
    );
}

#[test]
fn a_call_is_tried_three_times_at_most() {
    let mut calling = Calling::new();
    let mut messages = Json::array();
    assert!(!calling.pauses());
    for n in 0..2 {
        let next = calling.next(
            &Anthropic,
            &mut messages,
            Attempt::Status(502, format!("attempt {n}")),
        );
        assert!(next.is_none());
        assert!(calling.pauses());
    }
    let last = calling.next(&Anthropic, &mut messages, Attempt::Network("Connection reset".into()));
    assert_eq!(last.unwrap().err().unwrap(), "HTTP error: Connection reset");
}

#[test]
fn an_over_long_prompt_trims_the_history_and_tries_again() {
    let mut calling = Calling::new();
    let mut messages = Json::parse(
        "[{\"role\":\"user\",\"content\":[{\"type\":\"tool_result\",\"tool_use_id\":\"a\",\
         \"content\":\"long output\"}]}]",
    )
    .unwrap();
    let next = calling.next(
        &Anthropic,
        &mut messages,
        Attempt::Status(400, "prompt is too long".into()),
    );
    assert!(next.is_none());
    assert!(messages.print().contains("output removed"));
    let done = calling.next(&Anthropic, &mut messages, Attempt::Answer(Json::count(7)));
    assert_eq!(done.unwrap().ok().unwrap().print(), "7");
}

#[test]
fn a_hard_error_ends_a_call_at_once() {
    let mut calling = Calling::new();
    let mut messages = Json::array();
    let next = calling.next(&Anthropic, &mut messages, Attempt::Status(403, "no".into()));
    assert_eq!(next.unwrap().err().unwrap(), "HTTP 403: no");
}

#[test]
fn single_questions_are_asked_exactly() {
    let req = single_call("m", Json::text("block"), "what?");
    assert_eq!(
        req.print(),
        "{\"max_tokens\":4096,\"messages\":[{\"content\":[\"block\",{\"text\":\"what?\",\
         \"type\":\"text\"}],\"role\":\"user\"}],\"model\":\"m\"}"
    );
}

#[test]
fn single_questions_are_answered() {
    let ask = |r: Reply| Asking::new().next(r);
    let answer = Json::parse("{\"content\":[{\"text\":\"found\"}]}").unwrap();
    assert_eq!(ask(Reply::Answer(answer)).as_deref(), Some("found"));
    assert_eq!(ask(Reply::Answer(Json::object())).as_deref(), Some("No response"));
    assert_eq!(ask(Reply::Unreadable("eof".into())).as_deref(), Some("Parse error: eof"));
    assert_eq!(ask(Reply::Error("refused".into())).as_deref(), Some("HTTP error: refused"));
    assert_eq!(ask(Reply::Error("Connection refused".into())), None);

    let mut asking = Asking::new();
    assert!(!asking.pauses());
    assert_eq!(asking.next(Reply::BadGateway("gone".into())), None);
    assert!(asking.pauses());
    assert_eq!(asking.next(Reply::BadGateway("gone".into())), None);
    assert_eq!(
        asking.next(Reply::BadGateway("gone".into())).as_deref(),
        Some("HTTP error: 502 gone")
    );
}
