use agent::job::{new_id, Effort, FailureKind, Job, JobResult, Persistence, Status, Step};
use agent::json::Json;

#[test]
fn ids_are_unique_and_time_ordered() {
    let a = new_id();
    let b = new_id();
    assert_ne!(a, b);
    // UUIDv7 is time-ordered: a issued before b sorts before b.
    assert!(a < b);
}

#[test]
fn ids_have_the_form_of_a_version_7_uuid() {
    let a = new_id();
    assert_eq!(a.len(), 36);
    for (i, c) in a.chars().enumerate() {
        if i == 8 || i == 13 || i == 18 || i == 23 {
            assert_eq!(c, '-');
        } else {
            assert!(c.is_ascii_digit() || ('a'..='f').contains(&c));
        }
    }
    assert_eq!(a.chars().nth(14), Some('7'));
    assert!("89ab".contains(a.chars().nth(19).unwrap()));
}

#[test]
fn persistence_parses_with_ephemeral_default() {
    assert_eq!(Persistence::parse(Some("durable")), Persistence::Durable);
    assert_eq!(Persistence::parse(Some("ephemeral")), Persistence::Ephemeral);
    assert_eq!(Persistence::parse(None), Persistence::Ephemeral);
    assert_eq!(Persistence::parse(Some("garbage")), Persistence::Ephemeral);
}

#[test]
fn effort_parses_with_off_default() {
    assert_eq!(Effort::parse(Some("none")), Effort::Off);
    assert_eq!(Effort::parse(Some("low")), Effort::Low);
    assert_eq!(Effort::parse(Some("medium")), Effort::Medium);
    assert_eq!(Effort::parse(Some("high")), Effort::High);
    assert_eq!(Effort::parse(Some("garbage")), Effort::Off);
    assert_eq!(Effort::parse(None), Effort::Off);
}

#[test]
fn words_spell_what_they_stand_for() {
    for f in [
        FailureKind::PreconditionUnmet,
        FailureKind::ToolUnavailable,
        FailureKind::CheckFailed,
        FailureKind::BudgetExceeded,
        FailureKind::RetrievalFailed,
        FailureKind::AmbiguousRequest,
    ] {
        assert_eq!(FailureKind::from_word(f.word()), Some(f));
    }
    for s in [Status::Success, Status::Partial, Status::Failure, Status::Blocked] {
        assert_eq!(Status::from_word(s.word()), Some(s));
    }
    assert_eq!(FailureKind::BudgetExceeded.word(), "budget_exceeded");
    assert_eq!(Status::from_word("Success"), None);
    assert_eq!(Persistence::from_word("garbage"), None);
    assert_eq!(Effort::from_word("garbage"), None);
}

#[test]
fn job_round_trips_through_json() {
    let job = Job::new(
        "do the thing".into(),
        vec!["must be idempotent".into()],
        Persistence::Durable,
        25,
    );
    let s = job.json().compact();
    let back = Job::of_json(&Json::parse(&s).unwrap()).unwrap();
    assert_eq!(back.task, job.task);
    assert_eq!(back.checks, job.checks);
    assert_eq!(back.persistence, Persistence::Durable);
    assert_eq!(back.max_iter, 25);
}

#[test]
fn jobs_are_written_in_declared_order() {
    let mut job = Job::new("t".into(), vec!["c".into()], Persistence::Durable, 7);
    job.id = "i".into();
    job.effort = Effort::High;
    job.steps = vec![
        Step { description: "one".into(), tool_hint: None },
        Step { description: "two".into(), tool_hint: Some("run_shell".into()) },
    ];
    assert_eq!(
        job.json().compact(),
        "{\"id\":\"i\",\"task\":\"t\",\"steps\":[{\"description\":\"one\"},\
         {\"description\":\"two\",\"tool_hint\":\"run_shell\"}],\"checks\":[\"c\"],\
         \"persistence\":\"durable\",\"max_iter\":7,\"effort\":\"high\"}"
    );
    let back = Job::of_json(&Json::parse(&job.json().compact()).unwrap()).unwrap();
    assert_eq!(back.json().compact(), job.json().compact());
}

#[test]
fn missing_members_of_a_job_take_their_defaults() {
    let v = Json::parse("{\"id\":\"i\",\"task\":\"t\",\"max_iter\":3,\"other\":true}").unwrap();
    let job = Job::of_json(&v).unwrap();
    assert!(job.steps.is_empty());
    assert!(job.checks.is_empty());
    assert_eq!(job.persistence, Persistence::Ephemeral);
    assert_eq!(job.effort, Effort::Off);
    assert_eq!(job.max_iter, 3);
}

#[test]
fn malformed_jobs_are_rejected() {
    for text in [
        "{\"task\":\"t\",\"max_iter\":3}",
        "{\"id\":\"i\",\"task\":\"t\"}",
        "{\"id\":\"i\",\"task\":\"t\",\"max_iter\":-1}",
        "{\"id\":\"i\",\"task\":\"t\",\"max_iter\":1.5}",
        "{\"id\":\"i\",\"task\":\"t\",\"max_iter\":3,\"checks\":[1]}",
        "{\"id\":\"i\",\"task\":\"t\",\"max_iter\":3,\"checks\":null}",
        "{\"id\":\"i\",\"task\":\"t\",\"max_iter\":3,\"persistence\":\"forever\"}",
        "{\"id\":\"i\",\"task\":\"t\",\"max_iter\":3,\"effort\":\"huge\"}",
        "{\"id\":\"i\",\"task\":\"t\",\"max_iter\":3,\"steps\":[{}]}",
        "[]",
    ] {
        assert!(Job::of_json(&Json::parse(text).unwrap()).is_none(), "{text}");
    }
}

#[test]
fn result_constructors_are_consistent() {
    assert!(JobResult::success("i", "out".into(), 3).is_consistent());
    assert!(JobResult::partial("i", "half".into(), FailureKind::BudgetExceeded, 5).is_consistent());
    assert!(JobResult::failure("i", FailureKind::ToolUnavailable, 1).is_consistent());
    assert!(JobResult::blocked("i", FailureKind::PreconditionUnmet, 0).is_consistent());
}

#[test]
fn inconsistent_results_are_flagged() {
    // Success must carry output and no failure.
    let bad = JobResult {
        id: "i".into(),
        status: Status::Success,
        output: None,
        failure: Some(FailureKind::CheckFailed),
        steps_taken: 1,
        issues: vec!["nope".into()],
    };
    assert!(!bad.is_consistent());
}

#[test]
fn result_json_uses_lowercase_status() {
    let r = JobResult::success("i", "out".into(), 1);
    let s = r.to_json();
    assert!(s.contains("\"status\":\"success\""));
}

#[test]
fn result_json_is_exact_and_reads_back() {
    let r = JobResult::partial("i", "say \"hi\"\n".into(), FailureKind::BudgetExceeded, 5);
    assert_eq!(
        r.to_json(),
        "{\"id\":\"i\",\"status\":\"partial\",\"output\":\"say \\\"hi\\\"\\n\",\
         \"failure\":\"budget_exceeded\",\"steps_taken\":5,\"issues\":[]}"
    );
    let back = JobResult::of_json(&Json::parse(&r.to_json()).unwrap()).unwrap();
    assert_eq!(back.output, r.output);
    assert_eq!(back.failure, r.failure);
    assert_eq!(back.steps_taken, 5);
    let b = JobResult::blocked("j", FailureKind::ToolUnavailable, 0);
    assert_eq!(
        b.to_json(),
        "{\"id\":\"j\",\"status\":\"blocked\",\"failure\":\"tool_unavailable\",\
         \"steps_taken\":0,\"issues\":[]}"
    );
}
