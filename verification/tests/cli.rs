use agent::cli::{
    emission, env_usize, parse_args, task_of, DEFAULT_MAX_FANOUT, DEFAULT_MAX_ITER,
    DEFAULT_TOOL_BUDGET,
};
use agent::job::{FailureKind, JobResult};

fn args(list: &[&str]) -> Vec<String> {
    list.iter().map(|s| s.to_string()).collect()
}

#[test]
fn arguments_come_in_order() {
    let a = parse_args(&args(&["agent", "task", "model", "7"]));
    assert_eq!(a.task.as_deref(), Some("task"));
    assert_eq!(a.model.as_deref(), Some("model"));
    assert_eq!(a.max_iter, 7);
    assert_eq!(a.thread_id, None);
    let b = parse_args(&args(&["agent", "task"]));
    assert_eq!(b.model, None);
    assert_eq!(b.max_iter, 50);
    assert_eq!(parse_args(&args(&["agent", "t", "m", "many"])).max_iter, DEFAULT_MAX_ITER);
    assert_eq!(parse_args(&args(&["agent"])).task, None);
    assert_eq!(parse_args(&args(&[])).task, None);
}

#[test]
fn the_thread_may_stand_anywhere() {
    for list in [
        ["agent", "--thread", "t", "task", "model"],
        ["agent", "task", "--thread", "t", "model"],
        ["agent", "task", "model", "--thread", "t"],
    ] {
        let a = parse_args(&args(&list));
        assert_eq!(a.thread_id.as_deref(), Some("t"));
        assert_eq!(a.task.as_deref(), Some("task"));
        assert_eq!(a.model.as_deref(), Some("model"));
    }
    let last = parse_args(&args(&["agent", "task", "--thread"]));
    assert_eq!(last.thread_id, None);
    assert_eq!(last.task.as_deref(), Some("task"));
    let twice = parse_args(&args(&["agent", "--thread", "a", "--thread", "b"]));
    assert_eq!(twice.thread_id.as_deref(), Some("a"));
    assert_eq!(twice.task.as_deref(), Some("--thread"));
}

#[test]
fn settings_are_numbers_or_their_defaults() {
    assert_eq!(env_usize(None, DEFAULT_TOOL_BUDGET), 200);
    assert_eq!(env_usize(Some("12"), DEFAULT_TOOL_BUDGET), 12);
    assert_eq!(env_usize(Some("+12"), 1), 12);
    assert_eq!(env_usize(Some("0"), 1), 0);
    assert_eq!(env_usize(Some(""), DEFAULT_MAX_FANOUT), 8);
    assert_eq!(env_usize(Some("+"), 1), 1);
    assert_eq!(env_usize(Some("-1"), 1), 1);
    assert_eq!(env_usize(Some(" 1"), 2), 2);
    assert_eq!(env_usize(Some("99999999999999999999999"), 1), 1);
    let max = format!("{}", usize::MAX);
    assert_eq!(env_usize(Some(&max), 1), usize::MAX);
}

#[test]
fn the_task_comes_from_the_arguments_or_the_input() {
    assert_eq!(task_of(Some("t".into()), "ignored").as_deref(), Some("t"));
    assert_eq!(task_of(None, "  from input \n").as_deref(), Some("from input"));
    assert_eq!(task_of(None, " \n"), None);
    assert_eq!(task_of(Some("".into()), "ignored"), None);
    assert_eq!(task_of(Some(" ".into()), ""), Some(" ".to_string()));
}

#[test]
fn results_are_printed_under_their_topic() {
    assert_eq!(
        emission(&JobResult::success("i", "text".into(), 1)).as_deref(),
        Some("ai_result\ntext\n")
    );
    assert_eq!(
        emission(&JobResult::partial("i", "half".into(), FailureKind::BudgetExceeded, 1)).as_deref(),
        Some("ai_result\nhalf\n")
    );
    assert_eq!(emission(&JobResult::failure("i", FailureKind::CheckFailed, 1)), None);
    assert_eq!(emission(&JobResult::blocked("i", FailureKind::CheckFailed, 1)), None);
}
