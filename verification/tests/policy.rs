use agent::job::{FailureKind, Status};
use agent::policy::{root_policy, sub_policy, Control, Ending, Progress};

fn progress(iter: usize, max_iter: usize, budget: usize) -> Progress<'static> {
    Progress {
        iter,
        max_iter,
        budget_remaining: budget,
        steps_taken: iter,
        last_text: "",
        checks: &[],
    }
}

#[test]
fn should_continue_respects_iter_and_budget() {
    let p = root_policy();
    assert!(p.control.should_continue(&progress(0, 5, 10)));
    assert!(!p.control.should_continue(&progress(5, 5, 10))); // iter cap
    assert!(!p.control.should_continue(&progress(1, 5, 0))); // budget cap
}

#[test]
fn is_done_when_no_tool_calls() {
    let p = root_policy();
    assert!(p.control.is_done(false));
    assert!(!p.control.is_done(true));
}

#[test]
fn classify_covers_every_ending() {
    let p = root_policy();
    let pr = progress(1, 5, 5);
    assert_eq!(p.control.classify(Ending::Stopped, &pr), (Status::Success, None));
    assert_eq!(
        p.control.classify(Ending::IterExhausted, &pr),
        (Status::Partial, Some(FailureKind::BudgetExceeded))
    );
    assert_eq!(
        p.control.classify(Ending::BudgetExhausted, &pr),
        (Status::Partial, Some(FailureKind::BudgetExceeded))
    );
    assert_eq!(
        p.control.classify(Ending::Failed, &pr),
        (Status::Failure, Some(FailureKind::RetrievalFailed))
    );
    assert_eq!(
        p.control.classify(Ending::Blocked, &pr),
        (Status::Blocked, Some(FailureKind::ToolUnavailable))
    );
}

#[test]
fn check_reports_no_issues_by_default() {
    let p = root_policy();
    assert!(p.control.check(&progress(1, 5, 5)).is_empty());
}

#[test]
fn root_and_sub_differ_only_in_delegation() {
    let root = root_policy();
    let sub = sub_policy();
    assert!(root.may_delegate);
    assert!(!sub.may_delegate);
    // Same control behaviour otherwise.
    let pr = progress(2, 5, 3);
    assert_eq!(root.control.should_continue(&pr), sub.control.should_continue(&pr));
    assert_eq!(
        root.control.classify(Ending::Stopped, &pr),
        sub.control.classify(Ending::Stopped, &pr)
    );
}
