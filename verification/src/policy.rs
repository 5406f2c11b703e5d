//! Injected control for the loop. The loop itself contains no role-specific
//! branching: it consults a `Policy` to decide whether to keep going, whether it has
//! finished, how to label the outcome, and whether delegation is permitted. A top-level
//! run and a sub-agent run use the same loop with different policies.

use vstd::prelude::*;

use crate::job::{FailureKind, Status};
use crate::text::texts;

verus! {

/// A read-only view of the loop's progress, passed to the control functions.
pub struct Progress<'a> {
    pub iter: usize,
    pub max_iter: usize,
    pub budget_remaining: usize,
    pub steps_taken: usize,
    pub last_text: &'a str,
    pub checks: &'a [String],
}

/// What a loop's progress is.
#[verifier::ext_equal]
pub struct ProgressView {
    pub iter: usize,
    pub max_iter: usize,
    pub budget_remaining: usize,
    pub steps_taken: usize,
    pub last_text: Seq<char>,
    pub checks: Seq<Seq<char>>,
}

impl<'a> View for Progress<'a> {
    type V = ProgressView;

    open spec fn view(&self) -> ProgressView {
        ProgressView {
            iter: self.iter,
            max_iter: self.max_iter,
            budget_remaining: self.budget_remaining,
            steps_taken: self.steps_taken,
            last_text: self.last_text@,
            checks: texts(self.checks@),
        }
    }
}

/// How a run concluded — the loop reports one of these and the policy turns it
/// into a status.
#[derive(Debug, Clone, Copy, PartialEq, Eq, Structural)]
pub enum Ending {
    /// Model produced no tool calls: natural completion.
    Stopped,
    /// Reached the per-run iteration cap.
    IterExhausted,
    /// Reached this run's tool-call budget cap.
    BudgetExhausted,
    /// Transport or model error.
    Failed,
    /// Could not proceed (tool/precondition unavailable).
    Blocked,
}

/// The decisions of a policy. Each method gives what the function before it states.
pub trait Control {
    /// Keep looping? (iteration + budget guard)
    spec fn continues(&self, p: ProgressView) -> bool;

    /// Has the run reached a natural end this turn?
    spec fn done(&self, had_tool_calls: bool) -> bool;

    /// Label a conclusion.
    spec fn label(&self, end: Ending, p: ProgressView) -> (Status, Option<FailureKind>);

    /// Requirements not satisfied by the run (empty when all hold).
    spec fn unmet(&self, p: ProgressView) -> Seq<Seq<char>>;

    /// Keep looping? (iteration + budget guard)
    fn should_continue(&self, p: &Progress) -> (r: bool)
        ensures
            r == self.continues(p@),
    ;

    /// Has the run reached a natural end this turn?
    fn is_done(&self, had_tool_calls: bool) -> (r: bool)
        ensures
            r == self.done(had_tool_calls),
    ;

    /// Label a conclusion.
    fn classify(&self, end: Ending, p: &Progress) -> (r: (Status, Option<FailureKind>))
        ensures
            r == self.label(end, p@),
    ;

    /// Requirements not satisfied by the run (empty when all hold).
    fn check(&self, p: &Progress) -> (r: Vec<String>)
        ensures
            texts(r@) == self.unmet(p@),
    ;
}

/// The injectable control bundle.
pub struct Policy<C: Control> {
    /// Whether this run may hand work to a sub-agent.
    pub may_delegate: bool,
    /// The decisions of the run.
    pub control: C,
}

/// The decisions that runs take unless others are injected.
#[derive(Debug, Clone, Copy, PartialEq, Eq, Structural)]
pub struct Standard;

/// Both the iterations and the tool calls are short of their caps.
pub open spec fn within_caps(p: ProgressView) -> bool {
    p.iter < p.max_iter && p.budget_remaining > 0
}

/// The label of each ending.
pub open spec fn standard_label(end: Ending) -> (Status, Option<FailureKind>) {
    match end {
        Ending::Stopped => (Status::Success, None),
        Ending::IterExhausted => (Status::Partial, Some(FailureKind::BudgetExceeded)),
        Ending::BudgetExhausted => (Status::Partial, Some(FailureKind::BudgetExceeded)),
        Ending::Failed => (Status::Failure, Some(FailureKind::RetrievalFailed)),
        Ending::Blocked => (Status::Blocked, Some(FailureKind::ToolUnavailable)),
    }
}

pub fn default_should_continue(p: &Progress) -> (r: bool)
    ensures
        r == within_caps(p@),
{
    p.iter < p.max_iter && p.budget_remaining > 0
}

pub fn default_is_done(had_tool_calls: bool) -> (r: bool)
    ensures
        r == !had_tool_calls,
{
    !had_tool_calls
}

pub fn default_classify(end: Ending, _p: &Progress) -> (r: (Status, Option<FailureKind>))
    ensures
        r == standard_label(end),
{
    match end {
        Ending::Stopped => (Status::Success, None),
        Ending::IterExhausted => (Status::Partial, Some(FailureKind::BudgetExceeded)),
        Ending::BudgetExhausted => (Status::Partial, Some(FailureKind::BudgetExceeded)),
        Ending::Failed => (Status::Failure, Some(FailureKind::RetrievalFailed)),
        Ending::Blocked => (Status::Blocked, Some(FailureKind::ToolUnavailable)),
    }
}

/// Structural runs report no unmet requirements; a richer check can be injected.
pub fn no_issues(_p: &Progress) -> (r: Vec<String>)
    ensures
        texts(r@) == Seq::<Seq<char>>::empty(),
{
    let r: Vec<String> = Vec::new();
    assert(texts(r@) =~= Seq::<Seq<char>>::empty());
    r
}

impl Control for Standard {
    open spec fn continues(&self, p: ProgressView) -> bool {
        within_caps(p)
    }

    open spec fn done(&self, had_tool_calls: bool) -> bool {
        !had_tool_calls
    }

    open spec fn label(&self, end: Ending, p: ProgressView) -> (Status, Option<FailureKind>) {
        standard_label(end)
    }

    open spec fn unmet(&self, p: ProgressView) -> Seq<Seq<char>> {
        seq![]
    }

    fn should_continue(&self, p: &Progress) -> (r: bool) {
        default_should_continue(p)
    }

    fn is_done(&self, had_tool_calls: bool) -> (r: bool) {
        default_is_done(had_tool_calls)
    }

    fn classify(&self, end: Ending, p: &Progress) -> (r: (Status, Option<FailureKind>)) {
        default_classify(end, p)
    }

    fn check(&self, p: &Progress) -> (r: Vec<String>) {
        no_issues(p)
    }
}

/// Bundle for a top-level run: may delegate.
pub fn root_policy() -> (r: Policy<Standard>)
    ensures
        r == (Policy { may_delegate: true, control: Standard }),
{
    Policy { may_delegate: true, control: Standard }
}

/// Bundle for a sub-agent run: identical, but may not delegate.
pub fn sub_policy() -> (r: Policy<Standard>)
    ensures
        r == (Policy { may_delegate: false, control: Standard }),
{
    Policy { may_delegate: false, ..root_policy() }
}

// ── Laws ───────────────────────────────────────────────────────────────────────

/// The standard decisions: a run goes on exactly while it has iterations and tool calls left;
/// it is done exactly when the model makes no calls; stopping so is a success, running out of
/// either allowance a part of one, a failed call to the model a failure and anything that
/// stands in the way a block, each for its own reason; and no requirement counts as unmet.
pub proof fn standard_decisions(p: ProgressView, had_tool_calls: bool)
    ensures
        Standard.continues(p) <==> p.iter < p.max_iter && 0 < p.budget_remaining,
        Standard.done(had_tool_calls) <==> !had_tool_calls,
        Standard.label(Ending::Stopped, p).0 == Status::Success,
        Standard.label(Ending::Stopped, p).1 is None,
        Standard.label(Ending::IterExhausted, p).0 == Status::Partial,
        Standard.label(Ending::IterExhausted, p).1 == Some(FailureKind::BudgetExceeded),
        Standard.label(Ending::BudgetExhausted, p).0 == Status::Partial,
        Standard.label(Ending::BudgetExhausted, p).1 == Some(FailureKind::BudgetExceeded),
        Standard.label(Ending::Failed, p).0 == Status::Failure,
        Standard.label(Ending::Failed, p).1 == Some(FailureKind::RetrievalFailed),
        Standard.label(Ending::Blocked, p).0 == Status::Blocked,
        Standard.label(Ending::Blocked, p).1 == Some(FailureKind::ToolUnavailable),
        Standard.unmet(p).len() == 0,
{
}

} // verus!
