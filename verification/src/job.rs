//! Work handed to a sub-agent and the structured result it returns.
//!
//! A `Job` is a self-contained unit of work the top-level loop can delegate to a
//! nested loop running in its own isolated context. The nested loop reports back a
//! typed `JobResult` instead of free-form prose, so the caller can react to the
//! outcome programmatically.

use vstd::prelude::*;

use crate::json::{
    escapes_nothing, layout_of, layouts, row_texts, text_row, Json, JsonView, Layout, NumView,
};
use crate::parts::{
    find_part, fits, has_at_most, opt_text_of, part, row_takes, size_of_part, text_of, texts_of,
    texts_read_back, word_of, Found, Part,
};
use crate::text::{has, joined, joined_has, occurs_at, one_line, same, texts};

verus! {

// ── Ids ────────────────────────────────────────────────────────────────────────

/// A digit, or a letter from `a` to `f`.
pub open spec fn lower_hex(c: char) -> bool {
    ('0' <= c <= '9') || ('a' <= c <= 'f')
}

/// The form of a version 7 UUID: 36 characters, hyphens at four places, lower-case hex
/// digits elsewhere, and the version and the variant at their places.
pub open spec fn uuid_v7_form(s: Seq<char>) -> bool {
    &&& s.len() == 36
    &&& forall|i: int|
        0 <= i < 36 ==> if i == 8 || i == 13 || i == 18 || i == 23 {
            s[i] == '-'
        } else {
            lower_hex(s[i])
        }
    &&& s[14] == '7'
    &&& s[19] == '8' || s[19] == '9' || s[19] == 'a' || s[19] == 'b'
}

/// Generate a fresh, time-ordered job id (UUIDv7).
///
/// Calls `uuid::Uuid::now_v7` and its `to_string`. Claims only the form of the text: which
/// id comes out, and that it differs from the ids before it, rests on the clock and on
/// chance. The call does not return where the machine's clock stands before 1970 or where the
/// machine gives no random bytes.
#[verifier::external_body]
pub fn new_id() -> (r: String)
    ensures
        uuid_v7_form(r@),
{
    uuid::Uuid::now_v7().to_string()
}

// ── Words ──────────────────────────────────────────────────────────────────────

/// How long a sub-agent's own state should live.
#[derive(Debug, Clone, Copy, PartialEq, Eq, Structural)]
pub enum Persistence {
    /// No own persistence; re-run from scratch if interrupted.
    Ephemeral,
    /// Persist progress so it can resume after a restart.
    Durable,
}

impl Persistence {
    /// The word for it.
    pub open spec fn spelled(self) -> Seq<char> {
        match self {
            Persistence::Ephemeral => "ephemeral"@,
            Persistence::Durable => "durable"@,
        }
    }

    /// What a tool argument asks for: `Durable` for that word alone.
    pub open spec fn asked(s: Option<Seq<char>>) -> Persistence {
        if s == Some("durable"@) {
            Persistence::Durable
        } else {
            Persistence::Ephemeral
        }
    }

    /// What a word spells.
    pub open spec fn of_word(s: Seq<char>) -> Option<Persistence> {
        if s == "ephemeral"@ {
            Some(Persistence::Ephemeral)
        } else if s == "durable"@ {
            Some(Persistence::Durable)
        } else {
            None
        }
    }

    /// Parse a tool argument value; defaults to `Ephemeral`.
    pub fn parse(s: Option<&str>) -> (r: Persistence)
        ensures
            r == Persistence::asked(
                match s {
                    Some(t) => Some(t@),
                    None => None,
                },
            ),
    {
        match s {
            Some(t) => if same(t, "durable") {
                Persistence::Durable
            } else {
                Persistence::Ephemeral
            },
            None => Persistence::Ephemeral,
        }
    }

    /// The word for it.
    pub fn word(self) -> (r: &'static str)
        ensures
            r@ == self.spelled(),
    {
        match self {
            Persistence::Ephemeral => "ephemeral",
            Persistence::Durable => "durable",
        }
    }

    /// What a word spells.
    pub fn from_word(s: &str) -> (r: Option<Persistence>)
        ensures
            r == Persistence::of_word(s@),
    {
        if same(s, "ephemeral") {
            Some(Persistence::Ephemeral)
        } else if same(s, "durable") {
            Some(Persistence::Durable)
        } else {
            None
        }
    }
}

/// The persistence of a job that does not name one.
pub fn default_persistence() -> (r: Persistence)
    ensures
        r == Persistence::Ephemeral,
{
    Persistence::Ephemeral
}

/// How much extended reasoning a run asks of the model. `Off` asks for none.
#[derive(Debug, Clone, Copy, PartialEq, Eq, Structural)]
pub enum Effort {
    Off,
    Low,
    Medium,
    High,
}

impl Effort {
    /// The word for it.
    pub open spec fn spelled(self) -> Seq<char> {
        match self {
            Effort::Off => "none"@,
            Effort::Low => "low"@,
            Effort::Medium => "medium"@,
            Effort::High => "high"@,
        }
    }

    /// What a word spells.
    pub open spec fn of_word(s: Seq<char>) -> Option<Effort> {
        if s == "none"@ {
            Some(Effort::Off)
        } else if s == "low"@ {
            Some(Effort::Low)
        } else if s == "medium"@ {
            Some(Effort::Medium)
        } else if s == "high"@ {
            Some(Effort::High)
        } else {
            None
        }
    }

    /// What a tool argument asks for: `Off` where it is no word for an effort.
    pub open spec fn asked(s: Option<Seq<char>>) -> Effort {
        match s {
            Some(t) => match Effort::of_word(t) {
                Some(e) => e,
                None => Effort::Off,
            },
            None => Effort::Off,
        }
    }

    /// Parse a tool argument value; defaults to `Off`.
    pub fn parse(s: Option<&str>) -> (r: Effort)
        ensures
            r == Effort::asked(
                match s {
                    Some(t) => Some(t@),
                    None => None,
                },
            ),
    {
        match s {
            Some(t) => match Effort::from_word(t) {
                Some(e) => e,
                None => Effort::Off,
            },
            None => Effort::Off,
        }
    }

    /// The word for it.
    pub fn word(self) -> (r: &'static str)
        ensures
            r@ == self.spelled(),
    {
        match self {
            Effort::Off => "none",
            Effort::Low => "low",
            Effort::Medium => "medium",
            Effort::High => "high",
        }
    }

    /// What a word spells.
    pub fn from_word(s: &str) -> (r: Option<Effort>)
        ensures
            r == Effort::of_word(s@),
    {
        if same(s, "none") {
            Some(Effort::Off)
        } else if same(s, "low") {
            Some(Effort::Low)
        } else if same(s, "medium") {
            Some(Effort::Medium)
        } else if same(s, "high") {
            Some(Effort::High)
        } else {
            None
        }
    }
}

/// Terminal disposition of a job.
#[derive(Debug, Clone, Copy, PartialEq, Eq, Structural)]
pub enum Status {
    Success,
    Partial,
    Failure,
    Blocked,
}

impl Status {
    /// The word for it.
    pub open spec fn spelled(self) -> Seq<char> {
        match self {
            Status::Success => "success"@,
            Status::Partial => "partial"@,
            Status::Failure => "failure"@,
            Status::Blocked => "blocked"@,
        }
    }

    /// What a word spells.
    pub open spec fn of_word(s: Seq<char>) -> Option<Status> {
        if s == "success"@ {
            Some(Status::Success)
        } else if s == "partial"@ {
            Some(Status::Partial)
        } else if s == "failure"@ {
            Some(Status::Failure)
        } else if s == "blocked"@ {
            Some(Status::Blocked)
        } else {
            None
        }
    }

    /// The word for it.
    pub fn word(self) -> (r: &'static str)
        ensures
            r@ == self.spelled(),
    {
        match self {
            Status::Success => "success",
            Status::Partial => "partial",
            Status::Failure => "failure",
            Status::Blocked => "blocked",
        }
    }

    /// What a word spells.
    pub fn from_word(s: &str) -> (r: Option<Status>)
        ensures
            r == Status::of_word(s@),
    {
        if same(s, "success") {
            Some(Status::Success)
        } else if same(s, "partial") {
            Some(Status::Partial)
        } else if same(s, "failure") {
            Some(Status::Failure)
        } else if same(s, "blocked") {
            Some(Status::Blocked)
        } else {
            None
        }
    }
}

/// Why a job did not fully succeed.
#[derive(Debug, Clone, Copy, PartialEq, Eq, Structural)]
pub enum FailureKind {
    PreconditionUnmet,
    ToolUnavailable,
    CheckFailed,
    BudgetExceeded,
    RetrievalFailed,
    AmbiguousRequest,
}

impl FailureKind {
    /// The word for it.
    pub open spec fn spelled(self) -> Seq<char> {
        match self {
            FailureKind::PreconditionUnmet => "precondition_unmet"@,
            FailureKind::ToolUnavailable => "tool_unavailable"@,
            FailureKind::CheckFailed => "check_failed"@,
            FailureKind::BudgetExceeded => "budget_exceeded"@,
            FailureKind::RetrievalFailed => "retrieval_failed"@,
            FailureKind::AmbiguousRequest => "ambiguous_request"@,
        }
    }

    /// What a word spells.
    pub open spec fn of_word(s: Seq<char>) -> Option<FailureKind> {
        if s == "precondition_unmet"@ {
            Some(FailureKind::PreconditionUnmet)
        } else if s == "tool_unavailable"@ {
            Some(FailureKind::ToolUnavailable)
        } else if s == "check_failed"@ {
            Some(FailureKind::CheckFailed)
        } else if s == "budget_exceeded"@ {
            Some(FailureKind::BudgetExceeded)
        } else if s == "retrieval_failed"@ {
            Some(FailureKind::RetrievalFailed)
        } else if s == "ambiguous_request"@ {
            Some(FailureKind::AmbiguousRequest)
        } else {
            None
        }
    }

    /// The word for it.
    pub fn word(self) -> (r: &'static str)
        ensures
            r@ == self.spelled(),
    {
        match self {
            FailureKind::PreconditionUnmet => "precondition_unmet",
            FailureKind::ToolUnavailable => "tool_unavailable",
            FailureKind::CheckFailed => "check_failed",
            FailureKind::BudgetExceeded => "budget_exceeded",
            FailureKind::RetrievalFailed => "retrieval_failed",
            FailureKind::AmbiguousRequest => "ambiguous_request",
        }
    }

    /// What a word spells.
    pub fn from_word(s: &str) -> (r: Option<FailureKind>)
        ensures
            r == FailureKind::of_word(s@),
    {
        if same(s, "precondition_unmet") {
            Some(FailureKind::PreconditionUnmet)
        } else if same(s, "tool_unavailable") {
            Some(FailureKind::ToolUnavailable)
        } else if same(s, "check_failed") {
            Some(FailureKind::CheckFailed)
        } else if same(s, "budget_exceeded") {
            Some(FailureKind::BudgetExceeded)
        } else if same(s, "retrieval_failed") {
            Some(FailureKind::RetrievalFailed)
        } else if same(s, "ambiguous_request") {
            Some(FailureKind::AmbiguousRequest)
        } else {
            None
        }
    }
}

/// Each word spells what it is the word for, and nothing else.
pub proof fn words_spell(p: Persistence, e: Effort, s: Status, f: FailureKind)
    ensures
        Persistence::of_word(p.spelled()) == Some(p),
        Persistence::asked(Some(p.spelled())) == p,
        Effort::of_word(e.spelled()) == Some(e),
        Effort::asked(Some(e.spelled())) == e,
        Status::of_word(s.spelled()) == Some(s),
        FailureKind::of_word(f.spelled()) == Some(f),
{
    reveal_strlit("ephemeral");
    reveal_strlit("durable");
    reveal_strlit("none");
    reveal_strlit("low");
    reveal_strlit("medium");
    reveal_strlit("high");
    reveal_strlit("success");
    reveal_strlit("partial");
    reveal_strlit("failure");
    reveal_strlit("blocked");
    reveal_strlit("precondition_unmet");
    reveal_strlit("tool_unavailable");
    reveal_strlit("check_failed");
    reveal_strlit("budget_exceeded");
    reveal_strlit("retrieval_failed");
    reveal_strlit("ambiguous_request");
    assert("ephemeral"@.len() == 9 && "ephemeral"@[0] == 'e');
    assert("durable"@.len() == 7 && "durable"@[0] == 'd');
    assert("none"@.len() == 4 && "none"@[0] == 'n');
    assert("low"@.len() == 3 && "low"@[0] == 'l');
    assert("medium"@.len() == 6 && "medium"@[0] == 'm');
    assert("high"@.len() == 4 && "high"@[0] == 'h');
    assert("success"@.len() == 7 && "success"@[0] == 's');
    assert("partial"@.len() == 7 && "partial"@[0] == 'p');
    assert("failure"@.len() == 7 && "failure"@[0] == 'f');
    assert("blocked"@.len() == 7 && "blocked"@[0] == 'b');
    assert("precondition_unmet"@.len() == 18 && "precondition_unmet"@[0] == 'p');
    assert("tool_unavailable"@.len() == 16 && "tool_unavailable"@[0] == 't');
    assert("check_failed"@.len() == 12 && "check_failed"@[0] == 'c');
    assert("budget_exceeded"@.len() == 15 && "budget_exceeded"@[0] == 'b');
    assert("retrieval_failed"@.len() == 16 && "retrieval_failed"@[0] == 'r');
    assert("ambiguous_request"@.len() == 17 && "ambiguous_request"@[0] == 'a');
}

// ── Jobs ───────────────────────────────────────────────────────────────────────

/// One high-level step describing intent (WHAT, not HOW).
#[derive(Debug)]
pub struct Step {
    pub description: String,
    pub tool_hint: Option<String>,
}

/// What a step is.
#[verifier::ext_equal]
pub struct StepView {
    pub description: Seq<char>,
    pub tool_hint: Option<Seq<char>>,
}

/// The characters of a text that may be missing.
pub open spec fn opt_text(s: Option<String>) -> Option<Seq<char>> {
    match s {
        Some(t) => Some(t@),
        None => None,
    }
}

impl View for Step {
    type V = StepView;

    open spec fn view(&self) -> StepView {
        StepView { description: self.description@, tool_hint: opt_text(self.tool_hint) }
    }
}

impl Clone for Step {
    fn clone(&self) -> (r: Step)
        ensures
            r@ == self@,
    {
        Step { description: self.description.clone(), tool_hint: copy_opt(&self.tool_hint) }
    }
}

/// A copy of a text that may be missing.
pub fn copy_opt(s: &Option<String>) -> (r: Option<String>)
    ensures
        opt_text(r) == opt_text(*s),
{
    match s {
        Some(t) => Some(t.clone()),
        None => None,
    }
}

/// A copy of a list of texts.
pub fn copy_texts(v: &Vec<String>) -> (r: Vec<String>)
    ensures
        texts(r@) == texts(v@),
{
    let mut out: Vec<String> = Vec::new();
    let mut i: usize = 0;
    while i < v.len()
        invariant
            i <= v@.len(),
            out@.len() == i,
            forall|k: int| 0 <= k < i ==> (#[trigger] out@[k])@ == v@[k]@,
        decreases v@.len() - i,
    {
        out.push(v[i].clone());
        i += 1;
    }
    assert(texts(out@) =~= texts(v@));
    out
}

/// The steps of a list, by their models.
pub open spec fn step_views(v: Seq<Step>) -> Seq<StepView> {
    v.map_values(|s: Step| s@)
}

/// A unit of delegated work.
#[derive(Debug)]
pub struct Job {
    pub id: String,
    pub task: String,
    pub steps: Vec<Step>,
    /// Requirements the result must satisfy.
    pub checks: Vec<String>,
    pub persistence: Persistence,
    pub max_iter: usize,
    /// Extended-reasoning effort of the run that does the job.
    pub effort: Effort,
}

/// What a job is.
#[verifier::ext_equal]
pub struct JobView {
    pub id: Seq<char>,
    pub task: Seq<char>,
    pub steps: Seq<StepView>,
    pub checks: Seq<Seq<char>>,
    pub persistence: Persistence,
    pub max_iter: usize,
    pub effort: Effort,
}

impl View for Job {
    type V = JobView;

    open spec fn view(&self) -> JobView {
        JobView {
            id: self.id@,
            task: self.task@,
            steps: step_views(self.steps@),
            checks: texts(self.checks@),
            persistence: self.persistence,
            max_iter: self.max_iter,
            effort: self.effort,
        }
    }
}

impl Clone for Job {
    fn clone(&self) -> (r: Job)
        ensures
            r@ == self@,
    {
        let mut steps: Vec<Step> = Vec::new();
        let mut i: usize = 0;
        while i < self.steps.len()
            invariant
                i <= self.steps@.len(),
                steps@.len() == i,
                forall|k: int| 0 <= k < i ==> (#[trigger] steps@[k])@ == self.steps@[k]@,
            decreases self.steps@.len() - i,
        {
            steps.push(self.steps[i].clone());
            i += 1;
        }
        assert(step_views(steps@) =~= step_views(self.steps@));
        Job {
            id: self.id.clone(),
            task: self.task.clone(),
            steps,
            checks: copy_texts(&self.checks),
            persistence: self.persistence,
            max_iter: self.max_iter,
            effort: self.effort,
        }
    }
}

impl Job {
    /// Build a job with a fresh id.
    pub fn new(task: String, checks: Vec<String>, persistence: Persistence, max_iter: usize) -> (r:
        Job)
        ensures
            uuid_v7_form(r.id@),
            r@ == (JobView {
                id: r.id@,
                task: task@,
                steps: seq![],
                checks: texts(checks@),
                persistence,
                max_iter,
                effort: Effort::Off,
            }),
    {
        let r = Job {
            id: new_id(),
            task,
            steps: Vec::new(),
            checks,
            persistence,
            max_iter,
            effort: Effort::Off,
        };
        assert(r@.steps =~= seq![]);
        r
    }
}

// ── Jobs in JSON ───────────────────────────────────────────────────────────────

impl StepView {
    /// The step as a JSON object; a missing hint is left out.
    pub open spec fn layout(self) -> Layout {
        let head = Layout::object().with("description"@, Layout::string(self.description));
        match self.tool_hint {
            Some(h) => head.with("tool_hint"@, Layout::string(h)),
            None => head,
        }
    }
}

impl JobView {
    /// The job as a JSON object, its members in the order in which they are written.
    pub open spec fn layout(self) -> Layout {
        Layout::object().with("id"@, Layout::string(self.id)).with(
            "task"@,
            Layout::string(self.task),
        ).with(
            "steps"@,
            Layout::Array(self.steps.map_values(|s: StepView| s.layout())),
        ).with("checks"@, text_row(self.checks)).with(
            "persistence"@,
            Layout::string(self.persistence.spelled()),
        ).with("max_iter"@, Layout::count(self.max_iter as u64)).with(
            "effort"@,
            Layout::string(self.effort.spelled()),
        )
    }
}

/// The step that is written down.
pub open spec fn step_in(l: Layout) -> Option<StepView> {
    match (text_of(part(l, "description"@, 0)), opt_text_of(part(l, "tool_hint"@, 1))) {
        (Some(description), Some(tool_hint)) if fits(l, 2) => Some(
            StepView { description, tool_hint },
        ),
        _ => None,
    }
}

/// The steps of a list that holds nothing else.
pub open spec fn steps_in_row(s: Seq<Layout>) -> Option<Seq<StepView>> {
    if forall|i: int| 0 <= i < s.len() ==> step_in(#[trigger] s[i]) is Some {
        Some(s.map_values(|l: Layout| step_in(l)->0))
    } else {
        None
    }
}

/// What a part holds as a list of steps; none where it is missing.
pub open spec fn steps_of(p: Part) -> Option<Seq<StepView>> {
    match p {
        Part::Missing => Some(seq![]),
        Part::Given(Layout::Array(s)) => steps_in_row(s),
        _ => None,
    }
}

/// What a part holds as a persistence; ephemeral where it is missing.
pub open spec fn persistence_of(p: Part) -> Option<Persistence> {
    match p {
        Part::Missing => Some(Persistence::Ephemeral),
        _ => match word_of(p) {
            Some(s) => Persistence::of_word(s),
            None => None,
        },
    }
}

/// What a part holds as an effort; off where it is missing.
pub open spec fn effort_of(p: Part) -> Option<Effort> {
    match p {
        Part::Missing => Some(Effort::Off),
        _ => match word_of(p) {
            Some(s) => Effort::of_word(s),
            None => None,
        },
    }
}

/// The job that is written down, as an object or as a list; `None` where a part is missing
/// that has no default, is there more than once, or does not hold what it should, and where a
/// list goes on behind the last part. Other members of an object do not matter.
pub open spec fn job_in(l: Layout) -> Option<JobView> {
    match (
        text_of(part(l, "id"@, 0)),
        text_of(part(l, "task"@, 1)),
        steps_of(part(l, "steps"@, 2)),
        texts_of(part(l, "checks"@, 3)),
        persistence_of(part(l, "persistence"@, 4)),
        size_of_part(part(l, "max_iter"@, 5)),
        effort_of(part(l, "effort"@, 6)),
    ) {
        (
            Some(id),
            Some(task),
            Some(steps),
            Some(checks),
            Some(persistence),
            Some(max_iter),
            Some(effort),
        ) if fits(l, 7) => Some(
            JobView { id, task, steps, checks, persistence, max_iter, effort },
        ),
        _ => None,
    }
}

/// What reading a step gave, by its model.
pub open spec fn step_shown(r: Option<Step>) -> Option<StepView> {
    match r {
        Some(s) => Some(s@),
        None => None,
    }
}

/// What reading a job gave, by its model.
pub open spec fn job_shown(r: Option<Job>) -> Option<JobView> {
    match r {
        Some(j) => Some(j@),
        None => None,
    }
}

impl Step {
    /// The step as a JSON object.
    pub fn json(&self) -> (r: Json)
        ensures
            layout_of(r) == self@.layout(),
    {
        let head = Json::object().with("description", Json::text(self.description.as_str()));
        match &self.tool_hint {
            Some(h) => head.with("tool_hint", Json::text(h.as_str())),
            None => head,
        }
    }

    /// The step that is written down.
    pub fn of_json(v: &Json) -> (r: Option<Step>)
        ensures
            step_shown(r) == step_in(layout_of(*v)),
    {
        let description = match find_part(v, "description", 0).text() {
            Some(s) => s,
            None => return None,
        };
        let tool_hint = match find_part(v, "tool_hint", 1).opt_text() {
            Some(h) => h,
            None => return None,
        };
        if has_at_most(v, 2) {
            Some(Step { description, tool_hint })
        } else {
            None
        }
    }
}

fn read_steps(found: &Found) -> (r: Option<Vec<Step>>)
    ensures
        match r {
            Some(s) => steps_of(found.part()) == Some(step_views(s@)),
            None => steps_of(found.part()) is None,
        },
{
    let mut out: Vec<Step> = Vec::new();
    assert(step_views(out@) =~= seq![]);
    match found {
        Found::Missing => Some(out),
        Found::Given(Json::Array(list)) => {
            let ghost all = layouts(list@);
            let mut i: usize = 0;
            while i < list.len()
                invariant
                    all == layouts(list@),
                    found.part() == Part::Given(Layout::Array(all)),
                    i <= list@.len(),
                    out@.len() == i,
                    forall|k: int| 0 <= k < i ==> step_in(#[trigger] all[k]) == Some(out@[k]@),
                decreases list@.len() - i,
            {
                assert(all[i as int] == layout_of(list@[i as int]));
                match Step::of_json(&list[i]) {
                    Some(s) => out.push(s),
                    None => {
                        assert(step_in(all[i as int]) is None);
                        return None;
                    },
                }
                i += 1;
            }
            assert(step_views(out@) =~= all.map_values(|l: Layout| step_in(l)->0));
            Some(out)
        },
        _ => None,
    }
}

fn read_persistence(found: &Found) -> (r: Option<Persistence>)
    ensures
        r == persistence_of(found.part()),
{
    match found {
        Found::Missing => Some(default_persistence()),
        _ => match found.word() {
            Some(s) => Persistence::from_word(s.as_str()),
            None => None,
        },
    }
}

fn read_effort(found: &Found) -> (r: Option<Effort>)
    ensures
        r == effort_of(found.part()),
{
    match found {
        Found::Missing => Some(Effort::Off),
        _ => match found.word() {
            Some(s) => Effort::from_word(s.as_str()),
            None => None,
        },
    }
}

impl Job {
    /// The job as a JSON object.
    pub fn json(&self) -> (r: Json)
        ensures
            layout_of(r) == self@.layout(),
    {
        let mut steps: Vec<Json> = Vec::new();
        let mut i: usize = 0;
        while i < self.steps.len()
            invariant
                i <= self.steps@.len(),
                steps@.len() == i,
                forall|k: int|
                    0 <= k < i ==> layout_of(#[trigger] steps@[k]) == self.steps@[k]@.layout(),
            decreases self.steps@.len() - i,
        {
            steps.push(self.steps[i].json());
            i += 1;
        }
        assert(layouts(steps@) =~= self@.steps.map_values(|s: StepView| s.layout()));
        Json::object().with("id", Json::text(self.id.as_str())).with(
            "task",
            Json::text(self.task.as_str()),
        ).with("steps", Json::Array(steps)).with("checks", Json::texts(&self.checks)).with(
            "persistence",
            Json::text(self.persistence.word()),
        ).with("max_iter", Json::count(self.max_iter as u64)).with(
            "effort",
            Json::text(self.effort.word()),
        )
    }

    /// The job that is written down.
    pub fn of_json(v: &Json) -> (r: Option<Job>)
        ensures
            job_shown(r) == job_in(layout_of(*v)),
    {
        let id = match find_part(v, "id", 0).text() {
            Some(s) => s,
            None => return None,
        };
        let task = match find_part(v, "task", 1).text() {
            Some(s) => s,
            None => return None,
        };
        let steps = match read_steps(&find_part(v, "steps", 2)) {
            Some(s) => s,
            None => return None,
        };
        let checks = match find_part(v, "checks", 3).texts() {
            Some(c) => c,
            None => return None,
        };
        let persistence = match read_persistence(&find_part(v, "persistence", 4)) {
            Some(p) => p,
            None => return None,
        };
        let max_iter = match find_part(v, "max_iter", 5).size() {
            Some(n) => n,
            None => return None,
        };
        let effort = match read_effort(&find_part(v, "effort", 6)) {
            Some(e) => e,
            None => return None,
        };
        if has_at_most(v, 7) {
            Some(Job { id, task, steps, checks, persistence, max_iter, effort })
        } else {
            None
        }
    }
}

/// The keys under which jobs and results are written, apart from one another.
pub proof fn keys_apart()
    ensures
        "id"@.len() == 2,
        "job"@.len() == 3,
        "task"@.len() == 4 && "task"@[0] == 't',
        "kind"@.len() == 4 && "kind"@[0] == 'k',
        "steps"@.len() == 5,
        "checks"@.len() == 6 && "checks"@[0] == 'c',
        "effort"@.len() == 6 && "effort"@[0] == 'e',
        "status"@.len() == 6 && "status"@[0] == 's',
        "output"@.len() == 6 && "output"@[0] == 'o',
        "issues"@.len() == 6 && "issues"@[0] == 'i',
        "result"@.len() == 6 && "result"@[0] == 'r',
        "issued"@.len() == 6 && "issued"@[0] == 'i',
        "failure"@.len() == 7,
        "max_iter"@.len() == 8,
        "tool_hint"@.len() == 9,
        "persistence"@.len() == 11 && "persistence"@[0] == 'p',
        "steps_taken"@.len() == 11 && "steps_taken"@[0] == 's',
        "description"@.len() == 11 && "description"@[0] == 'd',
{
    reveal_strlit("id");
    reveal_strlit("job");
    reveal_strlit("task");
    reveal_strlit("kind");
    reveal_strlit("steps");
    reveal_strlit("checks");
    reveal_strlit("effort");
    reveal_strlit("status");
    reveal_strlit("output");
    reveal_strlit("issues");
    reveal_strlit("result");
    reveal_strlit("issued");
    reveal_strlit("failure");
    reveal_strlit("max_iter");
    reveal_strlit("tool_hint");
    reveal_strlit("persistence");
    reveal_strlit("steps_taken");
    reveal_strlit("description");
}

/// A step that is written down reads back as it was.
pub proof fn step_reads_back(s: StepView, d: nat)
    requires
        d > 0,
    ensures
        step_in(s.layout()) == Some(s),
        s.layout().plain(d),
{
    keys_apart();
    let l0 = Layout::object();
    let l1 = l0.with("description"@, Layout::string(s.description));
    row_takes(l0, "description"@, Layout::string(s.description), d);
    if let Some(h) = s.tool_hint {
        row_takes(l1, "tool_hint"@, Layout::string(h), d);
    }
}

/// A job that is written down reads back as it was.
pub proof fn job_reads_back(j: JobView, d: nat)
    requires
        d >= 3,
    ensures
        job_in(j.layout()) == Some(j),
        j.layout().plain(d),
{
    keys_apart();
    words_spell(j.persistence, j.effort, Status::Success, FailureKind::CheckFailed);
    let steps = Layout::Array(j.steps.map_values(|s: StepView| s.layout()));
    steps_read_back(j.steps, (d - 1) as nat);
    texts_read_back(j.checks, (d - 1) as nat);
    let l0 = Layout::object();
    let l1 = l0.with("id"@, Layout::string(j.id));
    row_takes(l0, "id"@, Layout::string(j.id), d);
    let l2 = l1.with("task"@, Layout::string(j.task));
    row_takes(l1, "task"@, Layout::string(j.task), d);
    let l3 = l2.with("steps"@, steps);
    row_takes(l2, "steps"@, steps, d);
    let l4 = l3.with("checks"@, text_row(j.checks));
    row_takes(l3, "checks"@, text_row(j.checks), d);
    let l5 = l4.with("persistence"@, Layout::string(j.persistence.spelled()));
    row_takes(l4, "persistence"@, Layout::string(j.persistence.spelled()), d);
    let l6 = l5.with("max_iter"@, Layout::count(j.max_iter as u64));
    row_takes(l5, "max_iter"@, Layout::count(j.max_iter as u64), d);
    row_takes(l6, "effort"@, Layout::string(j.effort.spelled()), d);
    let l = j.layout();
    assert(part(l, "id"@, 0) == Part::Given(Layout::string(j.id)));
    assert(part(l, "task"@, 1) == Part::Given(Layout::string(j.task)));
    assert(part(l, "steps"@, 2) == Part::Given(steps));
    assert(part(l, "checks"@, 3) == Part::Given(text_row(j.checks)));
    assert(part(l, "persistence"@, 4) == Part::Given(Layout::string(j.persistence.spelled())));
    assert(part(l, "max_iter"@, 5) == Part::Given(Layout::count(j.max_iter as u64)));
    assert(part(l, "effort"@, 6) == Part::Given(Layout::string(j.effort.spelled())));
}

proof fn steps_read_back(steps: Seq<StepView>, d: nat)
    requires
        d >= 2,
    ensures
        steps_of(Part::Given(Layout::Array(steps.map_values(|s: StepView| s.layout())))) == Some(
            steps,
        ),
        Layout::Array(steps.map_values(|s: StepView| s.layout())).plain(d),
{
    let all = steps.map_values(|s: StepView| s.layout());
    assert forall|i: int| 0 <= i < steps.len() implies step_in(#[trigger] all[i]) == Some(steps[i])
        && all[i].plain((d - 1) as nat) by {
        step_reads_back(steps[i], (d - 1) as nat);
    }
    assert(steps_in_row(all)->0 =~= steps);
}

// ── Results ────────────────────────────────────────────────────────────────────

/// Structured outcome returned to the caller.
#[derive(Debug)]
pub struct JobResult {
    pub id: String,
    pub status: Status,
    pub output: Option<String>,
    pub failure: Option<FailureKind>,
    pub steps_taken: usize,
    /// Unsatisfied requirements; empty on success.
    pub issues: Vec<String>,
}

/// What a result is.
#[verifier::ext_equal]
pub struct JobResultView {
    pub id: Seq<char>,
    pub status: Status,
    pub output: Option<Seq<char>>,
    pub failure: Option<FailureKind>,
    pub steps_taken: usize,
    pub issues: Seq<Seq<char>>,
}

impl View for JobResult {
    type V = JobResultView;

    open spec fn view(&self) -> JobResultView {
        JobResultView {
            id: self.id@,
            status: self.status,
            output: opt_text(self.output),
            failure: self.failure,
            steps_taken: self.steps_taken,
            issues: texts(self.issues@),
        }
    }
}

impl Clone for JobResult {
    fn clone(&self) -> (r: JobResult)
        ensures
            r@ == self@,
    {
        JobResult {
            id: self.id.clone(),
            status: self.status,
            output: copy_opt(&self.output),
            failure: self.failure,
            steps_taken: self.steps_taken,
            issues: copy_texts(&self.issues),
        }
    }
}

impl JobResultView {
    /// The invariants a well-formed outcome must hold: a success carries output, no failure
    /// and no issues; a partial result carries output and a failure; the others carry a
    /// failure and no output.
    pub open spec fn consistent(self) -> bool {
        match self.status {
            Status::Success => self.failure is None && self.issues.len() == 0 && self.output is Some,
            Status::Partial => self.output is Some && self.failure is Some,
            Status::Failure => self.failure is Some && self.output is None,
            Status::Blocked => self.failure is Some && self.output is None,
        }
    }

    /// The result as a JSON object, its members in the order in which they are written.
    pub open spec fn layout(self) -> Layout {
        let head = Layout::object().with("id"@, Layout::string(self.id)).with(
            "status"@,
            Layout::string(self.status.spelled()),
        );
        let body = match self.output {
            Some(o) => head.with("output"@, Layout::string(o)),
            None => head,
        };
        let tail = match self.failure {
            Some(f) => body.with("failure"@, Layout::string(f.spelled())),
            None => body,
        };
        tail.with("steps_taken"@, Layout::count(self.steps_taken as u64)).with(
            "issues"@,
            text_row(self.issues),
        )
    }
}

impl JobResult {
    /// A success with its output.
    pub fn success(id: &str, output: String, steps_taken: usize) -> (r: JobResult)
        ensures
            r@ == (JobResultView {
                id: id@,
                status: Status::Success,
                output: Some(output@),
                failure: None,
                steps_taken,
                issues: seq![],
            }),
            r@.consistent(),
    {
        let r = JobResult {
            id: id.to_owned(),
            status: Status::Success,
            output: Some(output),
            failure: None,
            steps_taken,
            issues: Vec::new(),
        };
        assert(r@.issues =~= seq![]);
        r
    }

    /// A part of the output, and why the rest is missing.
    pub fn partial(id: &str, output: String, failure: FailureKind, steps_taken: usize) -> (r:
        JobResult)
        ensures
            r@ == (JobResultView {
                id: id@,
                status: Status::Partial,
                output: Some(output@),
                failure: Some(failure),
                steps_taken,
                issues: seq![],
            }),
            r@.consistent(),
    {
        let r = JobResult {
            id: id.to_owned(),
            status: Status::Partial,
            output: Some(output),
            failure: Some(failure),
            steps_taken,
            issues: Vec::new(),
        };
        assert(r@.issues =~= seq![]);
        r
    }

    /// A failure and its kind.
    pub fn failure(id: &str, failure: FailureKind, steps_taken: usize) -> (r: JobResult)
        ensures
            r@ == (JobResultView {
                id: id@,
                status: Status::Failure,
                output: None,
                failure: Some(failure),
                steps_taken,
                issues: seq![],
            }),
            r@.consistent(),
    {
        let r = JobResult {
            id: id.to_owned(),
            status: Status::Failure,
            output: None,
            failure: Some(failure),
            steps_taken,
            issues: Vec::new(),
        };
        assert(r@.issues =~= seq![]);
        r
    }

    /// Work that could not be begun, and why.
    pub fn blocked(id: &str, failure: FailureKind, steps_taken: usize) -> (r: JobResult)
        ensures
            r@ == blocked_view(id@, failure, steps_taken),
            r@.id == id@,
            r@.status == Status::Blocked,
            r@.output is None,
            r@.failure == Some(failure),
            r@.steps_taken == steps_taken,
            r@.issues.len() == 0,
            r@.consistent(),
    {
        let r = JobResult {
            id: id.to_owned(),
            status: Status::Blocked,
            output: None,
            failure: Some(failure),
            steps_taken,
            issues: Vec::new(),
        };
        assert(r@.issues =~= seq![]);
        r
    }

    /// The result as a JSON object.
    pub fn json(&self) -> (r: Json)
        ensures
            layout_of(r) == self@.layout(),
    {
        let head = Json::object().with("id", Json::text(self.id.as_str())).with(
            "status",
            Json::text(self.status.word()),
        );
        let body = match &self.output {
            Some(o) => head.with("output", Json::text(o.as_str())),
            None => head,
        };
        let tail = match self.failure {
            Some(f) => body.with("failure", Json::text(f.word())),
            None => body,
        };
        tail.with("steps_taken", Json::count(self.steps_taken as u64)).with(
            "issues",
            Json::texts(&self.issues),
        )
    }

    /// Serialize to the JSON string a tool result carries back to the caller.
    pub fn to_json(&self) -> (r: String)
        ensures
            r@ == self@.layout().text(),
            one_line(r@),
            has(r@, "\"status\":\""@ + self@.status.spelled() + "\""@),
    {
        proof {
            status_shows(self@);
        }
        self.json().compact()
    }

    /// True when the result honors the invariants a well-formed outcome must hold.
    pub fn is_consistent(&self) -> (r: bool)
        ensures
            r == self@.consistent(),
    {
        match self.status {
            Status::Success => {
                self.failure.is_none() && self.issues.len() == 0 && self.output.is_some()
            },
            Status::Partial => self.output.is_some() && self.failure.is_some(),
            Status::Failure => self.failure.is_some() && self.output.is_none(),
            Status::Blocked => self.failure.is_some() && self.output.is_none(),
        }
    }
}

/// What a part holds as a failure kind that may be missing.
pub open spec fn failure_of(p: Part) -> Option<Option<FailureKind>> {
    match p {
        Part::Missing => Some(None),
        Part::Given(Layout::Scalar(JsonView::Null)) => Some(None),
        _ => match word_of(p) {
            Some(s) => match FailureKind::of_word(s) {
                Some(f) => Some(Some(f)),
                None => None,
            },
            None => None,
        },
    }
}

/// What a part holds as a status.
pub open spec fn status_of(p: Part) -> Option<Status> {
    match word_of(p) {
        Some(s) => Status::of_word(s),
        None => None,
    }
}

/// The result that is written down, as an object or as a list; `None` where a part is missing
/// that has no default, is there more than once, or does not hold what it should, and where a
/// list goes on behind the last part. Other members of an object do not matter.
pub open spec fn result_in(l: Layout) -> Option<JobResultView> {
    match (
        text_of(part(l, "id"@, 0)),
        status_of(part(l, "status"@, 1)),
        opt_text_of(part(l, "output"@, 2)),
        failure_of(part(l, "failure"@, 3)),
        size_of_part(part(l, "steps_taken"@, 4)),
        texts_of(part(l, "issues"@, 5)),
    ) {
        (
            Some(id),
            Some(status),
            Some(output),
            Some(failure),
            Some(steps_taken),
            Some(issues),
        ) if fits(l, 6) => Some(
            JobResultView { id, status, output, failure, steps_taken, issues },
        ),
        _ => None,
    }
}

/// What reading a result gave, by its model.
pub open spec fn result_shown(r: Option<JobResult>) -> Option<JobResultView> {
    match r {
        Some(j) => Some(j@),
        None => None,
    }
}

fn read_failure(found: &Found) -> (r: Option<Option<FailureKind>>)
    ensures
        r == failure_of(found.part()),
{
    match found {
        Found::Missing => Some(None),
        Found::Given(Json::Null) => Some(None),
        _ => match found.word() {
            Some(s) => match FailureKind::from_word(s.as_str()) {
                Some(f) => Some(Some(f)),
                None => None,
            },
            None => None,
        },
    }
}

fn read_status(found: &Found) -> (r: Option<Status>)
    ensures
        r == status_of(found.part()),
{
    match found.word() {
        Some(s) => Status::from_word(s.as_str()),
        None => None,
    }
}

impl JobResult {
    /// The result that is written down.
    pub fn of_json(v: &Json) -> (r: Option<JobResult>)
        ensures
            result_shown(r) == result_in(layout_of(*v)),
    {
        let id = match find_part(v, "id", 0).text() {
            Some(s) => s,
            None => return None,
        };
        let status = match read_status(&find_part(v, "status", 1)) {
            Some(s) => s,
            None => return None,
        };
        let output = match find_part(v, "output", 2).opt_text() {
            Some(o) => o,
            None => return None,
        };
        let failure = match read_failure(&find_part(v, "failure", 3)) {
            Some(f) => f,
            None => return None,
        };
        let steps_taken = match find_part(v, "steps_taken", 4).size() {
            Some(n) => n,
            None => return None,
        };
        let issues = match find_part(v, "issues", 5).texts() {
            Some(i) => i,
            None => return None,
        };
        if has_at_most(v, 6) {
            Some(JobResult { id, status, output, failure, steps_taken, issues })
        } else {
            None
        }
    }
}

/// A result that is written down reads back as it was.
pub proof fn result_reads_back(r: JobResultView, d: nat)
    requires
        d >= 2,
    ensures
        result_in(r.layout()) == Some(r),
        r.layout().plain(d),
{
    keys_apart();
    texts_read_back(r.issues, (d - 1) as nat);
    let f0 = match r.failure {
        Some(f) => f,
        None => FailureKind::CheckFailed,
    };
    words_spell(Persistence::Durable, Effort::Off, r.status, f0);
    let l0 = Layout::object();
    let l1 = l0.with("id"@, Layout::string(r.id));
    row_takes(l0, "id"@, Layout::string(r.id), d);
    let l2 = l1.with("status"@, Layout::string(r.status.spelled()));
    row_takes(l1, "status"@, Layout::string(r.status.spelled()), d);
    let l3 = match r.output {
        Some(o) => l2.with("output"@, Layout::string(o)),
        None => l2,
    };
    if let Some(o) = r.output {
        row_takes(l2, "output"@, Layout::string(o), d);
    }
    let l4 = match r.failure {
        Some(f) => l3.with("failure"@, Layout::string(f.spelled())),
        None => l3,
    };
    if let Some(f) = r.failure {
        row_takes(l3, "failure"@, Layout::string(f.spelled()), d);
    }
    let l5 = l4.with("steps_taken"@, Layout::count(r.steps_taken as u64));
    row_takes(l4, "steps_taken"@, Layout::count(r.steps_taken as u64), d);
    row_takes(l5, "issues"@, text_row(r.issues), d);
    let l = r.layout();
    assert(part(l, "id"@, 0) == Part::Given(Layout::string(r.id)));
    assert(part(l, "status"@, 1) == Part::Given(Layout::string(r.status.spelled())));
    assert(opt_text_of(part(l, "output"@, 2)) == Some(r.output));
    assert(failure_of(part(l, "failure"@, 3)) == Some(r.failure));
    assert(part(l, "steps_taken"@, 4) == Part::Given(Layout::count(r.steps_taken as u64)));
    assert(part(l, "issues"@, 5) == Part::Given(text_row(r.issues)));
}

/// The text of a result shows its status, in lower case.
pub proof fn status_shows(r: JobResultView)
    ensures
        has(r.layout().text(), "\"status\":\""@ + r.status.spelled() + "\""@),
{
    reveal_strlit("status");
    reveal_strlit("\"status\":\"");
    reveal_strlit("\"");
    reveal_strlit(":");
    reveal_strlit("{");
    reveal_strlit("}");
    reveal_strlit("success");
    reveal_strlit("partial");
    reveal_strlit("failure");
    reveal_strlit("blocked");
    let word = r.status.spelled();
    let shown = "\"status\":\""@ + word + "\""@;
    let s = r.layout()->Object_0;
    let parts = row_texts(s);
    let all = joined(parts, ","@);
    escapes_nothing("status"@);
    escapes_nothing(word);
    assert(s[1] == ("status"@, Layout::string(word)));
    assert(parts[1] =~= shown);
    joined_has(parts, ","@, 1);
    let i = choose|i: int| occurs_at(all, shown, i);
    let text = r.layout().text();
    assert(text.subrange(i + 1, i + 1 + shown.len()) =~= all.subrange(i, i + shown.len()));
    assert(occurs_at(text, shown, i + 1));
}

/// A blocked result.
pub open spec fn blocked_view(id: Seq<char>, failure: FailureKind, steps_taken: usize) -> JobResultView {
    JobResultView {
        id,
        status: Status::Blocked,
        output: None,
        failure: Some(failure),
        steps_taken,
        issues: seq![],
    }
}

// ── Laws ───────────────────────────────────────────────────────────────────────

/// A job is asked to be durable by that word alone, and by nothing else.
pub proof fn only_durable_is_durable(s: Option<Seq<char>>, word: Seq<char>)
    ensures
        Persistence::asked(s) == Persistence::Durable <==> s == Some("durable"@),
        Persistence::of_word(word) == Some(Persistence::Durable) <==> word == "durable"@,
        Persistence::of_word(word) == Some(Persistence::Ephemeral) <==> word == "ephemeral"@,
        Persistence::Durable.spelled() == "durable"@,
        Persistence::Ephemeral.spelled() == "ephemeral"@,
{
    words_spell(Persistence::Durable, Effort::Off, Status::Success, FailureKind::CheckFailed);
    words_spell(Persistence::Ephemeral, Effort::Off, Status::Success, FailureKind::CheckFailed);
}

/// Each effort is asked for by its word; where the argument is missing or is no such word,
/// none is.
pub proof fn efforts_by_word(s: Option<Seq<char>>, word: Seq<char>)
    ensures
        Effort::asked(s) == Effort::Low <==> s == Some("low"@),
        Effort::asked(s) == Effort::Medium <==> s == Some("medium"@),
        Effort::asked(s) == Effort::High <==> s == Some("high"@),
        Effort::of_word(word) == Some(Effort::Off) <==> word == "none"@,
        Effort::of_word(word) == Some(Effort::Low) <==> word == "low"@,
        Effort::of_word(word) == Some(Effort::Medium) <==> word == "medium"@,
        Effort::of_word(word) == Some(Effort::High) <==> word == "high"@,
        Effort::Off.spelled() == "none"@,
        Effort::Low.spelled() == "low"@,
        Effort::Medium.spelled() == "medium"@,
        Effort::High.spelled() == "high"@,
{
    words_spell(Persistence::Durable, Effort::Off, Status::Success, FailureKind::CheckFailed);
    words_spell(Persistence::Durable, Effort::Low, Status::Success, FailureKind::CheckFailed);
    words_spell(Persistence::Durable, Effort::Medium, Status::Success, FailureKind::CheckFailed);
    words_spell(Persistence::Durable, Effort::High, Status::Success, FailureKind::CheckFailed);
}

/// Each status is written as its own word, and read from that word alone.
pub proof fn statuses_by_word(word: Seq<char>)
    ensures
        Status::of_word(word) == Some(Status::Success) <==> word == "success"@,
        Status::of_word(word) == Some(Status::Partial) <==> word == "partial"@,
        Status::of_word(word) == Some(Status::Failure) <==> word == "failure"@,
        Status::of_word(word) == Some(Status::Blocked) <==> word == "blocked"@,
        Status::Success.spelled() == "success"@,
        Status::Partial.spelled() == "partial"@,
        Status::Failure.spelled() == "failure"@,
        Status::Blocked.spelled() == "blocked"@,
{
    words_spell(Persistence::Durable, Effort::Off, Status::Success, FailureKind::CheckFailed);
    words_spell(Persistence::Durable, Effort::Off, Status::Partial, FailureKind::CheckFailed);
    words_spell(Persistence::Durable, Effort::Off, Status::Failure, FailureKind::CheckFailed);
    words_spell(Persistence::Durable, Effort::Off, Status::Blocked, FailureKind::CheckFailed);
}

/// Each kind of failure is written as its own word, and read from that word alone.
pub proof fn failures_by_word(word: Seq<char>)
    ensures
        FailureKind::of_word(word) == Some(FailureKind::PreconditionUnmet) <==> word
            == "precondition_unmet"@,
        FailureKind::of_word(word) == Some(FailureKind::ToolUnavailable) <==> word
            == "tool_unavailable"@,
        FailureKind::of_word(word) == Some(FailureKind::CheckFailed) <==> word == "check_failed"@,
        FailureKind::of_word(word) == Some(FailureKind::BudgetExceeded) <==> word
            == "budget_exceeded"@,
        FailureKind::of_word(word) == Some(FailureKind::RetrievalFailed) <==> word
            == "retrieval_failed"@,
        FailureKind::of_word(word) == Some(FailureKind::AmbiguousRequest) <==> word
            == "ambiguous_request"@,
        FailureKind::PreconditionUnmet.spelled() == "precondition_unmet"@,
        FailureKind::ToolUnavailable.spelled() == "tool_unavailable"@,
        FailureKind::CheckFailed.spelled() == "check_failed"@,
        FailureKind::BudgetExceeded.spelled() == "budget_exceeded"@,
        FailureKind::RetrievalFailed.spelled() == "retrieval_failed"@,
        FailureKind::AmbiguousRequest.spelled() == "ambiguous_request"@,
{
    let p = Persistence::Durable;
    let e = Effort::Off;
    let s = Status::Success;
    words_spell(p, e, s, FailureKind::PreconditionUnmet);
    words_spell(p, e, s, FailureKind::ToolUnavailable);
    words_spell(p, e, s, FailureKind::CheckFailed);
    words_spell(p, e, s, FailureKind::BudgetExceeded);
    words_spell(p, e, s, FailureKind::RetrievalFailed);
    words_spell(p, e, s, FailureKind::AmbiguousRequest);
}

/// A result is consistent exactly where a success alone has no failure, a success and a part of
/// one alone have output, and a success has no issues.
pub proof fn consistency_says(r: JobResultView)
    ensures
        r.consistent() <==> {
            &&& r.failure is None <==> r.status == Status::Success
            &&& r.output is Some <==> r.status == Status::Success || r.status == Status::Partial
            &&& r.status == Status::Success ==> r.issues.len() == 0
        },
{
}

/// A job is written down with all its parts, each under its key and in this order.
pub proof fn job_is_written_whole(j: JobView)
    ensures
        j.layout() matches Layout::Object(s) && {
            &&& s.len() == 7
            &&& s[0] == ("id"@, Layout::Scalar(JsonView::Str(j.id)))
            &&& s[1] == ("task"@, Layout::Scalar(JsonView::Str(j.task)))
            &&& s[2].0 == "steps"@
            &&& s[2].1 matches Layout::Array(row) && row.len() == j.steps.len() && forall|i: int|
                0 <= i < row.len() ==> #[trigger] row[i] == j.steps[i].layout()
            &&& s[3].0 == "checks"@
            &&& s[3].1 matches Layout::Array(row) && row.len() == j.checks.len() && forall|i: int|
                0 <= i < row.len() ==> #[trigger] row[i] == Layout::Scalar(
                    JsonView::Str(j.checks[i]),
                )
            &&& s[4] == ("persistence"@, Layout::Scalar(JsonView::Str(j.persistence.spelled())))
            &&& s[5] == (
                "max_iter"@,
                Layout::Scalar(JsonView::Number(NumView::Int(j.max_iter as int))),
            )
            &&& s[6] == ("effort"@, Layout::Scalar(JsonView::Str(j.effort.spelled())))
        },
{
}

/// A step is written down with its description, and with its hint where it has one.
pub proof fn step_is_written_whole(t: StepView)
    ensures
        t.layout() matches Layout::Object(s) && {
            &&& s[0] == ("description"@, Layout::Scalar(JsonView::Str(t.description)))
            &&& t.tool_hint is None ==> s.len() == 1
            &&& t.tool_hint matches Some(h) ==> s.len() == 2 && s[1] == (
                "tool_hint"@,
                Layout::Scalar(JsonView::Str(h)),
            )
        },
{
}

/// A result is written down with all that it has, each part under its key and in this order;
/// output and failure are left out where there are none.
pub proof fn result_is_written_whole(r: JobResultView)
    ensures
        r.layout() matches Layout::Object(s) && {
            let n = s.len() as int;
            &&& n == 4 + (if r.output is Some {
                1int
            } else {
                0int
            }) + (if r.failure is Some {
                1int
            } else {
                0int
            })
            &&& s[0] == ("id"@, Layout::Scalar(JsonView::Str(r.id)))
            &&& s[1] == ("status"@, Layout::Scalar(JsonView::Str(r.status.spelled())))
            &&& r.output matches Some(o) ==> s[2] == ("output"@, Layout::Scalar(JsonView::Str(o)))
            &&& r.failure matches Some(f) ==> s[n - 3] == (
                "failure"@,
                Layout::Scalar(JsonView::Str(f.spelled())),
            )
            &&& s[n - 2] == (
                "steps_taken"@,
                Layout::Scalar(JsonView::Number(NumView::Int(r.steps_taken as int))),
            )
            &&& s[n - 1].0 == "issues"@
            &&& s[n - 1].1 matches Layout::Array(row) && row.len() == r.issues.len()
                && forall|i: int|
                0 <= i < row.len() ==> #[trigger] row[i] == Layout::Scalar(
                    JsonView::Str(r.issues[i]),
                )
        },
{
}

/// A job that is read is what stands in the record: its id, its task, its requirements, its
/// steps and its iterations as they stand there, and its persistence and its effort by their
/// words; where the record names none of these two, it is ephemeral and asks for no effort.
pub proof fn job_read_is_what_stands(l: Layout)
    ensures
        job_in(l) matches Some(j) ==> {
            &&& part(l, "id"@, 0) == Part::Given(Layout::Scalar(JsonView::Str(j.id)))
            &&& part(l, "task"@, 1) == Part::Given(Layout::Scalar(JsonView::Str(j.task)))
            &&& part(l, "max_iter"@, 5) == Part::Given(
                Layout::Scalar(JsonView::Number(NumView::Int(j.max_iter as int))),
            )
            &&& part(l, "persistence"@, 4) is Missing ==> j.persistence == Persistence::Ephemeral
            &&& part(l, "persistence"@, 4) matches Part::Given(Layout::Scalar(JsonView::Str(w)))
                ==> w == j.persistence.spelled()
            &&& part(l, "effort"@, 6) is Missing ==> j.effort == Effort::Off
            &&& part(l, "effort"@, 6) matches Part::Given(Layout::Scalar(JsonView::Str(w))) ==> w
                == j.effort.spelled()
            &&& part(l, "checks"@, 3) is Missing ==> j.checks.len() == 0
            &&& part(l, "checks"@, 3) matches Part::Given(Layout::Array(row)) ==> row.len()
                == j.checks.len() && forall|i: int|
                0 <= i < row.len() ==> #[trigger] row[i] == Layout::Scalar(
                    JsonView::Str(j.checks[i]),
                )
            &&& part(l, "steps"@, 2) is Missing ==> j.steps.len() == 0
            &&& part(l, "steps"@, 2) matches Part::Given(Layout::Array(row)) ==> row.len()
                == j.steps.len() && forall|i: int|
                0 <= i < row.len() ==> step_in(#[trigger] row[i]) == Some(j.steps[i])
        },
        job_in(l) is None ==> {
            ||| !(part(l, "id"@, 0) matches Part::Given(Layout::Scalar(JsonView::Str(_))))
            ||| !(part(l, "task"@, 1) matches Part::Given(Layout::Scalar(JsonView::Str(_))))
            ||| size_of_part(part(l, "max_iter"@, 5)) is None
            ||| !(part(l, "steps"@, 2) is Missing)
            ||| !(part(l, "checks"@, 3) is Missing)
            ||| !(part(l, "persistence"@, 4) is Missing)
            ||| !(part(l, "effort"@, 6) is Missing)
            ||| l is Array
        },
{
    if let Some(j) = job_in(l) {
        crate::parts::parts_hold_what_stands(part(l, "id"@, 0), j.id, 0, seq![]);
        crate::parts::parts_hold_what_stands(part(l, "task"@, 1), j.task, 0, seq![]);
        crate::parts::parts_hold_what_stands(part(l, "max_iter"@, 5), seq![], j.max_iter, seq![]);
        crate::parts::parts_hold_what_stands(part(l, "checks"@, 3), seq![], 0, j.checks);
        words_spell(j.persistence, j.effort, Status::Success, FailureKind::CheckFailed);
        only_durable_is_durable(None, seq![]);
        if let Part::Given(Layout::Scalar(JsonView::Str(w))) = part(l, "persistence"@, 4) {
            only_durable_is_durable(None, w);
        }
        if let Part::Given(Layout::Scalar(JsonView::Str(w))) = part(l, "effort"@, 6) {
            efforts_by_word(None, w);
        }
        if let Part::Given(Layout::Array(row)) = part(l, "steps"@, 2) {
            assert forall|i: int| 0 <= i < row.len() implies step_in(#[trigger] row[i]) == Some(
                j.steps[i],
            ) by {}
        }
    }
}

/// A step that is read is what stands in the record.
pub proof fn step_read_is_what_stands(l: Layout)
    ensures
        step_in(l) matches Some(t) ==> {
            &&& part(l, "description"@, 0) == Part::Given(
                Layout::Scalar(JsonView::Str(t.description)),
            )
            &&& t.tool_hint matches Some(h) ==> part(l, "tool_hint"@, 1) == Part::Given(
                Layout::Scalar(JsonView::Str(h)),
            )
            &&& t.tool_hint is None ==> part(l, "tool_hint"@, 1) is Missing || part(
                l,
                "tool_hint"@,
                1,
            ) == Part::Given(Layout::Scalar(JsonView::Null))
        },
{
}

/// A result that is read is what stands in the record: its id, its output, its steps and its
/// issues as they stand there, and its status and its failure by their words.
pub proof fn result_read_is_what_stands(l: Layout)
    ensures
        result_in(l) matches Some(r) ==> {
            &&& part(l, "id"@, 0) == Part::Given(Layout::Scalar(JsonView::Str(r.id)))
            &&& part(l, "status"@, 1) matches Part::Given(Layout::Scalar(JsonView::Str(w))) ==> w
                == r.status.spelled()
            &&& r.output matches Some(o) ==> part(l, "output"@, 2) == Part::Given(
                Layout::Scalar(JsonView::Str(o)),
            )
            &&& part(l, "output"@, 2) matches Part::Given(Layout::Scalar(JsonView::Str(o)))
                ==> r.output == Some(o)
            &&& part(l, "failure"@, 3) is Missing ==> r.failure is None
            &&& part(l, "failure"@, 3) matches Part::Given(Layout::Scalar(JsonView::Str(w)))
                ==> r.failure matches Some(f) && w == f.spelled()
            &&& part(l, "steps_taken"@, 4) == Part::Given(
                Layout::Scalar(JsonView::Number(NumView::Int(r.steps_taken as int))),
            )
            &&& part(l, "issues"@, 5) is Missing ==> r.issues.len() == 0
            &&& part(l, "issues"@, 5) matches Part::Given(Layout::Array(row)) ==> row.len()
                == r.issues.len() && forall|i: int|
                0 <= i < row.len() ==> #[trigger] row[i] == Layout::Scalar(
                    JsonView::Str(r.issues[i]),
                )
        },
        result_in(l) is None ==> {
            ||| !(part(l, "id"@, 0) matches Part::Given(Layout::Scalar(JsonView::Str(_))))
            ||| status_of(part(l, "status"@, 1)) is None
            ||| opt_text_of(part(l, "output"@, 2)) is None
            ||| failure_of(part(l, "failure"@, 3)) is None
            ||| size_of_part(part(l, "steps_taken"@, 4)) is None
            ||| !(part(l, "issues"@, 5) is Missing)
            ||| l is Array
        },
{
    if let Some(r) = result_in(l) {
        crate::parts::parts_hold_what_stands(
            part(l, "steps_taken"@, 4),
            seq![],
            r.steps_taken,
            seq![],
        );
        crate::parts::parts_hold_what_stands(part(l, "issues"@, 5), seq![], 0, r.issues);
        if let Part::Given(Layout::Scalar(JsonView::Str(w))) = part(l, "status"@, 1) {
            statuses_by_word(w);
        }
        if let Part::Given(Layout::Scalar(JsonView::Str(w))) = part(l, "failure"@, 3) {
            failures_by_word(w);
        }
    }
}

} // verus!
