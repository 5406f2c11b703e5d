//! A run of the loop, from one outside step to the next.

use vstd::prelude::*;

use crate::agent_loop::{
    dispatch_tool, now, opening, opening_text, request, time_stamp, tool_set, RunConfig,
    ToolRequest, ToolRequestView,
};
use crate::job::{opt_text, FailureKind, Job, JobResult, JobResultView, JobView, Status};
use crate::json::{views, Json, JsonView};
use crate::policy::{Control, Ending, Policy, Progress, ProgressView, Standard};
use crate::provider::{
    call_views, result_views, task_message, ParsedView, Provider, ToolCall, ToolCallView,
    ToolResult, ToolResultView,
};
use crate::text::{join, joined};
use crate::tools::tool_defs;

verus! {

// ── What a run is ──────────────────────────────────────────────────────────────

/// What a run waits for.
#[derive(Debug, Clone, Copy, PartialEq, Eq, Structural)]
pub enum Phase {
    /// To be begun.
    Fresh,
    /// The model's reply.
    Asking,
    /// The result of a tool.
    Running,
    /// Nothing: it has concluded.
    Ended,
}

/// A run in progress.
pub struct Run<'a, P: Provider + ?Sized, C: Control> {
    provider: &'a P,
    policy: Policy<C>,
    job: Job,
    depth: usize,
    thread_id: Option<String>,
    started: String,
    messages: Vec<Json>,
    persisted: usize,
    budget: usize,
    steps_taken: usize,
    last_text: String,
    iter: usize,
    calls: Vec<ToolCall>,
    results: Vec<ToolResult>,
    phase: Phase,
}

/// What a run is.
#[verifier::ext_equal]
pub struct RunView {
    pub job: JobView,
    pub may_delegate: bool,
    pub depth: usize,
    pub thread_id: Option<Seq<char>>,
    /// The time at which it was set up.
    pub started: Seq<char>,
    /// The conversation.
    pub messages: Seq<JsonView>,
    /// How many messages at its start are on disk.
    pub persisted: nat,
    /// Tool calls left.
    pub budget: usize,
    /// Tool calls made.
    pub steps_taken: usize,
    /// The text of the last reply that had one.
    pub last_text: Seq<char>,
    /// Rounds completed.
    pub iter: usize,
    /// The calls of the round that is under way.
    pub calls: Seq<ToolCallView>,
    /// The results of the first of these calls.
    pub results: Seq<ToolResultView>,
    pub phase: Phase,
}

impl<'a, P: Provider + ?Sized, C: Control> View for Run<'a, P, C> {
    type V = RunView;

    closed spec fn view(&self) -> RunView {
        RunView {
            job: self.job@,
            may_delegate: self.policy.may_delegate,
            depth: self.depth,
            thread_id: opt_text(self.thread_id),
            started: self.started@,
            messages: views(self.messages@),
            persisted: self.persisted as nat,
            budget: self.budget,
            steps_taken: self.steps_taken,
            last_text: self.last_text@,
            iter: self.iter,
            calls: call_views(self.calls@),
            results: result_views(self.results@),
            phase: self.phase,
        }
    }
}

/// What a run asks for next.
pub enum Action {
    /// Send the conversation to the model.
    CallModel,
    /// Run a tool for the call `id`.
    Tool { id: String, request: ToolRequest },
    /// Nothing: this is the result.
    Finish { result: JobResult },
}

/// One step: what is to be added to the conversation on disk, and then what comes next.
pub struct Turn {
    pub append: Vec<Json>,
    pub action: Action,
}

/// What an action is.
#[verifier::ext_equal]
pub enum ActionView {
    CallModel,
    Tool { id: Seq<char>, request: ToolRequestView },
    Finish { result: JobResultView },
}

/// What a step is.
#[verifier::ext_equal]
pub struct TurnView {
    pub append: Seq<JsonView>,
    pub action: ActionView,
}

impl View for Action {
    type V = ActionView;

    open spec fn view(&self) -> ActionView {
        match *self {
            Action::CallModel => ActionView::CallModel,
            Action::Tool { id, request } => ActionView::Tool { id: id@, request: request@ },
            Action::Finish { result } => ActionView::Finish { result: result@ },
        }
    }
}

impl ActionView {
    /// What a run waits for that asks for this.
    pub open spec fn waits(self) -> Phase {
        match self {
            ActionView::CallModel => Phase::Asking,
            ActionView::Tool { .. } => Phase::Running,
            ActionView::Finish { .. } => Phase::Ended,
        }
    }
}

impl View for Turn {
    type V = TurnView;

    open spec fn view(&self) -> TurnView {
        TurnView { append: views(self.append@), action: self.action@ }
    }
}

impl RunView {
    /// The invariant of a run: the messages on disk are among its messages, its results are
    /// those of its first calls, in order, and its tool calls can be counted.
    pub open spec fn wf(self) -> bool {
        &&& self.persisted <= self.messages.len()
        &&& self.results.len() <= self.calls.len()
        &&& forall|k: int|
            0 <= k < self.results.len() ==> (#[trigger] self.results[k]).tool_use_id
                == self.calls[k].id
        &&& self.phase == Phase::Running ==> self.results.len() < self.calls.len()
        &&& self.phase == Phase::Fresh || self.phase == Phase::Asking ==> self.calls.len() == 0
        &&& self.budget + self.steps_taken <= usize::MAX
    }

    /// A run that has not begun, and has done nothing yet.
    pub open spec fn newly_made(self) -> bool {
        &&& self.wf()
        &&& self.phase == Phase::Fresh
        &&& self.iter == 0
        &&& self.steps_taken == 0
        &&& self.last_text.len() == 0
    }

    /// What the control functions are shown.
    pub open spec fn progress(self) -> ProgressView {
        ProgressView {
            iter: self.iter,
            max_iter: self.job.max_iter,
            budget_remaining: self.budget,
            steps_taken: self.steps_taken,
            last_text: self.last_text,
            checks: self.job.checks,
        }
    }

    /// The messages that are not on disk yet; none where the run is not persisted.
    pub open spec fn unsaved(self) -> Seq<JsonView> {
        if self.thread_id is Some {
            self.messages.skip(self.persisted as int)
        } else {
            seq![]
        }
    }

    /// This run once those are on disk.
    pub open spec fn saved(self) -> RunView {
        if self.thread_id is Some {
            RunView { persisted: self.messages.len(), ..self }
        } else {
            self
        }
    }

    /// This run after one more result.
    pub open spec fn with_result(self, content: Seq<char>) -> RunView {
        RunView {
            results: self.results.push(
                ToolResultView {
                    tool_use_id: self.calls[self.results.len() as int].id,
                    content,
                },
            ),
            ..self
        }
    }

    /// This run after one tool call was paid for.
    pub open spec fn charged(self) -> RunView {
        RunView {
            budget: (self.budget - 1) as usize,
            steps_taken: (self.steps_taken + 1) as usize,
            ..self
        }
    }

    /// What the call comes to that is the next to be answered.
    pub open spec fn next_request(self) -> ToolRequestView {
        request(self.may_delegate, self.depth, self.calls[self.results.len() as int])
    }
}

/// What a call is answered with once the budget is spent.
pub open spec fn exhausted() -> Seq<char> {
    "[budget exhausted — could not run tool]"@
}

/// The result of a run that ends: an unmet requirement overrides any label, and only a
/// success or a part of one carries the last text.
pub open spec fn result_of<C: Control>(c: C, s: RunView, ending: Ending) -> JobResultView {
    let issues = c.unmet(s.progress());
    let (status, failure) = if issues.len() > 0 {
        (Status::Failure, Some(FailureKind::CheckFailed))
    } else {
        c.label(ending, s.progress())
    };
    JobResultView {
        id: s.job.id,
        status,
        output: match status {
            Status::Success => Some(s.last_text),
            Status::Partial => Some(s.last_text),
            Status::Failure => None,
            Status::Blocked => None,
        },
        failure,
        steps_taken: s.steps_taken,
        issues,
    }
}

/// The end of a run.
pub open spec fn ended<C: Control>(
    c: C,
    s: RunView,
    ending: Ending,
    append: Seq<JsonView>,
) -> (RunView, TurnView) {
    (
        RunView { phase: Phase::Ended, ..s },
        TurnView { append, action: ActionView::Finish { result: result_of(c, s, ending) } },
    )
}

/// The top of the loop: on to the model, unless the policy says otherwise.
pub open spec fn proceed<C: Control>(c: C, s: RunView, append: Seq<JsonView>) -> (
    RunView,
    TurnView,
) {
    if c.continues(s.progress()) {
        (
            RunView { phase: Phase::Asking, ..s },
            TurnView { append, action: ActionView::CallModel },
        )
    } else if s.iter >= s.job.max_iter {
        ended(c, s, Ending::IterExhausted, append)
    } else {
        ended(c, s, Ending::BudgetExhausted, append)
    }
}

/// A round whose calls are all answered: the answers join the conversation, and the whole
/// round goes to disk at once.
pub open spec fn round_end<P: Provider + ?Sized, C: Control>(p: &P, c: C, s: RunView) -> (
    RunView,
    TurnView,
) {
    let full = RunView { messages: s.messages + p.results_of(s.results), ..s };
    proceed(
        c,
        RunView { iter: (s.iter + 1) as usize, calls: seq![], results: seq![], ..full.saved() },
        full.unsaved(),
    )
}

/// Goes through the calls that are not answered yet, up to the first that needs a tool. Each
/// call is paid for; where the budget is spent it is answered without being run.
pub open spec fn settle<P: Provider + ?Sized, C: Control>(p: &P, c: C, s: RunView) -> (
    RunView,
    TurnView,
)
    decreases s.calls.len() - s.results.len(),
{
    if s.results.len() >= s.calls.len() {
        round_end(p, c, s)
    } else if s.budget == 0 {
        settle(p, c, s.with_result(exhausted()))
    } else {
        match s.next_request() {
            ToolRequestView::Answer { text } => settle(p, c, s.charged().with_result(text)),
            other => (
                RunView { phase: Phase::Running, ..s.charged() },
                TurnView {
                    append: seq![],
                    action: ActionView::Tool {
                        id: s.calls[s.results.len() as int].id,
                        request: other,
                    },
                },
            ),
        }
    }
}

/// A run that has not begun yet.
pub open spec fn fresh<C: Control>(cfg: RunConfig<C>, budget: usize, at: Seq<char>) -> RunView {
    RunView {
        job: cfg.job@,
        may_delegate: cfg.policy.may_delegate,
        depth: cfg.depth,
        thread_id: opt_text(cfg.thread_id),
        started: at,
        messages: seq![],
        persisted: 0,
        budget,
        steps_taken: 0,
        last_text: seq![],
        iter: 0,
        calls: seq![],
        results: seq![],
        phase: Phase::Fresh,
    }
}

/// A run that begins after some history.
pub open spec fn begun<C: Control>(c: C, s: RunView, history: Seq<JsonView>) -> (
    RunView,
    TurnView,
) {
    proceed(
        c,
        RunView {
            messages: history.push(task_message(opening(s.started, s.job))),
            persisted: history.len(),
            ..s
        },
        seq![],
    )
}

/// A run that takes a reply, along with the conversation as it was sent in the end.
pub open spec fn replied<P: Provider + ?Sized, C: Control>(
    p: &P,
    c: C,
    s: RunView,
    messages: Seq<JsonView>,
    reply: Result<JsonView, Seq<char>>,
) -> (RunView, TurnView) {
    let sent = RunView { messages, ..s };
    match reply {
        Ok(resp) => match p.turn_of(resp) {
            Ok(turn) => {
                let told = RunView {
                    messages: messages.push(turn.assistant_msg),
                    last_text: if turn.text_parts.len() > 0 {
                        joined(turn.text_parts, "\n"@)
                    } else {
                        s.last_text
                    },
                    ..s
                };
                if c.done(turn.tool_calls.len() > 0) {
                    ended(c, told.saved(), Ending::Stopped, told.unsaved())
                } else {
                    settle(p, c, RunView { calls: turn.tool_calls, results: seq![], ..told })
                }
            },
            Err(_) => ended(c, sent, Ending::Failed, seq![]),
        },
        Err(_) => ended(c, sent, Ending::Failed, seq![]),
    }
}

/// A run that takes the result of a tool.
pub open spec fn answered_with<P: Provider + ?Sized, C: Control>(
    p: &P,
    c: C,
    s: RunView,
    content: Seq<char>,
) -> (RunView, TurnView) {
    settle(p, c, s.with_result(content))
}

/// A reply of the model, by its model.
pub open spec fn reply_view(r: Result<Json, String>) -> Result<JsonView, Seq<char>> {
    match r {
        Ok(v) => Ok(v@),
        Err(e) => Err(e@),
    }
}

/// What a run waited for before does not matter to how it goes on.
proof fn settle_ignores_phase<P: Provider + ?Sized, C: Control>(
    p: &P,
    c: C,
    s: RunView,
    phase: Phase,
)
    ensures
        settle(p, c, RunView { phase, ..s }) == settle(p, c, s),
    decreases s.calls.len() - s.results.len(),
{
    let t = RunView { phase, ..s };
    assert(t.progress() == s.progress());
    if s.results.len() >= s.calls.len() {
        assert(round_end(p, c, t) == round_end(p, c, s));
    } else if s.budget == 0 {
        settle_ignores_phase(p, c, s.with_result(exhausted()), phase);
        assert(t.with_result(exhausted()) == (RunView { phase, ..s.with_result(exhausted()) }));
    } else if let ToolRequestView::Answer { text } = s.next_request() {
        settle_ignores_phase(p, c, s.charged().with_result(text), phase);
        assert(t.charged().with_result(text) == (RunView {
            phase,
            ..s.charged().with_result(text)
        }));
    }
}

// ── The machine ────────────────────────────────────────────────────────────────

impl<'a, P: Provider + ?Sized, C: Control> Run<'a, P, C> {
    /// The provider of the run.
    pub closed spec fn provider(&self) -> &P {
        self.provider
    }

    /// The control functions of the run.
    pub closed spec fn control(&self) -> C {
        self.policy.control
    }

    /// A run that is set up at the given time.
    pub fn new_at(provider: &'a P, cfg: RunConfig<C>, budget: usize, at: &str) -> (r: Self)
        ensures
            r.provider() == provider,
            r.control() == cfg.policy.control,
            r@ == fresh(cfg, budget, at@),
            r@.newly_made(),
    {
        let r = Run {
            provider,
            policy: cfg.policy,
            job: cfg.job,
            depth: cfg.depth,
            thread_id: cfg.thread_id,
            started: at.to_owned(),
            messages: Vec::new(),
            persisted: 0,
            budget,
            steps_taken: 0,
            last_text: String::new(),
            iter: 0,
            calls: Vec::new(),
            results: Vec::new(),
            phase: Phase::Fresh,
        };
        assert(r@.messages =~= seq![]);
        assert(r@.calls =~= seq![]);
        assert(r@.results =~= seq![]);
        r
    }

    /// A run that is set up now.
    pub fn new(provider: &'a P, cfg: RunConfig<C>, budget: usize) -> (r: Self)
        ensures
            r.provider() == provider,
            r.control() == cfg.policy.control,
            time_stamp(r@.started),
            r@ == fresh(cfg, budget, r@.started),
            r@.newly_made(),
    {
        let at = now();
        Run::new_at(provider, cfg, budget, at.as_str())
    }

    /// What the run waits for.
    pub fn phase(&self) -> (r: Phase)
        ensures
            r == self@.phase,
    {
        self.phase
    }

    /// Tool calls left.
    pub fn budget(&self) -> (r: usize)
        ensures
            r == self@.budget,
    {
        self.budget
    }

    /// Rounds completed.
    pub fn iter(&self) -> (r: usize)
        ensures
            r == self@.iter,
    {
        self.iter
    }

    /// How many messages are on disk.
    pub fn persisted(&self) -> (r: usize)
        ensures
            r == self@.persisted,
    {
        self.persisted
    }

    /// The tools that the model is offered, in the provider's request format.
    pub fn tools(&self) -> (r: Json)
        ensures
            r@ == offered(self.provider(), self@),
            r@ == self.provider().tools_of(JsonView::Array(tool_defs(self@.depth))),
    {
        tool_set(self.provider, self.depth)
    }

    /// The conversation, as it is to be sent.
    pub fn conversation(&self) -> (r: Json)
        ensures
            r@ == JsonView::Array(self@.messages),
    {
        let mut out: Vec<Json> = Vec::new();
        let mut i: usize = 0;
        while i < self.messages.len()
            invariant
                i <= self.messages@.len(),
                out@.len() == i,
                forall|k: int| 0 <= k < i ==> (#[trigger] out@[k])@ == self.messages@[k]@,
            decreases self.messages@.len() - i,
        {
            out.push(self.messages[i].clone());
            i += 1;
        }
        assert(views(out@) =~= views(self.messages@));
        Json::Array(out)
    }

    fn look(&self) -> (r: Progress<'_>)
        ensures
            r@ == self@.progress(),
    {
        Progress {
            iter: self.iter,
            max_iter: self.job.max_iter,
            budget_remaining: self.budget,
            steps_taken: self.steps_taken,
            last_text: self.last_text.as_str(),
            checks: self.job.checks.as_slice(),
        }
    }

    /// The messages that are not on disk yet, which from now on count as being there.
    fn save(&mut self) -> (r: Vec<Json>)
        requires
            old(self)@.wf(),
        ensures
            views(r@) == old(self)@.unsaved(),
            final(self)@ == old(self)@.saved(),
            final(self)@.wf(),
            final(self).provider() == old(self).provider(),
            final(self).control() == old(self).control(),
    {
        let mut out: Vec<Json> = Vec::new();
        if self.thread_id.is_some() {
            let n = self.messages.len();
            let from = self.persisted;
            let mut i: usize = from;
            while i < n
                invariant
                    n == self.messages@.len(),
                    from <= i <= n,
                    out@.len() == i - from,
                    forall|k: int|
                        0 <= k < i - from ==> (#[trigger] out@[k])@ == self.messages@[from + k]@,
                decreases n - i,
            {
                out.push(self.messages[i].clone());
                i += 1;
            }
            assert(views(out@) =~= views(self.messages@).skip(from as int));
            self.persisted = n;
        } else {
            assert(views(out@) =~= seq![]);
        }
        out
    }

    fn end(&mut self, ending: Ending, append: Vec<Json>) -> (r: Turn)
        requires
            old(self)@.wf(),
        ensures
            (final(self)@, r@) == ended(old(self).control(), old(self)@, ending, views(append@)),
            final(self)@.wf(),
            final(self).provider() == old(self).provider(),
            final(self).control() == old(self).control(),
    {
        // Label the outcome. An unmet requirement overrides an otherwise-clean stop.
        let prog = self.look();
        let issues = self.policy.control.check(&prog);
        let (status, failure) = if issues.len() > 0 {
            (Status::Failure, Some(FailureKind::CheckFailed))
        } else {
            self.policy.control.classify(ending, &prog)
        };
        let output = match status {
            Status::Success => Some(self.last_text.clone()),
            Status::Partial => Some(self.last_text.clone()),
            Status::Failure => None,
            Status::Blocked => None,
        };
        let result = JobResult {
            id: self.job.id.clone(),
            status,
            output,
            failure,
            steps_taken: self.steps_taken,
            issues,
        };
        self.phase = Phase::Ended;
        Turn { append, action: Action::Finish { result } }
    }

    fn go_on(&mut self, append: Vec<Json>) -> (r: Turn)
        requires
            old(self)@.wf(),
            old(self)@.calls.len() == 0,
        ensures
            (final(self)@, r@) == proceed(old(self).control(), old(self)@, views(append@)),
            final(self)@.wf(),
            final(self).provider() == old(self).provider(),
            final(self).control() == old(self).control(),
    {
        let prog = self.look();
        if self.policy.control.should_continue(&prog) {
            self.phase = Phase::Asking;
            Turn { append, action: Action::CallModel }
        } else if self.iter >= self.job.max_iter {
            self.end(Ending::IterExhausted, append)
        } else {
            self.end(Ending::BudgetExhausted, append)
        }
    }

    /// Goes on with the calls of the round.
    fn settle_calls(&mut self) -> (r: Turn)
        requires
            old(self)@.wf(),
            old(self)@.iter < usize::MAX,
        ensures
            (final(self)@, r@) == settle(
                old(self).provider(),
                old(self).control(),
                old(self)@,
            ),
            final(self)@.wf(),
            final(self).provider() == old(self).provider(),
            final(self).control() == old(self).control(),
    {
        let ghost p = self.provider();
        let ghost c = self.control();
        let ghost goal = settle(p, c, self@);
        self.phase = Phase::Running;
        proof {
            settle_ignores_phase(p, c, old(self)@, Phase::Running);
        }
        while self.results.len() < self.calls.len()
            invariant
                self@.results.len() <= self@.calls.len(),
                self@.persisted <= self@.messages.len(),
                forall|k: int|
                    0 <= k < self@.results.len() ==> (#[trigger] self@.results[k]).tool_use_id
                        == self@.calls[k].id,
                self@.budget + self@.steps_taken <= usize::MAX,
                self@.iter < usize::MAX,
                self@.phase == Phase::Running,
                self.provider() == p,
                self.control() == c,
                settle(p, c, self@) == goal,
                p == old(self).provider(),
                c == old(self).control(),
                goal == settle(old(self).provider(), old(self).control(), old(self)@),
            decreases self.calls@.len() - self.results@.len(),
        {
            let ghost before = self@;
            let k = self.results.len();
            let id = self.calls[k].id.clone();
            let content = if self.budget == 0 {
                "[budget exhausted — could not run tool]".to_owned()
            } else {
                let request = dispatch_tool(self.policy.may_delegate, self.depth, &self.calls[k]);
                assert(request@ == before.next_request());
                self.budget = self.budget - 1;
                self.steps_taken = self.steps_taken + 1;
                match request {
                    ToolRequest::Answer { text } => text,
                    request => {
                        let none: Vec<Json> = Vec::new();
                        assert(views(none@) =~= seq![]);
                        return Turn { append: none, action: Action::Tool { id, request } };
                    },
                }
            };
            let ghost charged = self@;
            self.results.push(ToolResult { tool_use_id: id, content });
            assert(self@.results =~= charged.with_result(content@).results);
        }
        let mut results: Vec<ToolResult> = Vec::new();
        std::mem::swap(&mut results, &mut self.results);
        let ghost done = result_views(results@);
        let ghost before = self.messages@;
        let mut wrapped = self.provider.wrap_tool_results(results);
        let ghost more = wrapped@;
        self.messages.append(&mut wrapped);
        assert(views(self.messages@) =~= views(before) + views(more));
        self.calls = Vec::new();
        assert(self@.calls =~= seq![]);
        assert(self@.results =~= seq![]);
        self.phase = Phase::Ended;
        let batch = self.save();
        self.iter = self.iter + 1;
        self.go_on(batch)
    }

    /// Takes the model's reply, or why there is none, along with the conversation as it was
    /// sent in the end: the transport may have trimmed it.
    pub fn on_reply(&mut self, messages: Vec<Json>, reply: Result<Json, String>) -> (r: Turn)
        requires
            old(self)@.wf(),
            old(self)@.phase == Phase::Asking,
            old(self)@.persisted <= messages@.len(),
            old(self)@.iter < usize::MAX,
        ensures
            (final(self)@, r@) == replied(
                old(self).provider(),
                old(self).control(),
                old(self)@,
                views(messages@),
                reply_view(reply),
            ),
            r.action is CallModel ==> final(self).provider().sendable(
                JsonView::Array(final(self)@.messages),
            ),
            final(self)@.phase == r@.action.waits(),
            r.action is Tool ==> final(self)@.iter == old(self)@.iter,
            final(self)@.wf(),
            final(self).provider() == old(self).provider(),
            final(self).control() == old(self).control(),
    {
        proof {
            let e = Event::Reply { messages: views(messages@), reply: reply_view(reply) };
            asked_can_be_sent(self.provider(), self.control(), self@, e);
            stepping(self.provider(), self.control(), self@, e);
        }
        self.messages = messages;
        let none: Vec<Json> = Vec::new();
        assert(views(none@) =~= seq![]);
        let resp = match reply {
            Ok(v) => v,
            Err(_) => return self.end(Ending::Failed, none),
        };
        let parsed = match self.provider.parse_response(resp) {
            Ok(p) => p,
            Err(_) => return self.end(Ending::Failed, none),
        };
        if parsed.text_parts.len() > 0 {
            self.last_text = join(&parsed.text_parts, "
");
        }
        let ghost before = self.messages@;
        self.messages.push(parsed.assistant_msg);
        assert(views(self.messages@) =~= views(before).push(parsed.assistant_msg@));
        let had_tool_calls = parsed.tool_calls.len() > 0;
        if self.policy.control.is_done(had_tool_calls) {
            let batch = self.save();
            return self.end(Ending::Stopped, batch);
        }
        self.phase = Phase::Ended;
        self.calls = parsed.tool_calls;
        self.results = Vec::new();
        assert(self@.results =~= seq![]);
        proof {
            settle_ignores_phase(self.provider(), self.control(), self@, Phase::Asking);
        }
        self.settle_calls()
    }

    /// Takes the result of the tool that was asked for.
    pub fn on_tool(&mut self, content: String) -> (r: Turn)
        requires
            old(self)@.wf(),
            old(self)@.phase == Phase::Running,
            old(self)@.iter < usize::MAX,
        ensures
            (final(self)@, r@) == answered_with(
                old(self).provider(),
                old(self).control(),
                old(self)@,
                content@,
            ),
            exists|rs: Seq<ToolResultView>|
                {
                    &&& rs.len() > old(self)@.results.len()
                    &&& rs.take(old(self)@.results.len() as int) == old(self)@.results
                    &&& (#[trigger] rs[old(self)@.results.len() as int]).content == content@
                    &&& rs[old(self)@.results.len() as int].tool_use_id
                        == old(self)@.calls[old(self)@.results.len() as int].id
                    &&& goes_on_from(
                        old(self).provider(),
                        old(self)@,
                        final(self)@,
                        r@,
                        rs,
                        rs.len() - old(self)@.results.len() - 1,
                    )
                },
            r.action is CallModel ==> final(self).provider().sendable(
                JsonView::Array(final(self)@.messages),
            ),
            final(self)@.phase == r@.action.waits(),
            r.action is Tool ==> final(self)@.iter == old(self)@.iter,
            final(self)@.wf(),
            final(self).provider() == old(self).provider(),
            final(self).control() == old(self).control(),
    {
        let ghost before = self@;
        proof {
            let e = Event::Result { content: content@ };
            let rs = result_is_for_its_call(self.provider(), self.control(), self@, content@);
            assert(rs[self@.results.len() as int].content == content@);
            assert(rs.take(self@.results.len() as int) =~= self@.results);
            asked_can_be_sent(self.provider(), self.control(), self@, e);
            stepping(self.provider(), self.control(), self@, e);
        }
        let id = self.calls[self.results.len()].id.clone();
        self.results.push(ToolResult { tool_use_id: id, content });
        assert(self@.results =~= before.with_result(content@).results);
        self.phase = Phase::Ended;
        proof {
            settle_ignores_phase(
                self.provider(),
                self.control(),
                before.with_result(content@),
                Phase::Ended,
            );
        }
        self.settle_calls()
    }

    /// Begins the run after some history.
    pub fn start(&mut self, history: Vec<Json>) -> (r: Turn)
        requires
            old(self)@.wf(),
            old(self)@.phase == Phase::Fresh,
        ensures
            (final(self)@, r@) == begun(old(self).control(), old(self)@, views(history@)),
            r.action is CallModel ==> final(self).provider().sendable(
                JsonView::Array(final(self)@.messages),
            ),
            final(self)@.phase == r@.action.waits(),
            final(self)@.wf(),
            final(self).provider() == old(self).provider(),
            final(self).control() == old(self).control(),
    {
        let text = opening_text(self.started.as_str(), &self.job);
        let task_msg = Json::object().with("role", Json::text("user")).with(
            "content",
            Json::array().item(
                Json::object().with("type", Json::text("text")).with(
                    "text",
                    Json::text(text.as_str()),
                ).with("cache_control", Json::object().with("type", Json::text("ephemeral"))),
            ),
        );
        let mut messages = history;
        let ghost before = messages@;
        self.persisted = messages.len();
        messages.push(task_msg);
        assert(views(messages@) =~= views(before).push(task_msg@));
        self.messages = messages;
        let none: Vec<Json> = Vec::new();
        assert(views(none@) =~= seq![]);
        proof {
            self.provider().sendable_after_task(views(before), text@);
        }
        self.go_on(none)
    }
}

// ── Laws ───────────────────────────────────────────────────────────────────────

/// What a run is told.
pub enum Event {
    /// To begin, after some history.
    Start { history: Seq<JsonView> },
    /// The model's reply to the conversation as it was sent in the end.
    Reply { messages: Seq<JsonView>, reply: Result<JsonView, Seq<char>> },
    /// The result of a tool.
    Result { content: Seq<char> },
}

/// The run waits for the event.
pub open spec fn expects(s: RunView, e: Event) -> bool {
    match e {
        Event::Start { .. } => s.phase == Phase::Fresh,
        Event::Reply { messages, .. } => s.phase == Phase::Asking && s.persisted <= messages.len(),
        Event::Result { .. } => s.phase == Phase::Running,
    }
}

/// How the run goes on after an event.
pub open spec fn step<P: Provider + ?Sized, C: Control>(p: &P, c: C, s: RunView, e: Event) -> (
    RunView,
    TurnView,
) {
    match e {
        Event::Start { history } => begun(c, s, history),
        Event::Reply { messages, reply } => replied(p, c, s, messages, reply),
        Event::Result { content } => answered_with(p, c, s, content),
    }
}

/// The calls of the round that an event belongs to.
pub open spec fn round_calls<P: Provider + ?Sized>(p: &P, s: RunView, e: Event) -> Seq<
    ToolCallView,
> {
    match e {
        Event::Reply { reply: Ok(resp), .. } => match p.turn_of(resp) {
            Ok(turn) => turn.tool_calls,
            Err(_) => seq![],
        },
        Event::Result { .. } => s.calls,
        _ => seq![],
    }
}

/// The conversation that an event finds.
pub open spec fn found(s: RunView, e: Event) -> Seq<JsonView> {
    match e {
        Event::Start { history } => history,
        Event::Reply { messages, .. } => messages,
        Event::Result { .. } => s.messages,
    }
}

/// What a stretch of calls does, whatever it comes to.
proof fn settling<P: Provider + ?Sized, C: Control>(p: &P, c: C, s: RunView)
    requires
        s.persisted <= s.messages.len(),
        s.results.len() <= s.calls.len(),
        forall|k: int|
            0 <= k < s.results.len() ==> (#[trigger] s.results[k]).tool_use_id == s.calls[k].id,
        s.budget + s.steps_taken <= usize::MAX,
        s.iter < usize::MAX,
    ensures
        ({
            let (t, turn) = settle(p, c, s);
            &&& t.wf()
            &&& t.job == s.job
            &&& t.thread_id == s.thread_id
            &&& t.last_text == s.last_text
            &&& t.may_delegate == s.may_delegate
            &&& t.depth == s.depth
            &&& t.started == s.started
            &&& s.results.len() < s.calls.len() && s.budget > 0 ==> t.steps_taken > s.steps_taken
            &&& t.budget + t.steps_taken == s.budget + s.steps_taken
            &&& t.steps_taken >= s.steps_taken
            &&& turn.action matches ActionView::Tool { id, request } ==> {
                &&& t.phase == Phase::Running
                &&& t.steps_taken > s.steps_taken
                &&& t.iter == s.iter
                &&& t.messages == s.messages
                &&& t.persisted == s.persisted
                &&& t.calls == s.calls
                &&& turn.append.len() == 0
                &&& request is Delegate ==> s.may_delegate && s.depth == 0
            }
            &&& !(turn.action is Tool) ==> exists|rs: Seq<ToolResultView>|
                closes(p, c, s, t, turn, rs)
        }),
    decreases s.calls.len() - s.results.len(),
{
    if s.results.len() >= s.calls.len() {
        let full = RunView { messages: s.messages + p.results_of(s.results), ..s };
        assert(closes(p, c, s, settle(p, c, s).0, settle(p, c, s).1, s.results));
    } else if s.budget == 0 {
        settling(p, c, s.with_result(exhausted()));
        let (t, turn) = settle(p, c, s);
        if !(turn.action is Tool) {
            let rs = choose|rs: Seq<ToolResultView>|
                closes(p, c, s.with_result(exhausted()), t, turn, rs);
            closes_from_before(s, s.with_result(exhausted()), rs, exhausted());
            assert(closes(p, c, s, t, turn, rs));
        }
    } else if let ToolRequestView::Answer { text } = s.next_request() {
        let u = s.charged().with_result(text);
        settling(p, c, u);
        let (t, turn) = settle(p, c, s);
        if !(turn.action is Tool) {
            let rs = choose|rs: Seq<ToolResultView>| closes(p, c, u, t, turn, rs);
            closes_from_before(s, u, rs, text);
            assert(closes(p, c, s, t, turn, rs));
        }
    }
}

/// Results that go on from those of `u`, which has one more than `s`, go on from those of `s`.
proof fn closes_from_before(
    s: RunView,
    u: RunView,
    rs: Seq<ToolResultView>,
    content: Seq<char>,
)
    requires
        s.results.len() < s.calls.len(),
        rs.len() == s.calls.len(),
        u.may_delegate == s.may_delegate,
        u.depth == s.depth,
        u.calls == s.calls,
        u.results == s.with_result(content).results,
        forall|k: int| 0 <= k < u.results.len() ==> (#[trigger] rs[k]) == u.results[k],
        answered_unrun(
            u.may_delegate,
            u.depth,
            u.calls,
            rs,
            u.results.len() as int,
            u.budget as int,
        ),
        s.budget == 0 ==> u.budget == 0 && content == exhausted(),
        s.budget > 0 ==> u.budget == s.budget - 1 && s.next_request() == (
        ToolRequestView::Answer { text: content }),
    ensures
        forall|k: int| 0 <= k < s.results.len() ==> (#[trigger] rs[k]) == s.results[k],
        answered_unrun(
            s.may_delegate,
            s.depth,
            s.calls,
            rs,
            s.results.len() as int,
            s.budget as int,
        ),
{
    let n = s.results.len() as int;
    assert(rs[n] == u.results[n]);
    assert forall|k: int| 0 <= k < s.results.len() implies (#[trigger] rs[k]) == s.results[k] by {
        assert(u.results[k] == s.results[k]);
    }
}

/// A round ends: `rs` are its results, one for each call and in their order, those that the run
/// had already first and as they were, and the rest those of calls that no tool was run for;
/// and the round is saved as a whole.
pub open spec fn closes<P: Provider + ?Sized, C: Control>(
    p: &P,
    c: C,
    s: RunView,
    t: RunView,
    turn: TurnView,
    rs: Seq<ToolResultView>,
) -> bool {
    &&& rs.len() == s.calls.len()
    &&& forall|k: int| 0 <= k < rs.len() ==> (#[trigger] rs[k]).tool_use_id == s.calls[k].id
    &&& s.results.len() <= rs.len()
    &&& forall|k: int| 0 <= k < s.results.len() ==> (#[trigger] rs[k]) == s.results[k]
    &&& answered_unrun(
        s.may_delegate,
        s.depth,
        s.calls,
        rs,
        s.results.len() as int,
        s.budget as int,
    )
    &&& t.messages == s.messages + p.results_of(rs)
    &&& t.iter == s.iter + 1
    &&& turn.append == if s.thread_id is Some {
        t.messages.skip(s.persisted as int)
    } else {
        seq![]
    }
    &&& t.persisted == if s.thread_id is Some {
        t.messages.len()
    } else {
        s.persisted
    }
    &&& turn.action is CallModel || turn.action is Finish
    &&& turn.action is CallModel ==> t.phase == Phase::Asking && c.continues(t.progress())
    &&& turn.action matches ActionView::Finish { result } ==> {
        &&& t.phase == Phase::Ended
        &&& !c.continues(t.progress())
        &&& result == result_of(
            c,
            t,
            if t.iter >= t.job.max_iter {
                Ending::IterExhausted
            } else {
                Ending::BudgetExhausted
            },
        )
    }
}

/// Tool calls made and tool calls left add up to the budget that the run began with, at every
/// step, and the run stays well formed.
pub proof fn budget_conserved<P: Provider + ?Sized, C: Control>(
    p: &P,
    c: C,
    s: RunView,
    e: Event,
)
    requires
        s.wf(),
        expects(s, e),
        s.iter < usize::MAX,
    ensures
        step(p, c, s, e).0.wf(),
        step(p, c, s, e).0.budget + step(p, c, s, e).0.steps_taken == s.budget + s.steps_taken,
        step(p, c, s, e).0.steps_taken >= s.steps_taken,
        step(p, c, s, e).1.action is Tool ==> step(p, c, s, e).0.steps_taken > s.steps_taken,
{
    stepping(p, c, s, e);
}

/// The run that a round of calls starts from, where the event leads to one.
spec fn entered<P: Provider + ?Sized, C: Control>(p: &P, c: C, s: RunView, e: Event) -> Option<
    RunView,
> {
    match e {
        Event::Start { .. } => None,
        Event::Reply { messages, reply } => match reply {
            Ok(resp) => match p.turn_of(resp) {
                Ok(turn) => if c.done(turn.tool_calls.len() > 0) {
                    None
                } else {
                    Some(
                        RunView {
                            messages: messages.push(turn.assistant_msg),
                            last_text: if turn.text_parts.len() > 0 {
                                joined(turn.text_parts, "\n"@)
                            } else {
                                s.last_text
                            },
                            calls: turn.tool_calls,
                            results: seq![],
                            ..s
                        },
                    )
                },
                Err(_) => None,
            },
            Err(_) => None,
        },
        Event::Result { content } => Some(s.with_result(content)),
    }
}

/// The steps, taken apart.
proof fn stepping<P: Provider + ?Sized, C: Control>(p: &P, c: C, s: RunView, e: Event)
    requires
        s.wf(),
        expects(s, e),
        s.iter < usize::MAX,
    ensures
        step(p, c, s, e).0.wf(),
        step(p, c, s, e).0.job == s.job,
        step(p, c, s, e).0.thread_id == s.thread_id,
        step(p, c, s, e).0.may_delegate == s.may_delegate,
        step(p, c, s, e).0.depth == s.depth,
        step(p, c, s, e).0.started == s.started,
        step(p, c, s, e).0.budget + step(p, c, s, e).0.steps_taken == s.budget + s.steps_taken,
        step(p, c, s, e).0.steps_taken >= s.steps_taken,
        step(p, c, s, e).1.action is Tool ==> step(p, c, s, e).0.steps_taken > s.steps_taken,
        step(p, c, s, e).0.phase == step(p, c, s, e).1.action.waits(),
        step(p, c, s, e).1.action is Tool ==> step(p, c, s, e).0.iter == s.iter,
        entered(p, c, s, e) matches Some(u) ==> {
            &&& step(p, c, s, e) == settle(p, c, u)
            &&& u.persisted <= u.messages.len()
            &&& u.calls == round_calls(p, s, e)
            &&& u.persisted == s.persisted
            &&& u.thread_id == s.thread_id
            &&& u.iter == s.iter
            &&& u.job == s.job
            &&& u.may_delegate == s.may_delegate
            &&& u.depth == s.depth
            &&& u.results.len() <= u.calls.len()
            &&& u.budget == s.budget
            &&& u.steps_taken == s.steps_taken
            &&& forall|k: int|
                0 <= k < u.results.len() ==> (#[trigger] u.results[k]).tool_use_id == u.calls[k].id
        },
{
    if let Some(u) = entered(p, c, s, e) {
        settling(p, c, u);
        let (t, turn) = settle(p, c, u);
        if !(turn.action is Tool) {
            let rs = choose|rs: Seq<ToolResultView>| closes(p, c, u, t, turn, rs);
            assert(closes(p, c, u, t, turn, rs));
        }
    }
}

/// Nothing of an open round goes to disk; a round that goes to disk goes whole: each of its
/// calls is answered in what is added. So the conversation on disk never holds a call without
/// its result.
pub proof fn whole_rounds<P: Provider + ?Sized, C: Control>(
    p: &P,
    c: C,
    s: RunView,
    e: Event,
    k: int,
)
    requires
        s.wf(),
        expects(s, e),
        s.iter < usize::MAX,
        !c.done(true),
    ensures
        step(p, c, s, e).1.action is Tool ==> step(p, c, s, e).1.append.len() == 0,
        step(p, c, s, e).1.append.len() > 0 && 0 <= k < round_calls(p, s, e).len() ==> p.answers(
            JsonView::Array(step(p, c, s, e).1.append),
            round_calls(p, s, e)[k].id,
        ),
{
    stepping(p, c, s, e);
    let (t, turn) = step(p, c, s, e);
    let calls = round_calls(p, s, e);
    if let Some(u) = entered(p, c, s, e) {
        settling(p, c, u);
        if !(turn.action is Tool) && turn.append.len() > 0 && 0 <= k < calls.len() {
            let rs = choose|rs: Seq<ToolResultView>| closes(p, c, u, t, turn, rs);
            let tail = p.results_of(rs);
            let head = u.messages.skip(u.persisted as int);
            assert(turn.append =~= head + tail);
            assert(rs[k].tool_use_id == calls[k].id);
            p.answers_of_results(rs, calls[k].id);
            p.answers_of_parts(head, tail, calls[k].id);
        }
    }
}

/// What is added to disk is what follows the messages that were there: the messages that
/// count as saved after a step are those before it, and then what was added.
pub proof fn batches_follow<P: Provider + ?Sized, C: Control>(p: &P, c: C, s: RunView, e: Event)
    requires
        s.wf(),
        expects(s, e),
        s.iter < usize::MAX,
        !(e is Start),
        s.thread_id is Some,
    ensures
        step(p, c, s, e).0.messages.take(step(p, c, s, e).0.persisted as int) == found(s, e).take(
            s.persisted as int,
        ) + step(p, c, s, e).1.append,
{
    stepping(p, c, s, e);
    let (t, turn) = step(p, c, s, e);
    let old_part = found(s, e).take(s.persisted as int);
    if let Some(u) = entered(p, c, s, e) {
        settling(p, c, u);
        assert(u.messages.take(u.persisted as int) =~= old_part);
        if turn.action is Tool {
            assert(t.messages.take(t.persisted as int) =~= old_part + turn.append);
        } else {
            let rs = choose|rs: Seq<ToolResultView>| closes(p, c, u, t, turn, rs);
            assert(t.messages.take(t.persisted as int) =~= old_part + turn.append);
        }
    } else {
        assert(t.messages.take(t.persisted as int) =~= old_part + turn.append);
    }
}

/// A run that is not persisted adds nothing to disk.
pub proof fn ephemeral_runs_save_nothing<P: Provider + ?Sized, C: Control>(
    p: &P,
    c: C,
    s: RunView,
    e: Event,
)
    requires
        s.wf(),
        expects(s, e),
        s.iter < usize::MAX,
        s.thread_id is None,
    ensures
        step(p, c, s, e).1.append.len() == 0,
{
    stepping(p, c, s, e);
    let (t, turn) = step(p, c, s, e);
    if let Some(u) = entered(p, c, s, e) {
        settling(p, c, u);
        if !(turn.action is Tool) {
            let rs = choose|rs: Seq<ToolResultView>| closes(p, c, u, t, turn, rs);
            assert(turn.append.len() == 0);
        }
    }
}

/// Whenever the model is to be asked, the provider can build the request.
pub proof fn asked_can_be_sent<P: Provider + ?Sized, C: Control>(
    p: &P,
    c: C,
    s: RunView,
    e: Event,
)
    requires
        s.wf(),
        expects(s, e),
        s.iter < usize::MAX,
    ensures
        step(p, c, s, e).1.action is CallModel ==> p.sendable(
            JsonView::Array(step(p, c, s, e).0.messages),
        ),
{
    stepping(p, c, s, e);
    let (t, turn) = step(p, c, s, e);
    if let Some(u) = entered(p, c, s, e) {
        settling(p, c, u);
        if turn.action is CallModel {
            let rs = choose|rs: Seq<ToolResultView>| closes(p, c, u, t, turn, rs);
            p.sendable_after_results(u.messages, rs);
        }
    } else if let Event::Start { history } = e {
        p.sendable_after_task(history, opening(s.started, s.job));
    }
}

/// Only a run that may delegate and stands at the top asks for a delegation.
pub proof fn only_the_top_delegates<P: Provider + ?Sized, C: Control>(
    p: &P,
    c: C,
    s: RunView,
    e: Event,
)
    requires
        s.wf(),
        expects(s, e),
        s.iter < usize::MAX,
    ensures
        step(p, c, s, e).1.action matches ActionView::Tool { request, .. } ==> (request is Delegate
            ==> s.may_delegate && s.depth == 0),
{
    stepping(p, c, s, e);
    if let Some(u) = entered(p, c, s, e) {
        settling(p, c, u);
    }
}

/// With the standard policy every result is consistent, and is that of the run's job.
pub proof fn results_consistent<P: Provider + ?Sized>(p: &P, s: RunView, e: Event)
    requires
        s.wf(),
        expects(s, e),
        s.iter < usize::MAX,
    ensures
        step(p, Standard, s, e).1.action matches ActionView::Finish { result } ==> {
            &&& result.consistent()
            &&& result.id == s.job.id
            &&& result.steps_taken == step(p, Standard, s, e).0.steps_taken
        },
{
    stepping(p, Standard, s, e);
    let (t, turn) = step(p, Standard, s, e);
    if let Some(u) = entered(p, Standard, s, e) {
        settling(p, Standard, u);
        if !(turn.action is Tool) {
            let rs = choose|rs: Seq<ToolResultView>| closes(p, Standard, u, t, turn, rs);
            assert(closes(p, Standard, u, t, turn, rs));
        }
    }
}

/// With the standard policy a reply without calls ends the run in success: the result carries
/// the reply's text, and what is not on disk yet is saved along with the reply.
pub proof fn text_reply_ends<P: Provider + ?Sized>(
    p: &P,
    s: RunView,
    messages: Seq<JsonView>,
    resp: JsonView,
)
    requires
        p.turn_of(resp) matches Ok(turn) && turn.tool_calls.len() == 0 && turn.text_parts.len() > 0,
    ensures
        ({
            let (t, turn) = step(p, Standard, s, Event::Reply { messages, reply: Ok(resp) });
            let told = p.turn_of(resp)->Ok_0;
            &&& turn.action == ActionView::Finish {
                result: JobResultView {
                    id: s.job.id,
                    status: Status::Success,
                    output: Some(joined(told.text_parts, "\n"@)),
                    failure: None,
                    steps_taken: s.steps_taken,
                    issues: seq![],
                },
            }
            &&& turn.append == if s.thread_id is Some {
                messages.push(told.assistant_msg).skip(s.persisted as int)
            } else {
                seq![]
            }
        }),
{
}

/// With the standard policy a call to the model that fails, or a response that cannot be read,
/// ends the run in failure without output, and nothing is saved.
pub proof fn failed_reply_ends<P: Provider + ?Sized>(
    p: &P,
    s: RunView,
    messages: Seq<JsonView>,
    reply: Result<JsonView, Seq<char>>,
)
    requires
        reply is Err || p.turn_of(reply->Ok_0) is Err,
    ensures
        step(p, Standard, s, Event::Reply { messages, reply }).1 == (TurnView {
            append: seq![],
            action: ActionView::Finish {
                result: JobResultView {
                    id: s.job.id,
                    status: Status::Failure,
                    output: None,
                    failure: Some(FailureKind::RetrievalFailed),
                    steps_taken: s.steps_taken,
                    issues: seq![],
                },
            },
        }),
{
}

/// The run after some events.
pub open spec fn after<P: Provider + ?Sized, C: Control>(
    p: &P,
    c: C,
    s: RunView,
    es: Seq<Event>,
) -> RunView
    decreases es.len(),
{
    if es.len() == 0 {
        s
    } else {
        step(p, c, after(p, c, s, es.drop_last()), es.last()).0
    }
}

/// Each of the events is one that the run waits for.
pub open spec fn fits<P: Provider + ?Sized, C: Control>(
    p: &P,
    c: C,
    s: RunView,
    es: Seq<Event>,
) -> bool
    decreases es.len(),
{
    es.len() == 0 || (fits(p, c, s, es.drop_last()) && expects(
        after(p, c, s, es.drop_last()),
        es.last(),
    ))
}

/// How often the model is asked.
pub open spec fn asks<P: Provider + ?Sized, C: Control>(
    p: &P,
    c: C,
    s: RunView,
    es: Seq<Event>,
) -> nat
    decreases es.len(),
{
    if es.len() == 0 {
        0
    } else {
        let before = asks(p, c, s, es.drop_last());
        if step(p, c, after(p, c, s, es.drop_last()), es.last()).1.action is CallModel {
            before + 1
        } else {
            before
        }
    }
}

/// How often a tool is run.
pub open spec fn tools_run<P: Provider + ?Sized, C: Control>(
    p: &P,
    c: C,
    s: RunView,
    es: Seq<Event>,
) -> nat
    decreases es.len(),
{
    if es.len() == 0 {
        0
    } else {
        let before = tools_run(p, c, s, es.drop_last());
        if step(p, c, after(p, c, s, es.drop_last()), es.last()).1.action is Tool {
            before + 1
        } else {
            before
        }
    }
}

/// With the standard policy a run asks the model at most as often as its job allows, and no
/// more often than its budget has tool calls; it runs at most as many tools as its budget
/// allows, and never exceeds either on the way. What it is set up with stays as it is.
pub proof fn bounded_run<P: Provider + ?Sized>(p: &P, s: RunView, es: Seq<Event>)
    requires
        s.newly_made(),
        fits(p, Standard, s, es),
    ensures
        asks(p, Standard, s, es) <= s.job.max_iter,
        asks(p, Standard, s, es) <= s.budget,
        tools_run(p, Standard, s, es) <= s.budget,
        after(p, Standard, s, es).steps_taken + after(p, Standard, s, es).budget == s.budget,
        after(p, Standard, s, es).iter <= s.job.max_iter,
        after(p, Standard, s, es).job == s.job,
        after(p, Standard, s, es).depth == s.depth,
        after(p, Standard, s, es).may_delegate == s.may_delegate,
        after(p, Standard, s, es).thread_id == s.thread_id,
{
    bounding(p, s, es);
}

proof fn bounding<P: Provider + ?Sized>(p: &P, s: RunView, es: Seq<Event>)
    requires
        s.newly_made(),
        fits(p, Standard, s, es),
    ensures
        ({
            let t = after(p, Standard, s, es);
            &&& t.wf()
            &&& t.job == s.job
            &&& t.thread_id == s.thread_id
            &&& t.depth == s.depth
            &&& t.may_delegate == s.may_delegate
            &&& t.started == s.started
            &&& t.steps_taken + t.budget == s.budget
            &&& t.phase == Phase::Asking ==> t.budget > 0 && asks(p, Standard, s, es)
                <= t.steps_taken + 1
            &&& t.phase == Phase::Running ==> asks(p, Standard, s, es) <= t.steps_taken
            &&& t.phase == Phase::Ended ==> asks(p, Standard, s, es) <= s.budget
            &&& tools_run(p, Standard, s, es) <= t.steps_taken
            &&& t.iter <= s.job.max_iter
            &&& t.phase == Phase::Fresh ==> t.iter == 0 && asks(p, Standard, s, es) == 0
            &&& t.phase == Phase::Asking || t.phase == Phase::Running ==> t.iter < s.job.max_iter
                && asks(p, Standard, s, es) <= t.iter + 1
            &&& t.phase == Phase::Ended ==> asks(p, Standard, s, es) <= s.job.max_iter
        }),
    decreases es.len(),
{
    if es.len() > 0 {
        let before = es.drop_last();
        bounding(p, s, before);
        let u = after(p, Standard, s, before);
        let e = es.last();
        stepping(p, Standard, u, e);
        let (t, turn) = step(p, Standard, u, e);
        if let Some(v) = entered(p, Standard, u, e) {
            settling(p, Standard, v);
            if !(turn.action is Tool) {
                let rs = choose|rs: Seq<ToolResultView>| closes(p, Standard, v, t, turn, rs);
                assert(closes(p, Standard, v, t, turn, rs));
            }
        }
    }
}

/// What is added to disk over some events.
pub open spec fn on_disk<P: Provider + ?Sized, C: Control>(
    p: &P,
    c: C,
    s: RunView,
    es: Seq<Event>,
) -> Seq<JsonView>
    decreases es.len(),
{
    if es.len() == 0 {
        seq![]
    } else {
        on_disk(p, c, s, es.drop_last()) + step(p, c, after(p, c, s, es.drop_last()), es.last()).1.append
    }
}

/// One of the calls has the id.
pub open spec fn among(calls: Seq<ToolCallView>, id: Seq<char>) -> bool {
    exists|k: int| 0 <= k < calls.len() && (#[trigger] calls[k]).id == id
}

/// The model has made the call in one of its replies.
pub open spec fn called<P: Provider + ?Sized, C: Control>(
    p: &P,
    c: C,
    s: RunView,
    es: Seq<Event>,
    id: Seq<char>,
) -> bool
    decreases es.len(),
{
    es.len() > 0 && (called(p, c, s, es.drop_last(), id) || (es.last() is Reply && among(
        round_calls(p, after(p, c, s, es.drop_last()), es.last()),
        id,
    )))
}

/// With the standard policy, whenever a persisted run is not in the middle of a round, every
/// call that the model has made is answered on disk.
pub proof fn no_dangling_calls<P: Provider + ?Sized>(
    p: &P,
    s: RunView,
    es: Seq<Event>,
    id: Seq<char>,
)
    requires
        s.newly_made(),
        s.thread_id is Some,
        fits(p, Standard, s, es),
        after(p, Standard, s, es).phase != Phase::Running,
        called(p, Standard, s, es, id),
    ensures
        p.answers(JsonView::Array(on_disk(p, Standard, s, es)), id),
{
    closing(p, s, es, id);
}

proof fn closing<P: Provider + ?Sized>(p: &P, s: RunView, es: Seq<Event>, id: Seq<char>)
    requires
        s.newly_made(),
        s.thread_id is Some,
        fits(p, Standard, s, es),
    ensures
        called(p, Standard, s, es, id) ==> p.answers(
            JsonView::Array(on_disk(p, Standard, s, es)),
            id,
        ) || (after(p, Standard, s, es).phase == Phase::Running && among(
            after(p, Standard, s, es).calls,
            id,
        )),
        after(p, Standard, s, es).thread_id is Some,
    decreases es.len(),
{
    if es.len() > 0 {
        let before = es.drop_last();
        closing(p, s, before, id);
        bounding(p, s, before);
        let u = after(p, Standard, s, before);
        let e = es.last();
        stepping(p, Standard, u, e);
        let (t, turn) = step(p, Standard, u, e);
        let old_disk = on_disk(p, Standard, s, before);
        p.answers_of_parts(old_disk, turn.append, id);
        if let Some(v) = entered(p, Standard, u, e) {
            settling(p, Standard, v);
            let calls = round_calls(p, u, e);
            if !(turn.action is Tool) && among(calls, id) {
                let rs = choose|rs: Seq<ToolResultView>| closes(p, Standard, v, t, turn, rs);
                let k = choose|k: int| 0 <= k < calls.len() && (#[trigger] calls[k]).id == id;
                assert(rs[k].tool_use_id == id);
                p.answers_of_results(rs, id);
                let head = v.messages.skip(v.persisted as int);
                assert(turn.append =~= head + p.results_of(rs));
                p.answers_of_parts(head, p.results_of(rs), id);
            }
        }
    }
}

/// Without iterations or without a budget the model is not asked at all: the run ends as soon
/// as it begins, with an empty part of a result.
pub proof fn nothing_without_allowance<P: Provider + ?Sized>(p: &P, s: RunView, es: Seq<Event>)
    requires
        s.newly_made(),
        s.job.max_iter == 0 || s.budget == 0,
        fits(p, Standard, s, es),
    ensures
        es.len() <= 1,
        asks(p, Standard, s, es) == 0,
        es.len() == 1 ==> step(p, Standard, s, es[0]).1 == (TurnView {
            append: seq![],
            action: ActionView::Finish {
                result: JobResultView {
                    id: s.job.id,
                    status: Status::Partial,
                    output: Some(seq![]),
                    failure: Some(FailureKind::BudgetExceeded),
                    steps_taken: 0,
                    issues: seq![],
                },
            },
        }),
    decreases es.len(),
{
    if es.len() > 0 {
        nothing_without_allowance(p, s, es.drop_last());
        if es.len() == 1 {
            assert(es.drop_last() =~= seq![]);
            assert(es.last() == es[0]);
            assert(s.last_text =~= seq![]);
        } else {
            let first = es.drop_last();
            assert(first.len() == 1);
            assert(first.drop_last() =~= seq![]);
            assert(after(p, Standard, s, first.drop_last()) == s);
            assert(fits(p, Standard, s, first));
            assert(expects(s, first.last()));
            assert(after(p, Standard, s, first) == step(p, Standard, s, first.last()).0);
            assert(after(p, Standard, s, first).phase == Phase::Ended);
        }
    }
}

/// The turn that an event brings, where it is a reply that can be read.
pub open spec fn turn_in<P: Provider + ?Sized>(p: &P, e: Event) -> Option<ParsedView> {
    match e {
        Event::Reply { reply, .. } => match reply {
            Ok(resp) => match p.turn_of(resp) {
                Ok(turn) => Some(turn),
                Err(_) => None,
            },
            Err(_) => None,
        },
        _ => None,
    }
}

/// The turns that some events bring, in order.
pub open spec fn turns<P: Provider + ?Sized>(p: &P, es: Seq<Event>) -> Seq<ParsedView>
    decreases es.len(),
{
    if es.len() == 0 {
        seq![]
    } else {
        let before = turns(p, es.drop_last());
        match turn_in(p, es.last()) {
            Some(turn) => before.push(turn),
            None => before,
        }
    }
}

/// The text of the last turn that had any; empty where none had.
pub open spec fn told_text(turns: Seq<ParsedView>) -> Seq<char>
    decreases turns.len(),
{
    if turns.len() == 0 {
        seq![]
    } else if turns.last().text_parts.len() > 0 {
        joined(turns.last().text_parts, "\n"@)
    } else {
        told_text(turns.drop_last())
    }
}

proof fn telling<P: Provider + ?Sized>(p: &P, s: RunView, es: Seq<Event>)
    requires
        s.newly_made(),
        fits(p, Standard, s, es),
    ensures
        after(p, Standard, s, es).last_text == told_text(turns(p, es)),
    decreases es.len(),
{
    if es.len() > 0 {
        let before = es.drop_last();
        telling(p, s, before);
        bounding(p, s, before);
        let u = after(p, Standard, s, before);
        let e = es.last();
        stepping(p, Standard, u, e);
        if let Some(v) = entered(p, Standard, u, e) {
            settling(p, Standard, v);
        }
        if let Some(turn) = turn_in(p, e) {
            assert(turns(p, es).drop_last() =~= turns(p, before));
        }
    } else {
        assert(s.last_text =~= seq![]);
    }
}

/// With the standard policy the result of a run is consistent and bears the job's id; it has
/// no issues, is never blocked, and has output unless it is a failure: the text of the last
/// turn that had any.
pub proof fn result_of_run<P: Provider + ?Sized>(p: &P, s: RunView, es: Seq<Event>)
    requires
        s.newly_made(),
        es.len() > 0,
        fits(p, Standard, s, es),
    ensures
        step(p, Standard, after(p, Standard, s, es.drop_last()), es.last()).1.action matches
            ActionView::Finish { result } ==> {
            &&& result.id == s.job.id
            &&& result.consistent()
            &&& result.issues.len() == 0
            &&& result.status != Status::Blocked
            &&& result.output is None <==> result.status == Status::Failure
            &&& result.output matches Some(text) ==> text == told_text(turns(p, es))
            &&& result.steps_taken == after(p, Standard, s, es).steps_taken
        },
{
    let before = es.drop_last();
    telling(p, s, es);
    bounding(p, s, before);
    let u = after(p, Standard, s, before);
    let e = es.last();
    stepping(p, Standard, u, e);
    results_consistent(p, u, e);
    let (t, turn) = step(p, Standard, u, e);
    if let Some(v) = entered(p, Standard, u, e) {
        settling(p, Standard, v);
        if !(turn.action is Tool) {
            let rs = choose|rs: Seq<ToolResultView>| closes(p, Standard, v, t, turn, rs);
            assert(closes(p, Standard, v, t, turn, rs));
        }
    }
}

/// The conversations that the model is sent, in order.
pub open spec fn sent<P: Provider + ?Sized, C: Control>(
    p: &P,
    c: C,
    s: RunView,
    es: Seq<Event>,
) -> Seq<Seq<JsonView>>
    decreases es.len(),
{
    if es.len() == 0 {
        seq![]
    } else {
        let before = sent(p, c, s, es.drop_last());
        if step(p, c, after(p, c, s, es.drop_last()), es.last()).1.action is CallModel {
            before.push(after(p, c, s, es).messages)
        } else {
            before
        }
    }
}

/// The tools that a run offers to the model, in the provider's request format.
pub open spec fn offered<P: Provider + ?Sized>(p: &P, s: RunView) -> JsonView {
    p.tools_of(JsonView::Array(tool_defs(s.depth)))
}

/// The requests that the calls to the model begin with, in order.
pub open spec fn requests<P: Provider + ?Sized, C: Control>(
    p: &P,
    c: C,
    s: RunView,
    es: Seq<Event>,
    model: Seq<char>,
    system: Seq<char>,
) -> Seq<JsonView>
    decreases es.len(),
{
    if es.len() == 0 {
        seq![]
    } else {
        let before = requests(p, c, s, es.drop_last(), model, system);
        let t = after(p, c, s, es);
        if step(p, c, after(p, c, s, es.drop_last()), es.last()).1.action is CallModel {
            before.push(
                p.request_of(model, system, offered(p, t), JsonView::Array(t.messages)),
            )
        } else {
            before
        }
    }
}

/// With the standard policy each call to the model begins with a request for the
/// conversation that it is sent, and all of them name the same model, the same system text
/// and the tools of the depth at which the run was set up.
pub proof fn requests_of_run<P: Provider + ?Sized>(
    p: &P,
    s: RunView,
    es: Seq<Event>,
    model: Seq<char>,
    system: Seq<char>,
)
    requires
        s.newly_made(),
        fits(p, Standard, s, es),
    ensures
        sent(p, Standard, s, es).len() == asks(p, Standard, s, es),
        requests(p, Standard, s, es, model, system) == sent(p, Standard, s, es).map_values(
            |messages: Seq<JsonView>|
                p.request_of(model, system, offered(p, s), JsonView::Array(messages)),
        ),
    decreases es.len(),
{
    if es.len() > 0 {
        requests_of_run(p, s, es.drop_last(), model, system);
        bounding(p, s, es);
    }
    assert(requests(p, Standard, s, es, model, system) =~= sent(p, Standard, s, es).map_values(
        |messages: Seq<JsonView>|
            p.request_of(model, system, offered(p, s), JsonView::Array(messages)),
    ));
}

/// The transport hands each conversation back as it got it.
pub open spec fn untouched<P: Provider + ?Sized, C: Control>(
    p: &P,
    c: C,
    s: RunView,
    es: Seq<Event>,
) -> bool
    decreases es.len(),
{
    es.len() == 0 || (untouched(p, c, s, es.drop_last()) && (es.last() matches Event::Reply {
        messages,
        ..
    } ==> messages == after(p, c, s, es.drop_last()).messages))
}

/// One result for each call, in order and under its id.
pub open spec fn one_for_each(rs: Seq<ToolResultView>, calls: Seq<ToolCallView>) -> bool {
    &&& rs.len() == calls.len()
    &&& forall|k: int| 0 <= k < rs.len() ==> (#[trigger] rs[k]).tool_use_id == calls[k].id
}

/// Rounds, one after another: each turn's message, and then the messages of its results.
pub open spec fn rounds<P: Provider + ?Sized>(
    p: &P,
    turns: Seq<ParsedView>,
    results: Seq<Seq<ToolResultView>>,
) -> Seq<JsonView>
    decreases results.len(),
{
    if results.len() == 0 {
        seq![]
    } else {
        rounds(p, turns.take(results.len() - 1), results.drop_last()).push(
            turns[results.len() - 1].assistant_msg,
        ) + p.results_of(results.last())
    }
}

/// The message that opens the run.
pub open spec fn task_of_run(s: RunView) -> JsonView {
    task_message(opening(s.started, s.job))
}

/// The run ended with a reply without calls: there is a turn more than there are rounds.
pub open spec fn stopped<P: Provider + ?Sized>(
    p: &P,
    s: RunView,
    es: Seq<Event>,
    results: Seq<Seq<ToolResultView>>,
) -> bool {
    after(p, Standard, s, es).phase == Phase::Ended && turns(p, es).len() > results.len()
}

/// The conversation once a turn has come that no round holds yet.
pub open spec fn open_turn(turns: Seq<ParsedView>, n: int) -> Seq<JsonView> {
    if turns.len() > n {
        seq![turns[n].assistant_msg]
    } else {
        seq![]
    }
}

/// What a run comes to, with the results of its completed rounds: each round has one result
/// for each call; the model is sent the history and the task first, and then each time one
/// round more; and on disk stand the task, the completed rounds and the last reply, in order,
/// or nothing where no round and no reply was completed.
pub open spec fn story<P: Provider + ?Sized>(
    p: &P,
    s: RunView,
    history: Seq<JsonView>,
    es: Seq<Event>,
    results: Seq<Seq<ToolResultView>>,
) -> bool {
    let ts = turns(p, es);
    let n = results.len() as int;
    let head = history.push(task_of_run(s));
    let disk = on_disk(p, Standard, s, es);
    let last = stopped(p, s, es, results);
    &&& n == after(p, Standard, s, es).iter
    &&& n <= ts.len() <= n + 1
    &&& last ==> ts[n].tool_calls.len() == 0
    &&& forall|k: int| 0 <= k < n ==> one_for_each(#[trigger] results[k], ts[k].tool_calls)
    &&& after(p, Standard, s, es).messages == head + rounds(p, ts.take(n), results) + open_turn(
        ts,
        n,
    )
    &&& sent(p, Standard, s, es).len() <= n + 1
    &&& forall|k: int|
        0 <= k < sent(p, Standard, s, es).len() ==> #[trigger] sent(p, Standard, s, es)[k] == head
            + rounds(p, ts.take(k), results.take(k))
    &&& disk == if s.thread_id is None || (n == 0 && !last) {
        seq![]
    } else {
        seq![task_of_run(s)] + rounds(p, ts.take(n), results) + (if last {
            open_turn(ts, n)
        } else {
            seq![]
        })
    }
}

/// One round more.
proof fn round_more<P: Provider + ?Sized>(
    p: &P,
    ts: Seq<ParsedView>,
    results: Seq<Seq<ToolResultView>>,
    rs: Seq<ToolResultView>,
)
    requires
        ts.len() == results.len() + 1,
    ensures
        rounds(p, ts.take(ts.len() as int), results.push(rs)) == rounds(
            p,
            ts.take(results.len() as int),
            results,
        ) + seq![ts.last().assistant_msg] + p.results_of(rs),
{
    let all = ts.take(ts.len() as int);
    let more = results.push(rs);
    assert(all =~= ts);
    assert(more.drop_last() =~= results);
    assert(rounds(p, all, more) =~= rounds(p, ts.take(results.len() as int), results) + seq![
        ts.last().assistant_msg,
    ] + p.results_of(rs));
}

/// What holds between two events, besides the story.
spec fn between<P: Provider + ?Sized>(
    p: &P,
    s: RunView,
    history: Seq<JsonView>,
    es: Seq<Event>,
    results: Seq<Seq<ToolResultView>>,
) -> bool {
    let t = after(p, Standard, s, es);
    let ts = turns(p, es);
    let n = results.len() as int;
    let whole = history.len() + 1 + rounds(p, ts.take(n), results).len();
    &&& t.phase != Phase::Fresh
    &&& t.phase == Phase::Asking ==> ts.len() == n && sent(p, Standard, s, es).len() == n + 1
    &&& t.phase == Phase::Running ==> ts.len() == n + 1 && t.calls == ts[n].tool_calls && sent(
        p,
        Standard,
        s,
        es,
    ).len() == n + 1
    &&& s.thread_id is Some ==> {
        &&& history + on_disk(p, Standard, s, es) == t.messages.take(t.persisted as int)
        &&& t.phase != Phase::Ended ==> t.persisted == if n == 0 {
            history.len()
        } else {
            whole as nat
        }
    }
}

/// What a run comes to, told from its beginning: see `story`. The results of its completed
/// rounds are given back.
pub proof fn whole_story<P: Provider + ?Sized>(
    p: &P,
    s: RunView,
    history: Seq<JsonView>,
    es: Seq<Event>,
) -> (results: Seq<Seq<ToolResultView>>)
    requires
        s.newly_made(),
        es.len() > 0,
        es[0] == (Event::Start { history }),
        fits(p, Standard, s, es),
        untouched(p, Standard, s, es),
    ensures
        story(p, s, history, es, results),
{
    narrating(p, s, history, es)
}

/// The story once the run has begun.
proof fn narrate_start<P: Provider + ?Sized>(
    p: &P,
    s: RunView,
    history: Seq<JsonView>,
    es: Seq<Event>,
)
    requires
        s.newly_made(),
        es.len() == 1,
        es[0] == (Event::Start { history }),
        fits(p, Standard, s, es),
    ensures
        story(p, s, history, es, seq![]),
        between(p, s, history, es, seq![]),
{
    let before = es.drop_last();
    let (t, turn) = step(p, Standard, s, es.last());
    let head = history.push(task_of_run(s));
    let ts = turns(p, es);
    let none = Seq::<Seq<ToolResultView>>::empty();
    assert(before =~= seq![]);
    assert(turns(p, before) =~= seq![]);
    assert(ts =~= seq![]);
    assert(rounds(p, ts.take(0), none) =~= seq![]);
    assert(t.messages == head);
    assert(head =~= head + rounds(p, ts.take(0), none) + open_turn(ts, 0));
    assert(on_disk(p, Standard, s, before) =~= seq![]);
    assert(on_disk(p, Standard, s, es) =~= seq![]);
    assert(t.messages.take(t.persisted as int) =~= history);
    assert(history + on_disk(p, Standard, s, es) =~= history);
    assert(sent(p, Standard, s, before) =~= seq![]);
    assert forall|k: int| 0 <= k < sent(p, Standard, s, es).len() implies #[trigger] sent(
        p,
        Standard,
        s,
        es,
    )[k] == head + rounds(p, ts.take(k), none.take(k)) by {
        assert(none.take(0) =~= none);
        assert(head =~= head + rounds(p, ts.take(0), none));
    }
}

/// What one event more adds to the story, whatever it is.
proof fn narrate_on<P: Provider + ?Sized>(
    p: &P,
    s: RunView,
    history: Seq<JsonView>,
    es: Seq<Event>,
    results: Seq<Seq<ToolResultView>>,
)
    requires
        s.newly_made(),
        es.len() > 1,
        fits(p, Standard, s, es),
        untouched(p, Standard, s, es),
        story(p, s, history, es.drop_last(), results),
        between(p, s, history, es.drop_last(), results),
    ensures
        ({
            let u = after(p, Standard, s, es.drop_last());
            let append = step(p, Standard, u, es.last()).1.append;
            let n = results.len() as int;
            &&& !(es.last() is Start)
            &&& u.wf() && expects(u, es.last()) && u.iter < usize::MAX
            &&& u.thread_id == s.thread_id
            &&& u.job == s.job
            &&& found(u, es.last()) == u.messages
            &&& on_disk(p, Standard, s, es) == on_disk(p, Standard, s, es.drop_last()) + append
            &&& s.thread_id is None ==> append.len() == 0
            &&& s.thread_id is Some ==> history + on_disk(p, Standard, s, es) == after(
                p,
                Standard,
                s,
                es,
            ).messages.take(after(p, Standard, s, es).persisted as int)
            &&& forall|k: int|
                0 <= k <= n ==> #[trigger] turns(p, es).take(k) == turns(p, es.drop_last()).take(k)
        }),
{
    let before = es.drop_last();
    let u = after(p, Standard, s, before);
    let e = es.last();
    let ts = turns(p, es);
    let old_ts = turns(p, before);
    bounding(p, s, before);
    stepping(p, Standard, u, e);
    if s.thread_id is Some {
        batches_follow(p, Standard, u, e);
        assert(history + on_disk(p, Standard, s, es) =~= u.messages.take(u.persisted as int)
            + step(p, Standard, u, e).1.append);
    } else {
        ephemeral_runs_save_nothing(p, Standard, u, e);
    }
    assert forall|k: int| 0 <= k <= results.len() implies #[trigger] ts.take(k) == old_ts.take(
        k,
    ) by {
        assert(ts.take(k) =~= old_ts.take(k));
    }
}

/// The story once a round has gone on or come to its end.
proof fn narrate_round<P: Provider + ?Sized>(
    p: &P,
    s: RunView,
    history: Seq<JsonView>,
    es: Seq<Event>,
    results: Seq<Seq<ToolResultView>>,
) -> (more: Seq<Seq<ToolResultView>>)
    requires
        s.newly_made(),
        es.len() > 1,
        fits(p, Standard, s, es),
        untouched(p, Standard, s, es),
        story(p, s, history, es.drop_last(), results),
        between(p, s, history, es.drop_last(), results),
        entered(p, Standard, after(p, Standard, s, es.drop_last()), es.last()) is Some,
    ensures
        story(p, s, history, es, more),
        between(p, s, history, es, more),
{
    narrate_on(p, s, history, es, results);
    let before = es.drop_last();
    let u = after(p, Standard, s, before);
    let e = es.last();
    let (t, turn) = step(p, Standard, u, e);
    let head = history.push(task_of_run(s));
    let n = results.len() as int;
    let old_ts = turns(p, before);
    let ts = turns(p, es);
    let base = rounds(p, old_ts.take(n), results);
    let old_disk = on_disk(p, Standard, s, before);
    let disk = on_disk(p, Standard, s, es);
    let v = entered(p, Standard, u, e)->0;
    stepping(p, Standard, u, e);
    settling(p, Standard, v);
    assert(ts.take(n) == old_ts.take(n));
    assert(ts.len() == n + 1);
    assert(v.messages =~= head + base + seq![ts[n].assistant_msg]);
    if turn.action is Tool {
        assert(open_turn(ts, n) =~= seq![ts[n].assistant_msg]);
        assert(disk =~= old_disk);
        results
    } else {
        let rs = choose|rs: Seq<ToolResultView>| closes(p, Standard, v, t, turn, rs);
        let more = results.push(rs);
        round_more(p, ts, results, rs);
        let grown = rounds(p, ts.take(n + 1), more);
        assert(t.messages =~= head + grown + open_turn(ts, n + 1));
        assert forall|k: int| 0 <= k < n + 1 implies one_for_each(
            #[trigger] more[k],
            ts[k].tool_calls,
        ) by {
            if k < n {
                assert(more[k] == results[k]);
                assert(ts.take(n)[k] == old_ts.take(n)[k]);
            }
        }
        assert forall|k: int| 0 <= k < sent(p, Standard, s, es).len() implies #[trigger] sent(
            p,
            Standard,
            s,
            es,
        )[k] == head + rounds(p, ts.take(k), more.take(k)) by {
            if k <= n {
                assert(more.take(k) =~= results.take(k));
                assert(sent(p, Standard, s, es)[k] == sent(p, Standard, s, before)[k]);
            } else {
                assert(more.take(k) =~= more);
                assert(t.messages =~= head + grown);
            }
        }
        if s.thread_id is Some {
            assert(t.messages.take(t.persisted as int) =~= t.messages);
            assert((history + disk).skip(history.len() as int) =~= disk);
            assert(t.messages.skip(history.len() as int) =~= seq![task_of_run(s)] + grown);
            assert(disk =~= seq![task_of_run(s)] + grown + Seq::<JsonView>::empty());
        }
        more
    }
}

/// The story once the run has ended: with a reply without calls, or without one.
proof fn narrate_end<P: Provider + ?Sized>(
    p: &P,
    s: RunView,
    history: Seq<JsonView>,
    es: Seq<Event>,
    results: Seq<Seq<ToolResultView>>,
)
    requires
        s.newly_made(),
        es.len() > 1,
        fits(p, Standard, s, es),
        untouched(p, Standard, s, es),
        story(p, s, history, es.drop_last(), results),
        between(p, s, history, es.drop_last(), results),
        entered(p, Standard, after(p, Standard, s, es.drop_last()), es.last()) is None,
    ensures
        story(p, s, history, es, results),
        between(p, s, history, es, results),
{
    narrate_on(p, s, history, es, results);
    let before = es.drop_last();
    let u = after(p, Standard, s, before);
    let e = es.last();
    let (t, turn) = step(p, Standard, u, e);
    let head = history.push(task_of_run(s));
    let n = results.len() as int;
    let old_ts = turns(p, before);
    let ts = turns(p, es);
    let base = rounds(p, old_ts.take(n), results);
    let disk = on_disk(p, Standard, s, es);
    assert(ts.take(n) == old_ts.take(n));
    assert(sent(p, Standard, s, es) == sent(p, Standard, s, before));
    assert(t.messages =~= head + base + open_turn(ts, n));
    if turn_in(p, e) is Some {
        if s.thread_id is Some {
            assert(t.messages.take(t.persisted as int) =~= t.messages);
            assert((history + disk).skip(history.len() as int) =~= disk);
            assert(t.messages.skip(history.len() as int) =~= seq![task_of_run(s)] + base
                + open_turn(ts, n));
        }
    } else {
        assert(disk =~= on_disk(p, Standard, s, before));
    }
}

proof fn narrating<P: Provider + ?Sized>(
    p: &P,
    s: RunView,
    history: Seq<JsonView>,
    es: Seq<Event>,
) -> (results: Seq<Seq<ToolResultView>>)
    requires
        s.newly_made(),
        es.len() > 0,
        es[0] == (Event::Start { history }),
        fits(p, Standard, s, es),
        untouched(p, Standard, s, es),
    ensures
        story(p, s, history, es, results),
        between(p, s, history, es, results),
    decreases es.len(),
{
    if es.len() == 1 {
        narrate_start(p, s, history, es);
        seq![]
    } else {
        let before = es.drop_last();
        assert(before[0] == es[0]);
        let results = narrating(p, s, history, before);
        if entered(p, Standard, after(p, Standard, s, before), es.last()) is Some {
            narrate_round(p, s, history, es, results)
        } else {
            narrate_end(p, s, history, es, results);
            results
        }
    }
}

// ── Laws: what each result holds ───────────────────────────────────────────────

/// The results at the places from `from` on are those of calls that no tool was run for: with a
/// budget that reaches, what the call comes to is known without a tool, and past it the call is
/// told that the budget is spent. Each stands under the id of its call.
pub open spec fn answered_unrun(
    may_delegate: bool,
    depth: usize,
    calls: Seq<ToolCallView>,
    rs: Seq<ToolResultView>,
    from: int,
    budget: int,
) -> bool {
    forall|j: int|
        from <= j < rs.len() ==> {
            &&& (#[trigger] rs[j]).tool_use_id == calls[j].id
            &&& if j - from < budget {
                request(may_delegate, depth, calls[j]) == ToolRequestView::Answer {
                    text: rs[j].content,
                }
            } else {
                rs[j].content == "[budget exhausted — could not run tool]"@
            }
        }
}

/// How a round goes on once `rs` are its results, of which `paid` are new: with the tool for the
/// next call, or, where all calls are answered, with the results in the conversation. One tool
/// call is charged for each new result and for the tool that is run, as far as the budget
/// reaches.
pub open spec fn goes_on_from<P: Provider + ?Sized>(
    p: &P,
    s: RunView,
    t: RunView,
    turn: TurnView,
    rs: Seq<ToolResultView>,
    paid: int,
) -> bool {
    match turn.action {
        ActionView::Tool { id, request: asked } => {
            &&& rs.len() < s.calls.len()
            &&& t.calls == s.calls
            &&& t.results == rs
            &&& id == s.calls[rs.len() as int].id
            &&& asked == request(s.may_delegate, s.depth, s.calls[rs.len() as int])
            &&& !(asked is Answer)
            &&& t.budget == s.budget - paid - 1
            &&& t.steps_taken == s.steps_taken + paid + 1
            &&& t.messages == s.messages
            &&& t.iter == s.iter
            &&& turn.append.len() == 0
        },
        _ => {
            &&& rs.len() == s.calls.len()
            &&& t.messages == s.messages + p.results_of(rs)
            &&& t.budget == if s.budget > paid {
                s.budget - paid
            } else {
                0
            }
            &&& t.steps_taken == s.steps_taken + s.budget - t.budget
            &&& t.iter == s.iter + 1
            &&& t.calls.len() == 0
            &&& t.results.len() == 0
        },
    }
}

/// What a stretch of calls comes to, result by result.
proof fn settling_each<P: Provider + ?Sized, C: Control>(p: &P, c: C, s: RunView) -> (rs: Seq<
    ToolResultView,
>)
    requires
        s.results.len() <= s.calls.len(),
        s.budget + s.steps_taken <= usize::MAX,
        s.iter < usize::MAX,
    ensures
        rs.len() >= s.results.len(),
        rs.take(s.results.len() as int) == s.results,
        answered_unrun(
            s.may_delegate,
            s.depth,
            s.calls,
            rs,
            s.results.len() as int,
            s.budget as int,
        ),
        goes_on_from(p, s, settle(p, c, s).0, settle(p, c, s).1, rs, rs.len() - s.results.len()),
    decreases s.calls.len() - s.results.len(),
{
    let n = s.results.len() as int;
    if s.results.len() >= s.calls.len() {
        assert(s.results.take(n) =~= s.results);
        s.results
    } else if s.budget == 0 {
        let u = s.with_result(exhausted());
        let rs = settling_each(p, c, u);
        assert(rs.take(n) =~= u.results.take(n));
        assert(u.results.take(n) =~= s.results);
        assert(rs[n] == rs.take(n + 1)[n]);
        assert forall|j: int| n <= j < rs.len() implies {
            &&& (#[trigger] rs[j]).tool_use_id == s.calls[j].id
            &&& rs[j].content == "[budget exhausted — could not run tool]"@
        } by {}
        rs
    } else {
        match s.next_request() {
            ToolRequestView::Answer { text } => {
                let u = s.charged().with_result(text);
                let rs = settling_each(p, c, u);
                assert(rs.take(n) =~= u.results.take(n));
                assert(u.results.take(n) =~= s.results);
                assert(rs[n] == rs.take(n + 1)[n]);
                rs
            },
            _ => {
                assert(s.results.take(n) =~= s.results);
                s.results
            },
        }
    }
}

/// A result that is handed in is the result of the call that waited for it, and of no other:
/// the results that were there stay in their places, the new one comes next, under its call's
/// id and with the content as it was handed in, and those behind it are of calls that no tool
/// was run for. With these results the round goes on, or joins the conversation.
pub proof fn result_is_for_its_call<P: Provider + ?Sized, C: Control>(
    p: &P,
    c: C,
    s: RunView,
    content: Seq<char>,
) -> (rs: Seq<ToolResultView>)
    requires
        s.wf(),
        s.phase == Phase::Running,
        s.iter < usize::MAX,
    ensures
        rs.len() > s.results.len(),
        forall|j: int| 0 <= j < s.results.len() ==> #[trigger] rs[j] == s.results[j],
        rs[s.results.len() as int].tool_use_id == s.calls[s.results.len() as int].id,
        rs[s.results.len() as int].content == content,
        answered_unrun(
            s.may_delegate,
            s.depth,
            s.calls,
            rs,
            s.results.len() as int + 1,
            s.budget as int,
        ),
        ({
            let (t, turn) = step(p, c, s, Event::Result { content });
            goes_on_from(p, s, t, turn, rs, rs.len() - s.results.len() - 1)
        }),
{
    let n = s.results.len() as int;
    let u = s.with_result(content);
    let rs = settling_each(p, c, u);
    assert(rs[n] == rs.take(n + 1)[n]);
    assert forall|j: int| 0 <= j < s.results.len() implies #[trigger] rs[j] == s.results[j] by {
        assert(rs[j] == rs.take(n + 1)[j]);
    }
    rs
}

/// A reply with calls begins a round of its own: its first results are of calls that no tool
/// was run for, none is left from before, and the reply's message is in the conversation.
pub proof fn reply_begins_round<P: Provider + ?Sized, C: Control>(
    p: &P,
    c: C,
    s: RunView,
    messages: Seq<JsonView>,
    resp: JsonView,
) -> (rs: Seq<ToolResultView>)
    requires
        s.wf(),
        s.iter < usize::MAX,
        p.turn_of(resp) matches Ok(told) && !c.done(told.tool_calls.len() > 0),
    ensures
        answered_unrun(
            s.may_delegate,
            s.depth,
            p.turn_of(resp)->Ok_0.tool_calls,
            rs,
            0,
            s.budget as int,
        ),
        ({
            let (t, turn) = step(p, c, s, Event::Reply { messages, reply: Ok(resp) });
            let told = p.turn_of(resp)->Ok_0;
            let open = RunView {
                messages: messages + seq![told.assistant_msg],
                calls: told.tool_calls,
                ..s
            };
            &&& goes_on_from(p, open, t, turn, rs, rs.len() as int)
            &&& t.last_text == if told.text_parts.len() > 0 {
                joined(told.text_parts, "\n"@)
            } else {
                s.last_text
            }
        }),
{
    let told = p.turn_of(resp)->Ok_0;
    let u = RunView {
        messages: messages.push(told.assistant_msg),
        last_text: if told.text_parts.len() > 0 {
            joined(told.text_parts, "\n"@)
        } else {
            s.last_text
        },
        calls: told.tool_calls,
        results: seq![],
        ..s
    };
    let rs = settling_each(p, c, u);
    assert(messages + seq![told.assistant_msg] =~= u.messages);
    last_text_stays(p, c, u);
    rs
}

proof fn last_text_stays<P: Provider + ?Sized, C: Control>(p: &P, c: C, s: RunView)
    ensures
        settle(p, c, s).0.last_text == s.last_text,
    decreases s.calls.len() - s.results.len(),
{
    if s.results.len() < s.calls.len() {
        if s.budget == 0 {
            last_text_stays(p, c, s.with_result(exhausted()));
        } else if let ToolRequestView::Answer { text } = s.next_request() {
            last_text_stays(p, c, s.charged().with_result(text));
        }
    }
}

/// A reply, and then the results of the tools that are run for its calls.
pub open spec fn round_events(
    messages: Seq<JsonView>,
    resp: JsonView,
    handed_in: Seq<Seq<char>>,
) -> Seq<Event> {
    seq![Event::Reply { messages, reply: Ok(resp) }] + Seq::new(
        handed_in.len(),
        |i: int| Event::Result { content: handed_in[i] },
    )
}

/// How many of the first `k` calls need a tool.
pub open spec fn tools_among(
    may_delegate: bool,
    depth: usize,
    calls: Seq<ToolCallView>,
    k: int,
) -> nat
    decreases k,
{
    if k <= 0 {
        0
    } else {
        tools_among(may_delegate, depth, calls, k - 1) + if request(
            may_delegate,
            depth,
            calls[k - 1],
        ) is Answer {
            0nat
        } else {
            1nat
        }
    }
}

/// The result at the place `k` of a round holds what was handed in for its call: where the
/// budget at the reply reached that far, the content that came for it, counting the calls
/// before it that need a tool, or the answer that is known without a tool; and past the budget
/// the note that it is spent.
pub open spec fn holds_what_came(
    s: RunView,
    calls: Seq<ToolCallView>,
    handed_in: Seq<Seq<char>>,
    rs: Seq<ToolResultView>,
    k: int,
) -> bool {
    &&& rs[k].tool_use_id == calls[k].id
    &&& k < s.budget ==> match request(s.may_delegate, s.depth, calls[k]) {
        ToolRequestView::Answer { text } => rs[k].content == text,
        _ => {
            let i = tools_among(s.may_delegate, s.depth, calls, k) as int;
            i < handed_in.len() && rs[k].content == handed_in[i]
        },
    }
    &&& k >= s.budget ==> rs[k].content == "[budget exhausted — could not run tool]"@
}

/// Over a whole round, from the reply on, every result holds what was handed in for its call;
/// and while the round is open, the tool that is asked for is that of the first call without a
/// result. The results are given back: they are those that the run holds, or, once the round is
/// closed, those that joined the conversation behind the reply.
pub proof fn round_holds_what_came<P: Provider + ?Sized, C: Control>(
    p: &P,
    c: C,
    s: RunView,
    messages: Seq<JsonView>,
    resp: JsonView,
    handed_in: Seq<Seq<char>>,
) -> (rs: Seq<ToolResultView>)
    requires
        s.wf(),
        s.phase == Phase::Asking,
        s.persisted <= messages.len(),
        s.iter < usize::MAX,
        p.turn_of(resp) matches Ok(told) && !c.done(told.tool_calls.len() > 0),
        fits(p, c, s, round_events(messages, resp, handed_in)),
    ensures
        ({
            let told = p.turn_of(resp)->Ok_0;
            let calls = told.tool_calls;
            let t = after(p, c, s, round_events(messages, resp, handed_in));
            &&& t.wf()
            &&& rs.len() <= calls.len()
            &&& forall|k: int|
                0 <= k < rs.len() ==> #[trigger] holds_what_came(s, calls, handed_in, rs, k)
            &&& t.phase == Phase::Running ==> {
                &&& t.calls == calls
                &&& t.results == rs
                &&& rs.len() < s.budget
                &&& t.budget == s.budget - rs.len() - 1
                &&& t.messages == messages + seq![told.assistant_msg]
                &&& t.iter == s.iter
                &&& tools_among(s.may_delegate, s.depth, calls, rs.len() as int)
                    == handed_in.len()
                &&& !(request(s.may_delegate, s.depth, calls[rs.len() as int]) is Answer)
            }
            &&& t.phase != Phase::Running ==> {
                &&& rs.len() == calls.len()
                &&& t.messages == messages + seq![told.assistant_msg] + p.results_of(rs)
                &&& t.iter == s.iter + 1
            }
            &&& t.may_delegate == s.may_delegate
            &&& t.depth == s.depth
        }),
    decreases handed_in.len(),
{
    let es = round_events(messages, resp, handed_in);
    let told = p.turn_of(resp)->Ok_0;
    let calls = told.tool_calls;
    if handed_in.len() == 0 {
        assert(es.drop_last() =~= seq![]);
        let e = es.last();
        assert(after(p, c, s, es.drop_last()) == s);
        stepping(p, c, s, e);
        let rs = reply_begins_round(p, c, s, messages, resp);
        counting(s.may_delegate, s.depth, calls, rs, 0, s.budget as int);
        assert forall|k: int| 0 <= k < rs.len() implies #[trigger] holds_what_came(
            s,
            calls,
            handed_in,
            rs,
            k,
        ) by {
            assert(rs[k].tool_use_id == calls[k].id);
        }
        rs
    } else {
        let before = handed_in.drop_last();
        let content = handed_in.last();
        assert(es.drop_last() =~= round_events(messages, resp, before));
        assert(es.last() == (Event::Result { content }));
        let old_rs = round_holds_what_came(p, c, s, messages, resp, before);
        let u = after(p, c, s, es.drop_last());
        assert(u.phase == Phase::Running);
        stepping(p, c, u, es.last());
        let rs = result_is_for_its_call(p, c, u, content);
        let n = old_rs.len() as int;
        counting(s.may_delegate, s.depth, calls, rs, n + 1, u.budget as int);
        assert forall|k: int| 0 <= k < rs.len() implies #[trigger] holds_what_came(
            s,
            calls,
            handed_in,
            rs,
            k,
        ) by {
            if k < n {
                assert(rs[k] == u.results[k]);
                assert(holds_what_came(s, calls, before, old_rs, k));
            } else if k > n {
                assert(rs[k].tool_use_id == calls[k].id);
            }
        }
        rs
    }
}

/// Calls that no tool was run for do not count as calls that need one.
proof fn counting(
    may_delegate: bool,
    depth: usize,
    calls: Seq<ToolCallView>,
    rs: Seq<ToolResultView>,
    from: int,
    budget: int,
)
    requires
        0 <= from <= rs.len() <= calls.len(),
        answered_unrun(may_delegate, depth, calls, rs, from, budget),
    ensures
        rs.len() - from <= budget ==> tools_among(may_delegate, depth, calls, rs.len() as int)
            == tools_among(may_delegate, depth, calls, from),
    decreases rs.len() - from,
{
    if from < rs.len() {
        assert(rs[from].tool_use_id == calls[from].id);
        assert forall|j: int| from + 1 <= j < rs.len() implies {
            &&& (#[trigger] rs[j]).tool_use_id == calls[j].id
            &&& if j - (from + 1) < budget - 1 {
                request(may_delegate, depth, calls[j]) == ToolRequestView::Answer {
                    text: rs[j].content,
                }
            } else {
                rs[j].content == "[budget exhausted — could not run tool]"@
            }
        } by {}
        counting(may_delegate, depth, calls, rs, from + 1, budget - 1);
    }
}

// ── Laws: how a run goes on and ends ───────────────────────────────────────────

/// With the standard policy a run that begins asks the model exactly where it has iterations
/// and tool calls left; what it asks with is the history, and behind it the message that opens
/// the run. Nothing is saved yet, and the history counts as being on disk.
pub proof fn run_begins<P: Provider + ?Sized>(p: &P, s: RunView, history: Seq<JsonView>)
    ensures
        ({
            let (t, turn) = step(p, Standard, s, Event::Start { history });
            &&& turn.action is CallModel <==> s.iter < s.job.max_iter && s.budget > 0
            &&& !(turn.action is Tool)
            &&& t.messages.len() == history.len() + 1
            &&& t.messages.take(history.len() as int) == history
            &&& t.messages[history.len() as int] == task_message(opening(s.started, s.job))
            &&& t.persisted == history.len()
            &&& turn.append.len() == 0
            &&& t.budget == s.budget
            &&& t.iter == s.iter
        }),
{
    let t = step(p, Standard, s, Event::Start { history }).0;
    assert(t.messages.take(history.len() as int) =~= history);
}

/// With the standard policy a round that closes leads to the model again exactly where there
/// are iterations and tool calls left; otherwise the run ends with a part of a result, which
/// carries the last text and says that the allowance was used up.
pub proof fn closed_round_leads_on<P: Provider + ?Sized>(p: &P, s: RunView, content: Seq<char>)
    requires
        s.wf(),
        s.phase == Phase::Running,
        s.iter < usize::MAX,
    ensures
        ({
            let (t, turn) = step(p, Standard, s, Event::Result { content });
            &&& turn.action is CallModel ==> t.iter < t.job.max_iter && t.budget > 0
            &&& turn.action matches ActionView::Finish { result } ==> {
                &&& t.iter >= t.job.max_iter || t.budget == 0
                &&& result.id == s.job.id
                &&& result.status == Status::Partial
                &&& result.failure == Some(FailureKind::BudgetExceeded)
                &&& result.output == Some(s.last_text)
                &&& result.steps_taken == t.steps_taken
                &&& result.issues.len() == 0
            }
            &&& turn.append == if s.thread_id is Some && !(turn.action is Tool) {
                t.messages.skip(s.persisted as int)
            } else {
                seq![]
            }
        }),
{
    let e = Event::Result { content };
    stepping(p, Standard, s, e);
    let (t, turn) = step(p, Standard, s, e);
    let u = entered(p, Standard, s, e)->0;
    settling(p, Standard, u);
    if !(turn.action is Tool) {
        let rs = choose|rs: Seq<ToolResultView>| closes(p, Standard, u, t, turn, rs);
        assert(closes(p, Standard, u, t, turn, rs));
    } else {
        assert(turn.append =~= seq![]);
    }
}

/// With the standard policy a reply without calls ends the run in success, though it has no
/// text: the result carries the text of an earlier reply, if there was any. A reply with calls
/// never ends it so.
pub proof fn reply_without_calls_ends<P: Provider + ?Sized>(
    p: &P,
    s: RunView,
    messages: Seq<JsonView>,
    resp: JsonView,
)
    requires
        s.wf(),
        s.iter < usize::MAX,
        s.persisted <= messages.len(),
        s.phase == Phase::Asking,
        p.turn_of(resp) is Ok,
    ensures
        ({
            let (t, turn) = step(p, Standard, s, Event::Reply { messages, reply: Ok(resp) });
            let told = p.turn_of(resp)->Ok_0;
            &&& told.tool_calls.len() == 0 ==> {
                &&& turn.action matches ActionView::Finish { result } && {
                    &&& result.id == s.job.id
                    &&& result.status == Status::Success
                    &&& result.failure is None
                    &&& result.output == Some(
                        if told.text_parts.len() > 0 {
                            joined(told.text_parts, "\n"@)
                        } else {
                            s.last_text
                        },
                    )
                    &&& result.steps_taken == s.steps_taken
                    &&& result.issues.len() == 0
                }
                &&& t.messages == messages + seq![told.assistant_msg]
                &&& t.iter == s.iter
                &&& t.budget == s.budget
            }
            &&& told.tool_calls.len() > 0 ==> !(turn.action matches ActionView::Finish { result }
                && result.status == Status::Success)
        }),
{
    let e = Event::Reply { messages, reply: Ok(resp) };
    stepping(p, Standard, s, e);
    let (t, turn) = step(p, Standard, s, e);
    if let Some(u) = entered(p, Standard, s, e) {
        settling(p, Standard, u);
        if !(turn.action is Tool) {
            let rs = choose|rs: Seq<ToolResultView>| closes(p, Standard, u, t, turn, rs);
            assert(closes(p, Standard, u, t, turn, rs));
        }
    } else {
        assert(t.messages =~= messages + seq![p.turn_of(resp)->Ok_0.assistant_msg]);
    }
}

/// What the policy is shown is how far the run has come: its rounds, its allowances and what it
/// has made of them, its last text and what its job requires.
pub proof fn progress_shows_run(s: RunView)
    ensures
        s.progress().iter == s.iter,
        s.progress().max_iter == s.job.max_iter,
        s.progress().budget_remaining == s.budget,
        s.progress().steps_taken == s.steps_taken,
        s.progress().last_text == s.last_text,
        s.progress().checks == s.job.checks,
{
}

/// A run that is set up has done nothing yet: it has its configuration, its whole budget and
/// no messages.
pub proof fn run_is_set_up_as_configured<C: Control>(
    cfg: RunConfig<C>,
    budget: usize,
    at: Seq<char>,
)
    ensures
        ({
            let s = fresh(cfg, budget, at);
            &&& s.job == cfg.job@
            &&& s.may_delegate == cfg.policy.may_delegate
            &&& s.depth == cfg.depth
            &&& s.thread_id is Some <==> cfg.thread_id is Some
            &&& cfg.thread_id matches Some(t) ==> s.thread_id == Some(t@)
            &&& s.started == at
            &&& s.budget == budget
            &&& s.steps_taken == 0
            &&& s.iter == 0
            &&& s.messages.len() == 0
            &&& s.last_text.len() == 0
            &&& s.phase == Phase::Fresh
        }),
{
}

/// `result` is what a run that ends so is to report, whatever its policy: it bears the job's id
/// and the tool calls made. Requirements that the policy finds unmet are listed, and make it a
/// failure without output; otherwise it is labelled as the policy says, and carries the last
/// text where it is a success or a part of one.
pub open spec fn ends_as<C: Control>(
    c: C,
    t: RunView,
    ending: Ending,
    result: JobResultView,
) -> bool {
    let unmet = c.unmet(t.progress());
    &&& result.id == t.job.id
    &&& result.steps_taken == t.steps_taken
    &&& result.issues == unmet
    &&& unmet.len() > 0 ==> {
        &&& result.status == Status::Failure
        &&& result.failure == Some(FailureKind::CheckFailed)
        &&& result.output is None
    }
    &&& unmet.len() == 0 ==> {
        &&& result.status == c.label(ending, t.progress()).0
        &&& result.failure == c.label(ending, t.progress()).1
        &&& result.status == Status::Success || result.status == Status::Partial ==> result.output
            == Some(t.last_text)
        &&& result.status == Status::Failure || result.status == Status::Blocked
            ==> result.output is None
    }
}

/// The policy decides: whatever it is, the model is asked only where it says to go on; where it
/// says no, the run ends, as out of iterations where it has none left, and as out of tool calls
/// otherwise; a turn that it calls done ends the run as stopped, and a reply that failed or
/// cannot be read ends it as failed.
pub proof fn policy_decides<P: Provider + ?Sized, C: Control>(p: &P, c: C, s: RunView, e: Event)
    requires
        s.wf(),
        expects(s, e),
        s.iter < usize::MAX,
    ensures
        ({
            let (t, turn) = step(p, c, s, e);
            let readable = e matches Event::Reply { reply: Ok(resp), .. } && p.turn_of(resp) is Ok;
            let done = e matches Event::Reply { reply: Ok(resp), .. } && (p.turn_of(resp) matches
                Ok(told) && c.done(told.tool_calls.len() > 0));
            &&& turn.action is CallModel ==> c.continues(t.progress()) && !done
            &&& turn.action is Tool ==> !done && !(e is Start)
            &&& e is Reply && !readable ==> (turn.action matches ActionView::Finish { result }
                && ends_as(c, t, Ending::Failed, result))
            &&& done ==> (turn.action matches ActionView::Finish { result } && ends_as(
                c,
                t,
                Ending::Stopped,
                result,
            ))
            &&& !done && (e is Reply ==> readable) ==> (turn.action matches ActionView::Finish {
                result,
            } ==> !c.continues(t.progress()) && ends_as(
                c,
                t,
                if t.iter >= t.job.max_iter {
                    Ending::IterExhausted
                } else {
                    Ending::BudgetExhausted
                },
                result,
            ))
        }),
{
    stepping(p, c, s, e);
    let (t, turn) = step(p, c, s, e);
    if let Some(u) = entered(p, c, s, e) {
        settling(p, c, u);
        if !(turn.action is Tool) {
            let rs = choose|rs: Seq<ToolResultView>| closes(p, c, u, t, turn, rs);
            assert(closes(p, c, u, t, turn, rs));
        }
    }
}

} // verus!
