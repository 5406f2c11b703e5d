//! Resuming: durable jobs that were in flight when a previous process exited are run again,
//! and each result is folded back into the conversation. Idempotent: safe to do on every
//! start, since a job whose result is already committed to the conversation is skipped.

use vstd::hash_map::StringHashMap;
use vstd::prelude::*;

use crate::agent_loop::{Ctx, RunConfig};
use crate::job::{opt_text, Job, JobResult, JobResultView, JobView};
use crate::json::{views, Json, JsonView};
use crate::policy::{sub_policy, Policy, Standard};
use crate::provider::{result_views, Provider, ToolResult, ToolResultView};
use crate::registry::{
    append_result, issued, issued_jobs, issued_once, job_views, on_lines, outcomes, pending,
    record_views, registry_text, result_map, results_map, Record, RecordView,
};
use crate::spawn::{child_ctx, job_input, job_to_input};
use crate::text::same;
use crate::thread::{child_id, child_thread_id, inside, registry_name, Append, Paths};

verus! {

// ── The round of a job ─────────────────────────────────────────────────────────

/// The id of the call that stands for a job in the conversation.
pub open spec fn call_id(job: JobView) -> Seq<char> {
    "toolu_"@ + job.id
}

/// The job's result is in the conversation: as the answer to the call that stands for the job,
/// or, where it is recorded and bears the job's id, as the answer to whichever call the model
/// made.
pub open spec fn committed<P: Provider + ?Sized>(
    p: &P,
    history: Seq<JsonView>,
    done: Map<Seq<char>, JobResultView>,
    job: JobView,
) -> bool {
    p.answers(JsonView::Array(history), call_id(job)) || (done.contains_key(job.id)
        && done[job.id].id == job.id && p.holds(
        JsonView::Array(history),
        done[job.id].layout().text(),
    ))
}

/// The round that commits a result: the call that delegates the job, and its answer.
pub open spec fn round<P: Provider + ?Sized>(
    p: &P,
    job: JobView,
    result: JobResultView,
) -> Seq<JsonView> {
    seq![p.call_of(call_id(job), "spawn_agent"@, job_input(job))] + p.results_of(
        seq![ToolResultView { tool_use_id: call_id(job), content: result.layout().text() }],
    )
}

/// A round answers the call that stands for its job, and of the others those that were
/// answered before.
proof fn round_answers<P: Provider + ?Sized>(
    p: &P,
    history: Seq<JsonView>,
    job: JobView,
    result: JobResultView,
    other: JobView,
)
    ensures
        p.answers(JsonView::Array(history + round(p, job, result)), call_id(other)) == (p.answers(
            JsonView::Array(history),
            call_id(other),
        ) || other.id == job.id),
{
    let call = seq![p.call_of(call_id(job), "spawn_agent"@, job_input(job))];
    let rs = seq![ToolResultView { tool_use_id: call_id(job), content: result.layout().text() }];
    let answer = p.results_of(rs);
    p.answers_of_parts(history, round(p, job, result), call_id(other));
    p.answers_of_parts(call, answer, call_id(other));
    p.answers_of_results(rs, call_id(other));
    p.answers_of_call(call_id(job), "spawn_agent"@, job_input(job), call_id(other));
    assert(rs[0].tool_use_id == call_id(job));
    if call_id(other) == call_id(job) {
        let n = "toolu_"@.len() as int;
        assert(call_id(other).skip(n) =~= other.id);
        assert(call_id(job).skip(n) =~= job.id);
    }
}

/// A round commits its job, and of the others only those whose recorded result it carries;
/// what was committed stays so.
pub proof fn round_commits<P: Provider + ?Sized>(
    p: &P,
    history: Seq<JsonView>,
    done: Map<Seq<char>, JobResultView>,
    job: JobView,
    result: JobResultView,
    other: JobView,
)
    ensures
        committed(p, history + round(p, job, result), done, job),
        committed(p, history + round(p, job, result), done, other) == (committed(
            p,
            history,
            done,
            other,
        ) || other.id == job.id || (done.contains_key(other.id) && done[other.id].id == other.id
            && done[other.id].layout().text() == result.layout().text())),
{
    round_answers(p, history, job, result, job);
    round_answers(p, history, job, result, other);
    if done.contains_key(other.id) {
        let text = done[other.id].layout().text();
        let call = seq![p.call_of(call_id(job), "spawn_agent"@, job_input(job))];
        let rs = seq![
            ToolResultView { tool_use_id: call_id(job), content: result.layout().text() },
        ];
        p.holds_of_parts(history, round(p, job, result), text);
        p.holds_of_parts(call, p.results_of(rs), text);
        p.holds_of_results(rs, text);
        p.holds_of_call(call_id(job), "spawn_agent"@, job_input(job), text);
        assert(rs[0].content == result.layout().text());
    }
}

// ── The machine ────────────────────────────────────────────────────────────────

/// The jobs of a conversation, on their way into it.
pub struct Reconcile<'a, P: Provider + ?Sized> {
    provider: &'a P,
    parent: String,
    jobs: Vec<Job>,
    done: StringHashMap<JobResult>,
    history: Vec<Json>,
    at: usize,
}

/// What that is.
#[verifier::ext_equal]
pub struct ReconcileView {
    /// The conversation's id.
    pub parent: Seq<char>,
    /// The jobs that were issued.
    pub jobs: Seq<JobView>,
    /// The results that are recorded.
    pub done: Map<Seq<char>, JobResultView>,
    /// The conversation.
    pub history: Seq<JsonView>,
    /// How many of the jobs are settled.
    pub at: nat,
}

impl<'a, P: Provider + ?Sized> View for Reconcile<'a, P> {
    type V = ReconcileView;

    closed spec fn view(&self) -> ReconcileView {
        ReconcileView {
            parent: self.parent@,
            jobs: job_views(self.jobs@),
            done: result_map(self.done@),
            history: views(self.history@),
            at: self.at as nat,
        }
    }
}

/// What is to be done next.
pub enum Resume {
    /// Add these messages to the conversation on disk.
    Commit { messages: Vec<Json> },
    /// Run this job again.
    Run { cfg: RunConfig<Standard>, ctx: Ctx },
    /// Nothing: all jobs are settled.
    Finished,
}

/// Those of the jobs from `at` on are skipped that are committed already: where the first
/// stands that is not.
pub open spec fn first_open<P: Provider + ?Sized>(
    p: &P,
    jobs: Seq<JobView>,
    history: Seq<JsonView>,
    done: Map<Seq<char>, JobResultView>,
    at: nat,
) -> nat
    decreases jobs.len() - at,
{
    if at < jobs.len() && committed(p, history, done, jobs[at as int]) {
        first_open(p, jobs, history, done, at + 1)
    } else {
        at
    }
}

impl ReconcileView {
    /// The invariant: the jobs that count as settled are committed.
    pub open spec fn wf<P: Provider + ?Sized>(self, p: &P) -> bool {
        &&& self.at <= self.jobs.len()
        &&& forall|k: int|
            0 <= k < self.at ==> committed(p, self.history, self.done, #[trigger] self.jobs[k])
    }

    /// This once the jobs that are committed already are skipped.
    pub open spec fn skipped<P: Provider + ?Sized>(self, p: &P) -> ReconcileView {
        ReconcileView { at: first_open(p, self.jobs, self.history, self.done, self.at), ..self }
    }

    /// This once a result of the next job is committed.
    pub open spec fn with_round<P: Provider + ?Sized>(
        self,
        p: &P,
        result: JobResultView,
    ) -> ReconcileView {
        ReconcileView {
            history: self.history + round(p, self.jobs[self.at as int], result),
            at: self.at + 1,
            ..self
        }
    }
}

/// The job is run again: as it was when it was issued, but from its own conversation, and
/// with a budget of its own.
pub open spec fn runs_again(
    cfg: RunConfig<Standard>,
    ctx: Ctx,
    job: JobView,
    parent: Seq<char>,
    caller: Ctx,
) -> bool {
    &&& cfg.job@ == job
    &&& cfg.policy == (Policy { may_delegate: false, control: Standard })
    &&& cfg.depth == 1
    &&& opt_text(cfg.thread_id) == Some(child_id(parent, job.id))
    &&& ctx == child_ctx(caller, job.effort)
}

/// Skipping stops at the first job that is not committed.
proof fn skipping<P: Provider + ?Sized>(
    p: &P,
    jobs: Seq<JobView>,
    history: Seq<JsonView>,
    done: Map<Seq<char>, JobResultView>,
    at: nat,
)
    requires
        at <= jobs.len(),
    ensures
        at <= first_open(p, jobs, history, done, at) <= jobs.len(),
        forall|k: int|
            at <= k < first_open(p, jobs, history, done, at) ==> committed(
                p,
                history,
                done,
                #[trigger] jobs[k],
            ),
        first_open(p, jobs, history, done, at) < jobs.len() ==> !committed(
            p,
            history,
            done,
            jobs[first_open(p, jobs, history, done, at) as int],
        ),
    decreases jobs.len() - at,
{
    if at < jobs.len() && committed(p, history, done, jobs[at as int]) {
        skipping(p, jobs, history, done, at + 1);
    }
}

proof fn round_keeps_wf<P: Provider + ?Sized>(p: &P, s: ReconcileView, result: JobResultView)
    requires
        s.wf(p),
        s.at < s.jobs.len(),
    ensures
        s.with_round(p, result).wf(p),
{
    let t = s.with_round(p, result);
    assert forall|k: int| 0 <= k < t.at implies committed(
        p,
        t.history,
        t.done,
        #[trigger] t.jobs[k],
    ) by {
        round_commits(p, s.history, s.done, s.jobs[s.at as int], result, s.jobs[k]);
    }
}

impl<'a, P: Provider + ?Sized> Reconcile<'a, P> {
    /// The provider of the conversation.
    pub closed spec fn provider(&self) -> &P {
        self.provider
    }

    /// The jobs of a conversation, given the records of its registry and the conversation
    /// itself.
    pub fn new(
        provider: &'a P,
        parent_tid: &str,
        records: &Vec<Record>,
        history: Vec<Json>,
    ) -> (r: Self)
        ensures
            r.provider() == provider,
            r@ == (ReconcileView {
                parent: parent_tid@,
                jobs: issued(record_views(records@)),
                done: outcomes(record_views(records@)),
                history: views(history@),
                at: 0,
            }),
            r@.wf(r.provider()),
    {
        Reconcile {
            provider,
            parent: parent_tid.to_owned(),
            jobs: issued_jobs(records),
            done: results_map(records),
            history,
            at: 0,
        }
    }

    /// True iff the job at a place is committed.
    fn has_result(&self, at: usize) -> (r: bool)
        requires
            at < self@.jobs.len(),
        ensures
            r == committed(
                self.provider(),
                self@.history,
                self@.done,
                self@.jobs[at as int],
            ),
            r == (self.provider().answers(
                JsonView::Array(self@.history),
                "toolu_"@ + self@.jobs[at as int].id,
            ) || (self@.done.contains_key(self@.jobs[at as int].id)
                && self@.done[self@.jobs[at as int].id].id == self@.jobs[at as int].id
                && self.provider().holds(
                JsonView::Array(self@.history),
                self@.done[self@.jobs[at as int].id].layout().text(),
            ))),
    {
        let ghost job = self@.jobs[at as int];
        assert(self.jobs@[at as int]@ == job);
        let mut copy: Vec<Json> = Vec::new();
        let mut i: usize = 0;
        while i < self.history.len()
            invariant
                i <= self.history@.len(),
                copy@.len() == i,
                forall|k: int| 0 <= k < i ==> (#[trigger] copy@[k])@ == self.history@[k]@,
            decreases self.history@.len() - i,
        {
            copy.push(self.history[i].clone());
            i += 1;
        }
        assert(views(copy@) =~= views(self.history@));
        let convo = Json::Array(copy);
        let id = "toolu_".to_owned().concat(self.jobs[at].id.as_str());
        if self.provider.has_tool_result(&convo, id.as_str()) {
            return true;
        }
        assert(result_map(self.done@).contains_key(job.id) == self.done@.contains_key(job.id));
        match self.done.get(self.jobs[at].id.as_str()) {
            Some(result) => same(result.id.as_str(), self.jobs[at].id.as_str())
                && self.provider.holds_result(&convo, result.to_json().as_str()),
            None => false,
        }
    }

    /// Commits a result of the next job: the round that is added to the conversation.
    fn commit(&mut self, result: &JobResult) -> (r: Vec<Json>)
        requires
            old(self)@.at < old(self)@.jobs.len(),
        ensures
            views(r@) == round(
                old(self).provider(),
                old(self)@.jobs[old(self)@.at as int],
                result@,
            ),
            final(self)@ == old(self)@.with_round(old(self).provider(), result@),
            final(self).provider() == old(self).provider(),
    {
        let ghost job = self@.jobs[self@.at as int];
        let at = self.at;
        assert(at < self.jobs.len());
        assert(self.jobs@[at as int]@ == job);
        let id = "toolu_".to_owned().concat(self.jobs[at].id.as_str());
        let input = job_to_input(&self.jobs[at]);
        let call = self.provider.tool_call_message(id.as_str(), "spawn_agent", &input);
        let mut results: Vec<ToolResult> = Vec::new();
        results.push(ToolResult { tool_use_id: id, content: result.to_json() });
        assert(result_views(results@) =~= seq![
            ToolResultView { tool_use_id: call_id(job), content: result@.layout().text() },
        ]);
        let mut answer = self.provider.wrap_tool_results(results);
        let ghost tail = answer@;
        let mut messages: Vec<Json> = Vec::new();
        messages.push(call);
        messages.append(&mut answer);
        assert(views(messages@) =~= round(self.provider(), job, result@));
        let ghost before = self.history@;
        let mut i: usize = 0;
        while i < messages.len()
            invariant
                i <= messages@.len(),
                self.history@.len() == before.len() + i,
                self.parent == old(self).parent,
                self.jobs == old(self).jobs,
                self.done == old(self).done,
                self.at == old(self).at,
                self.provider == old(self).provider,
                forall|k: int| 0 <= k < before.len() ==> #[trigger] self.history@[k] == before[k],
                forall|k: int|
                    before.len() <= k < before.len() + i ==> (#[trigger] self.history@[k])@
                        == messages@[k - before.len()]@,
            decreases messages@.len() - i,
        {
            self.history.push(messages[i].clone());
            i += 1;
        }
        assert(views(self.history@) =~= views(before) + views(messages@));
        self.at = at + 1;
        messages
    }

    /// What is to be done next. A job that is committed is skipped; one whose result is
    /// recorded is committed; any other is to be run again, and `resumed` takes its result.
    pub fn next(&mut self, caller: &Ctx) -> (r: Resume)
        requires
            old(self)@.wf(old(self).provider()),
        ensures
            final(self).provider() == old(self).provider(),
            final(self)@.wf(final(self).provider()),
            ({
                let p = old(self).provider();
                let s = old(self)@.skipped(p);
                match r {
                    Resume::Finished => s.at == s.jobs.len() && final(self)@ == s,
                    Resume::Commit { messages } => {
                        let job = s.jobs[s.at as int];
                        &&& s.at < s.jobs.len()
                        &&& s.done.contains_key(job.id)
                        &&& views(messages@) == round(p, job, s.done[job.id])
                        &&& final(self)@ == s.with_round(p, s.done[job.id])
                    },
                    Resume::Run { cfg, ctx } => {
                        let job = s.jobs[s.at as int];
                        &&& s.at < s.jobs.len()
                        &&& !s.done.contains_key(job.id)
                        &&& runs_again(cfg, ctx, job, s.parent, *caller)
                        &&& final(self)@ == s
                    },
                }
            }),
            final(self)@.jobs == old(self)@.jobs,
            final(self)@.done == old(self)@.done,
            forall|k: int|
                #![trigger final(self)@.jobs[k]]
                0 <= k < final(self)@.at ==> {
                    let id = final(self)@.jobs[k].id;
                    let convo = JsonView::Array(final(self)@.history);
                    final(self).provider().answers(convo, "toolu_"@ + id) || (
                    final(self)@.done.contains_key(id) && final(self)@.done[id].id == id
                        && final(self).provider().holds(
                        convo,
                        final(self)@.done[id].layout().text(),
                    ))
                },
            !(r is Finished) ==> {
                let n = final(self)@.at - if r is Commit {
                    1int
                } else {
                    0int
                };
                let id = old(self)@.jobs[n].id;
                let convo = JsonView::Array(old(self)@.history);
                &&& old(self)@.at <= n < old(self)@.jobs.len()
                &&& !old(self).provider().answers(convo, "toolu_"@ + id)
                &&& r is Run ==> !old(self)@.done.contains_key(id)
                &&& r is Commit ==> old(self)@.done.contains_key(id) && (
                old(self)@.done[id].id == id ==> !old(self).provider().holds(
                    convo,
                    old(self)@.done[id].layout().text(),
                ))
            },
            r is Finished ==> final(self)@.at == old(self)@.jobs.len(),
    {
        let ghost p = self.provider();
        let ghost goal = self@.skipped(p);
        proof {
            skipping(p, self@.jobs, self@.history, self@.done, self@.at);
        }
        while self.at < self.jobs.len()
            invariant
                self.provider() == p,
                p == old(self).provider(),
                goal == old(self)@.skipped(p),
                self@.wf(p),
                self@.skipped(p) == goal,
                old(self)@.at <= self@.at,
            decreases self.jobs@.len() - self.at,
        {
            let ghost before = self@;
            let at = self.at;
            let ghost job = before.jobs[at as int];
            assert(self.jobs@[at as int]@ == job);
            if self.has_result(at) {
                self.at = self.at + 1;
                continue;  // already committed
            }
            // Get the result: from the registry, or by resuming the child now.
            let known = match self.done.get(self.jobs[at].id.as_str()) {
                Some(result) => Some(result.clone()),
                None => None,
            };
            assert(result_map(self.done@).contains_key(job.id) == self.done@.contains_key(job.id));
            match known {
                Some(result) => {
                    proof {
                        round_keeps_wf(p, before, result@);
                    }
                    let messages = self.commit(&result);
                    return Resume::Commit { messages };
                },
                None => {
                    let job = self.jobs[at].clone();
                    let thread_id = Some(child_thread_id(self.parent.as_str(), job.id.as_str()));
                    let ctx = Ctx { effort: job.effort, budget: caller.sub_budget, ..*caller };
                    let cfg = RunConfig { job, policy: sub_policy(), depth: 1, thread_id };
                    return Resume::Run { cfg, ctx };
                },
            }
        }
        Resume::Finished
    }

    /// Takes the result of the job that was run again, which bears the job's id: what is written to the registry, and
    /// the messages that are added to the conversation on disk after that.
    pub fn resumed(&mut self, paths: &Paths, result: &JobResult) -> (r: (Append, Vec<Json>))
        requires
            old(self)@.wf(old(self).provider()),
            old(self)@.at < old(self)@.jobs.len(),
            result.id@ == old(self)@.jobs[old(self)@.at as int].id,
        ensures
            final(self).provider() == old(self).provider(),
            final(self)@.wf(final(self).provider()),
            final(self)@ == old(self)@.with_round(old(self).provider(), result@),
            views(r.1@) == round(
                old(self).provider(),
                old(self)@.jobs[old(self)@.at as int],
                result@,
            ),
            r.0.path@ == inside(paths.registry_dir@, registry_name(old(self)@.parent)),
            r.0.text@ == registry_text(
                seq![RecordView::Result { id: result.id@, result: result@ }],
            ),
            on_lines(seq![RecordView::Result { id: result.id@, result: result@ }]),
    {
        proof {
            round_keeps_wf(self.provider(), self@, result@);
        }
        let line = append_result(paths, self.parent.as_str(), result);
        let messages = self.commit(result);
        (line, messages)
    }

    /// The conversation, with all that was committed.
    pub fn into_history(self) -> (r: Vec<Json>)
        ensures
            views(r@) == self@.history,
    {
        self.history
    }
}

// ── Laws ───────────────────────────────────────────────────────────────────────

/// When all is settled every job that was issued is committed to the conversation.
pub proof fn all_committed<P: Provider + ?Sized>(p: &P, s: ReconcileView, k: int)
    requires
        s.wf(p),
        s.at == s.jobs.len(),
        0 <= k < s.jobs.len(),
    ensures
        committed(p, s.history, s.done, s.jobs[k]),
{
}

/// A job whose recorded result stands in the conversation, under whichever call the model
/// made, is skipped.
pub proof fn finished_jobs_skipped<P: Provider + ?Sized>(p: &P, s: ReconcileView)
    requires
        s.at < s.jobs.len(),
        s.done.contains_key(s.jobs[s.at as int].id),
        s.done[s.jobs[s.at as int].id].id == s.jobs[s.at as int].id,
        p.holds(
            JsonView::Array(s.history),
            s.done[s.jobs[s.at as int].id].layout().text(),
        ),
    ensures
        s.skipped(p) == (ReconcileView { at: s.at + 1, ..s }).skipped(p),
{
}

/// Resuming again is a no-op: where every job is committed, in a conversation and a registry
/// that may have grown since, all of them are skipped and nothing changes.
pub proof fn resuming_again<P: Provider + ?Sized>(
    p: &P,
    jobs: Seq<JobView>,
    history: Seq<JsonView>,
    more: Seq<JsonView>,
    done: Map<Seq<char>, JobResultView>,
    grown: Map<Seq<char>, JobResultView>,
    at: nat,
)
    requires
        at <= jobs.len(),
        forall|k: int| 0 <= k < jobs.len() ==> committed(p, history, done, #[trigger] jobs[k]),
        forall|id: Seq<char>|
            #[trigger] done.contains_key(id) ==> grown.contains_key(id) && grown[id] == done[id],
    ensures
        first_open(p, jobs, history + more, grown, at) == jobs.len(),
    decreases jobs.len() - at,
{
    if at < jobs.len() {
        let job = jobs[at as int];
        p.answers_of_parts(history, more, call_id(job));
        if done.contains_key(job.id) {
            p.holds_of_parts(history, more, done[job.id].layout().text());
        }
        resuming_again(p, jobs, history, more, done, grown, at + 1);
    }
}

/// One turn: the next job that is not committed is, and the record that is added where it was
/// run again, with the given outcome.
pub open spec fn advance<P: Provider + ?Sized>(
    p: &P,
    s: ReconcileView,
    outcome: JobResultView,
) -> (ReconcileView, Seq<RecordView>) {
    let t = s.skipped(p);
    if t.at >= t.jobs.len() {
        (t, seq![])
    } else if t.done.contains_key(t.jobs[t.at as int].id) {
        (t.with_round(p, t.done[t.jobs[t.at as int].id]), seq![])
    } else {
        (
            t.with_round(p, outcome),
            seq![RecordView::Result { id: outcome.id, result: outcome }],
        )
    }
}

/// Several turns, with an outcome for each.
pub open spec fn advanced<P: Provider + ?Sized>(
    p: &P,
    s: ReconcileView,
    outcomes_of_runs: Seq<JobResultView>,
) -> ReconcileView
    decreases outcomes_of_runs.len(),
{
    if outcomes_of_runs.len() == 0 {
        s
    } else {
        advance(
            p,
            advanced(p, s, outcomes_of_runs.drop_last()),
            outcomes_of_runs.last(),
        ).0
    }
}

/// The records that several turns add.
pub open spec fn records_added<P: Provider + ?Sized>(
    p: &P,
    s: ReconcileView,
    outcomes_of_runs: Seq<JobResultView>,
) -> Seq<RecordView>
    decreases outcomes_of_runs.len(),
{
    if outcomes_of_runs.len() == 0 {
        seq![]
    } else {
        records_added(p, s, outcomes_of_runs.drop_last()) + advance(
            p,
            advanced(p, s, outcomes_of_runs.drop_last()),
            outcomes_of_runs.last(),
        ).1
    }
}

/// Each outcome of a job that is run again bears the job's id.
pub open spec fn reported_by_jobs<P: Provider + ?Sized>(
    p: &P,
    s: ReconcileView,
    outcomes_of_runs: Seq<JobResultView>,
) -> bool
    decreases outcomes_of_runs.len(),
{
    outcomes_of_runs.len() == 0 || ({
        let t = advanced(p, s, outcomes_of_runs.drop_last()).skipped(p);
        &&& reported_by_jobs(p, s, outcomes_of_runs.drop_last())
        &&& t.at < t.jobs.len() && !t.done.contains_key(t.jobs[t.at as int].id)
            ==> outcomes_of_runs.last().id == t.jobs[t.at as int].id
    })
}

/// Records of results alone.
spec fn only_results(rs: Seq<RecordView>) -> bool {
    forall|i: int| 0 <= i < rs.len() ==> (#[trigger] rs[i]) is Result
}

/// Results that are recorded leave the issued jobs as they are, and each of them counts.
proof fn results_count(rs: Seq<RecordView>, more: Seq<RecordView>)
    requires
        only_results(more),
    ensures
        issued(rs + more) == issued(rs),
        forall|id: Seq<char>| #[trigger]
            outcomes(rs).contains_key(id) ==> outcomes(rs + more).contains_key(id),
        forall|i: int|
            0 <= i < more.len() ==> outcomes(rs + more).contains_key((#[trigger] more[i])->Result_id),
    decreases more.len(),
{
    if more.len() == 0 {
        assert(rs + more =~= rs);
    } else {
        let before = more.drop_last();
        assert((rs + more).drop_last() =~= rs + before);
        assert forall|i: int| 0 <= i < before.len() implies (#[trigger] before[i]) is Result by {
            assert(before[i] == more[i]);
        }
        results_count(rs, before);
        assert(more[more.len() - 1] is Result);
        assert forall|i: int| 0 <= i < more.len() implies outcomes(rs + more).contains_key(
            (#[trigger] more[i])->Result_id,
        ) by {
            if i < more.len() - 1 {
                assert(before[i] == more[i]);
            }
        }
    }
}

/// What the turns keep.
proof fn settling_jobs<P: Provider + ?Sized>(
    p: &P,
    rs: Seq<RecordView>,
    s: ReconcileView,
    outs: Seq<JobResultView>,
)
    requires
        s.jobs == issued(rs),
        s.done == outcomes(rs),
        s.at == 0,
        forall|k: int|
            0 <= k < s.jobs.len() && p.answers(
                JsonView::Array(s.history),
                call_id(#[trigger] s.jobs[k]),
            ) ==> s.done.contains_key(s.jobs[k].id),
        reported_by_jobs(p, s, outs),
    ensures
        ({
            let t = advanced(p, s, outs);
            let all = rs + records_added(p, s, outs);
            &&& t.jobs == s.jobs
            &&& t.done == s.done
            &&& t.at <= t.jobs.len()
            &&& only_results(records_added(p, s, outs))
            &&& forall|k: int|
                0 <= k < t.at ==> outcomes(all).contains_key((#[trigger] t.jobs[k]).id)
            &&& forall|k: int|
                t.at <= k < t.jobs.len() && p.answers(
                    JsonView::Array(t.history),
                    call_id(#[trigger] t.jobs[k]),
                ) ==> t.done.contains_key(t.jobs[k].id)
        }),
    decreases outs.len(),
{
    let added = records_added(p, s, outs);
    if outs.len() > 0 {
        let before = outs.drop_last();
        settling_jobs(p, rs, s, before);
        let u = advanced(p, s, before);
        let old_added = records_added(p, s, before);
        let new = advance(p, u, outs.last()).1;
        let t = advanced(p, s, outs);
        skipping(p, u.jobs, u.history, u.done, u.at);
        let v = u.skipped(p);
        assert(added == old_added + new);
        assert(only_results(added));
        results_count(rs, added);
        results_count(rs, old_added);
        assert(rs + added =~= (rs + old_added) + new);
        results_count(rs + old_added, new);
        assert forall|k: int| 0 <= k < v.at implies outcomes(rs + added).contains_key(
            (#[trigger] v.jobs[k]).id,
        ) by {
            if k < u.at {
                assert(outcomes(rs + old_added).contains_key(u.jobs[k].id));
            } else {
                assert(committed(p, u.history, u.done, u.jobs[k]));
                assert(outcomes(rs).contains_key(u.jobs[k].id));
            }
        }
        if v.at < v.jobs.len() {
            let job = v.jobs[v.at as int];
            let result = if v.done.contains_key(job.id) {
                v.done[job.id]
            } else {
                outs.last()
            };
            if !v.done.contains_key(job.id) {
                assert(new[0]->Result_id == job.id);
            }
            issued_once(rs);
            assert forall|k: int|
                t.at <= k < t.jobs.len() && p.answers(
                    JsonView::Array(t.history),
                    call_id(#[trigger] t.jobs[k]),
                ) implies t.done.contains_key(t.jobs[k].id) by {
                round_answers(p, v.history, job, result, v.jobs[k]);
                assert(issued(rs)[v.at as int].id != issued(rs)[k].id);
            }
        }
    } else {
        assert(rs + added =~= rs);
    }
}

/// When all is settled nothing is left in flight: the registry, with the records that were
/// added, has a result for every job that was issued. Where a job stood in the conversation
/// at the start, under the call that stands for it, its result was recorded before.
pub proof fn nothing_left_in_flight<P: Provider + ?Sized>(
    p: &P,
    rs: Seq<RecordView>,
    s: ReconcileView,
    outcomes_of_runs: Seq<JobResultView>,
)
    requires
        s.jobs == issued(rs),
        s.done == outcomes(rs),
        s.at == 0,
        forall|k: int|
            0 <= k < s.jobs.len() && p.answers(
                JsonView::Array(s.history),
                call_id(#[trigger] s.jobs[k]),
            ) ==> s.done.contains_key(s.jobs[k].id),
        reported_by_jobs(p, s, outcomes_of_runs),
        advanced(p, s, outcomes_of_runs).skipped(p).at == s.jobs.len(),
    ensures
        pending(rs + records_added(p, s, outcomes_of_runs)).len() == 0,
{
    let added = records_added(p, s, outcomes_of_runs);
    let all = rs + added;
    let t = advanced(p, s, outcomes_of_runs);
    settling_jobs(p, rs, s, outcomes_of_runs);
    skipping(p, t.jobs, t.history, t.done, t.at);
    results_count(rs, added);
    assert forall|k: int| 0 <= k < t.jobs.len() implies outcomes(all).contains_key(
        (#[trigger] t.jobs[k]).id,
    ) by {
        if k >= t.at {
            assert(committed(p, t.history, t.done, t.jobs[k]));
            assert(outcomes(rs).contains_key(t.jobs[k].id));
        }
    }
    issued(all).lemma_all_neg_filter_empty(|j: JobView| !outcomes(all).contains_key(j.id));
}

// ── Laws: which jobs are passed over ───────────────────────────────────────────

/// A job is passed over only where the conversation itself holds its result: a tool result
/// answers the call that stands for the job, or one carries the text of the result that is
/// recorded for it.
pub proof fn passed_over_only_if_held<P: Provider + ?Sized>(p: &P, s: ReconcileView, k: int)
    requires
        s.at <= k < s.skipped(p).at,
        s.at <= s.jobs.len(),
    ensures
        p.answers(JsonView::Array(s.history), "toolu_"@ + s.jobs[k].id) || (s.done.contains_key(
            s.jobs[k].id,
        ) && s.done[s.jobs[k].id].id == s.jobs[k].id && p.holds(
            JsonView::Array(s.history),
            s.done[s.jobs[k].id].layout().text(),
        )),
{
    skipping(p, s.jobs, s.history, s.done, s.at);
}

/// The job that comes next is the first one that is not in the conversation: nothing answers
/// the call that stands for it, and nothing carries the text of its recorded result.
pub proof fn stops_at_first_not_held<P: Provider + ?Sized>(p: &P, s: ReconcileView)
    requires
        s.at <= s.jobs.len(),
    ensures
        s.at <= s.skipped(p).at <= s.jobs.len(),
        s.skipped(p).at < s.jobs.len() ==> {
            let job = s.jobs[s.skipped(p).at as int];
            &&& !p.answers(JsonView::Array(s.history), "toolu_"@ + job.id)
            &&& s.done.contains_key(job.id) && s.done[job.id].id == job.id ==> !p.holds(
                JsonView::Array(s.history),
                s.done[job.id].layout().text(),
            )
        },
        s.skipped(p) == (ReconcileView { at: s.skipped(p).at, ..s }),
{
    skipping(p, s.jobs, s.history, s.done, s.at);
}

/// Every job that counts as settled has its result in the conversation; so, when all is
/// settled, has every job that was issued.
pub proof fn settled_jobs_are_held<P: Provider + ?Sized>(p: &P, s: ReconcileView, k: int)
    requires
        s.wf(p),
        0 <= k < s.at,
    ensures
        p.answers(JsonView::Array(s.history), "toolu_"@ + s.jobs[k].id) || (s.done.contains_key(
            s.jobs[k].id,
        ) && s.done[s.jobs[k].id].id == s.jobs[k].id && p.holds(
            JsonView::Array(s.history),
            s.done[s.jobs[k].id].layout().text(),
        )),
{
}

/// What a round adds to the conversation: one call, under the id that stands for the job, that
/// delegates the job with its arguments, and one answer under that id, which is the text of
/// the result. Of other results the round answers nothing and carries nothing.
pub proof fn round_is_call_and_answer<P: Provider + ?Sized>(
    p: &P,
    job: JobView,
    result: JobResultView,
    id: Seq<char>,
    content: Seq<char>,
) -> (answer: ToolResultView)
    ensures
        answer.tool_use_id == "toolu_"@ + job.id,
        answer.content == result.layout().text(),
        round(p, job, result).len() == 1 + p.results_of(seq![answer]).len(),
        round(p, job, result)[0] == p.call_of("toolu_"@ + job.id, "spawn_agent"@, job_input(job)),
        round(p, job, result).skip(1) == p.results_of(seq![answer]),
        p.answers(JsonView::Array(round(p, job, result)), id) <==> id == "toolu_"@ + job.id,
        p.holds(JsonView::Array(round(p, job, result)), content) <==> content
            == result.layout().text(),
{
    let answer = ToolResultView { tool_use_id: call_id(job), content: result.layout().text() };
    let rs = seq![answer];
    let call = seq![p.call_of(call_id(job), "spawn_agent"@, job_input(job))];
    let tail = p.results_of(rs);
    assert(round(p, job, result).skip(1) =~= tail);
    p.answers_of_parts(call, tail, id);
    p.answers_of_call(call_id(job), "spawn_agent"@, job_input(job), id);
    p.answers_of_results(rs, id);
    p.holds_of_parts(call, tail, content);
    p.holds_of_call(call_id(job), "spawn_agent"@, job_input(job), content);
    p.holds_of_results(rs, content);
    assert(rs[0] == answer);
    answer
}

/// Committing a result settles the next job alone: the conversation that was there stays, the
/// round of that job comes behind it, and the next job is the one after it in issue order.
pub proof fn commit_settles_next<P: Provider + ?Sized>(
    p: &P,
    s: ReconcileView,
    result: JobResultView,
)
    requires
        s.at < s.jobs.len(),
    ensures
        s.with_round(p, result).history.take(s.history.len() as int) == s.history,
        s.with_round(p, result).history.skip(s.history.len() as int) == round(
            p,
            s.jobs[s.at as int],
            result,
        ),
        s.with_round(p, result).at == s.at + 1,
        s.with_round(p, result).jobs == s.jobs,
        s.with_round(p, result).done == s.done,
        s.with_round(p, result).parent == s.parent,
        p.answers(
            JsonView::Array(s.with_round(p, result).history),
            "toolu_"@ + s.jobs[s.at as int].id,
        ),
{
    let t = s.with_round(p, result);
    assert(t.history.take(s.history.len() as int) =~= s.history);
    assert(t.history.skip(s.history.len() as int) =~= round(p, s.jobs[s.at as int], result));
    round_answers(p, s.history, s.jobs[s.at as int], result, s.jobs[s.at as int]);
}

/// A job that is run again is the job that was issued: from the conversation that its id and
/// its parent's give, one level below the top, not allowed to delegate, with its own effort
/// and the allowance of a sub-agent; what else its caller has it has too.
pub proof fn runs_as_issued(
    cfg: RunConfig<Standard>,
    ctx: Ctx,
    job: JobView,
    parent: Seq<char>,
    caller: Ctx,
)
    requires
        runs_again(cfg, ctx, job, parent, caller),
    ensures
        cfg.job@ == job,
        !cfg.policy.may_delegate,
        cfg.depth == 1,
        cfg.thread_id matches Some(t) && t@ == parent + "__sub_"@ + job.id,
        ctx.effort == job.effort,
        ctx.budget == caller.sub_budget,
        ctx.sub_budget == caller.sub_budget,
        ctx.fanout == caller.fanout,
        ctx.max_fanout == caller.max_fanout,
{
}

} // verus!
