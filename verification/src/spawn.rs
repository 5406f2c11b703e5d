//! Delegation: hand a self-contained subtask to an isolated sub-agent that runs
//! its own loop and reports back a structured result. The sub-agent gets a fresh
//! context (that is the whole point — the caller does not carry its intermediate
//! steps) and cannot delegate further.

use vstd::prelude::*;

use crate::agent_loop::{Ctx, RunConfig, DEFAULT_SUB_MAX_ITER};
use crate::job::{
    blocked_view, new_id, opt_text, uuid_v7_form, words_spell, Effort, FailureKind, Job, JobResult,
    JobResultView, JobView, Persistence, Status,
};
use crate::json::{text_list, views, Json, JsonView, NumView};
use crate::policy::{sub_policy, Policy, Standard};
use crate::provider::text_or_empty;
use crate::registry::{append_issued, append_result, on_lines, registry_text, RecordView};
use crate::text::{texts, trim, trimmed};
use crate::thread::{child_id, child_thread_id, inside, registry_name, Append, Paths};

verus! {

// ── The arguments ──────────────────────────────────────────────────────────────

/// The strings among some values, in order.
pub open spec fn strings_in(s: Seq<JsonView>) -> Seq<Seq<char>>
    decreases s.len(),
{
    if s.len() == 0 {
        seq![]
    } else {
        let before = strings_in(s.drop_last());
        match s.last() {
            JsonView::Str(t) => before.push(t),
            _ => before,
        }
    }
}

/// The requirements that the arguments name: the strings of the list, if there is one.
pub open spec fn asked_checks(input: JsonView) -> Seq<Seq<char>> {
    match input.at("checks"@) {
        JsonView::Array(s) => strings_in(s),
        _ => seq![],
    }
}

/// The task that the arguments name, without white space around it.
pub open spec fn asked_task(input: JsonView) -> Seq<char> {
    trimmed(text_or_empty(input.at("task"@)))
}

/// The iteration budget that the arguments name, or the default.
pub open spec fn asked_iterations(input: JsonView) -> usize {
    match input.at("max_iter"@).natural() {
        Some(n) => n as usize,
        None => DEFAULT_SUB_MAX_ITER,
    }
}

/// The effort that the arguments name, or the caller's.
pub open spec fn asked_effort(input: JsonView, inherited: Effort) -> Effort {
    match input.at("effort"@).text() {
        Some(s) => Effort::asked(Some(s)),
        None => inherited,
    }
}

/// The job that the arguments ask for.
pub open spec fn asked_job(input: JsonView, id: Seq<char>, inherited: Effort) -> JobView {
    JobView {
        id,
        task: asked_task(input),
        steps: seq![],
        checks: asked_checks(input),
        persistence: Persistence::asked(input.at("persistence"@).text()),
        max_iter: asked_iterations(input),
        effort: asked_effort(input, inherited),
    }
}

fn read_checks(input: &Json) -> (r: Vec<String>)
    ensures
        texts(r@) == asked_checks(input@),
{
    let mut out: Vec<String> = Vec::new();
    assert(texts(out@) =~= seq![]);
    if let Some(v) = input.items_at("checks") {
        let ghost all = views(v@);
        let mut i: usize = 0;
        assert(strings_in(all.take(0)) =~= seq![]);
        while i < v.len()
            invariant
                all == views(v@),
                i <= v@.len(),
                texts(out@) == strings_in(all.take(i as int)),
            decreases v@.len() - i,
        {
            let ghost before = out@;
            assert(all.take(i + 1).drop_last() =~= all.take(i as int));
            assert(all.take(i + 1).last() == v@[i as int]@);
            if let Some(s) = v[i].as_text() {
                out.push(s.to_owned());
                assert(texts(out@) =~= texts(before).push(s@));
            }
            i += 1;
        }
        assert(all.take(all.len() as int) =~= all);
    }
    out
}

// ── Delegation ─────────────────────────────────────────────────────────────────

/// A sub-agent to be run.
pub struct Launch {
    /// What it is to do, and under which policy.
    pub cfg: RunConfig<Standard>,
    /// Its own allowances.
    pub ctx: Ctx,
    /// What is to be written to the registry before it starts.
    pub issued: Option<Append>,
    /// The conversation whose registry records it, where it is durable.
    pub parent: Option<String>,
}

/// What becomes of a delegation.
pub enum Handled {
    /// It is answered without a sub-agent.
    Answer { result: JobResult },
    /// It is answered with what the sub-agent reports.
    Launch { launch: Launch },
}

/// The allowances of a sub-agent: its own fresh budget — independent of the caller's — and
/// the fan-out count that it shares.
pub open spec fn child_ctx(ctx: Ctx, effort: Effort) -> Ctx {
    Ctx { effort, budget: ctx.sub_budget, ..ctx }
}

/// The answer to a delegation once the fan-out cap is reached.
pub open spec fn capped(id: Seq<char>) -> JobResultView {
    JobResultView {
        id,
        status: Status::Partial,
        output: Some("fan-out limit reached"@),
        failure: Some(FailureKind::BudgetExceeded),
        steps_taken: 0,
        issues: seq![],
    }
}

/// A job is recorded: it is durable, and the caller is itself persisted.
pub open spec fn recorded(job: JobView, parent: Option<Seq<char>>) -> bool {
    job.persistence == Persistence::Durable && parent is Some
}

/// `launch` is a sub-agent for the job: one level deeper, under the policy that may not
/// delegate, with its own allowances; where the job is recorded it has a conversation of its
/// own, and is entered in the registry before it starts.
pub open spec fn launches(
    launch: Launch,
    job: JobView,
    ctx: Ctx,
    registry_dir: Seq<char>,
    depth: int,
    parent: Option<Seq<char>>,
) -> bool {
    &&& launch.cfg.job@ == job
    &&& launch.cfg.policy == (Policy { may_delegate: false, control: Standard })
    &&& launch.cfg.depth == depth
    &&& launch.ctx == child_ctx(ctx, job.effort)
    &&& if recorded(job, parent) {
        &&& opt_text(launch.cfg.thread_id) == Some(child_id(parent->0, job.id))
        &&& opt_text(launch.parent) == parent
        &&& launch.issued matches Some(a) && a.path@ == inside(
            registry_dir,
            registry_name(parent->0),
        ) && a.text@ == registry_text(seq![RecordView::Issued { job }]) && on_lines(
            seq![RecordView::Issued { job }],
        )
    } else {
        launch.cfg.thread_id is None && launch.parent is None && launch.issued is None
    }
}

/// A sub-agent is run for the arguments: they name a task, and the fan-out cap is not
/// reached.
pub open spec fn delegates(ctx: Ctx, input: JsonView) -> bool {
    asked_task(input).len() > 0 && ctx.fanout < ctx.max_fanout
}

/// The caller's allowances once the sub-agent, if one is run, is counted.
pub open spec fn counted(ctx: Ctx, input: JsonView) -> Ctx {
    if delegates(ctx, input) {
        Ctx { fanout: (ctx.fanout + 1) as usize, ..ctx }
    } else {
        ctx
    }
}

/// The answer where no sub-agent is run.
pub open spec fn turned_down(input: JsonView, id: Seq<char>) -> JobResultView {
    if asked_task(input).len() == 0 {
        blocked_view(id, FailureKind::AmbiguousRequest, 0)
    } else {
        capped(id)
    }
}

/// The characters of a text that may be missing.
pub open spec fn opt_str(s: Option<&str>) -> Option<Seq<char>> {
    match s {
        Some(t) => Some(t@),
        None => None,
    }
}

/// Build a job from the tool arguments, under the given id, and say how it is to be run. A
/// task that is empty is blocked; beyond the fan-out cap no sub-agent is run; each sub-agent
/// that is run counts towards the cap.
pub fn handle_as(
    ctx: &mut Ctx,
    paths: &Paths,
    parent_depth: usize,
    parent_tid: Option<&str>,
    input: &Json,
    id: String,
) -> (r: Handled)
    requires
        parent_depth < usize::MAX,
    ensures
        *final(ctx) == counted(*old(ctx), input@),
        match r {
            Handled::Answer { result } => !delegates(*old(ctx), input@) && result@ == turned_down(
                input@,
                id@,
            ),
            Handled::Launch { launch } => delegates(*old(ctx), input@) && launches(
                launch,
                asked_job(input@, id@, old(ctx).effort),
                *final(ctx),
                paths.registry_dir@,
                parent_depth + 1,
                opt_str(parent_tid),
            ),
        },
{
    let named = match input.text_at("task") {
        Some(s) => s,
        None => "",
    };
    proof {
        reveal_strlit("");
        assert(""@ =~= seq![]);
    }
    let task = trim(named).to_owned();
    if task.as_str().unicode_len() == 0 {
        return Handled::Answer {
            result: JobResult::blocked(id.as_str(), FailureKind::AmbiguousRequest, 0),
        };
    }
    // Fan-out cap: a single top-level run may only delegate so many sub-agents.
    if ctx.fanout >= ctx.max_fanout {
        return Handled::Answer {
            result: JobResult::partial(
                id.as_str(),
                "fan-out limit reached".to_owned(),
                FailureKind::BudgetExceeded,
                0,
            ),
        };
    }
    ctx.fanout = ctx.fanout + 1;

    let checks = read_checks(input);
    let persistence = Persistence::parse(input.text_at("persistence"));
    let max_iter = match input.natural_at("max_iter") {
        Some(n) => n as usize,
        None => DEFAULT_SUB_MAX_ITER,
    };
    // Effort is per-run: a sub-agent can be given its own level via the tool
    // call; when omitted it inherits the parent's, so a high-effort planner's
    // delegated execution steps don't silently drop back to no reasoning. Stored
    // on the job so a durable resume reconstructs the same level.
    let effort = match input.text_at("effort") {
        Some(s) => Effort::parse(Some(s)),
        None => ctx.effort,
    };
    let job = Job { id, task, steps: Vec::new(), checks, persistence, max_iter, effort };
    proof {
        assert(job@.steps =~= seq![]);
        assert(job@ == asked_job(input@, id@, old(ctx).effort));
    }
    // The sub-agent runs with its own fresh budget — independent of the caller's.
    let child = Ctx { effort, budget: ctx.sub_budget, ..*ctx };

    // Durable only takes effect when the parent itself is persisted, since resume
    // is driven from the parent's registry.
    let mut thread_id: Option<String> = None;
    let mut issued: Option<Append> = None;
    let mut parent: Option<String> = None;
    if let Some(tid) = parent_tid {
        if persistence == Persistence::Durable {
            thread_id = Some(child_thread_id(tid, job.id.as_str()));
            issued = Some(append_issued(paths, tid, &job));
            parent = Some(tid.to_owned());
        }
    }
    Handled::Launch {
        launch: Launch {
            cfg: RunConfig { job, policy: sub_policy(), depth: parent_depth + 1, thread_id },
            ctx: child,
            issued,
            parent,
        },
    }
}

/// Build a job from the tool arguments, under a fresh id, and say how it is to be run.
pub fn handle(
    ctx: &mut Ctx,
    paths: &Paths,
    parent_depth: usize,
    parent_tid: Option<&str>,
    input: &Json,
) -> (r: Handled)
    requires
        parent_depth < usize::MAX,
    ensures
        *final(ctx) == counted(*old(ctx), input@),
        match r {
            Handled::Answer { result } => !delegates(*old(ctx), input@) && uuid_v7_form(result.id@)
                && result@ == turned_down(input@, result.id@),
            Handled::Launch { launch } => delegates(*old(ctx), input@) && uuid_v7_form(
                launch.cfg.job.id@,
            ) && launches(
                launch,
                asked_job(input@, launch.cfg.job.id@, old(ctx).effort),
                *final(ctx),
                paths.registry_dir@,
                parent_depth + 1,
                opt_str(parent_tid),
            ),
        },
{
    let id = new_id();
    handle_as(ctx, paths, parent_depth, parent_tid, input, id)
}

/// What is to be written to the registry once a sub-agent has reported.
pub fn reported(launch_parent: &Option<String>, paths: &Paths, result: &JobResult) -> (r: Option<
    Append,
>)
    ensures
        match (opt_text(*launch_parent), r) {
            (Some(tid), Some(a)) => {
                &&& a.path@ == inside(paths.registry_dir@, registry_name(tid))
                &&& a.text@ == registry_text(
                    seq![RecordView::Result { id: result.id@, result: result@ }],
                )
                &&& on_lines(seq![RecordView::Result { id: result.id@, result: result@ }])
            },
            (None, None) => true,
            _ => false,
        },
{
    match launch_parent {
        Some(tid) => Some(append_result(paths, tid.as_str(), result)),
        None => None,
    }
}

/// The caller's allowances after several delegations.
pub open spec fn counted_all(ctx: Ctx, inputs: Seq<JsonView>) -> Ctx
    decreases inputs.len(),
{
    if inputs.len() == 0 {
        ctx
    } else {
        counted(counted_all(ctx, inputs.drop_last()), inputs.last())
    }
}

/// How many sub-agents are run for several delegations.
pub open spec fn delegations(ctx: Ctx, inputs: Seq<JsonView>) -> nat
    decreases inputs.len(),
{
    if inputs.len() == 0 {
        0
    } else {
        let before = delegations(ctx, inputs.drop_last());
        if delegates(counted_all(ctx, inputs.drop_last()), inputs.last()) {
            before + 1
        } else {
            before
        }
    }
}

/// A run delegates to no more sub-agents than its cap allows, however often it asks, and
/// nothing but the count changes.
pub proof fn fanout_capped(ctx: Ctx, inputs: Seq<JsonView>)
    requires
        ctx.fanout <= ctx.max_fanout,
    ensures
        ctx.fanout + delegations(ctx, inputs) <= ctx.max_fanout,
        counted_all(ctx, inputs) == (Ctx {
            fanout: (ctx.fanout + delegations(ctx, inputs)) as usize,
            ..ctx
        }),
    decreases inputs.len(),
{
    if inputs.len() > 0 {
        fanout_capped(ctx, inputs.drop_last());
    }
}

/// A sub-agent's budget does not depend on what its caller has left.
pub proof fn child_budget_independent(ctx: Ctx, left: usize, effort: Effort)
    ensures
        child_ctx(Ctx { budget: left, ..ctx }, effort) == child_ctx(ctx, effort),
        child_ctx(ctx, effort).budget == ctx.sub_budget,
        child_ctx(ctx, effort).effort == effort,
{
}

// ── The arguments of a job ─────────────────────────────────────────────────────

/// The tool arguments that would produce a job.
pub open spec fn job_input(job: JobView) -> JsonView {
    JsonView::object().with("task"@, JsonView::Str(job.task)).with(
        "checks"@,
        text_list(job.checks),
    ).with("persistence"@, JsonView::Str(job.persistence.spelled())).with(
        "effort"@,
        JsonView::Str(job.effort.spelled()),
    ).with("max_iter"@, JsonView::count(job.max_iter as u64))
}

/// Reconstruct the tool arguments that would produce this job — used to rebuild a
/// delegation round when resuming persisted work.
pub fn job_to_input(job: &Job) -> (r: Json)
    ensures
        r@ == job_input(job@),
{
    Json::object().with("task", Json::text(job.task.as_str())).with(
        "checks",
        Json::texts(&job.checks),
    ).with("persistence", Json::text(job.persistence.word())).with(
        "effort",
        Json::text(job.effort.word()),
    ).with("max_iter", Json::count(job.max_iter as u64))
}

proof fn strings_of_list(list: Seq<Seq<char>>)
    ensures
        strings_in(list.map_values(|s: Seq<char>| JsonView::Str(s))) == list,
    decreases list.len(),
{
    let all = list.map_values(|s: Seq<char>| JsonView::Str(s));
    if list.len() > 0 {
        strings_of_list(list.drop_last());
        assert(all.drop_last() =~= list.drop_last().map_values(
            |s: Seq<char>| JsonView::Str(s),
        ));
        assert(list.drop_last().push(list.last()) =~= list);
    } else {
        assert(strings_in(all) =~= list);
    }
}

/// The arguments of a job ask for that job again, whoever asks, if its task has no white
/// space around it and it has no steps of its own, as every job made from arguments.
pub proof fn input_asks_for_job(job: JobView, id: Seq<char>, inherited: Effort)
    requires
        trimmed(job.task) == job.task,
        job.steps.len() == 0,
    ensures
        asked_job(job_input(job), id, inherited) == (JobView { id, ..job }),
{
    reveal_strlit("task");
    reveal_strlit("checks");
    reveal_strlit("persistence");
    reveal_strlit("effort");
    reveal_strlit("max_iter");
    assert("task"@.len() == 4 && "checks"@.len() == 6 && "checks"@[0] == 'c');
    assert("persistence"@.len() == 11 && "effort"@.len() == 6 && "effort"@[0] == 'e');
    assert("max_iter"@.len() == 8);
    words_spell(job.persistence, job.effort, Status::Success, FailureKind::CheckFailed);
    strings_of_list(job.checks);
    let v = job_input(job);
    assert(v.at("task"@) == JsonView::Str(job.task));
    assert(v.at("checks"@) == text_list(job.checks));
    assert(v.at("persistence"@) == JsonView::Str(job.persistence.spelled()));
    assert(v.at("effort"@) == JsonView::Str(job.effort.spelled()));
    assert(v.at("max_iter"@) == JsonView::count(job.max_iter as u64));
    assert(asked_job(v, id, inherited) =~= (JobView { id, ..job }));
}

/// A job that was made from arguments is one whose arguments ask for it again.
pub proof fn asked_jobs_round_trip(
    input: JsonView,
    id: Seq<char>,
    inherited: Effort,
    again: Effort,
)
    ensures
        asked_job(job_input(asked_job(input, id, inherited)), id, again) == asked_job(
            input,
            id,
            inherited,
        ),
{
    let job = asked_job(input, id, inherited);
    crate::text::trimmed_twice(text_or_empty(input.at("task"@)));
    input_asks_for_job(job, id, again);
}

// ── Laws ───────────────────────────────────────────────────────────────────────

/// The strings of two lists are those of the first, and then those of the second; a string
/// alone is kept as it is, and anything else is left out.
pub proof fn strings_one_by_one(a: Seq<JsonView>, b: Seq<JsonView>, v: JsonView)
    ensures
        strings_in(a + b) == strings_in(a) + strings_in(b),
        strings_in(Seq::<JsonView>::empty()).len() == 0,
        v matches JsonView::Str(t) ==> strings_in(seq![v]) == seq![t],
        !(v is Str) ==> strings_in(seq![v]).len() == 0,
    decreases b.len(),
{
    if b.len() == 0 {
        assert(a + b =~= a);
        assert(strings_in(a) + strings_in(b) =~= strings_in(a));
    } else {
        assert((a + b).drop_last() =~= a + b.drop_last());
        strings_one_by_one(a, b.drop_last(), v);
        assert(strings_in(a + b) =~= strings_in(a) + strings_in(b));
    }
    let one = seq![v];
    assert(one.drop_last() =~= seq![]);
    assert(strings_in(one.drop_last()) =~= seq![]);
    if let JsonView::Str(t) = v {
        assert(strings_in(one) =~= seq![t]);
    }
}

/// A job is what the arguments say: their task without the white space around it, the strings
/// of their list of requirements, the persistence, the iterations and the effort that they
/// name. Where they name no iterations there are twenty-five, where they name no effort it is
/// the caller's, and only the word for it makes a job durable.
pub proof fn job_is_what_arguments_say(input: JsonView, id: Seq<char>, inherited: Effort)
    ensures
        ({
            let job = asked_job(input, id, inherited);
            &&& job.id == id
            &&& input.at("task"@) matches JsonView::Str(t) ==> job.task == trimmed(t)
            &&& !(input.at("task"@) is Str) ==> job.task.len() == 0
            &&& job.steps.len() == 0
            &&& input.at("checks"@) matches JsonView::Array(s) ==> job.checks == strings_in(s)
            &&& !(input.at("checks"@) is Array) ==> job.checks.len() == 0
            &&& job.persistence == Persistence::Durable <==> input.at("persistence"@)
                == JsonView::Str("durable"@)
            &&& input.at("max_iter"@) matches JsonView::Number(NumView::Int(n)) ==> (0 <= n
                <= usize::MAX ==> job.max_iter == n)
            &&& !(input.at("max_iter"@) is Number) ==> job.max_iter == 25
            &&& input.at("max_iter"@) matches JsonView::Number(NumView::Int(n)) ==> (n < 0
                ==> job.max_iter == 25)
            &&& !(input.at("effort"@) is Str) ==> job.effort == inherited
            &&& input.at("effort"@) matches JsonView::Str(w) ==> {
                &&& job.effort == Effort::Low <==> w == "low"@
                &&& job.effort == Effort::Medium <==> w == "medium"@
                &&& job.effort == Effort::High <==> w == "high"@
            }
        }),
{
    crate::text::trimmed_short(seq![]);
    crate::job::only_durable_is_durable(input.at("persistence"@).text(), seq![]);
    crate::job::efforts_by_word(input.at("effort"@).text(), seq![]);
}

/// A sub-agent is run exactly where the arguments have a task that is more than white space
/// and the cap leaves room; it is counted then, and only then, and nothing else changes.
pub proof fn delegation_needs_task_and_room(ctx: Ctx, input: JsonView)
    ensures
        delegates(ctx, input) <==> (input.at("task"@) matches JsonView::Str(t) && trimmed(t).len()
            > 0) && ctx.fanout < ctx.max_fanout,
        delegates(ctx, input) ==> counted(ctx, input).fanout == ctx.fanout + 1,
        !delegates(ctx, input) ==> counted(ctx, input).fanout == ctx.fanout,
        counted(ctx, input).effort == ctx.effort,
        counted(ctx, input).budget == ctx.budget,
        counted(ctx, input).sub_budget == ctx.sub_budget,
        counted(ctx, input).max_fanout == ctx.max_fanout,
{
    crate::text::trimmed_short(seq![]);
}

/// A delegation that no sub-agent is run for is answered under its id with why: without a task
/// it is blocked as ambiguous, and beyond the cap it is told so as a part of a result.
pub proof fn turned_down_says_why(input: JsonView, id: Seq<char>)
    ensures
        ({
            let r = turned_down(input, id);
            &&& r.id == id
            &&& r.steps_taken == 0
            &&& r.issues.len() == 0
            &&& r.consistent()
            &&& if input.at("task"@) matches JsonView::Str(t) && trimmed(t).len() > 0 {
                &&& r.status == Status::Partial
                &&& r.output == Some("fan-out limit reached"@)
                &&& r.failure == Some(FailureKind::BudgetExceeded)
            } else {
                &&& r.status == Status::Blocked
                &&& r.output is None
                &&& r.failure == Some(FailureKind::AmbiguousRequest)
            }
        }),
{
    crate::text::trimmed_short(seq![]);
}

/// A sub-agent that is launched does the job, may not delegate, and has its own budget and the
/// job's effort. Where the job is durable and its caller is persisted, it has a conversation
/// that is named by both, and the job is written to the caller's registry, on a line of its
/// own, before it starts; otherwise nothing of it is persisted.
pub proof fn launched_as_asked(
    launch: Launch,
    job: JobView,
    ctx: Ctx,
    registry_dir: Seq<char>,
    depth: int,
    parent: Option<Seq<char>>,
)
    requires
        launches(launch, job, ctx, registry_dir, depth, parent),
    ensures
        launch.cfg.job@ == job,
        !launch.cfg.policy.may_delegate,
        launch.cfg.depth == depth,
        launch.ctx.effort == job.effort,
        launch.ctx.budget == ctx.sub_budget,
        launch.ctx.sub_budget == ctx.sub_budget,
        launch.ctx.fanout == ctx.fanout,
        launch.ctx.max_fanout == ctx.max_fanout,
        match parent {
            Some(tid) => if job.persistence == Persistence::Durable {
                &&& launch.cfg.thread_id matches Some(t) && t@ == tid + "__sub_"@ + job.id
                &&& launch.parent matches Some(t) && t@ == tid
                &&& launch.issued matches Some(a) && a.path@ == inside(
                    registry_dir,
                    "agent_registry_"@ + tid + ".jsonl"@,
                ) && a.text@ == (RecordView::Issued { job }).layout().text() + "\n"@
            } else {
                launch.cfg.thread_id is None && launch.parent is None && launch.issued is None
            },
            None => launch.cfg.thread_id is None && launch.parent is None
                && launch.issued is None,
        },
{
    crate::registry::records_line_by_line(
        RecordView::Issued { job },
        seq![],
        seq![],
        seq![],
    );
}

/// The arguments of a job name its task, its requirements, its persistence, its effort and its
/// iterations, each under its key.
pub proof fn arguments_name_all(job: JobView)
    ensures
        ({
            let v = job_input(job);
            &&& v.at("task"@) == JsonView::Str(job.task)
            &&& v.at("checks"@) matches JsonView::Array(s) && s.len() == job.checks.len()
                && forall|i: int|
                0 <= i < s.len() ==> #[trigger] s[i] == JsonView::Str(job.checks[i])
            &&& v.at("persistence"@) == JsonView::Str(job.persistence.spelled())
            &&& v.at("effort"@) == JsonView::Str(job.effort.spelled())
            &&& v.at("max_iter"@) == JsonView::Number(NumView::Int(job.max_iter as int))
        }),
{
    reveal_strlit("task");
    reveal_strlit("checks");
    reveal_strlit("persistence");
    reveal_strlit("effort");
    reveal_strlit("max_iter");
    assert("task"@.len() == 4 && "checks"@.len() == 6 && "checks"@[0] == 'c');
    assert("persistence"@.len() == 11 && "effort"@.len() == 6 && "effort"@[0] == 'e');
    assert("max_iter"@.len() == 8);
    let v = job_input(job);
    assert(v.at("task"@) == JsonView::Str(job.task));
    assert(v.at("checks"@) == text_list(job.checks));
    assert(v.at("persistence"@) == JsonView::Str(job.persistence.spelled()));
    assert(v.at("effort"@) == JsonView::Str(job.effort.spelled()));
    assert(v.at("max_iter"@) == JsonView::count(job.max_iter as u64));
}

} // verus!
