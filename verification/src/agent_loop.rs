//! The single generic loop. It calls the model, runs any tool calls, and asks
//! the injected `Policy` when to stop and how to label the result. A top-level
//! run and a delegated sub-run are the same loop with different config.
//!
//! Here are the pieces of one turn; `run::Run` puts them together.

use vstd::prelude::*;

use crate::job::{
    blocked_view, new_id, uuid_v7_form, Effort, FailureKind, Job, JobResult, JobResultView,
    JobView, Status,
};
use crate::json::{Json, JsonView};
use crate::policy::{Control, Policy};
use crate::provider::{Provider, ToolCall, ToolCallView};
use crate::text::{decimal, decimal_text, has, has_is_middle, same, texts};
use crate::thread::{inside, spill_name, Paths};
use crate::tools::{base_tool_defs, tool_defs};

verus! {

/// Iteration budget for a delegated sub-run when the caller does not set one.
pub const DEFAULT_SUB_MAX_ITER: usize = 25;

/// Largest tool output, in bytes, kept inline before spilling to disk.
pub const MAX_INLINE_CHARS: usize = 16_000;

// ── Configuration ──────────────────────────────────────────────────────────────

/// A run's allowances. Budgets are per-run and independent — a sub-agent never draws from
/// its parent's pool.
#[derive(Debug, Clone, Copy, PartialEq, Eq, Structural)]
pub struct Ctx {
    /// Extended-reasoning effort for this run's model calls. `Effort::Off` sends no
    /// reasoning parameter at all.
    pub effort: Effort,
    /// Tool-call budget for the current run only.
    pub budget: usize,
    /// Starting tool-call budget handed to each delegated sub-agent (its own).
    pub sub_budget: usize,
    /// Number of sub-agents delegated so far by the top-level run.
    pub fanout: usize,
    pub max_fanout: usize,
}

/// Per-run configuration: what to do, how to steer, and where in the tree.
pub struct RunConfig<C: Control> {
    pub job: Job,
    pub policy: Policy<C>,
    pub depth: usize,
    /// Conversation id for persistence; `None` means no own persistence.
    pub thread_id: Option<String>,
}

// ── The clock ──────────────────────────────────────────────────────────────────

/// All of a text is decimal digits.
pub open spec fn all_digits(s: Seq<char>) -> bool {
    forall|i: int| 0 <= i < s.len() ==> '0' <= #[trigger] s[i] <= '9'
}

/// The year of a time stamp: four digits, or a plus sign and more than four.
pub open spec fn stamp_year(s: Seq<char>) -> bool {
    if s.len() == 4 {
        all_digits(s)
    } else {
        s.len() > 5 && s[0] == '+' && all_digits(s.skip(1))
    }
}

/// What follows the year in a time stamp: month, day, hour, minute and second with two digits
/// each, as in `-01-31T23:59:58Z`.
pub open spec fn stamp_rest(s: Seq<char>) -> bool {
    &&& s.len() == 16
    &&& s[0] == '-' && all_digits(s.subrange(1, 3))
    &&& s[3] == '-' && all_digits(s.subrange(4, 6))
    &&& s[6] == 'T' && all_digits(s.subrange(7, 9))
    &&& s[9] == ':' && all_digits(s.subrange(10, 12))
    &&& s[12] == ':' && all_digits(s.subrange(13, 15))
    &&& s[15] == 'Z'
}

/// The form of a time stamp.
pub open spec fn time_stamp(s: Seq<char>) -> bool {
    &&& s.len() >= 20
    &&& stamp_year(s.take(s.len() - 16))
    &&& stamp_rest(s.skip(s.len() - 16))
}

/// Calls `chrono::Utc::now`, and `format` with the time in seconds. Claims only the form of
/// the text: which time it is rests on the machine's clock. The call does not return where
/// that clock stands before 1970 or beyond the years that `chrono` can hold.
#[verifier::external_body]
pub(crate) fn now() -> (r: String)
    ensures
        time_stamp(r@),
{
    chrono::Utc::now().format("%Y-%m-%dT%H:%M:%SZ").to_string()
}

// ── The task ───────────────────────────────────────────────────────────────────

/// One line per requirement.
pub open spec fn check_lines(checks: Seq<Seq<char>>) -> Seq<char>
    decreases checks.len(),
{
    if checks.len() == 0 {
        seq![]
    } else {
        check_lines(checks.drop_last()) + "- "@ + checks.last() + "\n"@
    }
}

/// The task of a job and its requirements, as the model is told them.
pub open spec fn rendered(task: Seq<char>, checks: Seq<Seq<char>>) -> Seq<char> {
    if checks.len() == 0 {
        task
    } else {
        task + "\n\nRequirements:\n"@ + check_lines(checks)
    }
}

/// The task of a job and its requirements, as the model is told them.
pub fn render_task(job: &Job) -> (r: String)
    ensures
        r@ == rendered(job@.task, job@.checks),
{
    let mut s = job.task.clone();
    if job.checks.len() > 0 {
        s.append("\n\nRequirements:\n");
        let ghost head = s@;
        let ghost all = texts(job.checks@);
        let mut i: usize = 0;
        assert(head + check_lines(all.take(0)) =~= s@);
        while i < job.checks.len()
            invariant
                all == texts(job.checks@),
                i <= job.checks@.len(),
                s@ == head + check_lines(all.take(i as int)),
            decreases job.checks@.len() - i,
        {
            assert(all.take(i + 1).drop_last() =~= all.take(i as int));
            assert(all.take(i + 1).last() == job.checks@[i as int]@);
            s.append("- ");
            s.append(job.checks[i].as_str());
            s.append("\n");
            i += 1;
            assert(s@ =~= head + check_lines(all.take(i as int)));
        }
        assert(all.take(all.len() as int) =~= all);
    }
    s
}

/// The text that opens a run.
pub open spec fn opening(at: Seq<char>, job: JobView) -> Seq<char> {
    "[run started: "@ + at + "]\n"@ + rendered(job.task, job.checks)
}

/// The text that opens a run begun at the given time.
pub fn opening_text(at: &str, job: &Job) -> (r: String)
    ensures
        r@ == opening(at@, job@),
{
    "[run started: ".to_owned().concat(at).concat("]\n").concat(render_task(job).as_str())
}

/// The tools that a loop at the given depth is offered, in the provider's request format.
pub fn tool_set<P: Provider + ?Sized>(provider: &P, depth: usize) -> (r: Json)
    ensures
        r@ == provider.tools_of(JsonView::Array(tool_defs(depth))),
{
    let base = base_tool_defs(depth);
    proof {
        provider.shapeable_objects(tool_defs(depth));
    }
    provider.shape_tools(&base)
}

// ── Tools ──────────────────────────────────────────────────────────────────────

/// What a tool call asks of the outside world.
#[derive(Debug)]
pub enum ToolRequest {
    /// Run a shell command.
    Shell { command: String },
    /// Ask a question about an image file.
    Image { path: String, question: String },
    /// Ask a question about a PDF file.
    Pdf { path: String, question: String },
    /// Hand a subtask to a sub-agent.
    Delegate { input: Json },
    /// Say that delegation is not available.
    Refuse,
    /// Nothing: the answer is known.
    Answer { text: String },
}

/// What a request is.
#[verifier::ext_equal]
pub enum ToolRequestView {
    Shell { command: Seq<char> },
    Image { path: Seq<char>, question: Seq<char> },
    Pdf { path: Seq<char>, question: Seq<char> },
    Delegate { input: JsonView },
    Refuse,
    Answer { text: Seq<char> },
}

impl View for ToolRequest {
    type V = ToolRequestView;

    open spec fn view(&self) -> ToolRequestView {
        match *self {
            ToolRequest::Shell { command } => ToolRequestView::Shell { command: command@ },
            ToolRequest::Image { path, question } => ToolRequestView::Image {
                path: path@,
                question: question@,
            },
            ToolRequest::Pdf { path, question } => ToolRequestView::Pdf {
                path: path@,
                question: question@,
            },
            ToolRequest::Delegate { input } => ToolRequestView::Delegate { input: input@ },
            ToolRequest::Refuse => ToolRequestView::Refuse,
            ToolRequest::Answer { text } => ToolRequestView::Answer { text: text@ },
        }
    }
}

/// The characters of a string; `other` for any other value.
pub open spec fn text_or(v: JsonView, other: Seq<char>) -> Seq<char> {
    match v {
        JsonView::Str(s) => s,
        _ => other,
    }
}

/// What a call asks for. Only a run that may delegate and stands at the top hands work on.
pub open spec fn request(may_delegate: bool, depth: usize, tc: ToolCallView) -> ToolRequestView {
    if tc.name == "run_shell"@ {
        ToolRequestView::Shell { command: text_or(tc.input.at("command"@), seq![]) }
    } else if tc.name == "read_image"@ {
        ToolRequestView::Image {
            path: text_or(tc.input.at("path"@), seq![]),
            question: text_or(
                tc.input.at("question"@),
                "Extract all text and data from this image verbatim."@,
            ),
        }
    } else if tc.name == "read_pdf"@ {
        ToolRequestView::Pdf {
            path: text_or(tc.input.at("path"@), seq![]),
            question: text_or(
                tc.input.at("question"@),
                "Extract all text and data from this PDF verbatim."@,
            ),
        }
    } else if tc.name == "spawn_agent"@ {
        if !may_delegate || depth >= 1 {
            ToolRequestView::Refuse
        } else {
            ToolRequestView::Delegate { input: tc.input }
        }
    } else {
        ToolRequestView::Answer { text: "unknown tool: "@ + tc.name }
    }
}

fn text_at_or(v: &Json, key: &str, other: &str) -> (r: String)
    ensures
        r@ == text_or(v@.at(key@), other@),
{
    match v.text_at(key) {
        Some(s) => s.to_owned(),
        None => other.to_owned(),
    }
}

/// Dispatch one tool call: what it asks of the outside world.
pub fn dispatch_tool(may_delegate: bool, depth: usize, tc: &ToolCall) -> (r: ToolRequest)
    ensures
        r@ == request(may_delegate, depth, tc@),
{
    proof {
        reveal_strlit("");
        assert(""@ =~= seq![]);
    }
    let name = tc.name.as_str();
    if same(name, "run_shell") {
        ToolRequest::Shell { command: text_at_or(&tc.input, "command", "") }
    } else if same(name, "read_image") {
        ToolRequest::Image {
            path: text_at_or(&tc.input, "path", ""),
            question: text_at_or(
                &tc.input,
                "question",
                "Extract all text and data from this image verbatim.",
            ),
        }
    } else if same(name, "read_pdf") {
        ToolRequest::Pdf {
            path: text_at_or(&tc.input, "path", ""),
            question: text_at_or(
                &tc.input,
                "question",
                "Extract all text and data from this PDF verbatim.",
            ),
        }
    } else if same(name, "spawn_agent") {
        if !may_delegate || depth >= 1 {
            ToolRequest::Refuse
        } else {
            ToolRequest::Delegate { input: tc.input.clone() }
        }
    } else {
        ToolRequest::Answer { text: "unknown tool: ".to_owned().concat(name) }
    }
}

/// A sub-agent cannot delegate further, whatever it calls.
pub proof fn no_nested_delegation(may_delegate: bool, depth: usize, tc: ToolCallView)
    ensures
        request(may_delegate, depth, tc) is Delegate ==> may_delegate && depth == 0,
{
}

/// What a refused delegation is answered with.
pub open spec fn refused(id: Seq<char>) -> Seq<char> {
    blocked_view(id, FailureKind::ToolUnavailable, 0).layout().text()
}

/// What a refused delegation is answered with, under the given id.
pub fn refusal_as(id: &str) -> (r: String)
    ensures
        r@ == refused(id@),
        has(r@, "\"status\":\"blocked\""@),
{
    let r = JobResult::blocked(id, FailureKind::ToolUnavailable, 0).to_json();
    proof {
        reveal_strlit("\"status\":\"");
        reveal_strlit("blocked");
        reveal_strlit("\"");
        reveal_strlit("\"status\":\"blocked\"");
        assert("\"status\":\""@ + "blocked"@ + "\""@ =~= "\"status\":\"blocked\""@);
    }
    r
}

/// What a refused delegation is answered with, under a fresh id.
pub fn refusal() -> (r: String)
    ensures
        exists|id: Seq<char>| uuid_v7_form(id) && r@ == refused(id),
        has(r@, "\"status\":\"blocked\""@),
{
    let id = new_id();
    let r = refusal_as(id.as_str());
    assert(uuid_v7_form(id@) && r@ == refused(id@));
    r
}

// ── Tool results ───────────────────────────────────────────────────────────────

/// The output is too large to be kept inline.
pub open spec fn oversized(raw: Seq<char>) -> bool {
    vstd::utf8::encode_utf8(raw).len() > MAX_INLINE_CHARS
}

/// Where an output is to be saved; `None` where it is kept inline.
pub fn spill(paths: &Paths, id: &str, raw: &str) -> (r: Option<String>)
    ensures
        r is Some <==> oversized(raw@),
        r matches Some(p) ==> p@ == inside(paths.spill_dir@, spill_name(id@)),
{
    if raw.as_bytes().len() > MAX_INLINE_CHARS {
        Some(paths.spill_path(id))
    } else {
        None
    }
}

/// An output of so many bytes as the model is shown it: stamped with the time, and replaced
/// by a note where it was spilled to a file or could not be.
pub open spec fn stamped_result(
    at: Seq<char>,
    raw: Seq<char>,
    spilled: Option<(Seq<char>, Option<Seq<char>>)>,
) -> Seq<char> {
    let size = decimal(vstd::utf8::encode_utf8(raw).len());
    match spilled {
        None => "["@ + at + "]\n"@ + raw,
        Some((path, None)) => "["@ + at + "] Output too large ("@ + size
            + " chars) — full content saved to "@ + path
            + "\nQuery it with grep/head/sed/awk rather than reading the whole file.\nExample: grep -n 'keyword' "@
            + path + " | head -30"@,
        Some((_, Some(e))) => "["@ + at + "] Output too large ("@ + size
            + " chars) and could not save to disk: "@ + e,
    }
}

/// The file that an output was to be saved to, and why that failed where it did.
pub open spec fn spilled_view(s: Option<(String, Result<(), String>)>) -> Option<
    (Seq<char>, Option<Seq<char>>),
> {
    match s {
        None => None,
        Some((p, Ok(_))) => Some((p@, None)),
        Some((p, Err(e))) => Some((p@, Some(e@))),
    }
}

/// Stamp a tool result with the given time.
pub fn finalize_at(
    at: &str,
    raw: &str,
    spilled: &Option<(String, Result<(), String>)>,
) -> (r: String)
    ensures
        r@ == stamped_result(at@, raw@, spilled_view(*spilled)),
{
    let head = "[".to_owned().concat(at);
    match spilled {
        None => head.concat("]\n").concat(raw),
        Some((path, saved)) => {
            let size = decimal_text(raw.as_bytes().len());
            let told = head.concat("] Output too large (").concat(size.as_str());
            match saved {
                Ok(_) => told.concat(" chars) — full content saved to ").concat(
                    path.as_str(),
                ).concat(
                    "\nQuery it with grep/head/sed/awk rather than reading the whole file.\nExample: grep -n 'keyword' ",
                ).concat(path.as_str()).concat(" | head -30"),
                Err(e) => told.concat(" chars) and could not save to disk: ").concat(e.as_str()),
            }
        },
    }
}

/// Stamp a tool result with the time; `spilled` says what came of saving it where `spill`
/// asked for that.
pub fn finalize(raw: &str, spilled: &Option<(String, Result<(), String>)>) -> (r: String)
    ensures
        exists|at: Seq<char>|
            time_stamp(at) && r@ == stamped_result(at, raw@, spilled_view(*spilled)),
{
    let at = now();
    let r = finalize_at(at.as_str(), raw, spilled);
    assert(time_stamp(at@) && r@ == stamped_result(at@, raw@, spilled_view(*spilled)));
    r
}

// ── Laws ───────────────────────────────────────────────────────────────────────

/// The input of a call has the text under the key.
pub open spec fn given(input: JsonView, key: Seq<char>, text: Seq<char>) -> bool {
    input is Object && input->Object_0.dom().contains(key) && input->Object_0[key]
        == JsonView::Str(text)
}

/// The input of a call has no text under the key.
pub open spec fn not_given(input: JsonView, key: Seq<char>) -> bool {
    input is Object && input->Object_0.dom().contains(key) ==> !(input->Object_0[key] is Str)
}

/// A shell call is dispatched with exactly the command that its input gives.
pub proof fn shell_calls_keep_command(
    may_delegate: bool,
    depth: usize,
    tc: ToolCallView,
    command: Seq<char>,
)
    requires
        tc.name == "run_shell"@,
    ensures
        given(tc.input, "command"@, command) ==> request(may_delegate, depth, tc)
            == (ToolRequestView::Shell { command }),
        not_given(tc.input, "command"@) ==> request(may_delegate, depth, tc)
            == (ToolRequestView::Shell { command: seq![] }),
{
}

/// A call that reads an image or a PDF is dispatched to that reader, with exactly the path and
/// the question that its input gives; the question that stands in for a missing one is used
/// only where there is none.
pub proof fn file_calls_keep_path_and_question(
    may_delegate: bool,
    depth: usize,
    tc: ToolCallView,
    path: Seq<char>,
    question: Seq<char>,
)
    requires
        tc.name == "read_image"@ || tc.name == "read_pdf"@,
        given(tc.input, "path"@, path) || (not_given(tc.input, "path"@) && path.len() == 0),
    ensures
        tc.name == "read_image"@ ==> {
            &&& given(tc.input, "question"@, question) ==> request(may_delegate, depth, tc)
                == (ToolRequestView::Image { path, question })
            &&& not_given(tc.input, "question"@) ==> request(may_delegate, depth, tc)
                == (ToolRequestView::Image {
                path,
                question: "Extract all text and data from this image verbatim."@,
            })
        },
        tc.name == "read_pdf"@ ==> {
            &&& given(tc.input, "question"@, question) ==> request(may_delegate, depth, tc)
                == (ToolRequestView::Pdf { path, question })
            &&& not_given(tc.input, "question"@) ==> request(may_delegate, depth, tc)
                == (ToolRequestView::Pdf {
                path,
                question: "Extract all text and data from this PDF verbatim."@,
            })
        },
{
    tool_names();
    assert(path.len() == 0 ==> path =~= seq![]);
}

/// The names of the tools, apart from one another.
proof fn tool_names()
    ensures
        "run_shell"@.len() == 9,
        "read_image"@.len() == 10,
        "read_pdf"@.len() == 8,
        "spawn_agent"@.len() == 11,
{
    reveal_strlit("run_shell");
    reveal_strlit("read_image");
    reveal_strlit("read_pdf");
    reveal_strlit("spawn_agent");
}

/// A delegation hands on the whole input, where it is allowed at the top; it is refused
/// everywhere else. A tool that there is none of is named in the answer.
pub proof fn delegations_keep_input(may_delegate: bool, depth: usize, tc: ToolCallView)
    ensures
        tc.name == "spawn_agent"@ ==> request(may_delegate, depth, tc) == if may_delegate && depth
            == 0 {
            ToolRequestView::Delegate { input: tc.input }
        } else {
            ToolRequestView::Refuse
        },
        tc.name != "run_shell"@ && tc.name != "read_image"@ && tc.name != "read_pdf"@ && tc.name
            != "spawn_agent"@ ==> (request(may_delegate, depth, tc) matches ToolRequestView::Answer {
            text,
        } && text.len() == 14 + tc.name.len() && text.take(14) == "unknown tool: "@ && text.skip(14)
            == tc.name),
        request(may_delegate, depth, tc) is Answer ==> tc.name != "run_shell"@ && tc.name
            != "read_image"@ && tc.name != "read_pdf"@ && tc.name != "spawn_agent"@,
{
    tool_names();
    reveal_strlit("unknown tool: ");
    assert(("unknown tool: "@ + tc.name).take(14) =~= "unknown tool: "@);
    assert(("unknown tool: "@ + tc.name).skip(14) =~= tc.name);
}

/// The model is told the task first and as it is; without requirements that is all, and each
/// requirement stands on a line of its own, in order.
pub proof fn requirements_are_told(task: Seq<char>, checks: Seq<Seq<char>>, check: Seq<char>)
    ensures
        rendered(task, seq![]) == task,
        rendered(task, seq![check]) == task + "\n\nRequirements:\n"@ + "- "@ + check + "\n"@,
        checks.len() > 0 ==> rendered(task, checks.push(check)) == rendered(task, checks) + "- "@
            + check + "\n"@,
        rendered(task, checks).take(task.len() as int) == task,
{
    let one = seq![check];
    assert(one.drop_last() =~= seq![]);
    assert(check_lines(one.drop_last()) =~= seq![]);
    assert(rendered(task, one) =~= task + "\n\nRequirements:\n"@ + "- "@ + check + "\n"@);
    assert(checks.push(check).drop_last() =~= checks);
    if checks.len() > 0 {
        assert(rendered(task, checks.push(check)) =~= rendered(task, checks) + "- "@ + check
            + "\n"@);
    }
    assert(rendered(task, checks).take(task.len() as int) =~= task);
}

/// A run opens with the time at which it was started, and then with all that the model is told.
pub proof fn opening_tells_all(at: Seq<char>, job: JobView)
    ensures
        opening(at, job) == ("[run started: "@ + at + "]\n"@) + rendered(job.task, job.checks),
        opening(at, job).skip(("[run started: "@ + at + "]\n"@).len() as int) == rendered(
            job.task,
            job.checks,
        ),
{
    let head = "[run started: "@ + at + "]\n"@;
    assert(opening(at, job).skip(head.len() as int) =~= rendered(job.task, job.checks));
}

/// A result that is kept inline is shown whole, behind the time; one that was saved to a file
/// names the file, and one that could not be names the reason. Which of these it is does not
/// depend on anything else.
pub proof fn results_are_shown(
    at: Seq<char>,
    raw: Seq<char>,
    path: Seq<char>,
    e: Seq<char>,
)
    ensures
        ({
            let head = seq!['['] + at + seq![']'];
            let inline = stamped_result(at, raw, None);
            let saved = stamped_result(at, raw, Some((path, None)));
            let lost = stamped_result(at, raw, Some((path, Some(e))));
            &&& inline == head + seq!['\n'] + raw
            &&& saved.take(head.len() as int) == head
            &&& lost.take(head.len() as int) == head
            &&& has(saved, path)
            &&& has(saved, decimal(vstd::utf8::encode_utf8(raw).len()))
            &&& has(lost, decimal(vstd::utf8::encode_utf8(raw).len()))
            &&& lost.skip(lost.len() - e.len()) == e
        }),
{
    reveal_strlit("[");
    reveal_strlit("]\n");
    reveal_strlit("] Output too large (");
    let head = seq!['['] + at + seq![']'];
    let size = decimal(vstd::utf8::encode_utf8(raw).len());
    let inline = stamped_result(at, raw, None);
    let saved = stamped_result(at, raw, Some((path, None)));
    let lost = stamped_result(at, raw, Some((path, Some(e))));
    assert(inline =~= head + seq!['\n'] + raw);
    let a = "["@ + at + "] Output too large ("@;
    let b = " chars) — full content saved to "@;
    let c =
        "\nQuery it with grep/head/sed/awk rather than reading the whole file.\nExample: grep -n 'keyword' "@;
    let d = " | head -30"@;
    let f = " chars) and could not save to disk: "@;
    assert(a[a.len() - 1] == '(');
    assert(saved =~= a + size + b + path + (c + path + d));
    assert(saved =~= a + size + (b + path + c + path + d));
    assert(lost =~= a + size + (f + e));
    has_is_middle(a + size + b, path, c + path + d);
    has_is_middle(a, size, b + path + c + path + d);
    has_is_middle(a, size, f + e);
    assert(a.take(head.len() as int) =~= head);
    assert(saved.take(head.len() as int) =~= head);
    assert(lost.take(head.len() as int) =~= head);
    assert(lost.skip(lost.len() - e.len()) =~= e);
}

/// An output is kept inline up to sixteen thousand bytes, and no further.
pub proof fn inline_limit(raw: Seq<char>)
    ensures
        oversized(raw) <==> vstd::utf8::encode_utf8(raw).len() >= 16_001,
{
}

/// What a refused delegation is answered with is a result under the id that says that the tool
/// is not available.
pub proof fn refusals_say_why(id: Seq<char>)
    ensures
        refused(id) == (JobResultView {
            id,
            status: Status::Blocked,
            output: None,
            failure: Some(FailureKind::ToolUnavailable),
            steps_taken: 0,
            issues: seq![],
        }).layout().text(),
{
}

/// A result that was spilled is told by its size in bytes and by where it is, along with how to
/// look into it, or by why it could not be saved.
pub proof fn spilled_results_are_told(at: Seq<char>, raw: Seq<char>, path: Seq<char>, e: Seq<char>)
    ensures
        ({
            let size = decimal(vstd::utf8::encode_utf8(raw).len());
            let head = "["@ + (at + ("] Output too large ("@ + size));
            &&& stamped_result(at, raw, Some((path, None))) == head + (
            " chars) — full content saved to "@ + (path + (
            "\nQuery it with grep/head/sed/awk rather than reading the whole file.\nExample: grep -n 'keyword' "@
                + (path + " | head -30"@))))
            &&& stamped_result(at, raw, Some((path, Some(e)))) == head + (
            " chars) and could not save to disk: "@ + e)
        }),
{
    let size = decimal(vstd::utf8::encode_utf8(raw).len());
    let head = "["@ + (at + ("] Output too large ("@ + size));
    assert(stamped_result(at, raw, Some((path, None))) =~= head + (
    " chars) — full content saved to "@ + (path + (
    "\nQuery it with grep/head/sed/awk rather than reading the whole file.\nExample: grep -n 'keyword' "@
        + (path + " | head -30"@)))));
    assert(stamped_result(at, raw, Some((path, Some(e)))) =~= head + (
    " chars) and could not save to disk: "@ + e));
}

} // verus!
