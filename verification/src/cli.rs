//! The command line: what its arguments ask for, and what it prints.
//!
//!   agent [--thread <id>] 'task string' [model] [max_iter]
//!   agent [--thread <id>] < /tmp/task.txt

use vstd::prelude::*;

use crate::job::{opt_text, JobResult, JobResultView, Status};
use crate::text::{
    decimal, decimal_reads_back, numbers_are_digits, parse_usize, same, texts, trim, trimmed,
    written_usize,
};

verus! {

/// Iterations of a run where the command line names none.
pub const DEFAULT_MAX_ITER: usize = 50;

/// Tool calls of a run where `AGENT_TOOL_BUDGET` is not set.
pub const DEFAULT_TOOL_BUDGET: usize = 200;

/// Sub-agents of a run where `AGENT_MAX_FANOUT` is not set.
pub const DEFAULT_MAX_FANOUT: usize = 8;

/// What the arguments ask for.
#[derive(Debug)]
pub struct Arguments {
    /// The conversation to persist.
    pub thread_id: Option<String>,
    /// The task; `None` where it is to be read from the standard input.
    pub task: Option<String>,
    /// The model; `None` where it is the configured one.
    pub model: Option<String>,
    pub max_iter: usize,
}

/// The place of the first `--thread`; the number of arguments where there is none.
pub open spec fn flag_place(args: Seq<Seq<char>>) -> nat
    decreases args.len(),
{
    if args.len() == 0 || args[0] == "--thread"@ {
        0
    } else {
        1 + flag_place(args.skip(1))
    }
}

/// The arguments without the first `--thread` and the one behind it.
pub open spec fn without_flag(args: Seq<Seq<char>>) -> Seq<Seq<char>> {
    let n = flag_place(args) as int;
    if n >= args.len() {
        args
    } else if n + 1 >= args.len() {
        args.take(n)
    } else {
        args.take(n) + args.skip(n + 2)
    }
}

/// The item at a place, where there is one.
pub open spec fn item_at(s: Seq<Seq<char>>, i: int) -> Option<Seq<char>> {
    if 0 <= i < s.len() {
        Some(s[i])
    } else {
        None
    }
}

/// A number that a text may write, or the default.
pub open spec fn number_or(s: Option<Seq<char>>, default: usize) -> usize {
    match s {
        Some(t) => match written_usize(t) {
            Some(n) => n,
            None => default,
        },
        None => default,
    }
}

/// A setting that is a number, given what its variable is set to; the default where that is
/// no number.
pub fn env_usize(value: Option<&str>, default: usize) -> (r: usize)
    ensures
        r == number_or(
            match value {
                Some(v) => Some(v@),
                None => None,
            },
            default,
        ),
{
    match value {
        Some(v) => match parse_usize(v) {
            Some(n) => n,
            None => default,
        },
        None => default,
    }
}

fn find_flag(args: &Vec<String>) -> (r: usize)
    ensures
        r == flag_place(texts(args@)),
        r <= args@.len(),
{
    let ghost all = texts(args@);
    let mut i: usize = 0;
    assert(all.skip(0) =~= all);
    while i < args.len() && !same(args[i].as_str(), "--thread")
        invariant
            all == texts(args@),
            i <= args@.len(),
            flag_place(all) == i + flag_place(all.skip(i as int)),
        ensures
            i <= args@.len(),
            flag_place(all) == i,
        decreases args@.len() - i,
    {
        assert(all.skip(i as int)[0] == args@[i as int]@);
        assert(all.skip(i as int).skip(1) =~= all.skip(i + 1));
        i += 1;
    }
    i
}

fn drop_flag(args: &Vec<String>, at: usize) -> (r: Vec<String>)
    requires
        at == flag_place(texts(args@)),
        at <= args@.len(),
    ensures
        texts(r@) == without_flag(texts(args@)),
{
    let ghost all = texts(args@);
    let ghost kept = |i: int|
        if i <= at {
            all.take(i)
        } else if i <= at + 1 {
            all.take(at as int)
        } else {
            all.take(at as int) + all.subrange(at + 2, i)
        };
    let mut out: Vec<String> = Vec::new();
    let mut i: usize = 0;
    assert(texts(out@) =~= all.take(0));
    while i < args.len()
        invariant
            all == texts(args@),
            at <= args@.len(),
            i <= args@.len(),
            kept == (|i: int|
                if i <= at {
                    all.take(i)
                } else if i <= at + 1 {
                    all.take(at as int)
                } else {
                    all.take(at as int) + all.subrange(at + 2, i)
                }),
            texts(out@) == kept(i as int),
        decreases args@.len() - i,
    {
        let ghost before = out@;
        if i < at || i - at > 1 {
            out.push(args[i].clone());
            assert(texts(out@) =~= texts(before).push(args@[i as int]@));
        }
        assert(texts(out@) =~= kept(i + 1));
        i += 1;
    }
    assert(texts(out@) =~= without_flag(all));
    out
}

fn copy_at(v: &Vec<String>, i: usize) -> (r: Option<String>)
    ensures
        opt_text(r) == item_at(texts(v@), i as int),
{
    if i < v.len() {
        Some(v[i].clone())
    } else {
        None
    }
}

/// What the arguments ask for: the conversation's id, the task, the model and the iterations.
pub open spec fn arguments_in(all: Seq<Seq<char>>) -> (
    Option<Seq<char>>,
    Option<Seq<char>>,
    Option<Seq<char>>,
    usize,
) {
    let rest = without_flag(all);
    (
        item_at(all, flag_place(all) as int + 1),
        item_at(rest, 1),
        item_at(rest, 2),
        number_or(item_at(rest, 3), DEFAULT_MAX_ITER),
    )
}

/// What was read from the arguments.
pub open spec fn asked_for(r: Arguments) -> (
    Option<Seq<char>>,
    Option<Seq<char>>,
    Option<Seq<char>>,
    usize,
) {
    (opt_text(r.thread_id), opt_text(r.task), opt_text(r.model), r.max_iter)
}

/// Reads the arguments, the program's name among them. `--thread` may stand anywhere; of what
/// else is there, the task comes first, then the model and the iterations.
pub fn parse_args(args: &Vec<String>) -> (r: Arguments)
    ensures
        ({
            let all = texts(args@);
            let rest = without_flag(all);
            &&& opt_text(r.thread_id) == item_at(all, flag_place(all) as int + 1)
            &&& opt_text(r.task) == item_at(rest, 1)
            &&& opt_text(r.model) == item_at(rest, 2)
            &&& r.max_iter == number_or(item_at(rest, 3), DEFAULT_MAX_ITER)
        }),
        asked_for(r) == arguments_in(texts(args@)),
{
    let at = find_flag(args);
    let thread_id = if at < args.len() {
        copy_at(args, at + 1)
    } else {
        None
    };
    let rest = drop_flag(args, at);
    let max_iter = match copy_at(&rest, 3) {
        Some(s) => env_usize(Some(s.as_str()), DEFAULT_MAX_ITER),
        None => DEFAULT_MAX_ITER,
    };
    Arguments { thread_id, task: copy_at(&rest, 1), model: copy_at(&rest, 2), max_iter }
}

/// The task, from the arguments or else from the standard input; `None` where there is none.
pub open spec fn task_given(task: Option<Seq<char>>, input: Seq<char>) -> Option<Seq<char>> {
    let t = match task {
        Some(t) => t,
        None => trimmed(input),
    };
    if t.len() == 0 {
        None
    } else {
        Some(t)
    }
}

/// The task, from the arguments or else from the standard input; `None` where there is none.
pub fn task_of(task: Option<String>, input: &str) -> (r: Option<String>)
    ensures
        opt_text(r) == task_given(opt_text(task), input@),
{
    let t = match task {
        Some(t) => t,
        None => trim(input).to_owned(),
    };
    if t.as_str().unicode_len() == 0 {
        None
    } else {
        Some(t)
    }
}

/// What is printed for a result: the topic that it is published under, and then its text.
/// `None` where the run has failed.
pub open spec fn printed_result(result: JobResultView) -> Option<Seq<char>> {
    match result.output {
        Some(text) => if result.status == Status::Success || result.status == Status::Partial {
            Some("ai_result\n"@ + text + "\n"@)
        } else {
            None
        },
        None => None,
    }
}

/// What is printed for a result.
pub fn emission(result: &JobResult) -> (r: Option<String>)
    ensures
        opt_text(r) == printed_result(result@),
{
    match &result.output {
        Some(text) => match result.status {
            Status::Success => Some("ai_result\n".to_owned().concat(text.as_str()).concat("\n")),
            Status::Partial => Some("ai_result\n".to_owned().concat(text.as_str()).concat("\n")),
            _ => None,
        },
        None => None,
    }
}

/// A consistent result is printed exactly where it is a success or a part of one.
pub proof fn consistent_results_print(result: JobResultView)
    requires
        result.consistent(),
    ensures
        printed_result(result) is Some <==> result.status == Status::Success || result.status
            == Status::Partial,
{
}

// ── Laws ───────────────────────────────────────────────────────────────────────

/// The first `--thread` and the argument behind it are taken out, wherever they stand: that
/// argument is the conversation's id, and what else is there stays, in order. A `--thread` at
/// the end names none and is dropped, and without one nothing is taken out.
pub proof fn thread_flag_is_taken_out(a: Seq<Seq<char>>, id: Seq<char>, b: Seq<Seq<char>>)
    requires
        forall|i: int| 0 <= i < a.len() ==> #[trigger] a[i] != "--thread"@,
    ensures
        ({
            let args = a + seq!["--thread"@, id] + b;
            &&& item_at(args, flag_place(args) as int + 1) == Some(id)
            &&& without_flag(args) == a + b
        }),
        ({
            let args = a + seq!["--thread"@];
            &&& item_at(args, flag_place(args) as int + 1) is None
            &&& without_flag(args) == a
        }),
        item_at(a, flag_place(a) as int + 1) is None,
        without_flag(a) == a,
{
    let n = a.len() as int;
    let with_id = a + seq!["--thread"@, id] + b;
    let alone = a + seq!["--thread"@];
    let none = Seq::<Seq<char>>::empty();
    flag_comes_behind(a, seq!["--thread"@, id] + b);
    flag_comes_behind(a, seq!["--thread"@]);
    flag_comes_behind(a, none);
    assert(with_id =~= a + (seq!["--thread"@, id] + b));
    assert(a + none =~= a);
    assert(with_id.take(n) =~= a);
    assert(with_id.skip(n + 2) =~= b);
    assert(alone.take(n) =~= a);
}

/// The flag is looked for behind arguments that are none.
proof fn flag_comes_behind(a: Seq<Seq<char>>, b: Seq<Seq<char>>)
    requires
        forall|i: int| 0 <= i < a.len() ==> #[trigger] a[i] != "--thread"@,
    ensures
        flag_place(a + b) == a.len() + flag_place(b),
    decreases a.len(),
{
    if a.len() == 0 {
        assert(a + b =~= b);
    } else {
        assert(a[0] != "--thread"@);
        assert((a + b).skip(1) =~= a.skip(1) + b);
        assert forall|i: int| 0 <= i < a.skip(1).len() implies #[trigger] a.skip(1)[i]
            != "--thread"@ by {
            assert(a.skip(1)[i] == a[i + 1]);
        }
        flag_comes_behind(a.skip(1), b);
    }
}

/// A number that is written as a decimal is read as it is; anything that is not all digits,
/// but for a plus sign at the start, gives the default, and so does nothing at all.
pub proof fn numbers_or_defaults(n: usize, s: Seq<char>, i: int, default: usize)
    ensures
        number_or(Some(decimal(n as nat)), default) == n,
        number_or(None, default) == default,
        s.len() == 0 ==> number_or(Some(s), default) == default,
        0 < i < s.len() && !('0' <= s[i] <= '9') ==> number_or(Some(s), default) == default,
        s.len() > 0 && s[0] != '+' && !('0' <= s[0] <= '9') ==> number_or(Some(s), default)
            == default,
{
    decimal_reads_back(n as nat);
    numbers_are_digits(s, '0');
    if s.len() > 0 {
        numbers_are_digits(s.skip(1), '0');
        if 0 < i < s.len() {
            assert(s.skip(1)[i - 1] == s[i]);
        }
        assert(s[0] == s[0]);
    }
}

/// The task is the argument where there is one, and otherwise the input without the white
/// space around it; an empty one is none.
pub proof fn task_comes_first_from_arguments(t: Seq<char>, input: Seq<char>)
    ensures
        t.len() > 0 ==> task_given(Some(t), input) == Some(t),
        t.len() == 0 ==> task_given(Some(t), input) is None,
        trimmed(input).len() > 0 ==> task_given(None, input) == Some(trimmed(input)),
        trimmed(input).len() == 0 ==> task_given(None, input) is None,
{
}

/// What is printed for a success or a part of one is the topic, and then the whole text, each
/// on lines of their own; for any other status nothing is.
pub proof fn output_is_printed_whole(result: JobResultView)
    ensures
        result.output matches Some(text) ==> (result.status == Status::Success || result.status
            == Status::Partial ==> printed_result(result) == Some(
            "ai_result\n"@ + text + "\n"@,
        )),
        result.status == Status::Failure || result.status == Status::Blocked ==> printed_result(
            result,
        ) is None,
        result.output is None ==> printed_result(result) is None,
{
}

/// Behind the program's name come the task, the model and the iterations, in this order; what
/// is missing at the end is not asked for, and without a number there are fifty iterations.
pub proof fn arguments_by_place(
    program: Seq<char>,
    task: Seq<char>,
    model: Seq<char>,
    n: usize,
)
    requires
        program != "--thread"@,
        task != "--thread"@,
        model != "--thread"@,
    ensures
        arguments_in(seq![program, task, model, decimal(n as nat)]) == (
            None::<Seq<char>>,
            Some(task),
            Some(model),
            n,
        ),
        arguments_in(seq![program, task, model]) == (
            None::<Seq<char>>,
            Some(task),
            Some(model),
            50usize,
        ),
        arguments_in(seq![program, task]) == (
            None::<Seq<char>>,
            Some(task),
            None::<Seq<char>>,
            50usize,
        ),
        arguments_in(seq![program]) == (
            None::<Seq<char>>,
            None::<Seq<char>>,
            None::<Seq<char>>,
            50usize,
        ),
{
    reveal_strlit("--thread");
    assert("--thread"@[0] == '-');
    decimal_reads_back(n as nat);
    crate::text::decimal_digits(n as nat);
    let none = Seq::<Seq<char>>::empty();
    thread_flag_is_taken_out(seq![program, task, model, decimal(n as nat)], program, none);
    thread_flag_is_taken_out(seq![program, task, model], program, none);
    thread_flag_is_taken_out(seq![program, task], program, none);
    thread_flag_is_taken_out(seq![program], program, none);
}

/// A conversation's id does not change what else is asked for, wherever it stands.
pub proof fn thread_flag_changes_nothing_else(
    a: Seq<Seq<char>>,
    id: Seq<char>,
    b: Seq<Seq<char>>,
)
    requires
        forall|i: int| 0 <= i < (a + b).len() ==> #[trigger] (a + b)[i] != "--thread"@,
    ensures
        ({
            let with_id = arguments_in(a + seq!["--thread"@, id] + b);
            let without = arguments_in(a + b);
            &&& with_id.0 == Some(id)
            &&& without.0 is None
            &&& with_id.1 == without.1
            &&& with_id.2 == without.2
            &&& with_id.3 == without.3
        }),
{
    assert forall|i: int| 0 <= i < a.len() implies #[trigger] a[i] != "--thread"@ by {
        assert((a + b)[i] == a[i]);
    }
    thread_flag_is_taken_out(a, id, b);
    thread_flag_is_taken_out(a + b, id, b);
}

} // verus!
