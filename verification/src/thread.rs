//! Conversation persistence. A run may be resumed by id: prior messages are
//! reloaded, new ones appended. The functions here say what stands in which file; reading
//! and writing the files is left to the program.

use vstd::prelude::*;

use crate::json::{line_values, lines_read_back, printed, read_lines, views, Json, JsonView};
use crate::text::{line_alone, lines, lines_of_parts, one_line, whole_lines};

verus! {

// ── Places ─────────────────────────────────────────────────────────────────────

/// Directories for persisted state.
#[derive(Debug)]
pub struct Paths {
    pub thread_dir: String,
    pub registry_dir: String,
    pub spill_dir: String,
}

/// The path of the file `name` in the directory `dir`.
pub open spec fn inside(dir: Seq<char>, name: Seq<char>) -> Seq<char> {
    if dir.len() == 0 || dir.last() == '/' {
        dir + name
    } else {
        dir + "/"@ + name
    }
}

/// The name of a conversation's file.
pub open spec fn thread_name(id: Seq<char>) -> Seq<char> {
    "agent_thread_"@ + id + ".jsonl"@
}

/// The name of a registry's file.
pub open spec fn registry_name(id: Seq<char>) -> Seq<char> {
    "agent_registry_"@ + id + ".jsonl"@
}

/// The name of the file that holds an oversized tool result.
pub open spec fn spill_name(id: Seq<char>) -> Seq<char> {
    "tool_result_"@ + id + ".txt"@
}

/// The path of the file `name` in the directory `dir`.
pub(crate) fn put_inside(dir: &str, name: &str) -> (r: String)
    ensures
        r@ == inside(dir@, name@),
{
    let n = dir.unicode_len();
    if n == 0 || dir.get_char(n - 1) == '/' {
        dir.to_owned().concat(name)
    } else {
        dir.to_owned().concat("/").concat(name)
    }
}

impl Clone for Paths {
    fn clone(&self) -> (r: Paths)
        ensures
            r.thread_dir@ == self.thread_dir@,
            r.registry_dir@ == self.registry_dir@,
            r.spill_dir@ == self.spill_dir@,
    {
        Paths {
            thread_dir: self.thread_dir.clone(),
            registry_dir: self.registry_dir.clone(),
            spill_dir: self.spill_dir.clone(),
        }
    }
}

impl Paths {
    /// All state under a single base directory.
    pub fn under(base: String) -> (r: Paths)
        ensures
            r.thread_dir@ == base@,
            r.registry_dir@ == base@,
            r.spill_dir@ == base@,
    {
        Paths { thread_dir: base.clone(), registry_dir: base.clone(), spill_dir: base }
    }

    /// Where the conversation `thread_id` is kept.
    pub fn thread_path(&self, thread_id: &str) -> (r: String)
        ensures
            r@ == inside(self.thread_dir@, thread_name(thread_id@)),
    {
        let name = "agent_thread_".to_owned().concat(thread_id).concat(".jsonl");
        put_inside(self.thread_dir.as_str(), name.as_str())
    }

    /// Where the registry of the conversation `thread_id` is kept.
    pub fn registry_path(&self, thread_id: &str) -> (r: String)
        ensures
            r@ == inside(self.registry_dir@, registry_name(thread_id@)),
    {
        let name = "agent_registry_".to_owned().concat(thread_id).concat(".jsonl");
        put_inside(self.registry_dir.as_str(), name.as_str())
    }

    /// Where the oversized result of the tool call `id` is kept.
    pub fn spill_path(&self, id: &str) -> (r: String)
        ensures
            r@ == inside(self.spill_dir@, spill_name(id@)),
    {
        let name = "tool_result_".to_owned().concat(id).concat(".txt");
        put_inside(self.spill_dir.as_str(), name.as_str())
    }
}

/// Conversations, registries and spilled results under one directory never share a file,
/// and neither do two of one kind with different ids.
pub proof fn kinds_apart(dir: Seq<char>, a: Seq<char>, b: Seq<char>)
    ensures
        inside(dir, thread_name(a)) != inside(dir, registry_name(b)),
        inside(dir, thread_name(a)) != inside(dir, spill_name(b)),
        inside(dir, registry_name(a)) != inside(dir, spill_name(b)),
        a != b ==> inside(dir, thread_name(a)) != inside(dir, thread_name(b)),
        a != b ==> inside(dir, registry_name(a)) != inside(dir, registry_name(b)),
        a != b ==> inside(dir, spill_name(a)) != inside(dir, spill_name(b)),
{
    reveal_strlit("agent_thread_");
    reveal_strlit("agent_registry_");
    reveal_strlit("tool_result_");
    assert(thread_name(a)[6] == 't' && thread_name(a)[0] == 'a');
    assert(registry_name(a)[6] == 'r' && registry_name(a)[0] == 'a');
    assert(registry_name(b)[6] == 'r' && registry_name(b)[0] == 'a');
    assert(spill_name(b)[0] == 't');
    inside_apart(dir, thread_name(a), registry_name(b));
    inside_apart(dir, thread_name(a), spill_name(b));
    inside_apart(dir, registry_name(a), spill_name(b));
    if a != b {
        framed_apart("agent_thread_"@, a, b, ".jsonl"@);
        framed_apart("agent_registry_"@, a, b, ".jsonl"@);
        framed_apart("tool_result_"@, a, b, ".txt"@);
        inside_apart(dir, thread_name(a), thread_name(b));
        inside_apart(dir, registry_name(a), registry_name(b));
        inside_apart(dir, spill_name(a), spill_name(b));
    }
}

proof fn inside_apart(dir: Seq<char>, x: Seq<char>, y: Seq<char>)
    requires
        x != y,
    ensures
        inside(dir, x) != inside(dir, y),
{
    let head = if dir.len() == 0 || dir.last() == '/' {
        dir
    } else {
        dir + "/"@
    };
    assert(inside(dir, x) =~= head + x);
    assert(inside(dir, y) =~= head + y);
    assert((head + x).skip(head.len() as int) =~= x);
    assert((head + y).skip(head.len() as int) =~= y);
}

proof fn framed_apart(head: Seq<char>, x: Seq<char>, y: Seq<char>, tail: Seq<char>)
    requires
        x != y,
    ensures
        head + x + tail != head + y + tail,
{
    let n = head.len() as int;
    if head + x + tail == head + y + tail {
        assert((head + x + tail).len() == (head + y + tail).len());
        assert((head + x + tail).subrange(n, n + x.len()) =~= x);
        assert((head + y + tail).subrange(n, n + y.len()) =~= y);
    }
}

/// The id of the conversation of a delegated job.
pub open spec fn child_id(parent: Seq<char>, job_id: Seq<char>) -> Seq<char> {
    parent + "__sub_"@ + job_id
}

/// Deterministic child-run id for a delegated job, stable across restarts.
pub fn child_thread_id(parent: &str, job_id: &str) -> (r: String)
    ensures
        r@ == child_id(parent@, job_id@),
{
    parent.to_owned().concat("__sub_").concat(job_id)
}

/// Two jobs of one parent have two conversations, and neither is the parent's.
pub proof fn children_apart(parent: Seq<char>, a: Seq<char>, b: Seq<char>)
    ensures
        a != b ==> child_id(parent, a) != child_id(parent, b),
        child_id(parent, a) != parent,
{
    reveal_strlit("__sub_");
    assert(child_id(parent, a).len() > parent.len());
    if a != b {
        framed_apart(parent + "__sub_"@, a, b, seq![]);
        assert(parent + "__sub_"@ + a + Seq::<char>::empty() =~= child_id(parent, a));
        assert(parent + "__sub_"@ + b + Seq::<char>::empty() =~= child_id(parent, b));
    }
}

// ── Contents ───────────────────────────────────────────────────────────────────

/// A text to be written at the end of the file at `path`, which is made where there is none.
#[derive(Debug)]
pub struct Append {
    pub path: String,
    pub text: String,
}

/// The messages in the text of a conversation's file.
pub open spec fn messages_in(contents: Seq<char>) -> Seq<JsonView> {
    line_values(lines(contents))
}

/// The text in which messages are kept, each on a line of its own.
pub open spec fn thread_text(msgs: Seq<JsonView>) -> Seq<char>
    decreases msgs.len(),
{
    if msgs.len() == 0 {
        seq![]
    } else {
        thread_text(msgs.drop_last()) + printed(msgs.last()) + "\n"@
    }
}

/// Messages that are kept and read back as they are: printed on one line, within the depth
/// that a parser takes, and without floats.
pub open spec fn keepable(msgs: Seq<JsonView>) -> bool {
    forall|i: int|
        0 <= i < msgs.len() ==> (#[trigger] msgs[i]).plain(127) && one_line(printed(msgs[i]))
}

proof fn lines_of_thread(msgs: Seq<JsonView>)
    requires
        forall|i: int| 0 <= i < msgs.len() ==> one_line(printed(#[trigger] msgs[i])),
    ensures
        lines(thread_text(msgs)) == msgs.map_values(|m: JsonView| printed(m)),
        whole_lines(thread_text(msgs)),
    decreases msgs.len(),
{
    reveal_strlit("\n");
    if msgs.len() > 0 {
        let before = msgs.drop_last();
        assert forall|i: int| 0 <= i < before.len() implies one_line(
            printed(#[trigger] before[i]),
        ) by {
            assert(before[i] == msgs[i]);
        }
        lines_of_thread(before);
        let line = printed(msgs.last()) + "\n"@;
        line_alone(printed(msgs.last()));
        lines_of_parts(thread_text(before), line);
        assert(thread_text(msgs) =~= thread_text(before) + line);
        assert(lines(thread_text(msgs)) =~= msgs.map_values(|m: JsonView| printed(m)));
    } else {
        assert(lines(thread_text(msgs)) =~= msgs.map_values(|m: JsonView| printed(m)));
    }
}

/// The values of two lists of lines are those of the first, and then those of the second.
proof fn values_of_parts(a: Seq<Seq<char>>, b: Seq<Seq<char>>)
    ensures
        line_values(a + b) == line_values(a) + line_values(b),
    decreases b.len(),
{
    if b.len() == 0 {
        assert(a + b =~= a);
        assert(line_values(a) + line_values(b) =~= line_values(a));
    } else {
        assert((a + b).drop_last() =~= a + b.drop_last());
        values_of_parts(a, b.drop_last());
        assert(line_values(a + b) =~= line_values(a) + line_values(b));
    }
}

proof fn values_of_printed(msgs: Seq<JsonView>, ls: Seq<Seq<char>>)
    requires
        ls.len() == msgs.len(),
        forall|i: int| 0 <= i < ls.len() ==> crate::json::parsed(#[trigger] ls[i]) == Some(msgs[i]),
    ensures
        line_values(ls) == msgs,
    decreases ls.len(),
{
    if ls.len() > 0 {
        values_of_printed(msgs.drop_last(), ls.drop_last());
        assert(msgs.drop_last().push(msgs.last()) =~= msgs);
    } else {
        assert(line_values(ls) =~= msgs);
    }
}

/// A file that holds kept messages after whole lines holds them after what those lines hold.
proof fn appended_read_back(before: Seq<char>, msgs: Seq<JsonView>)
    requires
        whole_lines(before),
        keepable(msgs),
        lines_read_back(lines(before + thread_text(msgs))),
    ensures
        messages_in(before + thread_text(msgs)) == messages_in(before) + msgs,
{
    let ls = msgs.map_values(|m: JsonView| printed(m));
    lines_of_thread(msgs);
    lines_of_parts(before, thread_text(msgs));
    values_of_parts(lines(before), ls);
    let all = lines(before) + ls;
    let n = lines(before).len();
    assert forall|i: int| 0 <= i < ls.len() implies crate::json::parsed(#[trigger] ls[i]) == Some(
        msgs[i],
    ) by {
        assert(all[n + i] == printed(msgs[i]));
    }
    values_of_printed(msgs, ls);
}

/// Messages that are added in two parts are added as if at once.
pub proof fn thread_text_of_parts(a: Seq<JsonView>, b: Seq<JsonView>)
    ensures
        thread_text(a + b) == thread_text(a) + thread_text(b),
    decreases b.len(),
{
    if b.len() == 0 {
        assert(a + b =~= a);
        assert(thread_text(a) + thread_text(b) =~= thread_text(a));
    } else {
        assert((a + b).drop_last() =~= a + b.drop_last());
        thread_text_of_parts(a, b.drop_last());
        assert(thread_text(a + b) =~= thread_text(a) + thread_text(b));
    }
}

/// The messages of a conversation, from the text of its file; none where there is no file.
///
/// What was appended is given back: a file that grew by the text of some messages holds
/// the messages it held before, and then those.
pub fn load_thread(contents: Option<&str>) -> (r: Vec<Json>)
    ensures
        views(r@) == match contents {
            Some(c) => messages_in(c@),
            None => seq![],
        },
        contents matches Some(c) ==> forall|before: Seq<char>, msgs: Seq<JsonView>|
            c@ == #[trigger] (before + thread_text(msgs)) && whole_lines(before) && keepable(msgs)
                ==> views(r@) == messages_in(before) + msgs,
{
    match contents {
        Some(c) => {
            let r = read_lines(c);
            proof {
                assert forall|before: Seq<char>, msgs: Seq<JsonView>|
                    c@ == #[trigger] (before + thread_text(msgs)) && whole_lines(before)
                        && keepable(msgs) implies views(r@) == messages_in(before) + msgs by {
                    appended_read_back(before, msgs);
                }
            }
            r
        },
        None => {
            let r: Vec<Json> = Vec::new();
            assert(views(r@) =~= seq![]);
            r
        },
    }
}

/// What is written to a conversation's file when messages are added to it.
pub fn append_thread(paths: &Paths, thread_id: &str, new_messages: &Vec<Json>) -> (r: Append)
    ensures
        r.path@ == inside(paths.thread_dir@, thread_name(thread_id@)),
        r.text@ == thread_text(views(new_messages@)),
        whole_lines(r.text@),
        forall|i: int|
            0 <= i < new_messages@.len() ==> one_line(printed((#[trigger] new_messages@[i])@)),
{
    proof {
        reveal_strlit("\n");
    }
    let ghost all = views(new_messages@);
    let mut text = String::new();
    let mut i: usize = 0;
    assert(text@ =~= thread_text(all.take(0)));
    while i < new_messages.len()
        invariant
            all == views(new_messages@),
            i <= new_messages@.len(),
            text@ == thread_text(all.take(i as int)),
            whole_lines(text@),
            "\n"@ == seq!['\n'],
            forall|k: int| 0 <= k < i ==> one_line(printed((#[trigger] new_messages@[k])@)),
        decreases new_messages@.len() - i,
    {
        assert(all.take(i + 1).drop_last() =~= all.take(i as int));
        assert(all.take(i + 1).last() == new_messages@[i as int]@);
        text.append(new_messages[i].print().as_str());
        text.append("\n");
        i += 1;
    }
    assert(all.take(all.len() as int) =~= all);
    Append { path: paths.thread_path(thread_id), text }
}

// ── Laws ───────────────────────────────────────────────────────────────────────

/// Each kind of state has its own file, which its name and the id give.
pub proof fn files_by_id(dir: Seq<char>, id: Seq<char>)
    requires
        dir.len() > 0,
        dir.last() != '/',
    ensures
        inside(dir, thread_name(id)) == dir + "/agent_thread_"@ + id + ".jsonl"@,
        inside(dir, registry_name(id)) == dir + "/agent_registry_"@ + id + ".jsonl"@,
        inside(dir, spill_name(id)) == dir + "/tool_result_"@ + id + ".txt"@,
        inside(dir + "/"@, thread_name(id)) == inside(dir, thread_name(id)),
        inside(dir + "/"@, registry_name(id)) == inside(dir, registry_name(id)),
        inside(dir + "/"@, spill_name(id)) == inside(dir, spill_name(id)),
{
    reveal_strlit("/");
    reveal_strlit("agent_thread_");
    reveal_strlit("/agent_thread_");
    reveal_strlit("agent_registry_");
    reveal_strlit("/agent_registry_");
    reveal_strlit("tool_result_");
    reveal_strlit("/tool_result_");
    assert("/agent_thread_"@ =~= "/"@ + "agent_thread_"@);
    assert("/agent_registry_"@ =~= "/"@ + "agent_registry_"@);
    assert("/tool_result_"@ =~= "/"@ + "tool_result_"@);
    assert((dir + "/"@).last() == '/');
    assert(inside(dir, thread_name(id)) =~= dir + "/agent_thread_"@ + id + ".jsonl"@);
    assert(inside(dir, registry_name(id)) =~= dir + "/agent_registry_"@ + id + ".jsonl"@);
    assert(inside(dir, spill_name(id)) =~= dir + "/tool_result_"@ + id + ".txt"@);
}

/// The conversation of a delegated job is named by its parent's id and its own.
pub proof fn child_named_by_both(parent: Seq<char>, job_id: Seq<char>)
    ensures
        child_id(parent, job_id) == parent + "__sub_"@ + job_id,
{
}

/// The text of one message is its JSON on a line of its own; what several lines hold is what
/// the first ones hold, and then the others, and a line that is no JSON holds nothing.
pub proof fn messages_line_by_line(
    m: JsonView,
    a: Seq<Seq<char>>,
    line: Seq<char>,
    b: Seq<Seq<char>>,
)
    ensures
        thread_text(seq![m]) == printed(m) + "\n"@,
        thread_text(Seq::<JsonView>::empty()).len() == 0,
        line_values(a + b) == line_values(a) + line_values(b),
        crate::json::parsed(line) is None ==> line_values(seq![line]).len() == 0,
        crate::json::parsed(line) matches Some(v) ==> line_values(seq![line]) == seq![v],
{
    let ms = seq![m];
    assert(ms.drop_last() =~= seq![]);
    assert(thread_text(ms.drop_last()) =~= seq![]);
    assert(thread_text(ms) =~= printed(m) + "\n"@);
    values_of_parts(a, b);
    let one = seq![line];
    assert(one.drop_last() =~= seq![]);
    assert(line_values(one.drop_last()) =~= seq![]);
    if let Some(v) = crate::json::parsed(line) {
        assert(line_values(one) =~= seq![v]);
    }
}

} // verus!
