//! Prompt assembly: the system prompt and the skills that are injected into it.

use vstd::prelude::*;

use crate::text::{
    extension, extension_is_behind_last_stop, extension_of, has, occurs_at, replace, replaced,
    replaced_first, replaced_nowhere, same, texts,
};
use crate::thread::inside;

verus! {

// ── The directory ──────────────────────────────────────────────────────────────

/// The directory of the system prompt and the skills, given what `AGENT_DIR` is set to.
pub fn agent_dir(configured: Option<String>) -> (r: String)
    ensures
        r@ == match configured {
            Some(d) => d@,
            None => "/var/actor/.agent"@,
        },
{
    match configured {
        Some(d) => d,
        None => "/var/actor/.agent".to_owned(),
    }
}

/// The file that holds the system prompt.
pub fn prompt_path(dir: &str) -> (r: String)
    ensures
        r@ == dir@ + "/system.md"@,
{
    dir.to_owned().concat("/system.md")
}

/// The directory that holds the skills.
pub fn skills_dir(dir: &str) -> (r: String)
    ensures
        r@ == dir@ + "/skills"@,
{
    dir.to_owned().concat("/skills")
}

// ── The system prompt ──────────────────────────────────────────────────────────

/// The system prompt where its file cannot be read: it points to the guide in the directory.
pub open spec fn fallback_prompt(dir: Seq<char>, guide: Seq<char>) -> Seq<char> {
    "You are a task-executing ai-agent. On your first action, run: cat "@ + dir + "/"@ + guide
}

/// The system prompt, given what its file holds; the directory is filled in where the text
/// names it.
pub open spec fn prompt_text(
    dir: Seq<char>,
    file: Option<Seq<char>>,
    guide: Seq<char>,
) -> Seq<char> {
    replaced(
        match file {
            Some(t) => t,
            None => fallback_prompt(dir, guide),
        },
        "{AGENT_DIR}"@,
        dir,
    )
}

/// The text of a file that may be missing, by its characters.
pub open spec fn file_view(file: Option<String>) -> Option<Seq<char>> {
    match file {
        Some(t) => Some(t@),
        None => None,
    }
}

/// The system prompt, given what its file holds.
pub fn system_prompt(dir: &str, file: Option<String>, guide: &str) -> (r: String)
    ensures
        r@ == prompt_text(dir@, file_view(file), guide@),
{
    proof {
        reveal_strlit("{AGENT_DIR}");
    }
    let text = match file {
        Some(t) => t,
        None => "You are a task-executing ai-agent. On your first action, run: cat ".to_owned().concat(
            dir,
        ).concat("/").concat(guide),
    };
    replace(text.as_str(), "{AGENT_DIR}", dir)
}

// ── Skills ─────────────────────────────────────────────────────────────────────

/// The name of a Markdown file: it ends in `.md`, and something stands before that.
pub open spec fn markdown(name: Seq<char>) -> bool {
    extension(name) == "md"@ && name.len() > 3
}

/// Those of the names that name Markdown files.
pub open spec fn markdown_names(names: Seq<Seq<char>>) -> Seq<Seq<char>> {
    names.filter(|n: Seq<char>| markdown(n))
}

/// `a` stands before `b` or is `b`, by the code points of their characters.
pub open spec fn in_order(a: Seq<char>, b: Seq<char>) -> bool
    decreases a.len(),
{
    if a.len() == 0 {
        true
    } else if b.len() == 0 {
        false
    } else if a[0] != b[0] {
        a[0] < b[0]
    } else {
        in_order(a.skip(1), b.skip(1))
    }
}

/// Each text stands in order with all that follow it.
pub open spec fn ascending(s: Seq<Seq<char>>) -> bool {
    forall|i: int, j: int| 0 <= i < j < s.len() ==> in_order(#[trigger] s[i], #[trigger] s[j])
}

/// Two texts stand in order one way or the other, and both ways only where they are the same.
pub proof fn order_total(a: Seq<char>, b: Seq<char>)
    ensures
        in_order(a, b) || in_order(b, a),
        in_order(a, b) && in_order(b, a) ==> a == b,
    decreases a.len(),
{
    if a.len() > 0 && b.len() > 0 && a[0] == b[0] {
        order_total(a.skip(1), b.skip(1));
        if in_order(a, b) && in_order(b, a) {
            assert(a =~= seq![a[0]] + a.skip(1));
            assert(b =~= seq![b[0]] + b.skip(1));
        }
    } else if a.len() == 0 && b.len() == 0 {
        assert(a =~= b);
    }
}

/// Order carries over.
pub proof fn order_transitive(a: Seq<char>, b: Seq<char>, c: Seq<char>)
    requires
        in_order(a, b),
        in_order(b, c),
    ensures
        in_order(a, c),
    decreases a.len(),
{
    if a.len() > 0 && b.len() > 0 && c.len() > 0 && a[0] == b[0] && b[0] == c[0] {
        order_transitive(a.skip(1), b.skip(1), c.skip(1));
    }
}

fn compare(a: &str, b: &str) -> (r: bool)
    ensures
        r == in_order(a@, b@),
{
    let x = crate::text::chars_of(a);
    let y = crate::text::chars_of(b);
    let mut i: usize = 0;
    assert(x@.skip(0) =~= x@);
    assert(y@.skip(0) =~= y@);
    while i < x.len() && i < y.len() && x[i] == y[i]
        invariant
            i <= x@.len(),
            i <= y@.len(),
            x@ == a@,
            y@ == b@,
            in_order(x@.skip(i as int), y@.skip(i as int)) == in_order(a@, b@),
        ensures
            i <= x@.len(),
            i <= y@.len(),
            in_order(x@.skip(i as int), y@.skip(i as int)) == in_order(a@, b@),
            i < x@.len() && i < y@.len() ==> x@[i as int] != y@[i as int],
        decreases x@.len() - i,
    {
        assert(x@.skip(i as int).skip(1) =~= x@.skip(i + 1));
        assert(y@.skip(i as int).skip(1) =~= y@.skip(i + 1));
        i += 1;
    }
    if i == x.len() {
        true
    } else if i == y.len() {
        false
    } else {
        x[i] < y[i]
    }
}

/// Puts a text into a list that is in order.
fn put_in_order(sorted: &mut Vec<String>, name: String)
    requires
        ascending(texts(old(sorted)@)),
    ensures
        ascending(texts(final(sorted)@)),
        texts(final(sorted)@).to_multiset() == texts(old(sorted)@).to_multiset().insert(name@),
{
    let ghost before = texts(sorted@);
    let mut at: usize = sorted.len();
    while at > 0 && !compare(sorted[at - 1].as_str(), name.as_str())
        invariant
            before == texts(sorted@),
            at <= sorted@.len(),
            forall|k: int| at <= k < sorted@.len() ==> !in_order(#[trigger] before[k], name@),
        ensures
            before == texts(sorted@),
            at <= sorted@.len(),
            forall|k: int| at <= k < sorted@.len() ==> !in_order(#[trigger] before[k], name@),
            at > 0 ==> in_order(before[at - 1], name@),
        decreases at,
    {
        assert(before[at - 1] == sorted@[at - 1]@);
        at -= 1;
    }
    let ghost word = name@;
    sorted.insert(at, name);
    proof {
        let now = texts(sorted@);
        assert(now =~= before.insert(at as int, word));
        before.insert_ensures(at as int, word);
        vstd::seq_lib::to_multiset_insert(before, at as int, word);
        assert forall|i: int, j: int| 0 <= i < j < now.len() implies in_order(
            #[trigger] now[i],
            #[trigger] now[j],
        ) by {
            if i < at && j == at {
                if i < at - 1 {
                    assert(in_order(before[i], before[at - 1]));
                    order_transitive(before[i], before[at - 1], word);
                }
            } else if i == at {
                order_total(word, before[j - 1]);
            } else if i < at && j > at {
                assert(in_order(before[i], before[j - 1]));
            } else if i > at {
                assert(in_order(before[i - 1], before[j - 1]));
            } else {
                assert(in_order(before[i], before[j]));
            }
        }
    }
}

/// The names of the skills among the names of a directory's files: those that end in `.md`,
/// in ascending order.
pub fn skill_files(names: Vec<String>) -> (r: Vec<String>)
    ensures
        ascending(texts(r@)),
        texts(r@).to_multiset() == markdown_names(texts(names@)).to_multiset(),
{
    let ghost all = texts(names@);
    let ghost kept = |n: Seq<char>| markdown(n);
    let mut out: Vec<String> = Vec::new();
    let mut i: usize = 0;
    proof {
        reveal_with_fuel(Seq::filter, 2);
        assert(texts(out@) =~= all.take(0).filter(kept));
    }
    while i < names.len()
        invariant
            all == texts(names@),
            kept == (|n: Seq<char>| markdown(n)),
            i <= names@.len(),
            ascending(texts(out@)),
            texts(out@).to_multiset() == all.take(i as int).filter(kept).to_multiset(),
        decreases names@.len() - i,
    {
        let name = &names[i];
        proof {
            reveal_with_fuel(Seq::filter, 2);
            assert(all.take(i + 1).drop_last() =~= all.take(i as int));
            assert(all.take(i + 1).last() == name@);
        }
        if same(extension_of(name.as_str()), "md") && name.as_str().unicode_len() > 3 {
            put_in_order(&mut out, name.clone());
            proof {
                let before = all.take(i as int).filter(kept);
                before.to_multiset_ensures();
                assert(all.take(i + 1).filter(kept) == before.push(name@));
            }
        }
        i += 1;
    }
    assert(all.take(all.len() as int) =~= all);
    out
}

/// The path of a skill, by the name of its file.
pub fn skill_path(dir: &str, name: &str) -> (r: String)
    ensures
        r@ == inside(dir@ + "/skills"@, name@),
{
    let parent = skills_dir(dir);
    crate::thread::put_inside(parent.as_str(), name)
}

/// What is injected for the skills: each file that could be read, under its path.
pub open spec fn skills_text(files: Seq<(Seq<char>, Option<Seq<char>>)>) -> Seq<char>
    decreases files.len(),
{
    if files.len() == 0 {
        seq![]
    } else {
        let before = skills_text(files.drop_last());
        match files.last().1 {
            Some(content) => before + "\n\n---\n## SKILL — "@ + files.last().0 + "\n\n"@ + content,
            None => before,
        }
    }
}

/// The files of a list, by their characters.
pub open spec fn file_views(files: Seq<(String, Option<String>)>) -> Seq<
    (Seq<char>, Option<Seq<char>>),
> {
    files.map_values(|f: (String, Option<String>)| (f.0@, file_view(f.1)))
}

/// What is injected for the skills, given the path and the contents of each file.
pub fn inject_skills(files: &Vec<(String, Option<String>)>) -> (r: String)
    ensures
        r@ == skills_text(file_views(files@)),
{
    let ghost all = file_views(files@);
    let mut out = String::new();
    let mut i: usize = 0;
    assert(out@ =~= skills_text(all.take(0)));
    while i < files.len()
        invariant
            all == file_views(files@),
            i <= files@.len(),
            out@ == skills_text(all.take(i as int)),
        decreases files@.len() - i,
    {
        assert(all.take(i + 1).drop_last() =~= all.take(i as int));
        assert(all.take(i + 1).last() == (files@[i as int].0@, file_view(files@[i as int].1)));
        let (path, file) = &files[i];
        if let Some(content) = file {
            out.append("\n\n---\n## SKILL — ");
            out.append(path.as_str());
            out.append("\n\n");
            out.append(content.as_str());
        }
        i += 1;
        assert(out@ =~= skills_text(all.take(i as int)));
    }
    assert(all.take(all.len() as int) =~= all);
    out
}

/// The whole system prompt: the prompt itself, and then the skills.
pub open spec fn system_text(
    dir: Seq<char>,
    file: Option<Seq<char>>,
    guide: Seq<char>,
    skills: Seq<(Seq<char>, Option<Seq<char>>)>,
) -> Seq<char> {
    prompt_text(dir, file, guide) + skills_text(skills)
}

/// The whole system prompt, given the files.
pub fn build_system(
    dir: &str,
    file: Option<String>,
    guide: &str,
    skills: &Vec<(String, Option<String>)>,
) -> (r: String)
    ensures
        r@ == prompt_text(dir@, file_view(file), guide@) + skills_text(file_views(skills@)),
        r@ == system_text(dir@, file_view(file), guide@, file_views(skills@)),
{
    system_prompt(dir, file, guide).concat(inject_skills(skills).as_str())
}

// ── Laws ───────────────────────────────────────────────────────────────────────

/// A name is that of a Markdown file exactly where it ends in `.md` and something stands
/// before that.
pub proof fn markdown_by_ending(name: Seq<char>)
    ensures
        markdown(name) <==> name.len() > 3 && name.skip(name.len() - 3) == ".md"@,
{
    reveal_strlit(".md");
    reveal_strlit("md");
    let n = name.len() as int;
    if markdown(name) {
        extension_is_behind_last_stop(name);
        assert("md"@.len() == 2 && "md"@[0] == 'm' && "md"@[1] == 'd');
        assert(".md"@ =~= seq!['.', 'm', 'd']);
        assert(extension(name) == name.skip(n - 2));
        assert(name.skip(n - 2)[0] == 'm' && name.skip(n - 2)[1] == 'd');
        assert(name[n - 3] == '.');
        assert(name.skip(n - 3) =~= ".md"@);
    }
    if n > 3 && name.skip(n - 3) == ".md"@ {
        assert(name.skip(n - 3)[0] == '.' && name.skip(n - 3)[1] == 'm' && name.skip(n - 3)[2]
            == 'd');
        assert(name[n - 3] == '.' && name[n - 2] == 'm' && name[n - 1] == 'd');
        let s2 = name.drop_last();
        let s3 = s2.drop_last();
        assert(extension(s3) =~= seq![]);
        assert(extension(s2) =~= seq!['m']);
        assert(extension(name) =~= "md"@);
    }
}

/// Of two texts that first differ at a place, the one with the smaller character there stands
/// before the other; and a text stands before all that begin with it.
pub proof fn order_by_first_difference(a: Seq<char>, b: Seq<char>, n: int)
    requires
        0 <= n <= a.len(),
        n <= b.len(),
        a.take(n) == b.take(n),
    ensures
        n < a.len() && n < b.len() && a[n] < b[n] ==> in_order(a, b) && !in_order(b, a),
        n == a.len() ==> in_order(a, b),
        n == a.len() && n < b.len() ==> !in_order(b, a),
    decreases n,
{
    if n > 0 {
        assert(a[0] == a.take(n)[0] && b[0] == b.take(n)[0]);
        assert(a.skip(1).take(n - 1) =~= a.take(n).skip(1));
        assert(b.skip(1).take(n - 1) =~= b.take(n).skip(1));
        order_by_first_difference(a.skip(1), b.skip(1), n - 1);
        if n < a.len() && n < b.len() {
            assert(a.skip(1)[n - 1] == a[n] && b.skip(1)[n - 1] == b[n]);
        }
    }
}

/// What is injected for two lists of skills is what is injected for the first, and then for the
/// second. A skill that could be read is shown whole, behind a heading with its path, and one
/// that could not is left out.
pub proof fn skills_one_by_one(
    a: Seq<(Seq<char>, Option<Seq<char>>)>,
    b: Seq<(Seq<char>, Option<Seq<char>>)>,
    path: Seq<char>,
    content: Seq<char>,
)
    ensures
        skills_text(a + b) == skills_text(a) + skills_text(b),
        skills_text(Seq::<(Seq<char>, Option<Seq<char>>)>::empty()).len() == 0,
        skills_text(seq![(path, Some(content))]) == "\n\n---\n## SKILL — "@ + path + "\n\n"@
            + content,
        skills_text(seq![(path, None::<Seq<char>>)]).len() == 0,
    decreases b.len(),
{
    if b.len() == 0 {
        assert(a + b =~= a);
        assert(skills_text(a) + skills_text(b) =~= skills_text(a));
    } else {
        assert((a + b).drop_last() =~= a + b.drop_last());
        skills_one_by_one(a, b.drop_last(), path, content);
        assert(skills_text(a + b) =~= skills_text(a) + skills_text(b));
    }
    let read = seq![(path, Some(content))];
    let unread = seq![(path, None::<Seq<char>>)];
    assert(read.drop_last() =~= seq![]);
    assert(unread.drop_last() =~= seq![]);
    assert(skills_text(read.drop_last()) =~= seq![]);
    assert(skills_text(unread.drop_last()) =~= seq![]);
    assert(skills_text(read) =~= "\n\n---\n## SKILL — "@ + path + "\n\n"@ + content);
}

/// The system prompt is the text of its file as it is, but that the directory is filled in
/// where the text names it: at its first mention, and behind that as before. Without a file it
/// is built in the same way from the text that points to the guide.
pub proof fn prompt_fills_in_directory(
    dir: Seq<char>,
    text: Seq<char>,
    tail: Seq<char>,
    guide: Seq<char>,
)
    ensures
        has(text, "{AGENT_DIR}"@) == false ==> prompt_text(dir, Some(text), guide)
            == text,
        (forall|i: int| 0 <= i < text.len() ==> #[trigger] text[i] != '{') ==> prompt_text(
            dir,
            Some(text + "{AGENT_DIR}"@ + tail),
            guide,
        ) == text + dir + prompt_text(dir, Some(tail), guide),
        prompt_text(dir, None, guide) == prompt_text(
            dir,
            Some(
                "You are a task-executing ai-agent. On your first action, run: cat "@ + dir + "/"@
                    + guide,
            ),
            guide,
        ),
{
    reveal_strlit("{AGENT_DIR}");
    let pat = "{AGENT_DIR}"@;
    if has(text, pat) == false {
        replaced_nowhere(text, pat, dir);
    }
    if forall|i: int| 0 <= i < text.len() ==> #[trigger] text[i] != '{' {
        let s = text + pat + tail;
        assert forall|i: int| 0 <= i < text.len() implies !occurs_at(s, pat, i) by {
            if occurs_at(s, pat, i) {
                assert(s.subrange(i, i + pat.len())[0] == pat[0]);
                assert(s[i] == text[i]);
            }
        }
        replaced_first(text, pat, tail, dir);
    }
}

/// A directory's Markdown files are its skills, each as often as it is there, and no other file
/// is.
pub proof fn skills_are_markdown_files(names: Seq<Seq<char>>, name: Seq<char>)
    ensures
        markdown_names(names).to_multiset().count(name) == if name.len() > 3 && name.skip(
            name.len() - 3,
        ) == ".md"@ {
            names.to_multiset().count(name)
        } else {
            0
        },
    decreases names.len(),
{
    reveal(Seq::filter);
    let kept = |n: Seq<char>| markdown(n);
    markdown_by_ending(name);
    if names.len() == 0 {
        names.to_multiset_ensures();
        names.filter(kept).to_multiset_ensures();
        assert(names.filter(kept).to_multiset().len() == 0);
        assert(names.to_multiset().len() == 0);
    } else {
        let rest = names.drop_last();
        skills_are_markdown_files(rest, name);
        rest.to_multiset_ensures();
        rest.filter(kept).to_multiset_ensures();
        assert(rest.push(names.last()) =~= names);
        assert(names.to_multiset() == rest.to_multiset().insert(names.last()));
        if markdown(names.last()) {
            assert(names.filter(kept) == rest.filter(kept).push(names.last()));
        } else {
            assert(names.filter(kept) == rest.filter(kept));
        }
    }
}

/// The whole system prompt begins with the prompt, whatever the skills are, and goes on with
/// the skills as they are, whatever the prompt is; one skill more comes at its end.
pub proof fn system_holds_prompt_and_skills(
    dir: Seq<char>,
    file: Option<Seq<char>>,
    guide: Seq<char>,
    skills: Seq<(Seq<char>, Option<Seq<char>>)>,
    path: Seq<char>,
    content: Seq<char>,
)
    ensures
        ({
            let n = prompt_text(dir, file, guide).len() as int;
            &&& system_text(dir, file, guide, skills).take(n) == prompt_text(dir, file, guide)
            &&& system_text(dir, file, guide, skills).skip(n) == skills_text(skills)
        }),
        system_text(dir, file, guide, skills.push((path, Some(content)))) == system_text(
            dir,
            file,
            guide,
            skills,
        ) + ("\n\n---\n## SKILL — "@ + path + "\n\n"@ + content),
{
    let n = prompt_text(dir, file, guide).len() as int;
    let one = seq![(path, Some(content))];
    assert(system_text(dir, file, guide, skills).take(n) =~= prompt_text(dir, file, guide));
    assert(system_text(dir, file, guide, skills).skip(n) =~= skills_text(skills));
    skills_one_by_one(skills, one, path, content);
    assert(skills.push((path, Some(content))) =~= skills + one);
    assert(system_text(dir, file, guide, skills.push((path, Some(content)))) =~= system_text(
        dir,
        file,
        guide,
        skills,
    ) + ("\n\n---\n## SKILL — "@ + path + "\n\n"@ + content));
}

} // verus!
