//! JSON text as it is written: the members of an object in their order, repeated ones too.
//! `serde_json` says whether a text is JSON and reads its strings, numbers and words; where
//! lists and objects have their parts is told from the text here.

use vstd::prelude::*;

use crate::json::{
    escaped, escapes, hex_digit, layout_of, layout_texts, layouts, parsed, quoted, row_texts, rows,
    scalar_text, Json, JsonView, Layout, Member, NumView,
};
use crate::text::{
    chars_of, decimal_digits, joined, joined_from_first, solid, solid_stays, trim, trimmed,
    trimmed_keeps_start, trimmed_short, white_space,
};

verus! {

// ── Parts of a text ────────────────────────────────────────────────────────────

/// The level behind a character outside of strings.
pub open spec fn level_behind(c: char, level: nat) -> nat {
    if c == '[' || c == '{' {
        level + 1
    } else if (c == ']' || c == '}') && level > 0 {
        (level - 1) as nat
    } else {
        level
    }
}

/// How many characters of a JSON text stand before the first `mark` that is in no string and
/// in no brackets of its own (all, where there is none).
pub open spec fn before_mark(s: Seq<char>, mark: char, level: nat, in_string: bool) -> nat
    decreases s.len(),
{
    if s.len() == 0 {
        0
    } else if in_string {
        if s[0] == '\\' && s.len() > 1 {
            2 + before_mark(s.skip(2), mark, level, true)
        } else {
            1 + before_mark(s.skip(1), mark, level, s[0] != '"')
        }
    } else if level == 0 && s[0] == mark {
        0
    } else {
        1 + before_mark(s.skip(1), mark, level_behind(s[0], level), s[0] == '"')
    }
}

/// How many characters of a JSON text stand before the first `mark` on its outermost level.
pub open spec fn until(s: Seq<char>, mark: char) -> nat {
    before_mark(s, mark, 0, false)
}

/// The value of a piece that is no list and no object.
pub open spec fn leaf(v: Option<JsonView>) -> JsonView {
    match v {
        Some(JsonView::Array(_)) => JsonView::Null,
        Some(JsonView::Object(_)) => JsonView::Null,
        Some(x) => x,
        None => JsonView::Null,
    }
}

/// The key that a piece before a colon spells.
pub open spec fn key_in(v: Option<JsonView>) -> Seq<char> {
    match v {
        Some(JsonView::Str(s)) => s,
        _ => seq![],
    }
}

/// What stands between the brackets of a list or an object.
pub open spec fn between(t: Seq<char>) -> Seq<char> {
    trimmed(t).subrange(1, trimmed(t).len() - 1)
}

/// A text, or what is left of it without the white space at its ends, begins with `c`.
pub open spec fn opens(t: Seq<char>, c: char) -> bool {
    trimmed(t).len() >= 2 && trimmed(t)[0] == c
}

/// What is written in a JSON text.
pub open spec fn written(t: Seq<char>) -> Layout
    decreases t.len(), 1int,
{
    proof {
        trimmed_short(t);
    }
    if opens(t, '[') {
        Layout::Array(
            if trimmed(between(t)).len() == 0 {
                seq![]
            } else {
                written_items(between(t))
            },
        )
    } else if opens(t, '{') {
        Layout::Object(
            if trimmed(between(t)).len() == 0 {
                seq![]
            } else {
                written_members(between(t))
            },
        )
    } else {
        Layout::Scalar(leaf(parsed(t)))
    }
}

/// The items of a list that has some, given what stands between its brackets.
pub open spec fn written_items(s: Seq<char>) -> Seq<Layout>
    decreases s.len(), 2int,
{
    let n = until(s, ',') as int;
    if n >= s.len() {
        seq![written(s)]
    } else {
        seq![written(s.take(n))] + written_items(s.skip(n + 1))
    }
}

/// The members of an object that has some, given what stands between its brackets.
pub open spec fn written_members(s: Seq<char>) -> Seq<(Seq<char>, Layout)>
    decreases s.len(), 2int,
{
    let n = until(s, ',') as int;
    if n >= s.len() {
        seq![written_member(s)]
    } else {
        seq![written_member(s.take(n))] + written_members(s.skip(n + 1))
    }
}

/// One member: its key, and what is written behind the colon.
pub open spec fn written_member(s: Seq<char>) -> (Seq<char>, Layout)
    decreases s.len(), 1int,
{
    let n = until(s, ':') as int;
    if n >= s.len() {
        (key_in(parsed(s)), Layout::Scalar(JsonView::Null))
    } else {
        (key_in(parsed(s.take(n))), written(s.skip(n + 1)))
    }
}

// ── Reading ────────────────────────────────────────────────────────────────────

/// A piece that holds the compact text of a value reads as that value.
pub open spec fn reads_back(t: Seq<char>) -> bool {
    forall|l: Layout| t == #[trigger] l.text() && l.plain(127) ==> parsed(t) == Some(l.value())
}

/// All pieces of a text that are no lists and no objects read back.
pub open spec fn pieces_read_back(t: Seq<char>) -> bool
    decreases t.len(), 1int,
{
    proof {
        trimmed_short(t);
    }
    if opens(t, '[') {
        trimmed(between(t)).len() == 0 || items_read_back(between(t))
    } else if opens(t, '{') {
        trimmed(between(t)).len() == 0 || members_read_back(between(t))
    } else {
        reads_back(t)
    }
}

/// So do those of the items between two brackets.
pub open spec fn items_read_back(s: Seq<char>) -> bool
    decreases s.len(), 2int,
{
    let n = until(s, ',') as int;
    if n >= s.len() {
        pieces_read_back(s)
    } else {
        pieces_read_back(s.take(n)) && items_read_back(s.skip(n + 1))
    }
}

/// So do those of the members between two brackets.
pub open spec fn members_read_back(s: Seq<char>) -> bool
    decreases s.len(), 2int,
{
    let n = until(s, ',') as int;
    if n >= s.len() {
        member_reads_back(s)
    } else {
        member_reads_back(s.take(n)) && members_read_back(s.skip(n + 1))
    }
}

/// So do those of one member, and its key.
pub open spec fn member_reads_back(s: Seq<char>) -> bool
    decreases s.len(), 1int,
{
    let n = until(s, ':') as int;
    if n >= s.len() {
        reads_back(s)
    } else {
        reads_back(s.take(n)) && pieces_read_back(s.skip(n + 1))
    }
}

/// The place of the first `mark` from `from` on, on the outermost level.
fn find_mark(v: &Vec<char>, from: usize, mark: char) -> (r: usize)
    requires
        from <= v@.len(),
    ensures
        from <= r <= v@.len(),
        r == from + until(v@.skip(from as int), mark),
{
    let n = v.len();
    let mut i: usize = from;
    let mut level: usize = 0;
    let mut in_string = false;
    while i < n
        invariant
            n == v@.len(),
            from <= i <= n,
            level <= i,
            from + until(v@.skip(from as int), mark) == i + before_mark(
                v@.skip(i as int),
                mark,
                level as nat,
                in_string,
            ),
        decreases n - i,
    {
        let c = v[i];
        let ghost rest = v@.skip(i as int);
        assert(rest.skip(1) =~= v@.skip(i + 1));
        if in_string {
            if c == '\\' && i + 1 < n {
                assert(rest.skip(2) =~= v@.skip(i + 2));
                i += 2;
            } else {
                in_string = c != '"';
                i += 1;
            }
        } else if level == 0 && c == mark {
            return i;
        } else {
            if c == '[' || c == '{' {
                level += 1;
            } else if (c == ']' || c == '}') && level > 0 {
                level -= 1;
            }
            in_string = c == '"';
            i += 1;
        }
    }
    assert(v@.skip(n as int) =~= seq![]);
    i
}

/// Reads a piece that is no list and no object.
fn read_leaf(t: &str) -> (r: Json)
    ensures
        layout_of(r) == Layout::Scalar(leaf(parsed(t@))),
        reads_back(t@),
{
    match Json::parse(t) {
        None => Json::Null,
        Some(Json::Array(_)) => Json::Null,
        Some(Json::Object(_)) => Json::Null,
        Some(j) => j,
    }
}

/// Reads what is written in a JSON text.
fn read_written(t: &str) -> (r: Json)
    ensures
        layout_of(r) == written(t@),
        pieces_read_back(t@),
    decreases t@.len(), 1int,
{
    proof {
        trimmed_short(t@);
    }
    let b = trim(t);
    let v = chars_of(b);
    let n = v.len();
    if n >= 2 && v[0] == '[' {
        let inner = b.substring_char(1, n - 1);
        if chars_of(trim(inner)).len() == 0 {
            let r = Json::Array(Vec::new());
            assert(layout_of(r)->Array_0 =~= seq![]);
            r
        } else {
            Json::Array(read_items(inner))
        }
    } else if n >= 2 && v[0] == '{' {
        let inner = b.substring_char(1, n - 1);
        if chars_of(trim(inner)).len() == 0 {
            let r = Json::Object(Vec::new());
            assert(layout_of(r)->Object_0 =~= seq![]);
            r
        } else {
            Json::Object(read_members(inner))
        }
    } else {
        read_leaf(t)
    }
}

fn read_items(s: &str) -> (r: Vec<Json>)
    ensures
        layouts(r@) == written_items(s@),
        items_read_back(s@),
    decreases s@.len(), 2int,
{
    let v = chars_of(s);
    let n = v.len();
    let mut out: Vec<Json> = Vec::new();
    let mut from: usize = 0;
    assert(v@.skip(0) =~= v@);
    assert(layouts(out@) + written_items(s@) =~= written_items(s@));
    loop
        invariant
            n == v@.len(),
            v@ == s@,
            from <= n,
            layouts(out@) + written_items(v@.skip(from as int)) == written_items(s@),
            items_read_back(v@.skip(from as int)) ==> items_read_back(s@),
        decreases n - from,
    {
        let ghost rest = v@.skip(from as int);
        let to = find_mark(&v, from, ',');
        let piece = s.substring_char(from, to);
        let ghost before = layouts(out@);
        let item = read_written(piece);
        out.push(item);
        assert(layouts(out@) =~= before.push(layout_of(item)));
        if to >= n {
            assert(piece@ =~= rest);
            assert(layouts(out@) =~= before + written_items(rest));
            return out;
        }
        assert(piece@ =~= rest.take(to - from));
        assert(rest.skip(to - from + 1) =~= v@.skip(to + 1));
        from = to + 1;
        assert(layouts(out@) + written_items(v@.skip(from as int)) =~= before + written_items(
            rest,
        ));
    }
}

fn read_members(s: &str) -> (r: Vec<Member>)
    ensures
        rows(r@) == written_members(s@),
        members_read_back(s@),
    decreases s@.len(), 2int,
{
    let v = chars_of(s);
    let n = v.len();
    let mut out: Vec<Member> = Vec::new();
    let mut from: usize = 0;
    assert(v@.skip(0) =~= v@);
    assert(rows(out@) + written_members(s@) =~= written_members(s@));
    loop
        invariant
            n == v@.len(),
            v@ == s@,
            from <= n,
            rows(out@) + written_members(v@.skip(from as int)) == written_members(s@),
            members_read_back(v@.skip(from as int)) ==> members_read_back(s@),
        decreases n - from,
    {
        let ghost rest = v@.skip(from as int);
        let to = find_mark(&v, from, ',');
        let piece = s.substring_char(from, to);
        let ghost before = rows(out@);
        let member = read_member(piece);
        out.push(member);
        assert(rows(out@) =~= before.push((member.key@, layout_of(member.value))));
        if to >= n {
            assert(piece@ =~= rest);
            assert(rows(out@) =~= before + written_members(rest));
            return out;
        }
        assert(piece@ =~= rest.take(to - from));
        assert(rest.skip(to - from + 1) =~= v@.skip(to + 1));
        from = to + 1;
        assert(rows(out@) + written_members(v@.skip(from as int)) =~= before + written_members(
            rest,
        ));
    }
}

fn read_key(t: &str) -> (r: String)
    ensures
        r@ == key_in(parsed(t@)),
        reads_back(t@),
{
    match Json::parse(t) {
        Some(Json::Str(s)) => s,
        _ => String::new(),
    }
}

fn read_member(s: &str) -> (r: Member)
    ensures
        (r.key@, layout_of(r.value)) == written_member(s@),
        member_reads_back(s@),
    decreases s@.len(), 1int,
{
    let v = chars_of(s);
    let n = v.len();
    assert(v@.skip(0) =~= v@);
    let to = find_mark(&v, 0, ':');
    if to >= n {
        Member { key: read_key(s), value: Json::Null }
    } else {
        let head = s.substring_char(0, to);
        let tail = s.substring_char(to + 1, n);
        assert(head@ =~= s@.take(to as int));
        assert(tail@ =~= s@.skip(to + 1));
        Member { key: read_key(head), value: read_written(tail) }
    }
}

// ── Reading back ───────────────────────────────────────────────────────────────

/// A character that means nothing to the search for a mark.
pub open spec fn calm(c: char) -> bool {
    c != '"' && c != ',' && c != ':' && c != '[' && c != ']' && c != '{' && c != '}'
}

/// The search passes over calm characters.
proof fn pass_calm(a: Seq<char>, b: Seq<char>, mark: char, level: nat)
    requires
        forall|i: int| 0 <= i < a.len() ==> calm(#[trigger] a[i]),
        mark == ',' || mark == ':',
    ensures
        before_mark(a + b, mark, level, false) == a.len() + before_mark(b, mark, level, false),
    decreases a.len(),
{
    if a.len() == 0 {
        assert(a + b =~= b);
    } else {
        assert(calm(a[0]));
        assert((a + b).skip(1) =~= a.skip(1) + b);
        pass_calm(a.skip(1), b, mark, level);
    }
}

/// The search stays in a string over each of its characters.
proof fn pass_escaped(c: char, b: Seq<char>, mark: char, level: nat)
    ensures
        before_mark(escaped(c) + b, mark, level, true) == escaped(c).len() + before_mark(
            b,
            mark,
            level,
            true,
        ),
{
    let a = escaped(c);
    let s = a + b;
    if a.len() == 1 {
        assert(s.skip(1) =~= b);
    } else if a.len() == 2 {
        assert(s.skip(2) =~= b);
    } else {
        let n = c as int;
        let h = hex_digit(n / 16);
        let k = hex_digit(n % 16);
        assert(h != '"' && h != '\\' && k != '"' && k != '\\');
        let s2 = s.skip(2);
        let s3 = s2.skip(1);
        let s4 = s3.skip(1);
        let s5 = s4.skip(1);
        assert(s2[0] == '0' && s3[0] == '0' && s4[0] == h && s5[0] == k);
        assert(s5.skip(1) =~= b);
        assert(before_mark(s4, mark, level, true) == 1 + before_mark(s5, mark, level, true));
        assert(before_mark(s3, mark, level, true) == 1 + before_mark(s4, mark, level, true));
        assert(before_mark(s2, mark, level, true) == 1 + before_mark(s3, mark, level, true));
    }
}

proof fn pass_escapes(t: Seq<char>, b: Seq<char>, mark: char, level: nat)
    ensures
        before_mark(escapes(t) + b, mark, level, true) == escapes(t).len() + before_mark(
            b,
            mark,
            level,
            true,
        ),
    decreases t.len(),
{
    if t.len() == 0 {
        assert(escapes(t) + b =~= b);
    } else {
        let rest = escapes(t.skip(1));
        pass_escapes(t.skip(1), b, mark, level);
        pass_escaped(t[0], rest + b, mark, level);
        assert(escapes(t) + b =~= escaped(t[0]) + (rest + b));
    }
}

/// The search passes over a string.
proof fn pass_string(t: Seq<char>, b: Seq<char>, mark: char, level: nat)
    requires
        mark == ',' || mark == ':',
    ensures
        before_mark(quoted(t) + b, mark, level, false) == quoted(t).len() + before_mark(
            b,
            mark,
            level,
            false,
        ),
{
    let end = seq!['"'] + b;
    pass_escapes(t, end, mark, level);
    assert((quoted(t) + b).skip(1) =~= escapes(t) + end);
    assert(end.skip(1) =~= b);
}

/// The text of a value that is no list and no object: where it begins and ends, and that the
/// search passes over it.
proof fn scalar_form(v: JsonView)
    requires
        v.plain(127),
        !(v is Array),
        !(v is Object),
    ensures
        solid(scalar_text(v)),
        scalar_text(v)[0] != '[',
        scalar_text(v)[0] != '{',
        !(v is Str) ==> forall|i: int|
            0 <= i < scalar_text(v).len() ==> calm(#[trigger] scalar_text(v)[i]),
{
    reveal_strlit("null");
    reveal_strlit("true");
    reveal_strlit("false");
    if let JsonView::Number(NumView::Int(i)) = v {
        if i < 0 {
            decimal_digits((-i) as nat);
        } else {
            decimal_digits(i as nat);
        }
    }
}

proof fn pass_scalar(v: JsonView, b: Seq<char>, mark: char, level: nat)
    requires
        v.plain(127),
        !(v is Array),
        !(v is Object),
        mark == ',' || mark == ':',
    ensures
        before_mark(scalar_text(v) + b, mark, level, false) == scalar_text(v).len() + before_mark(
            b,
            mark,
            level,
            false,
        ),
{
    scalar_form(v);
    if let JsonView::Str(s) = v {
        pass_string(s, b, mark, level);
    } else {
        pass_calm(scalar_text(v), b, mark, level);
    }
}

/// The search passes over the text of a value.
proof fn pass_layout(l: Layout, b: Seq<char>, mark: char, level: nat, d: nat)
    requires
        l.plain(d),
        d <= 127,
        mark == ',' || mark == ':',
    ensures
        before_mark(l.text() + b, mark, level, false) == l.text().len() + before_mark(
            b,
            mark,
            level,
            false,
        ),
    decreases d, 0nat,
{
    reveal_strlit("[");
    reveal_strlit("]");
    reveal_strlit("{");
    reveal_strlit("}");
    match l {
        Layout::Scalar(v) => {
            pass_scalar(v, b, mark, level);
        },
        Layout::Array(s) => {
            let all = joined(layout_texts(s), ","@);
            let end = "]"@ + b;
            pass_items(s, end, mark, level + 1, (d - 1) as nat);
            assert((l.text() + b).skip(1) =~= all + end);
            assert(end.skip(1) =~= b);
        },
        Layout::Object(s) => {
            let all = joined(row_texts(s), ","@);
            let end = "}"@ + b;
            pass_members(s, end, mark, level + 1, (d - 1) as nat);
            assert((l.text() + b).skip(1) =~= all + end);
            assert(end.skip(1) =~= b);
        },
    }
}

proof fn pass_items(s: Seq<Layout>, b: Seq<char>, mark: char, level: nat, d: nat)
    requires
        forall|i: int| 0 <= i < s.len() ==> (#[trigger] s[i]).plain(d),
        d <= 127,
        mark == ',' || mark == ':',
        level > 0,
    ensures
        before_mark(joined(layout_texts(s), ","@) + b, mark, level, false) == joined(
            layout_texts(s),
            ","@,
        ).len() + before_mark(b, mark, level, false),
    decreases d, s.len() + 1,
{
    reveal_strlit(",");
    let parts = layout_texts(s);
    if s.len() == 0 {
        assert(joined(parts, ","@) + b =~= b);
    } else if s.len() == 1 {
        pass_layout(s[0], b, mark, level, d);
    } else {
        let rest = joined(layout_texts(s.skip(1)), ","@);
        let tail = ","@ + (rest + b);
        joined_from_first(parts, ","@);
        assert(parts.skip(1) =~= layout_texts(s.skip(1)));
        pass_layout(s[0], tail, mark, level, d);
        pass_items(s.skip(1), b, mark, level, d);
        assert(tail.skip(1) =~= rest + b);
        assert(joined(parts, ","@) + b =~= s[0].text() + tail);
    }
}

/// The search passes over a member, unless it looks for its colon.
proof fn pass_member(m: (Seq<char>, Layout), b: Seq<char>, mark: char, level: nat, d: nat)
    requires
        m.1.plain(d),
        d <= 127,
        mark == ',' || (mark == ':' && level > 0),
    ensures
        ({
            let a = quoted(m.0) + (":"@ + m.1.text());
            before_mark(a + b, mark, level, false) == a.len() + before_mark(b, mark, level, false)
        }),
    decreases d, 1nat,
{
    reveal_strlit(":");
    let a = quoted(m.0) + (":"@ + m.1.text());
    let tail = ":"@ + (m.1.text() + b);
    pass_string(m.0, tail, mark, level);
    pass_layout(m.1, b, mark, level, d);
    assert(tail.skip(1) =~= m.1.text() + b);
    assert(a + b =~= quoted(m.0) + tail);
}

proof fn pass_members(
    s: Seq<(Seq<char>, Layout)>,
    b: Seq<char>,
    mark: char,
    level: nat,
    d: nat,
)
    requires
        forall|i: int| 0 <= i < s.len() ==> (#[trigger] s[i]).1.plain(d),
        d <= 127,
        mark == ',' || mark == ':',
        level > 0,
    ensures
        before_mark(joined(row_texts(s), ","@) + b, mark, level, false) == joined(
            row_texts(s),
            ","@,
        ).len() + before_mark(b, mark, level, false),
    decreases d, s.len() + 2,
{
    reveal_strlit(",");
    let parts = row_texts(s);
    if s.len() == 0 {
        assert(joined(parts, ","@) + b =~= b);
    } else if s.len() == 1 {
        pass_member(s[0], b, mark, level, d);
    } else {
        let rest = joined(row_texts(s.skip(1)), ","@);
        let tail = ","@ + (rest + b);
        joined_from_first(parts, ","@);
        assert(parts.skip(1) =~= row_texts(s.skip(1)));
        pass_member(s[0], tail, mark, level, d);
        pass_members(s.skip(1), b, mark, level, d);
        assert(tail.skip(1) =~= rest + b);
        assert(joined(parts, ","@) + b =~= parts[0] + tail);
    }
}

/// The text of a value begins and ends with something else than white space.
proof fn layout_form(l: Layout, d: nat)
    requires
        l.plain(d),
        d <= 127,
    ensures
        solid(l.text()),
        l is Array <==> l.text()[0] == '[',
        l is Object <==> l.text()[0] == '{',
        l is Array || l is Object ==> l.text().len() >= 2,
{
    reveal_strlit("[");
    reveal_strlit("]");
    reveal_strlit("{");
    reveal_strlit("}");
    if let Layout::Scalar(v) = l {
        scalar_form(v);
    }
}

/// What is written in the compact text of a value is that value.
proof fn written_back(l: Layout, d: nat)
    requires
        l.plain(d),
        d <= 127,
        pieces_read_back(l.text()),
    ensures
        written(l.text()) == l,
    decreases d, 0nat,
{
    reveal_strlit("[");
    reveal_strlit("]");
    reveal_strlit("{");
    reveal_strlit("}");
    let t = l.text();
    layout_form(l, d);
    solid_stays(t);
    match l {
        Layout::Scalar(v) => {
            assert(parsed(t) == Some(l.value()));
        },
        Layout::Array(s) => {
            let all = joined(layout_texts(s), ","@);
            assert(between(t) =~= all);
            if s.len() > 0 {
                items_begin(s, (d - 1) as nat);
                trimmed_keeps_start(all);
                items_back(s, (d - 1) as nat);
            } else {
                assert(s =~= seq![]);
            }
        },
        Layout::Object(s) => {
            let all = joined(row_texts(s), ","@);
            assert(between(t) =~= all);
            if s.len() > 0 {
                members_begin(s);
                trimmed_keeps_start(all);
                members_back(s, (d - 1) as nat);
            } else {
                assert(s =~= seq![]);
            }
        },
    }
}

proof fn items_begin(s: Seq<Layout>, d: nat)
    requires
        s.len() > 0,
        s[0].plain(d),
        d <= 127,
    ensures
        joined(layout_texts(s), ","@).len() > 0,
        !white_space(joined(layout_texts(s), ","@)[0]),
{
    layout_form(s[0], d);
    if s.len() > 1 {
        joined_from_first(layout_texts(s), ","@);
    }
}

proof fn members_begin(s: Seq<(Seq<char>, Layout)>)
    requires
        s.len() > 0,
    ensures
        joined(row_texts(s), ","@).len() > 0,
        !white_space(joined(row_texts(s), ","@)[0]),
{
    if s.len() > 1 {
        joined_from_first(row_texts(s), ","@);
    }
}

proof fn items_back(s: Seq<Layout>, d: nat)
    requires
        s.len() > 0,
        forall|i: int| 0 <= i < s.len() ==> (#[trigger] s[i]).plain(d),
        d <= 127,
        items_read_back(joined(layout_texts(s), ","@)),
    ensures
        written_items(joined(layout_texts(s), ","@)) == s,
    decreases d, s.len() + 1,
{
    reveal_strlit(",");
    let parts = layout_texts(s);
    let all = joined(parts, ","@);
    let first = s[0].text();
    if s.len() == 1 {
        let none = Seq::<char>::empty();
        pass_layout(s[0], none, ',', 0, d);
        assert(first + none =~= first);
        written_back(s[0], d);
        assert(written_items(all) =~= s);
    } else {
        let rest = joined(layout_texts(s.skip(1)), ","@);
        let tail = ","@ + rest;
        joined_from_first(parts, ","@);
        assert(parts.skip(1) =~= layout_texts(s.skip(1)));
        pass_layout(s[0], tail, ',', 0, d);
        assert(all.take(first.len() as int) =~= first);
        assert(all.skip(first.len() as int + 1) =~= rest);
        written_back(s[0], d);
        items_back(s.skip(1), d);
        assert(written_items(all) =~= s);
    }
}

proof fn member_back(m: (Seq<char>, Layout), d: nat)
    requires
        m.1.plain(d),
        d <= 127,
        member_reads_back(quoted(m.0) + (":"@ + m.1.text())),
    ensures
        written_member(quoted(m.0) + (":"@ + m.1.text())) == m,
    decreases d, 1nat,
{
    reveal_strlit(":");
    let t = quoted(m.0) + (":"@ + m.1.text());
    let n = quoted(m.0).len() as int;
    pass_string(m.0, ":"@ + m.1.text(), ':', 0);
    assert(t.take(n) =~= quoted(m.0));
    assert(t.skip(n + 1) =~= m.1.text());
    let key = Layout::string(m.0);
    assert(key.text() == quoted(m.0) && key.plain(127) && key.value() == JsonView::Str(m.0));
    written_back(m.1, d);
}

proof fn members_back(s: Seq<(Seq<char>, Layout)>, d: nat)
    requires
        s.len() > 0,
        forall|i: int| 0 <= i < s.len() ==> (#[trigger] s[i]).1.plain(d),
        d <= 127,
        members_read_back(joined(row_texts(s), ","@)),
    ensures
        written_members(joined(row_texts(s), ","@)) == s,
    decreases d, s.len() + 2,
{
    reveal_strlit(",");
    let parts = row_texts(s);
    let all = joined(parts, ","@);
    let first = parts[0];
    if s.len() == 1 {
        let none = Seq::<char>::empty();
        pass_member(s[0], none, ',', 0, d);
        assert(first + none =~= first);
        member_back(s[0], d);
        assert(written_members(all) =~= s);
    } else {
        let rest = joined(row_texts(s.skip(1)), ","@);
        let tail = ","@ + rest;
        joined_from_first(parts, ","@);
        assert(parts.skip(1) =~= row_texts(s.skip(1)));
        pass_member(s[0], tail, ',', 0, d);
        assert(all.take(first.len() as int) =~= first);
        assert(all.skip(first.len() as int + 1) =~= rest);
        member_back(s[0], d);
        members_back(s.skip(1), d);
        assert(written_members(all) =~= s);
    }
}

/// What reading a text as it is written gave.
pub open spec fn written_shown(r: Option<Json>) -> Option<Layout> {
    match r {
        Some(j) => Some(layout_of(j)),
        None => None,
    }
}

/// What is written in a text; `None` where it is no JSON.
pub open spec fn written_in(t: Seq<char>) -> Option<Layout> {
    if parsed(t) is Some {
        Some(written(t))
    } else {
        None
    }
}

/// Reads a JSON text as it is written; `None` where it is none.
///
/// What is written down reads back: a value without floats that nests at most 127 deep is
/// given back from its compact text, with its members in their order and as often as they are
/// repeated.
pub fn parse_written(t: &str) -> (r: Option<Json>)
    ensures
        written_shown(r) == written_in(t@),
        forall|l: Layout|
            t@ == #[trigger] l.text() && l.plain(127) ==> written_shown(r) == Some(l),
{
    match Json::parse(t) {
        Some(_) => {
            let r = read_written(t);
            proof {
                assert forall|l: Layout| t@ == #[trigger] l.text() && l.plain(127) implies layout_of(
                    r,
                ) == l by {
                    written_back(l, 127);
                }
            }
            Some(r)
        },
        None => None,
    }
}

// ── Laws ───────────────────────────────────────────────────────────────────────

/// A mark is found where it stands: in front of it nothing is left out, and characters that
/// mean nothing, whole strings and whole values are passed over.
pub proof fn mark_is_found(s: Seq<char>, t: Seq<char>, l: Layout, mark: char)
    requires
        mark == ',' || mark == ':',
        l.plain(127),
    ensures
        until(s, mark) <= s.len(),
        until(s, mark) < s.len() ==> s[until(s, mark) as int] == mark,
        until(seq![mark] + s, mark) == 0,
        (forall|i: int| 0 <= i < t.len() ==> calm(#[trigger] t[i])) ==> until(t + s, mark)
            == t.len() + until(s, mark),
        until(quoted(t) + s, mark) == quoted(t).len() + until(s, mark),
        until(l.text() + s, mark) == l.text().len() + until(s, mark),
{
    mark_within(s, mark, 0, false);
    if forall|i: int| 0 <= i < t.len() ==> calm(#[trigger] t[i]) {
        pass_calm(t, s, mark, 0);
    }
    pass_string(t, s, mark, 0);
    pass_layout(l, s, mark, 0, 127);
}

proof fn mark_within(s: Seq<char>, mark: char, level: nat, in_string: bool)
    ensures
        before_mark(s, mark, level, in_string) <= s.len(),
        before_mark(s, mark, level, in_string) < s.len() ==> s[before_mark(
            s,
            mark,
            level,
            in_string,
        ) as int] == mark,
    decreases s.len(),
{
    if s.len() > 0 {
        if in_string {
            if s[0] == '\\' && s.len() > 1 {
                mark_within(s.skip(2), mark, level, true);
            } else {
                mark_within(s.skip(1), mark, level, s[0] != '"');
            }
        } else if !(level == 0 && s[0] == mark) {
            mark_within(s.skip(1), mark, level_behind(s[0], level), s[0] == '"');
        }
    }
}

/// The items of a list stand between commas, and the members of an object too, each with its
/// key in front of a colon: what stands before the first comma is read by itself, and what
/// stands behind it comes after.
pub proof fn parts_stand_between_commas(a: Seq<char>, b: Seq<char>)
    requires
        until(a, ',') == a.len(),
        until(a + seq![','] + b, ',') == a.len(),
    ensures
        written_items(a) == seq![written(a)],
        written_items(a + seq![','] + b) == seq![written(a)] + written_items(b),
        written_members(a) == seq![written_member(a)],
        written_members(a + seq![','] + b) == seq![written_member(a)] + written_members(b),
{
    let s = a + seq![','] + b;
    let n = a.len() as int;
    assert(s.take(n) =~= a);
    assert(s.skip(n + 1) =~= b);
}

/// A member is its key, as the string before the colon spells it, and what is written behind
/// the colon.
pub proof fn member_stands_at_colon(a: Seq<char>, key: Seq<char>, b: Seq<char>)
    requires
        until(a + seq![':'] + b, ':') == a.len(),
        parsed(a) == Some(JsonView::Str(key)),
    ensures
        written_member(a + seq![':'] + b) == (key, written(b)),
{
    let s = a + seq![':'] + b;
    let n = a.len() as int;
    assert(s.take(n) =~= a);
    assert(s.skip(n + 1) =~= b);
}

/// Square brackets hold a list and curly ones an object, with the parts that stand between
/// them; with only white space between them there are none. Anything else is what it reads as.
pub proof fn brackets_hold_parts(s: Seq<char>)
    ensures
        ({
            let list = seq!['['] + s + seq![']'];
            let object = seq!['{'] + s + seq!['}'];
            &&& trimmed(s).len() > 0 ==> written(list) == Layout::Array(written_items(s))
            &&& trimmed(s).len() == 0 ==> (written(list) matches Layout::Array(none) && none.len()
                == 0)
            &&& trimmed(s).len() > 0 ==> written(object) == Layout::Object(written_members(s))
            &&& trimmed(s).len() == 0 ==> (written(object) matches Layout::Object(none)
                && none.len() == 0)
        }),
        trimmed(s).len() > 0 && trimmed(s)[0] != '[' && trimmed(s)[0] != '{' ==> (parsed(s) matches
            Some(v) ==> (!(v is Array) && !(v is Object) ==> written(s) == Layout::Scalar(v))),
{
    let list = seq!['['] + s + seq![']'];
    let object = seq!['{'] + s + seq!['}'];
    solid_stays(list);
    solid_stays(object);
    assert(between(list) =~= s);
    assert(between(object) =~= s);
}

} // verus!
