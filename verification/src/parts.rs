//! The parts of a record as it is written down: under their keys in an object, or at their
//! places in a list.

use vstd::prelude::*;

use crate::json::{
    layout_of, layouts, rows, shown_texts, text_row, Json, JsonView, Layout, NumView,
};
use crate::text::{same, texts};

verus! {

// ── What a part holds ──────────────────────────────────────────────────────────

/// A part of a record: a record is written as an object, with its parts under their keys, or
/// as a list, with its parts at their places.
pub enum Part {
    /// It is not there.
    Missing,
    /// It is there, once.
    Given(Layout),
    /// It is there more than once, or there is no record to have it.
    Wrong,
}

/// What a row has under a key.
pub open spec fn row_part(s: Seq<(Seq<char>, Layout)>, key: Seq<char>) -> Part
    decreases s.len(),
{
    if s.len() == 0 {
        Part::Missing
    } else {
        let before = row_part(s.drop_last(), key);
        if s.last().0 != key {
            before
        } else if before is Missing {
            Part::Given(s.last().1)
        } else {
            Part::Wrong
        }
    }
}

/// The part of a record that has a key and a place.
pub open spec fn part(l: Layout, key: Seq<char>, place: int) -> Part {
    match l {
        Layout::Object(s) => row_part(s, key),
        Layout::Array(s) => if 0 <= place < s.len() {
            Part::Given(s[place])
        } else {
            Part::Missing
        },
        Layout::Scalar(_) => Part::Wrong,
    }
}

/// A record that has no more than `n` parts, where it is written as a list.
pub open spec fn fits(l: Layout, n: int) -> bool {
    l matches Layout::Array(s) ==> s.len() <= n
}

/// What a part holds as a text.
pub open spec fn text_of(p: Part) -> Option<Seq<char>> {
    match p {
        Part::Given(Layout::Scalar(JsonView::Str(s))) => Some(s),
        _ => None,
    }
}

/// What a part holds as a text that may be missing.
pub open spec fn opt_text_of(p: Part) -> Option<Option<Seq<char>>> {
    match p {
        Part::Missing => Some(None),
        Part::Given(Layout::Scalar(JsonView::Null)) => Some(None),
        Part::Given(Layout::Scalar(JsonView::Str(s))) => Some(Some(s)),
        _ => None,
    }
}

/// The texts of a list that holds nothing else.
pub open spec fn texts_in_row(s: Seq<Layout>) -> Option<Seq<Seq<char>>> {
    if forall|i: int| 0 <= i < s.len() ==> text_of(Part::Given(#[trigger] s[i])) is Some {
        Some(s.map_values(|l: Layout| text_of(Part::Given(l))->0))
    } else {
        None
    }
}

/// What a part holds as a list of texts; none where it is missing.
pub open spec fn texts_of(p: Part) -> Option<Seq<Seq<char>>> {
    match p {
        Part::Missing => Some(seq![]),
        Part::Given(Layout::Array(s)) => texts_in_row(s),
        _ => None,
    }
}

/// What a part holds as a machine size.
pub open spec fn size_of_part(p: Part) -> Option<usize> {
    match p {
        Part::Given(Layout::Scalar(v)) => match v.natural() {
            Some(n) if n <= usize::MAX => Some(n as usize),
            _ => None,
        },
        _ => None,
    }
}

/// Nothing, written as null or as the object without members.
pub open spec fn nothing(l: Layout) -> bool {
    match l {
        Layout::Scalar(v) => v is Null,
        Layout::Object(s) => s.len() == 0,
        Layout::Array(_) => false,
    }
}

/// The word that stands for one of several choices: a text, or an object with one member that
/// holds nothing, whose key is the word.
pub open spec fn word_in(l: Layout) -> Option<Seq<char>> {
    match l {
        Layout::Scalar(JsonView::Str(s)) => Some(s),
        Layout::Object(s) => if s.len() == 1 && nothing(s[0].1) {
            Some(s[0].0)
        } else {
            None
        },
        _ => None,
    }
}

/// What a part holds as a word.
pub open spec fn word_of(p: Part) -> Option<Seq<char>> {
    match p {
        Part::Given(l) => word_in(l),
        _ => None,
    }
}

// ── Looking for a part ─────────────────────────────────────────────────────────

/// What looking for a part gave.
#[derive(Debug)]
pub enum Found<'a> {
    Missing,
    Given(&'a Json),
    Wrong,
}

impl<'a> Found<'a> {
    /// The part itself.
    pub open spec fn part(self) -> Part {
        match self {
            Found::Missing => Part::Missing,
            Found::Given(j) => Part::Given(layout_of(*j)),
            Found::Wrong => Part::Wrong,
        }
    }

    /// The text that the part holds.
    pub fn text(&self) -> (r: Option<String>)
        ensures
            match r {
                Some(s) => text_of(self.part()) == Some(s@),
                None => text_of(self.part()) is None,
            },
    {
        match self {
            Found::Given(Json::Str(s)) => Some(s.clone()),
            _ => None,
        }
    }

    /// The text that the part holds, where it is not missing.
    pub fn opt_text(&self) -> (r: Option<Option<String>>)
        ensures
            match r {
                Some(Some(s)) => opt_text_of(self.part()) == Some(Some(s@)),
                Some(None) => opt_text_of(self.part()) == Some(None::<Seq<char>>),
                None => opt_text_of(self.part()) is None,
            },
    {
        match self {
            Found::Missing => Some(None),
            Found::Given(Json::Null) => Some(None),
            Found::Given(Json::Str(s)) => Some(Some(s.clone())),
            _ => None,
        }
    }

    /// The list of texts that the part holds.
    pub fn texts(&self) -> (r: Option<Vec<String>>)
        ensures
            shown_texts(r) == texts_of(self.part()),
    {
        let mut out: Vec<String> = Vec::new();
        assert(texts(out@) =~= seq![]);
        match self {
            Found::Missing => Some(out),
            Found::Given(Json::Array(v)) => {
                let ghost all = layouts(v@);
                let mut i: usize = 0;
                while i < v.len()
                    invariant
                        all == layouts(v@),
                        self.part() == Part::Given(Layout::Array(all)),
                        i <= v@.len(),
                        out@.len() == i,
                        forall|k: int|
                            0 <= k < i ==> text_of(Part::Given(#[trigger] all[k])) == Some(
                                out@[k]@,
                            ),
                    decreases v@.len() - i,
                {
                    assert(all[i as int] == layout_of(v@[i as int]));
                    match Found::Given(&v[i]).text() {
                        Some(s) => out.push(s),
                        None => {
                            assert(text_of(Part::Given(all[i as int])) is None);
                            return None;
                        },
                    }
                    i += 1;
                }
                assert(texts(out@) =~= all.map_values(|l: Layout| text_of(Part::Given(l))->0));
                Some(out)
            },
            _ => None,
        }
    }

    /// The machine size that the part holds.
    pub fn size(&self) -> (r: Option<usize>)
        ensures
            r == size_of_part(self.part()),
    {
        match self {
            Found::Given(Json::Number(n)) => match n.natural() {
                Some(u) => if u <= usize::MAX as u64 {
                    Some(u as usize)
                } else {
                    None
                },
                None => None,
            },
            _ => None,
        }
    }

    /// The word that the part holds.
    pub fn word(&self) -> (r: Option<String>)
        ensures
            match r {
                Some(s) => word_of(self.part()) == Some(s@),
                None => word_of(self.part()) is None,
            },
    {
        match self {
            Found::Given(Json::Str(s)) => Some(s.clone()),
            Found::Given(Json::Object(m)) => if m.len() == 1 {
                assert(rows(m@)[0] == (m@[0].key@, layout_of(m@[0].value)));
                let empty = match &m[0].value {
                    Json::Null => true,
                    Json::Object(none) => none.len() == 0,
                    _ => false,
                };
                if empty {
                    Some(m[0].key.clone())
                } else {
                    None
                }
            } else {
                None
            },
            _ => None,
        }
    }
}

/// True iff a record has no more than `n` parts, where it is written as a list.
pub fn has_at_most(v: &Json, n: usize) -> (r: bool)
    ensures
        r == fits(layout_of(*v), n as int),
{
    match v {
        Json::Array(a) => a.len() <= n,
        _ => true,
    }
}

/// Looks for the part of a record that has a key and a place.
pub fn find_part<'a>(v: &'a Json, key: &str, place: usize) -> (r: Found<'a>)
    ensures
        r.part() == part(layout_of(*v), key@, place as int),
{
    match v {
        Json::Array(a) => if place < a.len() {
            Found::Given(&a[place])
        } else {
            Found::Missing
        },
        Json::Object(m) => {
            let ghost all = rows(m@);
            let mut found: Found<'a> = Found::Missing;
            let mut i: usize = 0;
            assert(row_part(all.take(0), key@) is Missing);
            while i < m.len()
                invariant
                    all == rows(m@),
                    i <= m@.len(),
                    found.part() == row_part(all.take(i as int), key@),
                decreases m@.len() - i,
            {
                assert(all.take(i + 1).drop_last() =~= all.take(i as int));
                assert(all.take(i + 1).last() == (m@[i as int].key@, layout_of(m@[i as int].value)));
                if same(m[i].key.as_str(), key) {
                    found = match found {
                        Found::Missing => Found::Given(&m[i].value),
                        _ => Found::Wrong,
                    };
                }
                i += 1;
            }
            assert(all.take(all.len() as int) =~= all);
            found
        },
        _ => Found::Wrong,
    }
}

// ── Reading back ───────────────────────────────────────────────────────────────

/// What a row that takes one member more has under each key, and that it stays plain.
pub proof fn row_takes(l: Layout, key: Seq<char>, x: Layout, d: nat)
    requires
        l is Object,
        l.plain(d),
        x.plain((d - 1) as nat),
    ensures
        l.with(key, x) is Object,
        l.with(key, x).plain(d),
        forall|k: Seq<char>, place: int|
            #[trigger] part(l.with(key, x), k, place) == if k != key {
                part(l, k, place)
            } else if part(l, k, place) is Missing {
                Part::Given(x)
            } else {
                Part::Wrong
            },
{
    let row = l->Object_0;
    let more = row.push((key, x));
    assert(more.drop_last() =~= row);
    assert forall|i: int| 0 <= i < more.len() implies (#[trigger] more[i]).1.plain(
        (d - 1) as nat,
    ) by {
        if i < row.len() {
            assert(more[i] == row[i]);
        }
    }
}

/// A list of texts that is written down reads back as it was.
pub proof fn texts_read_back(list: Seq<Seq<char>>, d: nat)
    requires
        d > 0,
    ensures
        texts_of(Part::Given(text_row(list))) == Some(list),
        text_row(list).plain(d),
{
    reveal_with_fuel(Layout::plain, 2);
    let s = text_row(list)->Array_0;
    assert(texts_in_row(s)->0 =~= list);
}

// ── Laws ───────────────────────────────────────────────────────────────────────

/// The part of an object under a key is the one member that has the key; with no such member
/// it is missing, and with two it is wrong, wherever they stand. The part of a list is the
/// item at its place.
pub proof fn part_is_found(
    s: Seq<(Seq<char>, Layout)>,
    row: Seq<Layout>,
    key: Seq<char>,
    place: int,
    i: int,
    j: int,
)
    ensures
        (forall|k: int| 0 <= k < s.len() ==> (#[trigger] s[k]).0 != key) ==> part(
            Layout::Object(s),
            key,
            place,
        ) == Part::Missing,
        0 <= i < s.len() && s[i].0 == key && (forall|k: int|
            0 <= k < s.len() && k != i ==> (#[trigger] s[k]).0 != key) ==> part(
            Layout::Object(s),
            key,
            place,
        ) == Part::Given(s[i].1),
        0 <= i < j < s.len() && s[i].0 == key && s[j].0 == key ==> part(
            Layout::Object(s),
            key,
            place,
        ) == Part::Wrong,
        0 <= place < row.len() ==> part(Layout::Array(row), key, place) == Part::Given(row[place]),
        place >= row.len() ==> part(Layout::Array(row), key, place) == Part::Missing,
{
    if forall|k: int| 0 <= k < s.len() ==> (#[trigger] s[k]).0 != key {
        row_without(s, key);
    }
    if 0 <= i < s.len() && s[i].0 == key && (forall|k: int|
        0 <= k < s.len() && k != i ==> (#[trigger] s[k]).0 != key) {
        row_with_one(s, key, i);
    }
    if 0 <= i < j < s.len() && s[i].0 == key && s[j].0 == key {
        row_with_two(s, key, i, j);
    }
}

proof fn row_without(s: Seq<(Seq<char>, Layout)>, key: Seq<char>)
    requires
        forall|k: int| 0 <= k < s.len() ==> (#[trigger] s[k]).0 != key,
    ensures
        row_part(s, key) == Part::Missing,
    decreases s.len(),
{
    if s.len() > 0 {
        assert(s[s.len() - 1].0 != key);
        row_without(s.drop_last(), key);
    }
}

proof fn row_with_one(s: Seq<(Seq<char>, Layout)>, key: Seq<char>, i: int)
    requires
        0 <= i < s.len(),
        s[i].0 == key,
        forall|k: int| 0 <= k < s.len() && k != i ==> (#[trigger] s[k]).0 != key,
    ensures
        row_part(s, key) == Part::Given(s[i].1),
    decreases s.len(),
{
    let rest = s.drop_last();
    if i == s.len() - 1 {
        assert forall|k: int| 0 <= k < rest.len() implies (#[trigger] rest[k]).0 != key by {
            assert(rest[k] == s[k]);
        }
        row_without(rest, key);
    } else {
        assert(s[s.len() - 1].0 != key);
        assert forall|k: int| 0 <= k < rest.len() && k != i implies (#[trigger] rest[k]).0
            != key by {
            assert(rest[k] == s[k]);
        }
        row_with_one(rest, key, i);
    }
}

/// Where a key is there, the part is not missing.
proof fn row_with_some(s: Seq<(Seq<char>, Layout)>, key: Seq<char>, i: int)
    requires
        0 <= i < s.len(),
        s[i].0 == key,
    ensures
        !(row_part(s, key) is Missing),
    decreases s.len(),
{
    if i < s.len() - 1 {
        row_with_some(s.drop_last(), key, i);
    }
}

proof fn row_with_two(s: Seq<(Seq<char>, Layout)>, key: Seq<char>, i: int, j: int)
    requires
        0 <= i < j < s.len(),
        s[i].0 == key,
        s[j].0 == key,
    ensures
        row_part(s, key) == Part::Wrong,
    decreases s.len(),
{
    if j == s.len() - 1 {
        row_with_some(s.drop_last(), key, i);
    } else {
        row_with_two(s.drop_last(), key, i, j);
    }
}

/// A part holds a text exactly where a string stands there, and it is that string; it holds a
/// number of things exactly where an integer stands there that the machine can hold; and it
/// holds a list of texts exactly where a list of strings stands there, or nothing at all.
pub proof fn parts_hold_what_stands(p: Part, s: Seq<char>, n: usize, list: Seq<Seq<char>>)
    ensures
        text_of(p) == Some(s) <==> p == Part::Given(Layout::Scalar(JsonView::Str(s))),
        size_of_part(p) == Some(n) <==> p == Part::Given(
            Layout::Scalar(JsonView::Number(NumView::Int(n as int))),
        ),
        opt_text_of(p) == Some(Some(s)) <==> p == Part::Given(Layout::Scalar(JsonView::Str(s))),
        opt_text_of(p) == Some(None::<Seq<char>>) <==> p == Part::Missing || p == Part::Given(
            Layout::Scalar(JsonView::Null),
        ),
        texts_of(p) == Some(list) <==> (p == Part::Missing && list.len() == 0) || (p matches
            Part::Given(Layout::Array(row)) && row.len() == list.len() && forall|i: int|
            0 <= i < row.len() ==> #[trigger] row[i] == Layout::Scalar(JsonView::Str(list[i]))),
{
    if let Part::Given(Layout::Scalar(v)) = p {
        if let Some(m) = v.natural() {
            if m <= usize::MAX {
                assert(v == JsonView::Number(NumView::Int(m as int)));
            }
        }
    }
    if p is Missing && list.len() == 0 {
        assert(list =~= seq![]);
    }
    if let Part::Given(Layout::Array(row)) = p {
        if texts_of(p) == Some(list) {
            assert forall|i: int| 0 <= i < row.len() implies #[trigger] row[i] == Layout::Scalar(
                JsonView::Str(list[i]),
            ) by {
                assert(text_of(Part::Given(row[i])) is Some);
            }
        }
        if row.len() == list.len() && (forall|i: int|
            0 <= i < row.len() ==> #[trigger] row[i] == Layout::Scalar(JsonView::Str(list[i]))) {
            assert(texts_in_row(row)->0 =~= list);
        }
    }
}

/// A part holds a word where the word stands there as a string, or where an object stands there
/// whose one member has the word as its key and null or nothing as its value.
pub proof fn words_stand(p: Part, s: Seq<char>)
    ensures
        word_of(p) == Some(s) <==> p == Part::Given(Layout::Scalar(JsonView::Str(s))) || (
        p matches Part::Given(Layout::Object(row)) && row.len() == 1 && row[0].0 == s && (
        row[0].1 == Layout::Scalar(JsonView::Null) || (row[0].1 matches Layout::Object(none)
            && none.len() == 0))),
{
}

} // verus!
