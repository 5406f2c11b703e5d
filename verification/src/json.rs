//! JSON values. `Json` is the tree that the library computes on; `serde_json` reads it
//! from text and prints it.

use vstd::prelude::*;

use crate::text::{decimal, digit, join, joined, lines, lines_of, one_line, same, texts};

verus! {

// ── What stands outside ────────────────────────────────────────────────────────

/// `serde_json::Value`, carried from its parser and to its printer.
#[verifier::external_type_specification]
#[verifier::external_body]
pub struct ExValue(serde_json::Value);

/// `serde_json::Number`, an integer or a float, carried as it is.
#[verifier::external_type_specification]
#[verifier::external_body]
pub struct ExNumber(serde_json::Number);

// ── The tree and its model ─────────────────────────────────────────────────────

/// A JSON value. The members of an object keep the order in which they were written;
/// where a key stands twice, the later member counts.
#[derive(Debug)]
pub enum Json {
    Null,
    Bool(bool),
    Number(Num),
    Str(String),
    Array(Vec<Json>),
    Object(Vec<Member>),
}

/// A JSON number. A float is carried as `serde_json` holds it.
#[derive(Debug)]
pub enum Num {
    Natural(u64),
    Negative(i64),
    Float(serde_json::Number),
}

/// One key of an object and its value.
#[derive(Debug)]
pub struct Member {
    pub key: String,
    pub value: Json,
}

/// What a JSON value is: the members of an object have no order.
#[verifier::ext_equal]
pub enum JsonView {
    Null,
    Bool(bool),
    Number(NumView),
    Str(Seq<char>),
    Array(Seq<JsonView>),
    Object(Map<Seq<char>, JsonView>),
}

/// What a number is.
pub enum NumView {
    Int(int),
    Float(serde_json::Number),
}

impl View for Num {
    type V = NumView;

    open spec fn view(&self) -> NumView {
        match *self {
            Num::Natural(u) => NumView::Int(u as int),
            Num::Negative(i) => NumView::Int(i as int),
            Num::Float(n) => number_view(n),
        }
    }
}

impl NumView {
    /// The value of an integer from 0 to the largest `u64`.
    pub open spec fn natural(self) -> Option<u64> {
        match self {
            NumView::Int(i) => if 0 <= i <= u64::MAX {
                Some(i as u64)
            } else {
                None
            },
            NumView::Float(_) => None,
        }
    }

    /// The value of an integer within the bounds of `i64`.
    pub open spec fn integer(self) -> Option<i64> {
        match self {
            NumView::Int(i) => if i64::MIN <= i <= i64::MAX {
                Some(i as i64)
            } else {
                None
            },
            NumView::Float(_) => None,
        }
    }
}

/// The values of a list, by their models.
pub open spec fn views(s: Seq<Json>) -> Seq<JsonView>
    decreases s,
{
    Seq::new(
        s.len(),
        |i: int|
            if 0 <= i < s.len() {
                json_view(s[i])
            } else {
                JsonView::Null
            },
    )
}

/// The members of an object as a map; the later member of a key counts.
pub open spec fn members_view(s: Seq<Member>) -> Map<Seq<char>, JsonView>
    decreases s,
{
    if s.len() == 0 {
        Map::empty()
    } else {
        members_view(s.drop_last()).insert(s.last().key@, json_view(s.last().value))
    }
}

/// The model of a value.
pub open spec fn json_view(j: Json) -> JsonView
    decreases j,
{
    match j {
        Json::Null => JsonView::Null,
        Json::Bool(b) => JsonView::Bool(b),
        Json::Number(n) => JsonView::Number(n@),
        Json::Str(s) => JsonView::Str(s@),
        Json::Array(v) => JsonView::Array(views(v@)),
        Json::Object(m) => JsonView::Object(members_view(m@)),
    }
}

impl View for Json {
    type V = JsonView;

    open spec fn view(&self) -> JsonView {
        json_view(*self)
    }
}

impl JsonView {
    /// The value of a key; `Null` where there is none, or where `self` is no object.
    pub open spec fn at(self, key: Seq<char>) -> JsonView {
        match self {
            JsonView::Object(m) => if m.contains_key(key) {
                m[key]
            } else {
                JsonView::Null
            },
            _ => JsonView::Null,
        }
    }

    /// The item at an index; `Null` where there is none, or where `self` is no array.
    pub open spec fn nth(self, i: int) -> JsonView {
        match self {
            JsonView::Array(s) => if 0 <= i < s.len() {
                s[i]
            } else {
                JsonView::Null
            },
            _ => JsonView::Null,
        }
    }

    /// The characters of a string.
    pub open spec fn text(self) -> Option<Seq<char>> {
        match self {
            JsonView::Str(s) => Some(s),
            _ => None,
        }
    }

    /// The items of an array.
    pub open spec fn items(self) -> Option<Seq<JsonView>> {
        match self {
            JsonView::Array(s) => Some(s),
            _ => None,
        }
    }

    /// The value of a number that is an integer from 0 to the largest `u64`.
    pub open spec fn natural(self) -> Option<u64> {
        match self {
            JsonView::Number(n) => n.natural(),
            _ => None,
        }
    }

    /// A natural number.
    pub open spec fn count(u: u64) -> JsonView {
        JsonView::Number(NumView::Int(u as int))
    }

    /// The object without members.
    pub open spec fn object() -> JsonView {
        JsonView::Object(Map::empty())
    }

    /// An object with one member put in, or replaced.
    pub open spec fn with(self, key: Seq<char>, value: JsonView) -> JsonView {
        match self {
            JsonView::Object(m) => JsonView::Object(m.insert(key, value)),
            _ => self,
        }
    }

    /// The array without items.
    pub open spec fn array() -> JsonView {
        JsonView::Array(Seq::empty())
    }

    /// An array with one item more at its end.
    pub open spec fn item(self, value: JsonView) -> JsonView {
        match self {
            JsonView::Array(s) => JsonView::Array(s.push(value)),
            _ => self,
        }
    }

    /// Arrays and objects nest at most `d` deep, and no number is a float.
    pub open spec fn plain(self, d: nat) -> bool
        decreases d,
    {
        match self {
            JsonView::Number(n) => n matches NumView::Int(i) && i64::MIN <= i <= u64::MAX,
            JsonView::Array(s) => {
                &&& d > 0
                &&& forall|i: int| 0 <= i < s.len() ==> (#[trigger] s[i]).plain((d - 1) as nat)
            },
            JsonView::Object(m) => {
                &&& d > 0
                &&& m.dom().finite()
                &&& forall|k: Seq<char>|
                    m.contains_key(k) ==> (#[trigger] m[k]).plain((d - 1) as nat)
            },
            _ => true,
        }
    }
}

// ── Trusted: numbers ───────────────────────────────────────────────────────────

/// What a `serde_json::Number` holds.
pub uninterp spec fn number_view(n: serde_json::Number) -> NumView;

/// Calls `serde_json::Number::as_u64`, which gives the value of an integer that fits in
/// `u64`, and nothing for any other integer and for a float.
#[verifier::external_body]
fn number_as_u64(n: &serde_json::Number) -> (r: Option<u64>)
    ensures
        r == number_view(*n).natural(),
{
    n.as_u64()
}

/// Calls `serde_json::Number::as_i64`, which gives the value of an integer that fits in
/// `i64`, and nothing for any other integer and for a float.
#[verifier::external_body]
fn number_as_i64(n: &serde_json::Number) -> (r: Option<i64>)
    ensures
        r == number_view(*n).integer(),
{
    n.as_i64()
}

/// Calls `serde_json::Number::from` on a `u64`, which makes that integer.
#[verifier::external_body]
fn number_from_u64(u: u64) -> (n: serde_json::Number)
    ensures
        number_view(n) == NumView::Int(u as int),
{
    serde_json::Number::from(u)
}

/// Calls `serde_json::Number::from` on an `i64`, which makes that integer.
#[verifier::external_body]
fn number_from_i64(i: i64) -> (n: serde_json::Number)
    ensures
        number_view(n) == NumView::Int(i as int),
{
    serde_json::Number::from(i)
}

/// Calls `serde_json::Number`'s `clone`, which gives an equal number.
#[verifier::external_body]
fn number_clone(n: &serde_json::Number) -> (r: serde_json::Number)
    ensures
        r == *n,
{
    n.clone()
}

// ── Trusted: the parser's and printer's values ─────────────────────────────────

/// A `serde_json::Value` with its outermost layer laid open.
pub enum Node {
    Null,
    Bool(bool),
    Number(serde_json::Number),
    Str(String),
    Array(Vec<serde_json::Value>),
    Object(Vec<(String, serde_json::Value)>),
}

/// What a `serde_json::Value` holds.
pub uninterp spec fn value_view(v: serde_json::Value) -> JsonView;

/// The pairs of an object as a map; the later pair of a key counts.
pub open spec fn pairs_view(s: Seq<(String, serde_json::Value)>) -> Map<Seq<char>, JsonView>
    decreases s.len(),
{
    if s.len() == 0 {
        Map::empty()
    } else {
        pairs_view(s.drop_last()).insert(s.last().0@, value_view(s.last().1))
    }
}

/// No two pairs have the same key.
pub open spec fn keys_differ(s: Seq<(String, serde_json::Value)>) -> bool {
    forall|i: int, j: int| 0 <= i < j < s.len() ==> s[i].0@ != s[j].0@
}

/// What a laid-open value holds.
pub open spec fn node_view(n: Node) -> JsonView {
    match n {
        Node::Null => JsonView::Null,
        Node::Bool(b) => JsonView::Bool(b),
        Node::Number(n) => JsonView::Number(number_view(n)),
        Node::Str(s) => JsonView::Str(s@),
        Node::Array(v) => JsonView::Array(v@.map_values(|x: serde_json::Value| value_view(x))),
        Node::Object(v) => JsonView::Object(pairs_view(v@)),
    }
}

/// Takes the variants of `serde_json::Value` apart and moves out what each holds. The
/// map of an object gives each of its keys once.
#[verifier::external_body]
fn take_apart(v: serde_json::Value) -> (r: Node)
    ensures
        value_view(v) == node_view(r),
        r matches Node::Object(p) ==> keys_differ(p@),
{
    match v {
        serde_json::Value::Null => Node::Null,
        serde_json::Value::Bool(b) => Node::Bool(b),
        serde_json::Value::Number(n) => Node::Number(n),
        serde_json::Value::String(s) => Node::Str(s),
        serde_json::Value::Array(a) => Node::Array(a),
        serde_json::Value::Object(m) => Node::Object(m.into_iter().collect()),
    }
}

/// Builds a `serde_json::Value` from what its outermost layer holds. The map of an
/// object is collected from its pairs, no two of which have the same key.
#[verifier::external_body]
fn put_together(n: Node) -> (r: serde_json::Value)
    requires
        n matches Node::Object(p) ==> keys_differ(p@),
    ensures
        value_view(r) == node_view(n),
{
    match n {
        Node::Null => serde_json::Value::Null,
        Node::Bool(b) => serde_json::Value::Bool(b),
        Node::Number(n) => serde_json::Value::Number(n),
        Node::Str(s) => serde_json::Value::String(s),
        Node::Array(a) => serde_json::Value::Array(a),
        Node::Object(p) => serde_json::Value::Object(p.into_iter().collect()),
    }
}

// ── Conversion ─────────────────────────────────────────────────────────────────

proof fn pairs_finite(s: Seq<(String, serde_json::Value)>)
    ensures
        pairs_view(s).dom().finite(),
    decreases s.len(),
{
    if s.len() > 0 {
        pairs_finite(s.drop_last());
    }
}

proof fn pairs_lookup(s: Seq<(String, serde_json::Value)>, i: int)
    requires
        0 <= i < s.len(),
        keys_differ(s),
    ensures
        pairs_view(s).contains_key(s[i].0@),
        pairs_view(s)[s[i].0@] == value_view(s[i].1),
    decreases s.len(),
{
    if i < s.len() - 1 {
        pairs_lookup(s.drop_last(), i);
    }
}

/// A key that one of the pairs has is among the keys of their map.
proof fn pairs_have(s: Seq<(String, serde_json::Value)>, i: int)
    requires
        0 <= i < s.len(),
    ensures
        pairs_view(s).contains_key(s[i].0@),
    decreases s.len(),
{
    if i < s.len() - 1 {
        pairs_have(s.drop_last(), i);
    }
}

/// A key that none of the pairs has is not.
proof fn pairs_lack(s: Seq<(String, serde_json::Value)>, key: Seq<char>)
    requires
        forall|i: int| 0 <= i < s.len() ==> (#[trigger] s[i]).0@ != key,
    ensures
        !pairs_view(s).contains_key(key),
    decreases s.len(),
{
    if s.len() > 0 {
        assert(s[s.len() - 1].0@ != key);
        assert forall|i: int| 0 <= i < s.drop_last().len() implies (#[trigger] s.drop_last()[i]).0@
            != key by {
            assert(s[i].0@ != key);
        }
        pairs_lack(s.drop_last(), key);
    }
}

fn has_pair(pairs: &Vec<(String, serde_json::Value)>, key: &str) -> (r: bool)
    ensures
        r == pairs_view(pairs@).contains_key(key@),
        !r ==> forall|i: int| 0 <= i < pairs@.len() ==> (#[trigger] pairs@[i]).0@ != key@,
{
    let mut i: usize = 0;
    while i < pairs.len()
        invariant
            i <= pairs@.len(),
            forall|k: int| 0 <= k < i ==> (#[trigger] pairs@[k]).0@ != key@,
        decreases pairs@.len() - i,
    {
        if same(pairs[i].0.as_str(), key) {
            proof {
                pairs_have(pairs@, i as int);
            }
            return true;
        }
        i += 1;
    }
    proof {
        pairs_lack(pairs@, key@);
    }
    false
}

impl Num {
    /// The number that a `serde_json::Number` holds.
    pub fn from_number(n: serde_json::Number) -> (r: Num)
        ensures
            r@ == number_view(n),
    {
        match number_as_u64(&n) {
            Some(u) => Num::Natural(u),
            None => match number_as_i64(&n) {
                Some(i) => Num::Negative(i),
                None => Num::Float(n),
            },
        }
    }

    /// The `serde_json::Number` that holds this number.
    pub fn to_number(&self) -> (r: serde_json::Number)
        ensures
            number_view(r) == self@,
    {
        match self {
            Num::Natural(u) => number_from_u64(*u),
            Num::Negative(i) => number_from_i64(*i),
            Num::Float(n) => number_clone(n),
        }
    }

    /// The value, where this is an integer from 0 to the largest `u64`.
    pub fn natural(&self) -> (r: Option<u64>)
        ensures
            r == self@.natural(),
    {
        number_as_u64(&self.to_number())
    }
}

impl Clone for Num {
    fn clone(&self) -> (r: Num)
        ensures
            r@ == self@,
    {
        match self {
            Num::Natural(u) => Num::Natural(*u),
            Num::Negative(i) => Num::Negative(*i),
            Num::Float(n) => Num::Float(number_clone(n)),
        }
    }
}

impl Json {
    /// The tree that a `serde_json::Value` holds.
    pub fn from_value(v: serde_json::Value) -> (r: Json)
        ensures
            r@ == value_view(v),
        decreases value_view(v),
    {
        match take_apart(v) {
            Node::Null => Json::Null,
            Node::Bool(b) => Json::Bool(b),
            Node::Number(n) => Json::Number(Num::from_number(n)),
            Node::Str(s) => Json::Str(s),
            Node::Array(a) => {
                let ghost all = a@;
                let mut out: Vec<Json> = Vec::new();
                for x in it: a
                    invariant
                        it.seq() == all,
                        value_view(v) == JsonView::Array(
                            all.map_values(|x: serde_json::Value| value_view(x)),
                        ),
                        out@.len() == it.index(),
                        forall|k: int| 0 <= k < out@.len() ==> (#[trigger] out@[k])@ == value_view(all[k]),
                {
                    proof {
                        let m = all.map_values(|x: serde_json::Value| value_view(x));
                        assert(m[it.index()] == value_view(x));
                        assert(decreases_to!(value_view(v) => value_view(v)->Array_0));
                    }
                    out.push(Json::from_value(x));
                }
                assert(views(out@) =~= all.map_values(|x: serde_json::Value| value_view(x)));
                Json::Array(out)
            },
            Node::Object(p) => {
                let ghost all = p@;
                let mut out: Vec<Member> = Vec::new();
                proof {
                    pairs_finite(all);
                    assert(members_view(out@) =~= pairs_view(all.take(0)));
                }
                for x in it: p
                    invariant
                        it.seq() == all,
                        value_view(v) == JsonView::Object(pairs_view(all)),
                        pairs_view(all).dom().finite(),
                        keys_differ(all),
                        members_view(out@) == pairs_view(all.take(it.index())),
                {
                    proof {
                        pairs_lookup(all, it.index());
                        let m = pairs_view(all);
                        assert(decreases_to!(value_view(v) => value_view(v)->Object_0));
                        assert(decreases_to!(m => m[x.0@]));
                        assert(all.take(it.index() + 1).drop_last() =~= all.take(it.index()));
                    }
                    let ghost before = out@;
                    out.push(Member { key: x.0, value: Json::from_value(x.1) });
                    assert(out@.drop_last() =~= before);
                }
                assert(all.take(all.len() as int) =~= all);
                Json::Object(out)
            },
        }
    }
}

impl Json {
    /// The `serde_json::Value` that holds this tree.
    pub fn to_value(&self) -> (r: serde_json::Value)
        ensures
            value_view(r) == self@,
        decreases self,
    {
        match self {
            Json::Null => put_together(Node::Null),
            Json::Bool(b) => put_together(Node::Bool(*b)),
            Json::Number(n) => put_together(Node::Number(n.to_number())),
            Json::Str(s) => put_together(Node::Str(s.clone())),
            Json::Array(a) => {
                let mut out: Vec<serde_json::Value> = Vec::new();
                let mut i: usize = 0;
                while i < a.len()
                    invariant
                        *self == Json::Array(*a),
                        i <= a@.len(),
                        out@.len() == i,
                        forall|k: int| 0 <= k < i ==> value_view(#[trigger] out@[k]) == a@[k]@,
                    decreases a@.len() - i,
                {
                    assert(decreases_to!(*self => (*self)->Array_0));
                    assert(decreases_to!(a => a@[i as int]));
                    out.push(a[i].to_value());
                    i += 1;
                }
                assert(out@.map_values(|x: serde_json::Value| value_view(x)) =~= views(a@));
                put_together(Node::Array(out))
            },
            Json::Object(m) => {
                // From the last member on, so that the first of a key is the one that counts.
                let mut out: Vec<(String, serde_json::Value)> = Vec::new();
                let mut n: usize = m.len();
                assert(m@.take(n as int) =~= m@);
                assert(members_view(m@) =~= members_view(m@).union_prefer_right(pairs_view(out@)));
                while n > 0
                    invariant
                        *self == Json::Object(*m),
                        n <= m@.len(),
                        keys_differ(out@),
                        members_view(m@) == members_view(m@.take(n as int)).union_prefer_right(
                            pairs_view(out@),
                        ),
                    decreases n,
                {
                    let ghost before = out@;
                    assert(decreases_to!(*self => (*self)->Object_0));
                    assert(decreases_to!(m => m@[n - 1]));
                    assert(decreases_to!(m@[n - 1] => m@[n - 1].value));
                    assert(m@.take(n as int).drop_last() =~= m@.take(n - 1));
                    if !has_pair(&out, m[n - 1].key.as_str()) {
                        out.push((m[n - 1].key.clone(), m[n - 1].value.to_value()));
                        assert(out@.drop_last() =~= before);
                    }
                    assert(members_view(m@) =~= members_view(
                        m@.take(n - 1),
                    ).union_prefer_right(pairs_view(out@)));
                    n -= 1;
                }
                assert(m@.take(0) =~= seq![]);
                assert(members_view(m@) =~= pairs_view(out@));
                put_together(Node::Object(out))
            },
        }
    }
}

// ── Text ───────────────────────────────────────────────────────────────────────

/// The sixteen hexadecimal digits, in order of their value.
pub open spec fn hex_digit(d: int) -> char {
    if d < 10 {
        digit(d)
    } else {
        (0x57 + d) as char
    }
}

/// A character, as it is written in a string.
pub open spec fn escaped(c: char) -> Seq<char> {
    let n = c as int;
    if c == '"' || c == '\\' {
        seq!['\\', c]
    } else if n == 8 {
        seq!['\\', 'b']
    } else if n == 9 {
        seq!['\\', 't']
    } else if n == 10 {
        seq!['\\', 'n']
    } else if n == 12 {
        seq!['\\', 'f']
    } else if n == 13 {
        seq!['\\', 'r']
    } else if n < 0x20 {
        seq!['\\', 'u', '0', '0', hex_digit(n / 16), hex_digit(n % 16)]
    } else {
        seq![c]
    }
}

/// The characters of a text, as they are written in a string.
pub open spec fn escapes(s: Seq<char>) -> Seq<char>
    decreases s.len(),
{
    if s.len() == 0 {
        seq![]
    } else {
        escaped(s[0]) + escapes(s.skip(1))
    }
}

/// A character that is written in a string as it is.
pub open spec fn unescaped(c: char) -> bool {
    c != '"' && c != '\\' && c as int >= 0x20
}

/// A text of such characters is written as it is.
pub proof fn escapes_nothing(s: Seq<char>)
    requires
        forall|i: int| 0 <= i < s.len() ==> unescaped(#[trigger] s[i]),
    ensures
        escapes(s) == s,
    decreases s.len(),
{
    if s.len() > 0 {
        assert(unescaped(s[0]));
        assert forall|i: int| 0 <= i < s.skip(1).len() implies unescaped(#[trigger] s.skip(1)[i]) by {
            assert(unescaped(s[i + 1]));
        }
        escapes_nothing(s.skip(1));
    }
    assert(escapes(s) =~= s);
}

/// A text as a JSON string.
pub open spec fn quoted(s: Seq<char>) -> Seq<char> {
    seq!['"'] + (escapes(s) + seq!['"'])
}

/// An integer in decimal.
pub open spec fn signed(i: int) -> Seq<char> {
    if i < 0 {
        seq!['-'] + decimal((-i) as nat)
    } else {
        decimal(i as nat)
    }
}

/// The text of a value that is no array and no object. That of a float is the printer's.
pub open spec fn scalar_text(v: JsonView) -> Seq<char> {
    match v {
        JsonView::Null => "null"@,
        JsonView::Bool(b) => if b {
            "true"@
        } else {
            "false"@
        },
        JsonView::Number(NumView::Int(i)) => signed(i),
        JsonView::Str(s) => quoted(s),
        _ => printed(v),
    }
}

/// The order in which a value is written down: as the value itself, but for objects,
/// whose members stand in a row.
pub enum Layout {
    Scalar(JsonView),
    Array(Seq<Layout>),
    Object(Seq<(Seq<char>, Layout)>),
}

/// The members of a row as a map; the later member of a key counts.
pub open spec fn row_view(s: Seq<(Seq<char>, Layout)>) -> Map<Seq<char>, JsonView>
    decreases s,
{
    if s.len() == 0 {
        Map::empty()
    } else {
        row_view(s.drop_last()).insert(s.last().0, s.last().1.value())
    }
}

/// The compact text of each item of a list.
pub open spec fn layout_texts(s: Seq<Layout>) -> Seq<Seq<char>>
    decreases s,
{
    Seq::new(
        s.len(),
        |i: int|
            if 0 <= i < s.len() {
                s[i].text()
            } else {
                seq![]
            },
    )
}

/// The compact text of each member of a row.
pub open spec fn row_texts(s: Seq<(Seq<char>, Layout)>) -> Seq<Seq<char>>
    decreases s,
{
    Seq::new(
        s.len(),
        |i: int|
            if 0 <= i < s.len() {
                quoted(s[i].0) + (":"@ + s[i].1.text())
            } else {
                seq![]
            },
    )
}

impl Layout {
    /// The value that is written down.
    pub open spec fn value(self) -> JsonView
        decreases self,
    {
        match self {
            Layout::Scalar(v) => v,
            Layout::Array(s) => JsonView::Array(
                Seq::new(
                    s.len(),
                    |i: int|
                        if 0 <= i < s.len() {
                            s[i].value()
                        } else {
                            JsonView::Null
                        },
                ),
            ),
            Layout::Object(s) => JsonView::Object(row_view(s)),
        }
    }

    /// The compact text: no white space, members in their order.
    pub open spec fn text(self) -> Seq<char>
        decreases self,
    {
        match self {
            Layout::Scalar(v) => scalar_text(v),
            Layout::Array(s) => "["@ + joined(layout_texts(s), ","@) + "]"@,
            Layout::Object(s) => "{"@ + joined(row_texts(s), ","@) + "}"@,
        }
    }

    /// Arrays and objects nest at most `d` deep, and no number is a float, in any of the
    /// members that are written down.
    pub open spec fn plain(self, d: nat) -> bool
        decreases d,
    {
        match self {
            Layout::Scalar(v) => v.plain(d) && !(v is Array) && !(v is Object),
            Layout::Array(s) => {
                &&& d > 0
                &&& forall|i: int| 0 <= i < s.len() ==> (#[trigger] s[i]).plain((d - 1) as nat)
            },
            Layout::Object(s) => {
                &&& d > 0
                &&& forall|i: int| 0 <= i < s.len() ==> (#[trigger] s[i]).1.plain((d - 1) as nat)
            },
        }
    }

    /// The row without members.
    pub open spec fn object() -> Layout {
        Layout::Object(seq![])
    }

    /// A row with one member more at its end.
    pub open spec fn with(self, key: Seq<char>, value: Layout) -> Layout {
        match self {
            Layout::Object(s) => Layout::Object(s.push((key, value))),
            _ => self,
        }
    }

    /// A natural number, written down.
    pub open spec fn count(u: u64) -> Layout {
        Layout::Scalar(JsonView::count(u))
    }

    /// A string, written down.
    pub open spec fn string(s: Seq<char>) -> Layout {
        Layout::Scalar(JsonView::Str(s))
    }
}

/// The order in which a tree is written down.
pub open spec fn layout_of(j: Json) -> Layout
    decreases j,
{
    match j {
        Json::Array(v) => Layout::Array(layouts(v@)),
        Json::Object(m) => Layout::Object(rows(m@)),
        _ => Layout::Scalar(json_view(j)),
    }
}

/// The order in which each tree of a list is written down.
pub open spec fn layouts(s: Seq<Json>) -> Seq<Layout>
    decreases s,
{
    Seq::new(
        s.len(),
        |i: int|
            if 0 <= i < s.len() {
                layout_of(s[i])
            } else {
                Layout::Scalar(JsonView::Null)
            },
    )
}

/// The row of an object's members.
pub open spec fn rows(s: Seq<Member>) -> Seq<(Seq<char>, Layout)>
    decreases s,
{
    Seq::new(
        s.len(),
        |i: int|
            if 0 <= i < s.len() {
                (s[i].key@, layout_of(s[i].value))
            } else {
                (seq![], Layout::Scalar(JsonView::Null))
            },
    )
}

/// The value that a JSON text holds; `None` where the text is no JSON.
pub uninterp spec fn parsed(s: Seq<char>) -> Option<JsonView>;

/// The text in which a value is printed: compact, keys in ascending order.
pub uninterp spec fn printed(v: JsonView) -> Seq<char>;

/// Calls `serde_json::from_str` for a `serde_json::Value`, whose result depends on the
/// text alone. Claims besides that a value reads back from the text in which it is
/// printed, and from its compact text with the members of its objects in any order: for
/// values without floats, which the parser may round, and which nest at most 127 deep, the
/// most that it takes.
#[verifier::external_body]
fn parse_text(s: &str) -> (r: Option<serde_json::Value>)
    ensures
        r is Some <==> parsed(s@) is Some,
        r matches Some(x) ==> parsed(s@) == Some(value_view(x)),
        forall|v: JsonView|
            s@ == #[trigger] printed(v) && v.plain(127) ==> r is Some && value_view(r->0) == v,
        forall|l: Layout|
            s@ == #[trigger] l.text() && l.plain(127) ==> r is Some && value_view(r->0) == l.value(),
{
    serde_json::from_str::<serde_json::Value>(s).ok()
}

/// Calls the `Display` of `serde_json::Value`, the compact printer, whose result depends
/// on the value alone. Claims besides how it writes null, booleans, integers and strings, and
/// that the text has no line feed and no carriage return, since the printer escapes control
/// characters and puts none between tokens.
#[verifier::external_body]
fn print_text(v: &serde_json::Value) -> (r: String)
    ensures
        r@ == printed(value_view(*v)),
        r@ == scalar_text(value_view(*v)),
        one_line(r@),
{
    v.to_string()
}

/// What a parse gave, by its model.
pub open spec fn shown(r: Option<Json>) -> Option<JsonView> {
    match r {
        Some(j) => Some(j@),
        None => None,
    }
}

proof fn rows_value(s: Seq<Member>)
    ensures
        row_view(rows(s)) == members_view(s),
    decreases s,
{
    if s.len() > 0 {
        assert(decreases_to!(s => s.drop_last()));
        assert(decreases_to!(s => s[s.len() - 1]));
        assert(decreases_to!(s.last() => s.last().value));
        rows_value(s.drop_last());
        layout_value(s.last().value);
        assert(rows(s).drop_last() =~= rows(s.drop_last()));
    } else {
        assert(row_view(rows(s)) =~= members_view(s));
    }
}

/// Writing a tree down in order keeps its value.
pub proof fn layout_value(j: Json)
    ensures
        layout_of(j).value() == j@,
    decreases j,
{
    match j {
        Json::Array(v) => {
            assert(decreases_to!(j => j->Array_0));
            assert forall|i: int| 0 <= i < v@.len() implies layout_of(#[trigger] v@[i]).value()
                == v@[i]@ by {
                assert(decreases_to!(v => v@[i]));
                layout_value(v@[i]);
            }
            assert(layout_of(j).value()->Array_0 =~= views(v@));
        },
        Json::Object(m) => {
            assert(decreases_to!(j => j->Object_0));
            assert(decreases_to!(m => m@));
            rows_value(m@);
        },
        _ => {},
    }
}

proof fn joined_one_line(parts: Seq<Seq<char>>, sep: Seq<char>)
    requires
        forall|i: int| 0 <= i < parts.len() ==> one_line(#[trigger] parts[i]),
        one_line(sep),
    ensures
        one_line(joined(parts, sep)),
    decreases parts.len(),
{
    if parts.len() > 1 {
        joined_one_line(parts.drop_last(), sep);
    }
}

impl Json {
    /// Reads a value from JSON text; `None` where the text is none.
    ///
    /// What is printed reads back: a value without floats that nests at most 127 deep is
    /// given back from the text in which it is printed, and from its compact text.
    pub fn parse(s: &str) -> (r: Option<Json>)
        ensures
            shown(r) == parsed(s@),
            forall|v: JsonView| s@ == #[trigger] printed(v) && v.plain(127) ==> shown(r) == Some(v),
            forall|l: Layout|
                s@ == #[trigger] l.text() && l.plain(127) ==> shown(r) == Some(l.value()),
    {
        match parse_text(s) {
            Some(v) => Some(Json::from_value(v)),
            None => None,
        }
    }

    /// Prints the value: compact, keys in ascending order.
    pub fn print(&self) -> (r: String)
        ensures
            r@ == printed(self@),
            r@ == scalar_text(self@),
            one_line(r@),
    {
        print_text(&self.to_value())
    }

    /// Writes the value down: compact, members in their order.
    pub fn compact(&self) -> (r: String)
        ensures
            r@ == layout_of(*self).text(),
            one_line(r@),
        decreases self,
    {
        proof {
            reveal_strlit("[");
            reveal_strlit("]");
            reveal_strlit("{");
            reveal_strlit("}");
            reveal_strlit(",");
            reveal_strlit(":");
        }
        match self {
            Json::Array(a) => {
                let mut parts: Vec<String> = Vec::new();
                let mut i: usize = 0;
                while i < a.len()
                    invariant
                        *self == Json::Array(*a),
                        i <= a@.len(),
                        parts@.len() == i,
                        forall|k: int|
                            0 <= k < i ==> (#[trigger] parts@[k])@ == layout_of(a@[k]).text()
                                && one_line(parts@[k]@),
                    decreases a@.len() - i,
                {
                    assert(decreases_to!(*self => (*self)->Array_0));
                    assert(decreases_to!(a => a@[i as int]));
                    parts.push(a[i].compact());
                    i += 1;
                }
                proof {
                    assert(texts(parts@) =~= layout_texts(layouts(a@)));
                    joined_one_line(texts(parts@), ","@);
                }
                "[".to_owned().concat(join(&parts, ",").as_str()).concat("]")
            },
            Json::Object(m) => {
                let mut parts: Vec<String> = Vec::new();
                let mut i: usize = 0;
                while i < m.len()
                    invariant
                        *self == Json::Object(*m),
                        i <= m@.len(),
                        parts@.len() == i,
                        one_line(":"@),
                        forall|k: int|
                            0 <= k < i ==> (#[trigger] parts@[k])@ == quoted(m@[k].key@) + (":"@
                                + layout_of(m@[k].value).text()) && one_line(parts@[k]@),
                    decreases m@.len() - i,
                {
                    assert(decreases_to!(*self => (*self)->Object_0));
                    assert(decreases_to!(m => m@[i as int]));
                    assert(decreases_to!(m@[i as int] => m@[i as int].value));
                    let key = Json::Str(m[i].key.clone());
                    let value = m[i].value.compact();
                    let part = key.print().concat(":".to_owned().concat(value.as_str()).as_str());
                    parts.push(part);
                    i += 1;
                }
                proof {
                    assert(texts(parts@) =~= row_texts(rows(m@)));
                    joined_one_line(texts(parts@), ","@);
                }
                "{".to_owned().concat(join(&parts, ",").as_str()).concat("}")
            },
            _ => self.print(),
        }
    }
}

/// The values of those lines that hold JSON, in order.
pub open spec fn line_values(ls: Seq<Seq<char>>) -> Seq<JsonView>
    decreases ls.len(),
{
    if ls.len() == 0 {
        seq![]
    } else {
        let before = line_values(ls.drop_last());
        match parsed(ls.last()) {
            Some(v) => before.push(v),
            None => before,
        }
    }
}

/// Each line that holds the printed text of a value reads as that value.
pub open spec fn lines_read_back(ls: Seq<Seq<char>>) -> bool {
    forall|i: int, v: JsonView|
        0 <= i < ls.len() && #[trigger] ls[i] == #[trigger] printed(v) && v.plain(127) ==> parsed(
            ls[i],
        ) == Some(v)
}

/// Reads a text with one JSON value per line; lines that hold none are skipped.
pub fn read_lines(s: &str) -> (r: Vec<Json>)
    ensures
        views(r@) == line_values(lines(s@)),
        lines_read_back(lines(s@)),
{
    let ls = lines_of(s);
    let ghost all = texts(ls@);
    let mut out: Vec<Json> = Vec::new();
    let mut i: usize = 0;
    assert(views(out@) =~= line_values(all.take(0)));
    while i < ls.len()
        invariant
            all == texts(ls@),
            i <= ls@.len(),
            views(out@) == line_values(all.take(i as int)),
            lines_read_back(all.take(i as int)),
        decreases ls@.len() - i,
    {
        let ghost before = out@;
        assert(all.take(i + 1).drop_last() =~= all.take(i as int));
        assert(all.take(i + 1).last() == ls@[i as int]@);
        assert forall|k: int| 0 <= k < i implies #[trigger] all.take(i + 1)[k] == all.take(
            i as int,
        )[k] by {}
        if let Some(v) = Json::parse(ls[i].as_str()) {
            out.push(v);
            assert(views(out@) =~= views(before).push(v@));
        }
        i += 1;
    }
    assert(all.take(all.len() as int) =~= all);
    out
}

// ── Building ───────────────────────────────────────────────────────────────────

impl Json {
    /// A string.
    pub fn text(s: &str) -> (r: Json)
        ensures
            r@ == JsonView::Str(s@),
            layout_of(r) == Layout::string(s@),
    {
        Json::Str(s.to_owned())
    }

    /// A number that is a natural number.
    pub fn count(n: u64) -> (r: Json)
        ensures
            r@ == JsonView::count(n),
            layout_of(r) == Layout::count(n),
    {
        Json::Number(Num::Natural(n))
    }

    /// The object without members.
    pub fn object() -> (r: Json)
        ensures
            r is Object,
            r@ == JsonView::object(),
            layout_of(r) == Layout::object(),
    {
        let r = Json::Object(Vec::new());
        assert(layout_of(r)->Object_0 =~= seq![]);
        r
    }

    /// This object with one member more at its end.
    pub fn with(self, key: &str, value: Json) -> (r: Json)
        requires
            self is Object,
        ensures
            r is Object,
            r@ == self@.with(key@, value@),
            layout_of(r) == layout_of(self).with(key@, layout_of(value)),
    {
        match self {
            Json::Object(m) => {
                let ghost before = m@;
                let mut m = m;
                m.push(Member { key: key.to_owned(), value });
                assert(m@.drop_last() =~= before);
                assert(rows(m@) =~= rows(before).push((key@, layout_of(value))));
                Json::Object(m)
            },
            _ => self,
        }
    }

    /// The array without items.
    pub fn array() -> (r: Json)
        ensures
            r is Array,
            r@ == JsonView::array(),
    {
        let r = Json::Array(Vec::new());
        assert(r@->Array_0 =~= seq![]);
        r
    }

    /// This array with one item more at its end.
    pub fn item(self, value: Json) -> (r: Json)
        requires
            self is Array,
        ensures
            r is Array,
            r@ == self@.item(value@),
    {
        match self {
            Json::Array(a) => {
                let ghost before = a@;
                let mut a = a;
                a.push(value);
                assert(views(a@) =~= views(before).push(value@));
                Json::Array(a)
            },
            _ => self,
        }
    }

    /// The array of the strings of a list.
    pub fn texts(list: &Vec<String>) -> (r: Json)
        ensures
            r@ == text_list(texts(list@)),
            layout_of(r) == text_row(texts(list@)),
    {
        let mut out: Vec<Json> = Vec::new();
        let mut i: usize = 0;
        while i < list.len()
            invariant
                i <= list@.len(),
                out@.len() == i,
                forall|k: int|
                    0 <= k < i ==> (#[trigger] out@[k])@ == JsonView::Str(list@[k]@) && layout_of(
                        out@[k],
                    ) == Layout::string(list@[k]@),
            decreases list@.len() - i,
        {
            out.push(Json::text(list[i].as_str()));
            i += 1;
        }
        assert(views(out@) =~= text_list(texts(list@))->Array_0);
        assert(layouts(out@) =~= text_row(texts(list@))->Array_0);
        Json::Array(out)
    }
}

/// The array of the strings of a list.
pub open spec fn text_list(list: Seq<Seq<char>>) -> JsonView {
    JsonView::Array(list.map_values(|s: Seq<char>| JsonView::Str(s)))
}

/// The array of the strings of a list, written down.
pub open spec fn text_row(list: Seq<Seq<char>>) -> Layout {
    Layout::Array(list.map_values(|s: Seq<char>| Layout::string(s)))
}

/// The texts of a list, where there is one, by their characters.
pub open spec fn shown_texts(r: Option<Vec<String>>) -> Option<Seq<Seq<char>>> {
    match r {
        Some(v) => Some(texts(v@)),
        None => None,
    }
}

// ── Copying ────────────────────────────────────────────────────────────────────

impl Clone for Json {
    fn clone(&self) -> (r: Json)
        ensures
            r@ == self@,
        decreases self,
    {
        match self {
            Json::Null => Json::Null,
            Json::Bool(b) => Json::Bool(*b),
            Json::Number(n) => Json::Number(n.clone()),
            Json::Str(s) => Json::Str(s.clone()),
            Json::Array(a) => {
                let mut out: Vec<Json> = Vec::new();
                let mut i: usize = 0;
                while i < a.len()
                    invariant
                        *self == Json::Array(*a),
                        i <= a@.len(),
                        out@.len() == i,
                        forall|k: int| 0 <= k < i ==> (#[trigger] out@[k])@ == a@[k]@,
                    decreases a@.len() - i,
                {
                    assert(decreases_to!(*self => (*self)->Array_0));
                    assert(decreases_to!(a => a@[i as int]));
                    out.push(a[i].clone());
                    i += 1;
                }
                assert(views(out@) =~= views(a@));
                Json::Array(out)
            },
            Json::Object(m) => {
                let mut out: Vec<Member> = Vec::new();
                let mut i: usize = 0;
                assert(members_view(out@) =~= members_view(m@.take(0)));
                while i < m.len()
                    invariant
                        *self == Json::Object(*m),
                        i <= m@.len(),
                        members_view(out@) == members_view(m@.take(i as int)),
                    decreases m@.len() - i,
                {
                    assert(decreases_to!(*self => (*self)->Object_0));
                    assert(decreases_to!(m => m@[i as int]));
                    assert(decreases_to!(m@[i as int] => m@[i as int].value));
                    let ghost before = out@;
                    out.push(Member { key: m[i].key.clone(), value: m[i].value.clone() });
                    assert(out@.drop_last() =~= before);
                    assert(m@.take(i + 1).drop_last() =~= m@.take(i as int));
                    i += 1;
                }
                assert(m@.take(m@.len() as int) =~= m@);
                Json::Object(out)
            },
        }
    }
}

// ── Reading ────────────────────────────────────────────────────────────────────

/// Members behind position `n` do not decide on a key that none of them has.
proof fn members_lookup(s: Seq<Member>, n: int, key: Seq<char>)
    requires
        0 <= n <= s.len(),
        forall|i: int| n <= i < s.len() ==> (#[trigger] s[i]).key@ != key,
    ensures
        members_view(s).contains_key(key) == members_view(s.take(n)).contains_key(key),
        members_view(s).contains_key(key) ==> members_view(s)[key] == members_view(s.take(n))[key],
    decreases s.len(),
{
    if n < s.len() {
        assert(s.drop_last().take(n) =~= s.take(n));
        assert forall|i: int| n <= i < s.drop_last().len() implies (#[trigger] s.drop_last()[i]).key@
            != key by {
            assert(s[i].key@ != key);
        }
        members_lookup(s.drop_last(), n, key);
    } else {
        assert(s.take(n) =~= s);
    }
}

/// The position of the member that decides on a key.
fn position(m: &Vec<Member>, key: &str) -> (r: Option<usize>)
    ensures
        match r {
            Some(i) => {
                &&& i < m@.len()
                &&& m@[i as int].key@ == key@
                &&& forall|k: int| i < k < m@.len() ==> (#[trigger] m@[k]).key@ != key@
                &&& members_view(m@).contains_key(key@)
                &&& members_view(m@)[key@] == m@[i as int].value@
            },
            None => {
                &&& forall|k: int| 0 <= k < m@.len() ==> (#[trigger] m@[k]).key@ != key@
                &&& !members_view(m@).contains_key(key@)
            },
        },
{
    let mut n: usize = m.len();
    while n > 0
        invariant
            n <= m@.len(),
            forall|k: int| n <= k < m@.len() ==> (#[trigger] m@[k]).key@ != key@,
        decreases n,
    {
        if same(m[n - 1].key.as_str(), key) {
            proof {
                members_lookup(m@, n as int, key@);
                assert(m@.take(n as int).last() == m@[n - 1]);
            }
            return Some(n - 1);
        }
        n -= 1;
    }
    proof {
        members_lookup(m@, 0, key@);
    }
    None
}

impl Json {
    /// The value of a key; `None` where there is none, or where this is no object.
    pub fn get(&self, key: &str) -> (r: Option<&Json>)
        ensures
            match r {
                Some(v) => self@ is Object && self@->Object_0.contains_key(key@) && v@ == self@.at(
                    key@,
                ),
                None => self@ is Object ==> !self@->Object_0.contains_key(key@),
            },
    {
        match self {
            Json::Object(m) => match position(m, key) {
                Some(i) => Some(&m[i].value),
                None => None,
            },
            _ => None,
        }
    }

    /// The characters, where this is a string.
    pub fn as_text(&self) -> (r: Option<&str>)
        ensures
            match r {
                Some(s) => self@ == JsonView::Str(s@),
                None => self@.text() is None,
            },
    {
        match self {
            Json::Str(s) => Some(s.as_str()),
            _ => None,
        }
    }

    /// The items, where this is an array.
    pub fn as_items(&self) -> (r: Option<&Vec<Json>>)
        ensures
            match r {
                Some(v) => self@ == JsonView::Array(views(v@)) && *self == Json::Array(*v),
                None => self@.items() is None,
            },
    {
        match self {
            Json::Array(v) => Some(v),
            _ => None,
        }
    }

    /// The value of a key, where it is a string.
    pub fn text_at(&self, key: &str) -> (r: Option<&str>)
        ensures
            match r {
                Some(s) => self@.at(key@) == JsonView::Str(s@),
                None => self@.at(key@).text() is None,
            },
    {
        match self.get(key) {
            Some(v) => v.as_text(),
            None => None,
        }
    }

    /// The value of a key, where it is an array.
    pub fn items_at(&self, key: &str) -> (r: Option<&Vec<Json>>)
        ensures
            match r {
                Some(v) => self@.at(key@) == JsonView::Array(views(v@)),
                None => self@.at(key@).items() is None,
            },
    {
        match self.get(key) {
            Some(v) => v.as_items(),
            None => None,
        }
    }

    /// The value of a key, where it is a natural number.
    pub fn natural_at(&self, key: &str) -> (r: Option<u64>)
        ensures
            r == self@.at(key@).natural(),
    {
        match self.get(key) {
            Some(Json::Number(n)) => n.natural(),
            _ => None,
        }
    }

    /// A copy of the value of a key, `Null` where there is none.
    pub fn copy_at(&self, key: &str) -> (r: Json)
        ensures
            r@ == self@.at(key@),
    {
        match self.get(key) {
            Some(v) => v.clone(),
            None => Json::Null,
        }
    }

    /// A copy of the item at an index, `Null` where there is none.
    pub fn copy_nth(&self, i: usize) -> (r: Json)
        ensures
            r@ == self@.nth(i as int),
    {
        match self {
            Json::Array(v) => if i < v.len() {
                v[i].clone()
            } else {
                Json::Null
            },
            _ => Json::Null,
        }
    }

    /// True iff the value of a key is the string `want`.
    pub fn says(&self, key: &str, want: &str) -> (r: bool)
        ensures
            r == (self@.at(key@) == JsonView::Str(want@)),
    {
        match self.text_at(key) {
            Some(s) => same(s, want),
            None => false,
        }
    }
}

// ── Changing ───────────────────────────────────────────────────────────────────

/// Replacing the member that decides on a key replaces the key's value.
proof fn members_replace(s: Seq<Member>, i: int, m: Member)
    requires
        0 <= i < s.len(),
        s[i].key@ == m.key@,
        forall|k: int| i < k < s.len() ==> (#[trigger] s[k]).key@ != m.key@,
    ensures
        members_view(s.update(i, m)) == members_view(s).insert(m.key@, m.value@),
    decreases s.len(),
{
    let t = s.update(i, m);
    if i == s.len() - 1 {
        assert(t.drop_last() =~= s.drop_last());
        assert(members_view(t) =~= members_view(s).insert(m.key@, m.value@));
    } else {
        assert(t.drop_last() =~= s.drop_last().update(i, m));
        assert forall|k: int| i < k < s.drop_last().len() implies (#[trigger] s.drop_last()[k]).key@
            != m.key@ by {
            assert(s[k].key@ != m.key@);
        }
        members_replace(s.drop_last(), i, m);
        assert(s[s.len() - 1].key@ != m.key@);
        assert(members_view(t) =~= members_view(s).insert(m.key@, m.value@));
    }
}

impl Json {
    /// Puts a member into an object, in the place of one with the same key. `Null` counts
    /// as the object without members.
    pub fn set(&mut self, key: &str, value: Json)
        requires
            *old(self) is Object || *old(self) is Null,
        ensures
            final(self)@ == as_object(old(self)@).with(key@, value@),
    {
        if let Json::Null = self {
            *self = Json::object();
        }
        if let Json::Object(m) = self {
            let new = Member { key: key.to_owned(), value };
            match position(m, key) {
                Some(i) => {
                    proof {
                        members_replace(m@, i as int, new);
                    }
                    m.set(i, new);
                },
                None => {
                    let ghost before = m@;
                    m.push(new);
                    assert(m@.drop_last() =~= before);
                },
            }
        }
    }
}

/// `Null` counted as the object without members.
pub open spec fn as_object(v: JsonView) -> JsonView {
    if v is Null {
        JsonView::object()
    } else {
        v
    }
}

// ── Laws ───────────────────────────────────────────────────────────────────────

/// Reading a key gives the member that the object has under it, and null where it has none or
/// where there is no object.
pub proof fn members_are_read(v: JsonView, key: Seq<char>)
    ensures
        v matches JsonView::Object(m) ==> if m.dom().contains(key) {
            v.at(key) == m.index(key)
        } else {
            v.at(key) == JsonView::Null
        },
        !(v is Object) ==> v.at(key) == JsonView::Null,
{
}

/// Reading a place gives the item that the array has at it, and null where it has none or where
/// there is no array.
pub proof fn items_are_read(v: JsonView, i: int)
    ensures
        v matches JsonView::Array(s) ==> if 0 <= i < s.len() {
            v.nth(i) == s.index(i)
        } else {
            v.nth(i) == JsonView::Null
        },
        !(v is Array) ==> v.nth(i) == JsonView::Null,
{
}

/// A member that is put into an object is read under its key, and every other key reads as
/// before.
pub proof fn members_are_put(v: JsonView, key: Seq<char>, x: JsonView, other: Seq<char>)
    requires
        v is Object,
    ensures
        v.with(key, x) is Object,
        v.with(key, x).at(key) == x,
        other != key ==> v.with(key, x).at(other) == v.at(other),
{
}

/// An object's text, one member after another: the brackets alone without members, and each
/// member more before the closing bracket, behind a comma where there were some.
pub proof fn object_text_grows(l: Layout, key: Seq<char>, x: Layout)
    requires
        l is Object,
    ensures
        Layout::object().text() == seq!['{', '}'],
        l.with(key, x).text() == l.text().drop_last() + (if l->Object_0.len() > 0 {
            seq![',']
        } else {
            seq![]
        }) + quoted(key) + seq![':'] + x.text() + seq!['}'],
{
    reveal_strlit("{");
    reveal_strlit("}");
    reveal_strlit(",");
    reveal_strlit(":");
    reveal_with_fuel(Layout::text, 2);
    let none = Seq::<(Seq<char>, Layout)>::empty();
    assert(row_texts(none) =~= seq![]);
    assert(Layout::object().text() =~= seq!['{', '}']);
    let row = l->Object_0;
    let more = row.push((key, x));
    let part = quoted(key) + (":"@ + x.text());
    assert(row_texts(more) =~= row_texts(row).push(part));
    crate::text::joined_grows(row_texts(row), part, ","@);
    if row.len() == 0 {
        assert(row_texts(more) =~= seq![part]);
        assert(row_texts(row) =~= seq![]);
    }
    assert(l.with(key, x).text() =~= l.text().drop_last() + (if row.len() > 0 {
        seq![',']
    } else {
        seq![]
    }) + quoted(key) + seq![':'] + x.text() + seq!['}']);
}

/// A list's text, one item after another.
pub proof fn array_text_grows(s: Seq<Layout>, x: Layout)
    ensures
        Layout::Array(seq![]).text() == seq!['[', ']'],
        Layout::Array(s.push(x)).text() == Layout::Array(s).text().drop_last() + (if s.len() > 0 {
            seq![',']
        } else {
            seq![]
        }) + x.text() + seq![']'],
{
    reveal_strlit("[");
    reveal_strlit("]");
    reveal_strlit(",");
    reveal_with_fuel(Layout::text, 2);
    let none = Seq::<Layout>::empty();
    assert(layout_texts(none) =~= seq![]);
    assert(Layout::Array(none).text() =~= seq!['[', ']']);
    assert(layout_texts(s.push(x)) =~= layout_texts(s).push(x.text()));
    crate::text::joined_grows(layout_texts(s), x.text(), ","@);
    if s.len() == 0 {
        assert(layout_texts(s.push(x)) =~= seq![x.text()]);
        assert(layout_texts(s) =~= seq![]);
    }
    assert(Layout::Array(s.push(x)).text() =~= Layout::Array(s).text().drop_last() + (if s.len()
        > 0 {
        seq![',']
    } else {
        seq![]
    }) + x.text() + seq![']']);
}

/// Two texts that are written as strings in the same way are the same.
pub proof fn quoted_tells(a: Seq<char>, b: Seq<char>)
    requires
        quoted(a) == quoted(b),
    ensures
        a == b,
{
    assert(quoted(a).subrange(1, quoted(a).len() - 1) =~= escapes(a));
    assert(quoted(b).subrange(1, quoted(b).len() - 1) =~= escapes(b));
    escapes_tell(a, b);
}

proof fn hex_digits_tell(d: int, e: int)
    requires
        0 <= d < 16,
        0 <= e < 16,
        hex_digit(d) == hex_digit(e),
    ensures
        d == e,
{
    assert(hex_digit(d) as int == if d < 10 {
        0x30 + d
    } else {
        0x57 + d
    });
    assert(hex_digit(e) as int == if e < 10 {
        0x30 + e
    } else {
        0x57 + e
    });
}

proof fn escape_form(c: char)
    ensures
        escaped(c).len() > 0,
        escaped(c).len() == 1 <==> escaped(c)[0] != '\\',
        escaped(c).len() == 1 ==> escaped(c)[0] == c,
        escaped(c).len() > 1 && escaped(c)[1] == 'u' ==> 0 <= c as int && (c as int) < 0x20
            && escaped(c).len() == 6,
        escaped(c).len() > 1 && escaped(c)[1] != 'u' ==> escaped(c).len() == 2,
{
    let n = c as int;
    assert(0 <= n);
    let e = escaped(c);
    if c == '"' || c == '\\' {
        assert(e[1] == c && c != 'u');
    } else if n < 0x20 {
        assert(e[0] == '\\');
    } else {
        assert(e[0] == c);
    }
}

proof fn escapes_tell(a: Seq<char>, b: Seq<char>)
    requires
        escapes(a) == escapes(b),
    ensures
        a == b,
    decreases a.len(),
{
    if a.len() == 0 || b.len() == 0 {
        assert(escapes(a).len() == 0);
        if a.len() > 0 {
            assert(escaped(a[0]).len() > 0);
        }
        if b.len() > 0 {
            assert(escaped(b[0]).len() > 0);
        }
        assert(a =~= b);
    } else {
        let x = escapes(a);
        let ea = escaped(a[0]);
        let eb = escaped(b[0]);
        escape_form(a[0]);
        escape_form(b[0]);
        assert(x[0] == ea[0] && x[0] == eb[0]);
        if ea.len() > 1 || eb.len() > 1 {
            assert(x[0] == '\\');
            assert(x[1] == ea[1] && x[1] == eb[1]);
            if x[1] == 'u' {
                assert(x[4] == ea[4] && x[4] == eb[4] && x[5] == ea[5] && x[5] == eb[5]);
                let m = a[0] as int;
                let n = b[0] as int;
                assert(0 <= m / 16 < 2 && 0 <= n / 16 < 2);
                hex_digits_tell(m / 16, n / 16);
                hex_digits_tell(m % 16, n % 16);
                assert(m / 16 == n / 16 && m % 16 == n % 16);
            }
        }
        assert(a[0] == b[0]);
        assert(escapes(a.skip(1)) =~= x.skip(ea.len() as int));
        assert(escapes(b.skip(1)) =~= x.skip(ea.len() as int));
        escapes_tell(a.skip(1), b.skip(1));
        assert(a =~= seq![a[0]] + a.skip(1));
        assert(b =~= seq![b[0]] + b.skip(1));
    }
}

/// What is written down is the value that it stands for: a scalar is itself, an item more is
/// an item more, and a member more is put under its key, in the place of one that was there.
pub proof fn layouts_stand_for_values(
    v: JsonView,
    s: Seq<Layout>,
    row: Seq<(Seq<char>, Layout)>,
    key: Seq<char>,
    x: Layout,
)
    ensures
        Layout::Scalar(v).value() == v,
        Layout::Array(s).value() matches JsonView::Array(items) && items.len() == s.len()
            && forall|i: int| 0 <= i < s.len() ==> #[trigger] items[i] == s[i].value(),
        Layout::object().value() == JsonView::Object(Map::empty()),
        Layout::Object(row.push((key, x))).value() == JsonView::Object(
            Layout::Object(row).value()->Object_0.insert(key, x.value()),
        ),
{
    reveal_with_fuel(Layout::value, 2);
    reveal_with_fuel(row_view, 2);
    assert(row.push((key, x)).drop_last() =~= row);
}

/// A natural number is read as it is, up to the largest of sixty-four bits; anything else is
/// none.
pub proof fn naturals_are_read(v: JsonView, n: u64)
    ensures
        v.natural() == Some(n) <==> v == JsonView::Number(NumView::Int(n as int)),
        JsonView::count(n) == JsonView::Number(NumView::Int(n as int)),
{
}

} // verus!
