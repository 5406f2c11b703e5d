//! Text: the handful of string operations that the rest of the library is built on,
//! each with a contract over sequences of characters.

use vstd::prelude::*;

verus! {

// ── Equality, search, pieces ───────────────────────────────────────────────────

/// True iff the two texts hold the same characters.
pub fn same(a: &str, b: &str) -> (r: bool)
    ensures
        r == (a@ == b@),
{
    a.to_owned() == b.to_owned()
}

/// The characters of a text.
pub fn chars_of(s: &str) -> (r: Vec<char>)
    ensures
        r@ == s@,
{
    let mut v: Vec<char> = Vec::new();
    for c in it: s.chars()
        invariant
            it.seq() == s@,
            v@ == it.seq().take(it.index()),
    {
        v.push(c);
    }
    v
}

/// `pat` stands in `hay`, beginning at position `i`.
pub open spec fn occurs_at(hay: Seq<char>, pat: Seq<char>, i: int) -> bool {
    &&& 0 <= i
    &&& i + pat.len() <= hay.len()
    &&& hay.subrange(i, i + pat.len()) == pat
}

/// `pat` stands somewhere in `hay`.
pub open spec fn has(hay: Seq<char>, pat: Seq<char>) -> bool {
    exists|i: int| occurs_at(hay, pat, i)
}

fn stands_at(hay: &Vec<char>, pat: &Vec<char>, i: usize) -> (r: bool)
    requires
        i <= hay@.len(),
    ensures
        r == occurs_at(hay@, pat@, i as int),
{
    if hay.len() - i < pat.len() {
        return false;
    }
    let n = hay.len();
    let mut k: usize = 0;
    while k < pat.len()
        invariant
            n == hay@.len(),
            i + pat@.len() <= n,
            k <= pat@.len(),
            forall|m: int| 0 <= m < k ==> hay@[i + m] == pat@[m],
        decreases pat@.len() - k,
    {
        if hay[i + k] != pat[k] {
            assert(hay@.subrange(i as int, i + pat@.len())[k as int] == hay@[i + k]);
            return false;
        }
        k += 1;
    }
    assert(hay@.subrange(i as int, i + pat@.len()) =~= pat@);
    true
}

/// True iff `pat` stands somewhere in `hay`.
pub fn contains(hay: &str, pat: &str) -> (r: bool)
    ensures
        r == has(hay@, pat@),
{
    let h = chars_of(hay);
    let p = chars_of(pat);
    let n = h.len();
    let mut i: usize = 0;
    while i < n
        invariant
            n == h@.len(),
            h@ == hay@,
            p@ == pat@,
            i <= n,
            forall|m: int| 0 <= m < i ==> !occurs_at(h@, p@, m),
        decreases n - i,
    {
        if stands_at(&h, &p, i) {
            return true;
        }
        i += 1;
    }
    stands_at(&h, &p, n)
}

// ── Trimming ───────────────────────────────────────────────────────────────────

/// A character has the Unicode property White_Space.
pub open spec fn white_space(c: char) -> bool {
    let n = c as int;
    ||| 9 <= n <= 13
    ||| n == 0x20
    ||| n == 0x85
    ||| n == 0xa0
    ||| n == 0x1680
    ||| 0x2000 <= n <= 0x200a
    ||| n == 0x2028
    ||| n == 0x2029
    ||| n == 0x202f
    ||| n == 0x205f
    ||| n == 0x3000
}

/// Calls `char::is_whitespace` of the standard library, which says whether a character has
/// the Unicode property White_Space. Claims that those characters have it which Unicode
/// lists.
#[verifier::external_body]
fn is_white_space(c: char) -> (r: bool)
    ensures
        r == white_space(c),
{
    c.is_whitespace()
}

/// `s` without the white space that it begins with.
pub open spec fn trimmed_start(s: Seq<char>) -> Seq<char>
    decreases s.len(),
{
    if s.len() > 0 && white_space(s[0]) {
        trimmed_start(s.skip(1))
    } else {
        s
    }
}

/// `s` without the white space that it ends with.
pub open spec fn trimmed_end(s: Seq<char>) -> Seq<char>
    decreases s.len(),
{
    if s.len() > 0 && white_space(s.last()) {
        trimmed_end(s.drop_last())
    } else {
        s
    }
}

/// `s` without the white space at both of its ends.
pub open spec fn trimmed(s: Seq<char>) -> Seq<char> {
    trimmed_end(trimmed_start(s))
}

/// The ends of a text that was trimmed are not white space.
proof fn trimmed_end_ends(s: Seq<char>)
    ensures
        trimmed_end(s).len() > 0 ==> !white_space(trimmed_end(s).last()) && trimmed_end(s)[0]
            == s[0],
        trimmed_end(s).len() <= s.len(),
    decreases s.len(),
{
    if s.len() > 0 && white_space(s.last()) {
        trimmed_end_ends(s.drop_last());
    }
}

proof fn trimmed_start_starts(s: Seq<char>)
    ensures
        trimmed_start(s).len() > 0 ==> !white_space(trimmed_start(s)[0]),
    decreases s.len(),
{
    if s.len() > 0 && white_space(s[0]) {
        trimmed_start_starts(s.skip(1));
    }
}

proof fn trimmed_start_short(s: Seq<char>)
    ensures
        trimmed_start(s).len() <= s.len(),
    decreases s.len(),
{
    if s.len() > 0 && white_space(s[0]) {
        trimmed_start_short(s.skip(1));
    }
}

/// Trimming makes no text longer.
pub proof fn trimmed_short(s: Seq<char>)
    ensures
        trimmed(s).len() <= s.len(),
{
    trimmed_start_short(s);
    trimmed_end_ends(trimmed_start(s));
}

/// A text that was trimmed stays as it is when it is trimmed again.
pub proof fn trimmed_twice(s: Seq<char>)
    ensures
        trimmed(trimmed(s)) == trimmed(s),
{
    trimmed_start_starts(s);
    trimmed_end_ends(trimmed_start(s));
}

/// A text whose ends are not white space.
pub open spec fn solid(s: Seq<char>) -> bool {
    s.len() > 0 && !white_space(s[0]) && !white_space(s.last())
}

/// Such a text stays as it is when it is trimmed.
pub proof fn solid_stays(s: Seq<char>)
    requires
        solid(s),
    ensures
        trimmed(s) == s,
{
}

/// A text that begins with something else than white space does not vanish when it is trimmed.
pub proof fn trimmed_keeps_start(s: Seq<char>)
    requires
        s.len() > 0,
        !white_space(s[0]),
    ensures
        trimmed(s).len() > 0,
    decreases s.len(),
{
    if white_space(s.last()) {
        trimmed_keeps_start(s.drop_last());
    }
}

/// The text without the white space at both of its ends.
pub fn trim(s: &str) -> (r: &str)
    ensures
        r@ == trimmed(s@),
{
    let v = chars_of(s);
    let n = v.len();
    let mut from: usize = 0;
    assert(v@.skip(0) =~= v@);
    while from < n && is_white_space(v[from])
        invariant
            n == v@.len(),
            from <= n,
            trimmed_start(v@) == trimmed_start(v@.skip(from as int)),
        ensures
            from <= n,
            trimmed_start(v@) == v@.skip(from as int),
        decreases n - from,
    {
        assert(v@.skip(from as int).skip(1) =~= v@.skip(from + 1));
        from += 1;
    }
    let ghost head = v@.skip(from as int);
    let mut to: usize = n;
    assert(v@.subrange(from as int, to as int) =~= head);
    while to > from && is_white_space(v[to - 1])
        invariant
            n == v@.len(),
            from <= to <= n,
            trimmed_end(head) == trimmed_end(v@.subrange(from as int, to as int)),
        ensures
            from <= to <= n,
            trimmed_end(head) == v@.subrange(from as int, to as int),
        decreases to,
    {
        assert(v@.subrange(from as int, to as int).drop_last() =~= v@.subrange(
            from as int,
            to - 1,
        ));
        to -= 1;
    }
    s.substring_char(from, to)
}

/// A character within ASCII.
pub open spec fn ascii(c: char) -> bool {
    c as int <= 0x7f
}

/// All of a text is within ASCII.
pub open spec fn all_ascii(s: Seq<char>) -> bool {
    forall|i: int| 0 <= i < s.len() ==> ascii(#[trigger] s[i])
}

/// The lower case of a character within ASCII.
pub open spec fn ascii_lower(c: char) -> char {
    if 'A' <= c <= 'Z' {
        (c as int + 0x20) as char
    } else {
        c
    }
}

/// The lower case of a text that is not all within ASCII.
pub uninterp spec fn wide_lowered(s: Seq<char>) -> Seq<char>;

/// The lower case of a text.
pub open spec fn lowered(s: Seq<char>) -> Seq<char> {
    if all_ascii(s) {
        s.map_values(|c: char| ascii_lower(c))
    } else {
        wide_lowered(s)
    }
}

/// Calls `str::to_lowercase` of the standard library. Claims that within ASCII the letters
/// from `A` to `Z` become those from `a` to `z` and all else stays, and of any other text
/// only that the result depends on the text alone; the Unicode tables behind it are not
/// stated.
#[verifier::external_body]
pub(crate) fn to_lower(s: &str) -> (r: String)
    ensures
        all_ascii(s@) ==> r@ == s@.map_values(|c: char| ascii_lower(c)),
        !all_ascii(s@) ==> r@ == wide_lowered(s@),
{
    s.to_lowercase()
}

/// The text that bytes spell, each malformed piece replaced by the replacement character.
pub uninterp spec fn lossy(bytes: Seq<u8>) -> Seq<char>;

/// Calls `String::from_utf8_lossy` of the standard library. Claims that the result depends on
/// the bytes alone, and that the encoding of a text gives back that text; what malformed
/// bytes give is not stated.
#[verifier::external_body]
pub(crate) fn from_lossy(bytes: &Vec<u8>) -> (r: String)
    ensures
        r@ == lossy(bytes@),
        forall|s: Seq<char>| bytes@ == #[trigger] vstd::utf8::encode_utf8(s) ==> r@ == s,
{
    String::from_utf8_lossy(bytes).into_owned()
}

/// What stands behind the last full stop of a text, or the text where it has none.
pub open spec fn extension(s: Seq<char>) -> Seq<char>
    decreases s.len(),
{
    if s.len() == 0 || s.last() == '.' {
        seq![]
    } else {
        extension(s.drop_last()).push(s.last())
    }
}

/// What stands behind the last full stop.
pub fn extension_of(s: &str) -> (r: &str)
    ensures
        r@ == extension(s@),
{
    let v = chars_of(s);
    let n = v.len();
    let mut from: usize = n;
    assert(v@.take(n as int) =~= v@);
    assert(extension(v@) =~= extension(v@.take(n as int)) + v@.skip(n as int));
    while from > 0 && v[from - 1] != '.'
        invariant
            n == v@.len(),
            v@ == s@,
            from <= n,
            extension(v@) == extension(v@.take(from as int)) + v@.skip(from as int),
        ensures
            from <= n,
            extension(v@) == v@.skip(from as int),
        decreases from,
    {
        proof {
            let t = v@.take(from as int);
            assert(t.drop_last() =~= v@.take(from - 1));
            assert(extension(t.drop_last()).push(t.last()) + v@.skip(from as int) =~= extension(
                t.drop_last(),
            ) + v@.skip(from - 1));
        }
        from -= 1;
    }
    s.substring_char(from, n)
}

// ── Numbers ────────────────────────────────────────────────────────────────────

/// The ten digits, in order of their value.
pub open spec fn digit(d: int) -> char {
    (0x30 + d) as char
}

/// `n` in decimal, without leading zeros.
pub open spec fn decimal(n: nat) -> Seq<char>
    decreases n,
{
    if n < 10 {
        seq![digit(n as int)]
    } else {
        decimal(n / 10).push(digit((n % 10) as int))
    }
}

/// A decimal consists of digits.
pub proof fn decimal_digits(n: nat)
    ensures
        decimal(n).len() > 0,
        forall|i: int| 0 <= i < decimal(n).len() ==> '0' <= #[trigger] decimal(n)[i] <= '9',
    decreases n,
{
    if n >= 10 {
        decimal_digits(n / 10);
    }
}

/// Writes `n` in decimal.
pub fn decimal_text(n: usize) -> (r: String)
    ensures
        r@ == decimal(n as nat),
    decreases n,
{
    proof {
        reveal_strlit("0123456789");
    }
    let d = n % 10;
    let last = "0123456789".substring_char(d, d + 1);
    assert(last@ =~= seq![digit(d as int)]);
    if n < 10 {
        last.to_owned()
    } else {
        let s = decimal_text(n / 10).concat(last);
        assert(s@ =~= decimal(n as nat));
        s
    }
}

/// The digits of `s`, read from the left in base ten; `None` where `s` is empty or
/// holds anything else.
pub open spec fn digits_value(s: Seq<char>) -> Option<nat>
    decreases s.len(),
{
    if s.len() == 0 {
        None
    } else if !('0' <= s.last() <= '9') {
        None
    } else {
        let d = (s.last() as int - 0x30) as nat;
        if s.len() == 1 {
            Some(d)
        } else {
            match digits_value(s.drop_last()) {
                Some(v) => Some(v * 10 + d),
                None => None,
            }
        }
    }
}

/// The number that `s` writes: digits after an optional plus sign, within the
/// machine's `usize`.
pub open spec fn written_usize(s: Seq<char>) -> Option<usize> {
    let digits = if s.len() > 0 && s[0] == '+' {
        s.skip(1)
    } else {
        s
    };
    match digits_value(digits) {
        Some(v) if v <= usize::MAX => Some(v as usize),
        _ => None,
    }
}

/// Once the digits of a prefix exceed a bound, those of the whole text exceed it too.
proof fn digits_grow(s: Seq<char>, k: int)
    requires
        0 < k <= s.len(),
        digits_value(s.take(k)) is Some,
    ensures
        digits_value(s) matches Some(w) ==> w >= digits_value(s.take(k))->0,
    decreases s.len() - k,
{
    if k < s.len() {
        assert(s.take(k + 1).drop_last() =~= s.take(k));
        assert(s.take(s.len() as int) =~= s);
        if digits_value(s.take(k + 1)) is Some {
            digits_grow(s, k + 1);
        } else {
            digits_stay_none(s, k + 1);
        }
    } else {
        assert(s.take(k) =~= s);
    }
}

/// A prefix that is not all digits spoils the whole text.
proof fn digits_stay_none(s: Seq<char>, k: int)
    requires
        0 < k <= s.len(),
        digits_value(s.take(k)) is None,
    ensures
        digits_value(s) is None,
    decreases s.len() - k,
{
    if k < s.len() {
        assert(s.take(k + 1).drop_last() =~= s.take(k));
        digits_stay_none(s, k + 1);
    } else {
        assert(s.take(k) =~= s);
    }
}

/// Reads a `usize` as `str::parse` does.
pub fn parse_usize(s: &str) -> (r: Option<usize>)
    ensures
        r == written_usize(s@),
{
    let v = chars_of(s);
    let n = v.len();
    let from: usize = if n > 0 && v[0] == '+' {
        1
    } else {
        0
    };
    let ghost digits = v@.skip(from as int);
    assert(v@.skip(0) =~= v@);
    if from == n {
        return None;
    }
    let mut acc: usize = 0;
    let mut i: usize = from;
    while i < n
        invariant
            n == v@.len(),
            from <= i <= n,
            from < n,
            digits == v@.skip(from as int),
            i == from ==> acc == 0,
            i > from ==> digits_value(digits.take(i - from)) == Some(acc as nat),
            v@ == s@,
            digits == (if s@.len() > 0 && s@[0] == '+' { s@.skip(1) } else { s@ }),
        decreases n - i,
    {
        let c = v[i];
        assert(digits.take(i - from + 1).last() == c);
        assert(digits.take(i - from + 1).drop_last() =~= digits.take(i - from));
        if !('0' <= c && c <= '9') {
            proof {
                digits_stay_none(digits, i - from + 1);
            }
            return None;
        }
        let d: usize = (c as u32 - 0x30) as usize;
        if acc > (usize::MAX - d) / 10 {
            proof {
                digits_grow(digits, i - from + 1);
            }
            return None;
        }
        acc = acc * 10 + d;
        i += 1;
    }
    assert(digits.take(n - from) =~= digits);
    Some(acc)
}

// ── Lists of texts ─────────────────────────────────────────────────────────────

/// The characters of each text of a list.
pub open spec fn texts(v: Seq<String>) -> Seq<Seq<char>> {
    v.map_values(|s: String| s@)
}

/// The texts of a list, one after another, with `sep` between neighbours.
pub open spec fn joined(parts: Seq<Seq<char>>, sep: Seq<char>) -> Seq<char>
    decreases parts.len(),
{
    if parts.len() == 0 {
        seq![]
    } else if parts.len() == 1 {
        parts[0]
    } else {
        joined(parts.drop_last(), sep) + sep + parts.last()
    }
}

/// Joined texts, from the first one on.
pub proof fn joined_from_first(parts: Seq<Seq<char>>, sep: Seq<char>)
    requires
        parts.len() > 1,
    ensures
        joined(parts, sep) == parts[0] + (sep + joined(parts.skip(1), sep)),
    decreases parts.len(),
{
    let rest = parts.skip(1);
    if parts.len() > 2 {
        joined_from_first(parts.drop_last(), sep);
        assert(parts.drop_last().skip(1) =~= rest.drop_last());
    } else {
        assert(joined(parts.drop_last(), sep) == parts[0]);
    }
    assert(joined(parts, sep) =~= parts[0] + (sep + joined(rest, sep)));
}

/// Each of the texts stands in the joined text.
pub proof fn joined_has(parts: Seq<Seq<char>>, sep: Seq<char>, k: int)
    requires
        0 <= k < parts.len(),
    ensures
        has(joined(parts, sep), parts[k]),
    decreases parts.len(),
{
    let all = joined(parts, sep);
    if parts.len() == 1 {
        assert(all.subrange(0, all.len() as int) =~= parts[0]);
        assert(occurs_at(all, parts[k], 0));
    } else if k == parts.len() - 1 {
        let i = all.len() - parts[k].len();
        assert(all.subrange(i, all.len() as int) =~= parts[k]);
        assert(occurs_at(all, parts[k], i));
    } else {
        let before = joined(parts.drop_last(), sep);
        joined_has(parts.drop_last(), sep, k);
        assert(parts.drop_last()[k] == parts[k]);
        let i = choose|i: int| occurs_at(before, parts[k], i);
        assert(all.subrange(i, i + parts[k].len()) =~= before.subrange(i, i + parts[k].len()));
        assert(occurs_at(all, parts[k], i));
    }
}

/// Joins the texts of a list with `sep`.
pub fn join(parts: &Vec<String>, sep: &str) -> (r: String)
    ensures
        r@ == joined(texts(parts@), sep@),
{
    let mut out = String::new();
    let mut i: usize = 0;
    let ghost all = texts(parts@);
    while i < parts.len()
        invariant
            all == texts(parts@),
            i <= parts@.len(),
            out@ == joined(all.take(i as int), sep@),
        decreases parts@.len() - i,
    {
        assert(all.take(i + 1).drop_last() =~= all.take(i as int));
        assert(all.take(i + 1).last() == parts@[i as int]@);
        if i > 0 {
            out.append(sep);
        }
        out.append(parts[i].as_str());
        i += 1;
        assert(out@ =~= joined(all.take(i as int), sep@));
    }
    assert(all.take(all.len() as int) =~= all);
    out
}

/// How many characters of `s` stand before its first line feed (all, where it has none).
pub open spec fn line_length(s: Seq<char>) -> nat
    decreases s.len(),
{
    if s.len() == 0 || s[0] == '\n' {
        0
    } else {
        1 + line_length(s.skip(1))
    }
}

/// A line without the carriage return that it may end with.
pub open spec fn without_return(s: Seq<char>) -> Seq<char> {
    if s.len() > 0 && s.last() == '\r' {
        s.drop_last()
    } else {
        s
    }
}

/// The lines of a text. A line ends at a line feed, or at a carriage return and a line
/// feed; what follows the last line feed is a line too, unless it is empty.
pub open spec fn lines(s: Seq<char>) -> Seq<Seq<char>>
    decreases s.len(),
{
    let n = line_length(s);
    if s.len() == 0 {
        seq![]
    } else if n >= s.len() {
        seq![s]
    } else {
        seq![without_return(s.take(n as int))] + lines(s.skip(n as int + 1))
    }
}

/// `line_length` finds the first line feed.
proof fn line_length_at(s: Seq<char>, n: int)
    requires
        0 <= n <= s.len(),
        forall|m: int| 0 <= m < n ==> s[m] != '\n',
        n < s.len() ==> s[n] == '\n',
    ensures
        line_length(s) == n,
    decreases n,
{
    if n > 0 {
        line_length_at(s.skip(1), n - 1);
    }
}

/// The lines of a text, as `str::lines` gives them.
pub fn lines_of(s: &str) -> (r: Vec<String>)
    ensures
        texts(r@) == lines(s@),
{
    let v = chars_of(s);
    let n = v.len();
    let mut out: Vec<String> = Vec::new();
    let mut from: usize = 0;
    assert(v@.skip(0) =~= v@);
    assert(texts(out@) + lines(v@) =~= lines(v@));
    while from < n
        invariant
            n == v@.len(),
            v@ == s@,
            from <= n,
            texts(out@) + lines(v@.skip(from as int)) == lines(s@),
        decreases n - from,
    {
        let ghost rest = v@.skip(from as int);
        let mut to: usize = from;
        while to < n && v[to] != '\n'
            invariant
                n == v@.len(),
                from <= to <= n,
                forall|m: int| from <= m < to ==> v@[m] != '\n',
            ensures
                from <= to <= n,
                forall|m: int| from <= m < to ==> v@[m] != '\n',
                to < n ==> v@[to as int] == '\n',
            decreases n - to,
        {
            to += 1;
        }
        proof {
            assert forall|m: int| 0 <= m < to - from implies rest[m] != '\n' by {
                assert(rest[m] == v@[from + m]);
            }
            line_length_at(rest, to - from);
        }
        let ghost before = texts(out@);
        if to == n {
            let line = s.substring_char(from, n).to_owned();
            assert(line@ =~= rest);
            out.push(line);
            assert(texts(out@) =~= before + seq![rest]);
            from = n;
            assert(v@.skip(from as int) =~= seq![]);
            assert(texts(out@) + lines(v@.skip(from as int)) =~= before + lines(rest));
        } else {
            let end = if to > from && v[to - 1] == '\r' {
                to - 1
            } else {
                to
            };
            let line = s.substring_char(from, end).to_owned();
            assert(rest.take(to - from) =~= v@.subrange(from as int, to as int));
            assert(line@ =~= without_return(rest.take(to - from)));
            out.push(line);
            assert(texts(out@) =~= before + seq![line@]);
            assert(rest.skip(to - from + 1) =~= v@.skip(to + 1));
            from = to + 1;
            assert(texts(out@) + lines(v@.skip(from as int)) =~= before + lines(rest));
        }
    }
    assert(v@.skip(n as int) =~= seq![]);
    assert(texts(out@) + lines(v@.skip(n as int)) =~= texts(out@));
    out
}

/// A text without line feeds and carriage returns.
pub open spec fn one_line(s: Seq<char>) -> bool {
    forall|i: int| 0 <= i < s.len() ==> s[i] != '\n' && s[i] != '\r'
}

/// A text that ends where a line ends.
pub open spec fn whole_lines(s: Seq<char>) -> bool {
    s.len() == 0 || s.last() == '\n'
}

/// What is written after whole lines adds its lines to theirs.
pub proof fn lines_of_parts(a: Seq<char>, b: Seq<char>)
    requires
        whole_lines(a),
    ensures
        lines(a + b) == lines(a) + lines(b),
    decreases a.len(),
{
    if a.len() == 0 {
        assert(a + b =~= b);
        assert(lines(a) + lines(b) =~= lines(b));
    } else {
        let n = first_feed(a);
        line_length_at(a, n);
        line_length_at(a + b, n);
        assert((a + b).take(n) =~= a.take(n));
        assert((a + b).skip(n + 1) =~= a.skip(n + 1) + b);
        lines_of_parts(a.skip(n + 1), b);
        assert(lines(a + b) =~= lines(a) + lines(b));
    }
}

/// The place of the first line feed of a text that ends in one.
proof fn first_feed(a: Seq<char>) -> (n: int)
    requires
        a.len() > 0,
        a.last() == '\n',
    ensures
        0 <= n < a.len(),
        a[n] == '\n',
        forall|m: int| 0 <= m < n ==> a[m] != '\n',
    decreases a.len(),
{
    if a[0] == '\n' {
        0
    } else {
        let k = first_feed(a.skip(1));
        assert(a.skip(1)[k] == a[k + 1]);
        assert forall|m: int| 0 <= m < k + 1 implies a[m] != '\n' by {
            if m > 0 {
                assert(a.skip(1)[m - 1] == a[m]);
            }
        }
        k + 1
    }
}

/// A text without line ends, closed by a line feed, is one line.
pub proof fn line_alone(s: Seq<char>)
    requires
        one_line(s),
    ensures
        lines(s + "\n"@) == seq![s],
        whole_lines(s + "\n"@),
{
    reveal_strlit("\n");
    let t = s + "\n"@;
    line_length_at(t, s.len() as int);
    assert(t.take(s.len() as int) =~= s);
    assert(t.skip(s.len() as int + 1) =~= seq![]);
    assert(lines(t.skip(s.len() as int + 1)) =~= seq![]);
    assert(lines(t) =~= seq![s]);
}

// ── Replacement ────────────────────────────────────────────────────────────────

/// `s` with each occurrence of `pat`, taken from the left and without overlap,
/// replaced by `to`.
pub open spec fn replaced(s: Seq<char>, pat: Seq<char>, to: Seq<char>) -> Seq<char>
    decreases s.len(),
{
    if pat.len() == 0 || s.len() < pat.len() {
        s
    } else if s.take(pat.len() as int) == pat {
        to + replaced(s.skip(pat.len() as int), pat, to)
    } else {
        seq![s[0]] + replaced(s.skip(1), pat, to)
    }
}

/// Replaces each occurrence of `pat`, which is not empty, by `to`.
pub fn replace(s: &str, pat: &str, to: &str) -> (r: String)
    requires
        pat@.len() > 0,
    ensures
        r@ == replaced(s@, pat@, to@),
{
    let v = chars_of(s);
    let p = chars_of(pat);
    let n = v.len();
    let m = p.len();
    let mut out = String::new();
    let mut i: usize = 0;
    assert(v@.skip(0) =~= v@);
    assert(out@ + replaced(v@, p@, to@) =~= replaced(s@, pat@, to@));
    while i < n
        invariant
            n == v@.len(),
            m == p@.len(),
            m > 0,
            v@ == s@,
            p@ == pat@,
            i <= n,
            out@ + replaced(v@.skip(i as int), p@, to@) == replaced(s@, pat@, to@),
        decreases n - i,
    {
        let ghost rest = v@.skip(i as int);
        let ghost before = out@;
        if stands_at(&v, &p, i) {
            assert(rest.take(m as int) =~= v@.subrange(i as int, i + m));
            assert(rest.skip(m as int) =~= v@.skip(i + m));
            out.append(to);
            i += m;
            assert(out@ + replaced(v@.skip(i as int), p@, to@) =~= before + replaced(
                rest,
                p@,
                to@,
            ));
        } else {
            proof {
                if rest.len() >= m {
                    assert(rest.take(m as int) =~= v@.subrange(i as int, i + m));
                }
                assert(rest.skip(1) =~= v@.skip(i + 1));
                if rest.len() < m {
                    assert(replaced(rest, p@, to@) == rest);
                    assert(replaced(rest.skip(1), p@, to@) == rest.skip(1));
                    assert(rest =~= seq![rest[0]] + rest.skip(1));
                }
            }
            out.append(s.substring_char(i, i + 1));
            i += 1;
            assert(out@ =~= before.push(rest[0]));
            assert(out@ + replaced(v@.skip(i as int), p@, to@) =~= before + replaced(
                rest,
                p@,
                to@,
            ));
        }
    }
    assert(v@.skip(n as int) =~= seq![]);
    assert(out@ + replaced(v@.skip(n as int), p@, to@) =~= out@);
    out
}

// ── Laws ───────────────────────────────────────────────────────────────────────

/// Trimming takes white space from the two ends and nothing else: what is left is a stretch of
/// the text, whose place is given back, and its ends are not white space.
pub proof fn trimmed_is_stretch(s: Seq<char>) -> (r: (int, int))
    ensures
        0 <= r.0 <= r.1 <= s.len(),
        trimmed(s) == s.subrange(r.0, r.1),
        forall|k: int| 0 <= k < r.0 || r.1 <= k < s.len() ==> white_space(#[trigger] s[k]),
        r.0 < r.1 ==> !white_space(s[r.0]) && !white_space(s[r.1 - 1]),
{
    let i = start_of_trimmed(s);
    let head = s.skip(i);
    let j = end_of_trimmed(head);
    assert(trimmed(s) =~= s.subrange(i, i + j));
    assert forall|k: int| 0 <= k < i || i + j <= k < s.len() implies white_space(
        #[trigger] s[k],
    ) by {
        if k >= i {
            assert(head[k - i] == s[k]);
        }
    }
    (i, i + j)
}

proof fn start_of_trimmed(s: Seq<char>) -> (i: int)
    ensures
        0 <= i <= s.len(),
        trimmed_start(s) == s.skip(i),
        forall|k: int| 0 <= k < i ==> white_space(#[trigger] s[k]),
        i < s.len() ==> !white_space(s[i]),
    decreases s.len(),
{
    if s.len() > 0 && white_space(s[0]) {
        let i = start_of_trimmed(s.skip(1));
        assert(s.skip(1).skip(i) =~= s.skip(i + 1));
        assert forall|k: int| 0 <= k < i + 1 implies white_space(#[trigger] s[k]) by {
            if k > 0 {
                assert(s.skip(1)[k - 1] == s[k]);
            }
        }
        i + 1
    } else {
        assert(s.skip(0) =~= s);
        0
    }
}

proof fn end_of_trimmed(s: Seq<char>) -> (j: int)
    ensures
        0 <= j <= s.len(),
        trimmed_end(s) == s.take(j),
        forall|k: int| j <= k < s.len() ==> white_space(#[trigger] s[k]),
        j > 0 ==> !white_space(s[j - 1]),
    decreases s.len(),
{
    if s.len() > 0 && white_space(s.last()) {
        let j = end_of_trimmed(s.drop_last());
        assert(s.drop_last().take(j) =~= s.take(j));
        assert forall|k: int| j <= k < s.len() implies white_space(#[trigger] s[k]) by {
            if k < s.len() - 1 {
                assert(s.drop_last()[k] == s[k]);
            }
        }
        j
    } else {
        assert(s.take(s.len() as int) =~= s);
        s.len() as int
    }
}

/// Nothing is left of a text exactly where all of it is white space.
pub proof fn trimmed_blank(s: Seq<char>)
    ensures
        trimmed(s).len() == 0 <==> (forall|k: int|
            0 <= k < s.len() ==> white_space(#[trigger] s[k])),
{
    let (i, j) = trimmed_is_stretch(s);
    if i < j {
        assert(!white_space(s[i]));
    }
}

/// A text stands in another where the other can be cut so that it is the middle piece.
pub proof fn has_is_middle(a: Seq<char>, pat: Seq<char>, b: Seq<char>)
    ensures
        has(a + pat + b, pat),
{
    let h = a + pat + b;
    assert(h.subrange(a.len() as int, (a.len() + pat.len()) as int) =~= pat);
    assert(occurs_at(h, pat, a.len() as int));
}

/// Where a text stands in another, the other can be cut so that it is the middle piece; the
/// pieces around it are given back.
pub proof fn has_cuts(h: Seq<char>, pat: Seq<char>) -> (r: (Seq<char>, Seq<char>))
    requires
        has(h, pat),
    ensures
        h == r.0 + pat + r.1,
{
    let i = choose|i: int| occurs_at(h, pat, i);
    assert(h =~= h.take(i) + pat + h.skip(i + pat.len()));
    (h.take(i), h.skip(i + pat.len()))
}

/// Joining nothing gives nothing, joining one text gives that text, and one more text adds the
/// separator and itself.
pub proof fn joined_grows(parts: Seq<Seq<char>>, x: Seq<char>, sep: Seq<char>)
    ensures
        joined(seq![], sep).len() == 0,
        joined(seq![x], sep) == x,
        parts.len() > 0 ==> joined(parts.push(x), sep) == joined(parts, sep) + sep + x,
{
    assert(parts.push(x).drop_last() =~= parts);
}

/// A text without line ends is one line, with or without a line end behind it.
pub proof fn one_line_is_one_line(s: Seq<char>)
    requires
        one_line(s),
    ensures
        s.len() > 0 ==> lines(s) == seq![s],
        lines(s + seq!['\n']) == seq![s],
        lines(s + seq!['\r', '\n']) == seq![s],
{
    let n = s.len() as int;
    if n > 0 {
        line_length_at(s, n);
    }
    let t = s + seq!['\n'];
    line_length_at(t, n);
    assert(t.take(n) =~= s);
    assert(t.skip(n + 1) =~= seq![]);
    assert(lines(t.skip(n + 1)) =~= seq![]);
    assert(without_return(s) == s);
    assert(lines(t) =~= seq![s]);
    let u = s + seq!['\r', '\n'];
    line_length_at(u, n + 1);
    assert(u.take(n + 1) =~= s + seq!['\r']);
    assert(without_return(u.take(n + 1)) =~= s);
    assert(u.skip(n + 2) =~= seq![]);
    assert(lines(u.skip(n + 2)) =~= seq![]);
    assert(lines(u) =~= seq![s]);
}

/// What stands behind the last full stop holds none, and is the whole text only where the text
/// holds none.
pub proof fn extension_is_behind_last_stop(s: Seq<char>)
    ensures
        forall|k: int| 0 <= k < extension(s).len() ==> #[trigger] extension(s)[k] != '.',
        extension(s) == s || (extension(s).len() < s.len() && s[s.len() - extension(s).len() - 1]
            == '.' && extension(s) == s.skip(s.len() - extension(s).len())),
    decreases s.len(),
{
    if s.len() > 0 && s.last() != '.' {
        let t = s.drop_last();
        extension_is_behind_last_stop(t);
        let e = extension(t);
        assert(extension(s) == e.push(s.last()));
        if e == t {
            assert(extension(s) =~= s);
        } else {
            assert(extension(s) =~= s.skip(s.len() - extension(s).len()));
            assert(s[s.len() - extension(s).len() - 1] == t[t.len() - e.len() - 1]);
        }
    } else if s.len() > 0 {
        assert(extension(s) =~= s.skip(s.len() as int));
    } else {
        assert(extension(s) =~= s);
    }
}

/// A decimal reads back as its number, and begins with a zero only where that is all of it.
pub proof fn decimal_reads_back(n: nat)
    ensures
        digits_value(decimal(n)) == Some(n),
        decimal(n)[0] == '0' ==> n == 0,
        n <= usize::MAX ==> written_usize(decimal(n)) == Some(n as usize),
    decreases n,
{
    decimal_digits(n);
    if n >= 10 {
        decimal_reads_back(n / 10);
        decimal_digits(n / 10);
        assert(decimal(n).drop_last() =~= decimal(n / 10));
    }
}

/// A text in which the pattern does not stand stays as it is.
pub proof fn replaced_nowhere(s: Seq<char>, pat: Seq<char>, to: Seq<char>)
    requires
        has(s, pat) == false,
    ensures
        replaced(s, pat, to) == s,
    decreases s.len(),
{
    if pat.len() > 0 && s.len() >= pat.len() {
        assert(!occurs_at(s, pat, 0));
        assert(s.take(pat.len() as int) =~= s.subrange(0, pat.len() as int));
        if has(s.skip(1), pat) {
            let i = choose|i: int| occurs_at(s.skip(1), pat, i);
            assert(s.skip(1).subrange(i, i + pat.len()) =~= s.subrange(
                i + 1,
                i + 1 + pat.len(),
            ));
            assert(occurs_at(s, pat, i + 1));
        }
        replaced_nowhere(s.skip(1), pat, to);
        assert(s =~= seq![s[0]] + s.skip(1));
    }
}

/// The first occurrence of the pattern gives way to the replacement: what stands before it
/// stays, and behind it the replacement goes on.
pub proof fn replaced_first(a: Seq<char>, pat: Seq<char>, b: Seq<char>, to: Seq<char>)
    requires
        pat.len() > 0,
        forall|i: int| 0 <= i < a.len() ==> !occurs_at(a + pat + b, pat, i),
    ensures
        replaced(a + pat + b, pat, to) == a + to + replaced(b, pat, to),
    decreases a.len(),
{
    let s = a + pat + b;
    if a.len() == 0 {
        assert(s.take(pat.len() as int) =~= pat);
        assert(s.skip(pat.len() as int) =~= b);
        assert(replaced(s, pat, to) =~= a + to + replaced(b, pat, to));
    } else {
        let t = a.skip(1) + pat + b;
        assert(s.skip(1) =~= t);
        assert(!occurs_at(s, pat, 0));
        assert(s.take(pat.len() as int) =~= s.subrange(0, pat.len() as int));
        assert forall|i: int| 0 <= i < a.skip(1).len() implies !occurs_at(t, pat, i) by {
            assert(!occurs_at(s, pat, i + 1));
            if occurs_at(t, pat, i) {
                assert(t.subrange(i, i + pat.len()) =~= s.subrange(i + 1, i + 1 + pat.len()));
            }
        }
        replaced_first(a.skip(1), pat, b, to);
        assert(replaced(s, pat, to) =~= a + to + replaced(b, pat, to));
    }
}

/// A text writes a number only where it is digits, with at most a plus sign before them; one
/// digit more makes ten times as much and the digit; and the sign changes nothing.
pub proof fn numbers_are_digits(s: Seq<char>, c: char)
    ensures
        digits_value(s) is Some <==> s.len() > 0 && forall|i: int|
            0 <= i < s.len() ==> '0' <= #[trigger] s[i] <= '9',
        digits_value(s) matches Some(v) ==> ('0' <= c <= '9' ==> digits_value(s.push(c)) == Some(
            (v * 10 + (c as int - '0' as int)) as nat,
        )),
        '0' <= c <= '9' ==> digits_value(seq![c]) == Some((c as int - '0' as int) as nat),
        digits_value(s) is Some ==> written_usize(seq!['+'] + s) == written_usize(s),
        digits_value(s) matches Some(v) ==> (v <= usize::MAX ==> written_usize(s) == Some(
            v as usize,
        )),
        written_usize(s) matches Some(n) ==> digits_value(s) == Some(n as nat) || (s.len() > 0
            && s[0] == '+' && digits_value(s.skip(1)) == Some(n as nat)),
    decreases s.len(),
{
    assert(s.push(c).drop_last() =~= s);
    assert((seq!['+'] + s).skip(1) =~= s);
    if s.len() > 0 {
        let t = s.drop_last();
        numbers_are_digits(t, c);
        if forall|i: int| 0 <= i < s.len() ==> '0' <= #[trigger] s[i] <= '9' {
            assert forall|i: int| 0 <= i < t.len() implies '0' <= #[trigger] t[i] <= '9' by {
                assert(t[i] == s[i]);
            }
            assert('0' <= s[s.len() - 1] <= '9');
        }
        if digits_value(s) is Some {
            assert forall|i: int| 0 <= i < s.len() implies '0' <= #[trigger] s[i] <= '9' by {
                if i < t.len() {
                    assert(t[i] == s[i]);
                }
            }
            assert('0' <= s[0] <= '9');
        }
    }
}

/// A line ends at its first line feed, and a carriage return right before that belongs to the
/// end; what stands behind the last line feed is a line as it is, and nothing is no line.
pub proof fn lines_end_at_feeds(s: Seq<char>, rest: Seq<char>)
    requires
        forall|i: int| 0 <= i < s.len() ==> #[trigger] s[i] != '\n',
    ensures
        s.len() > 0 ==> lines(s) == seq![s],
        lines(Seq::<char>::empty()).len() == 0,
        s.len() == 0 || s.last() != '\r' ==> lines(s + seq!['\n'] + rest) == seq![s] + lines(rest),
        lines(s + seq!['\r', '\n'] + rest) == seq![s] + lines(rest),
{
    let plain = s + seq!['\n'] + rest;
    let returned = s + seq!['\r', '\n'] + rest;
    let n = s.len() as int;
    line_length_at(s, n);
    line_length_at(plain, n);
    line_length_at(returned, n + 1);
    assert(plain.take(n) =~= s);
    assert(plain.skip(n + 1) =~= rest);
    assert(returned.take(n + 1) =~= s.push('\r'));
    assert(returned.take(n + 1).drop_last() =~= s);
    assert(returned.skip(n + 2) =~= rest);
}

/// Within ASCII the letters from `A` to `Z` become those from `a` to `z`, each the letter at
/// its own place, and all else stays.
pub proof fn lower_case_of_letters(s: Seq<char>, i: int)
    requires
        0 <= i < s.len(),
        forall|k: int| 0 <= k < s.len() ==> (#[trigger] s[k]) as int <= 0x7f,
    ensures
        lowered(s).len() == s.len(),
        'A' <= s[i] <= 'Z' ==> lowered(s)[i] as int - 'a' as int == s[i] as int - 'A' as int,
        !('A' <= s[i] <= 'Z') ==> lowered(s)[i] == s[i],
{
}

} // verus!
