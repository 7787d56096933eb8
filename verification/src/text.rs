//! Character-level helpers on strings: views as `Seq<char>`, slicing,
//! searching, trimming and decimal formatting.

use vstd::prelude::*;
use vstd::string::*;

verus! {

broadcast use vstd::string::group_string_axioms;

/// Appends one character to a string.
///
/// Calls `String::push`, which std documents as appending the given `char`
/// to the end of the string; the contract says exactly that.
#[verifier::external_body]
pub(crate) fn push_char(s: &mut String, c: char)
    ensures
        final(s)@ == old(s)@.push(c),
{
    s.push(c);
}

/// The characters of `s`, in order.
pub fn chars_of(s: &str) -> (v: Vec<char>)
    ensures
        v@ == s@,
{
    let mut v: Vec<char> = Vec::new();
    for c in it: s.chars()
        invariant
            it.seq() == s@,
            v@ == s@.take(it.index() as int),
    {
        v.push(c);
    }
    v
}

/// Appends `cs[from..to]` to `out`.
pub fn push_chars(out: &mut String, cs: &Vec<char>, from: usize, to: usize)
    requires
        from <= to <= cs@.len(),
    ensures
        final(out)@ == old(out)@ + cs@.subrange(from as int, to as int),
{
    let mut i: usize = from;
    while i < to
        invariant
            from <= i <= to <= cs@.len(),
            out@ == old(out)@ + cs@.subrange(from as int, i as int),
        decreases to - i,
    {
        push_char(out, cs[i]);
        i = i + 1;
        assert(out@ =~= old(out)@ + cs@.subrange(from as int, i as int));
    }
}

/// A new string holding `cs[from..to]`.
pub fn string_from_chars(cs: &Vec<char>, from: usize, to: usize) -> (s: String)
    requires
        from <= to <= cs@.len(),
    ensures
        s@ == cs@.subrange(from as int, to as int),
{
    let mut s = String::new();
    push_chars(&mut s, cs, from, to);
    assert(s@ =~= cs@.subrange(from as int, to as int));
    s
}

/// Appends all of `t` to `out`.
pub fn push_str(out: &mut String, t: &str)
    ensures
        final(out)@ == old(out)@ + t@,
{
    let cs = chars_of(t);
    push_chars(out, &cs, 0, cs.len());
    assert(cs@.subrange(0, cs@.len() as int) =~= t@);
}

/// A copy of `t` as an owned string.
pub fn owned(t: &str) -> (s: String)
    ensures
        s@ == t@,
{
    let mut s = String::new();
    push_str(&mut s, t);
    assert(s@ =~= t@);
    s
}

/// Whether two character ranges hold the same characters.
pub fn chars_equal(a: &Vec<char>, a_from: usize, b: &Vec<char>, b_from: usize, len: usize) -> (r: bool)
    requires
        a_from + len <= a@.len(),
        b_from + len <= b@.len(),
    ensures
        r == (a@.subrange(a_from as int, a_from + len) == b@.subrange(b_from as int, b_from + len)),
{
    let a_len: usize = a.len();
    let b_len: usize = b.len();
    let mut i: usize = 0;
    while i < len
        invariant
            i <= len,
            a_len == a@.len(),
            b_len == b@.len(),
            a_from + len <= a@.len(),
            b_from + len <= b@.len(),
            a@.subrange(a_from as int, a_from + i) == b@.subrange(b_from as int, b_from + i),
        decreases len - i,
    {
        if a[a_from + i] != b[b_from + i] {
            assert(a@.subrange(a_from as int, a_from + len)[i as int] != b@.subrange(b_from as int, b_from + len)[i as int]);
            return false;
        }
        i = i + 1;
        assert(a@.subrange(a_from as int, a_from + i) =~= b@.subrange(b_from as int, b_from + i));
    }
    true
}

/// Whether two strings hold the same characters.
pub fn text_eq(a: &str, b: &str) -> (r: bool)
    ensures
        r == (a@ == b@),
{
    let ca = chars_of(a);
    let cb = chars_of(b);
    if ca.len() != cb.len() {
        return false;
    }
    let r = chars_equal(&ca, 0, &cb, 0, ca.len());
    assert(ca@.subrange(0, ca@.len() as int) =~= ca@);
    assert(cb@.subrange(0, cb@.len() as int) =~= cb@);
    r
}

// ---------------------------------------------------------------------------
// Searching
// ---------------------------------------------------------------------------

/// `p` occurs in `s` starting at index `i`.
pub open spec fn occurs_at(s: Seq<char>, p: Seq<char>, i: int) -> bool {
    0 <= i && i + p.len() <= s.len() && s.subrange(i, i + p.len()) == p
}

/// `p` occurs somewhere in `s`.
pub open spec fn contains_text(s: Seq<char>, p: Seq<char>) -> bool {
    exists|i: int| occurs_at(s, p, i)
}

/// `i` is the first index at which `p` occurs in `s`.
pub open spec fn first_occurrence(s: Seq<char>, p: Seq<char>, i: int) -> bool {
    occurs_at(s, p, i) && forall|j: int| 0 <= j < i ==> !occurs_at(s, p, j)
}

pub open spec fn starts_with(s: Seq<char>, p: Seq<char>) -> bool {
    p.len() <= s.len() && s.take(p.len() as int) == p
}

pub open spec fn ends_with(s: Seq<char>, p: Seq<char>) -> bool {
    p.len() <= s.len() && s.skip(s.len() - p.len()) == p
}

/// The index of the first occurrence of `p` in `cs[from..]`, if any.
pub fn find_text(cs: &Vec<char>, from: usize, p: &Vec<char>) -> (r: Option<usize>)
    requires
        from <= cs@.len(),
    ensures
        match r {
            Some(i) => from <= i && first_occurrence(cs@.skip(from as int), p@, i - from)
                && occurs_at(cs@, p@, i as int),
            None => !contains_text(cs@.skip(from as int), p@),
        },
{
    let ghost s = cs@.skip(from as int);
    if p.len() > cs.len() - from {
        assert forall|j: int| !occurs_at(s, p@, j) by {}
        return None;
    }
    if p.len() == 0 {
        assert(s.subrange(0, 0) =~= p@);
        assert(cs@.subrange(from as int, from as int) =~= p@);
        return Some(from);
    }
    let n: usize = cs.len();
    let last: usize = n - p.len();
    let mut i: usize = from;
    while i <= last
        invariant
            from <= i,
            n == cs@.len(),
            p@.len() > 0,
            last + p@.len() == cs@.len(),
            s == cs@.skip(from as int),
            i <= last + 1,
            forall|j: int| 0 <= j < i - from ==> !occurs_at(s, p@, j),
        decreases last + 1 - i,
    {
        if chars_equal(cs, i, p, 0, p.len()) {
            assert(p@.subrange(0, p@.len() as int) =~= p@);
            assert(s.subrange(i - from, i - from + p@.len()) =~= cs@.subrange(i as int, i + p@.len()));
            return Some(i);
        }
        assert(p@.subrange(0, p@.len() as int) =~= p@);
        assert(s.subrange(i - from, i - from + p@.len()) =~= cs@.subrange(i as int, i + p@.len()));
        i = i + 1;
    }
    assert forall|j: int| !occurs_at(s, p@, j) by {
        if 0 <= j && j + p@.len() <= s.len() {
            assert(j < i - from);
        }
    }
    None
}

/// Whether `p` occurs in `s`.
pub fn text_contains(s: &str, p: &str) -> (r: bool)
    ensures
        r == contains_text(s@, p@),
{
    let cs = chars_of(s);
    let cp = chars_of(p);
    let found = find_text(&cs, 0, &cp);
    assert(cs@.skip(0) =~= cs@);
    found.is_some()
}

/// Whether `s` begins with `p`.
pub fn text_starts_with(s: &str, p: &str) -> (r: bool)
    ensures
        r == starts_with(s@, p@),
{
    let cs = chars_of(s);
    let cp = chars_of(p);
    if cp.len() > cs.len() {
        return false;
    }
    let r = chars_equal(&cs, 0, &cp, 0, cp.len());
    assert(cp@.subrange(0, cp@.len() as int) =~= cp@);
    assert(cs@.subrange(0, cp@.len() as int) =~= cs@.take(cp@.len() as int));
    r
}

/// Whether `s` ends with `p`.
pub fn text_ends_with(s: &str, p: &str) -> (r: bool)
    ensures
        r == ends_with(s@, p@),
{
    let cs = chars_of(s);
    let cp = chars_of(p);
    if cp.len() > cs.len() {
        return false;
    }
    let start: usize = cs.len() - cp.len();
    let r = chars_equal(&cs, start, &cp, 0, cp.len());
    assert(cp@.subrange(0, cp@.len() as int) =~= cp@);
    assert(cs@.subrange(start as int, start + cp@.len()) =~= cs@.skip(start as int));
    r
}

// ---------------------------------------------------------------------------
// Trimming
// ---------------------------------------------------------------------------

/// Unicode `White_Space`, the property that `char::is_whitespace` and
/// `str::trim` use.
pub open spec fn is_white_space(c: char) -> bool {
    let u = c as u32;
    (0x9 <= u && u <= 0xd) || u == 0x20 || u == 0x85 || u == 0xa0 || u == 0x1680
        || (0x2000 <= u && u <= 0x200a) || u == 0x2028 || u == 0x2029 || u == 0x202f
        || u == 0x205f || u == 0x3000
}

pub fn char_is_white_space(c: char) -> (r: bool)
    ensures
        r == is_white_space(c),
{
    let u = c as u32;
    (0x9 <= u && u <= 0xd) || u == 0x20 || u == 0x85 || u == 0xa0 || u == 0x1680
        || (0x2000 <= u && u <= 0x200a) || u == 0x2028 || u == 0x2029 || u == 0x202f
        || u == 0x205f || u == 0x3000
}

/// The number of leading characters of `s` that are white space.
pub open spec fn leading_ws(s: Seq<char>) -> nat
    decreases s.len(),
{
    if s.len() > 0 && is_white_space(s[0]) {
        1 + leading_ws(s.drop_first())
    } else {
        0
    }
}

/// The number of trailing characters of `s` that are white space.
pub open spec fn trailing_ws(s: Seq<char>) -> nat
    decreases s.len(),
{
    if s.len() > 0 && is_white_space(s.last()) {
        1 + trailing_ws(s.drop_last())
    } else {
        0
    }
}

/// `s` without leading and trailing white space, as `str::trim` gives it.
pub open spec fn trim(s: Seq<char>) -> Seq<char> {
    let t = s.skip(leading_ws(s) as int);
    t.take(t.len() - trailing_ws(t))
}

/// The number of leading characters of `s` equal to `c`.
pub open spec fn leading_char(s: Seq<char>, c: char) -> nat
    decreases s.len(),
{
    if s.len() > 0 && s[0] == c {
        1 + leading_char(s.drop_first(), c)
    } else {
        0
    }
}

/// The number of trailing characters of `s` equal to `c`.
pub open spec fn trailing_char(s: Seq<char>, c: char) -> nat
    decreases s.len(),
{
    if s.len() > 0 && s.last() == c {
        1 + trailing_char(s.drop_last(), c)
    } else {
        0
    }
}

/// `s` with every leading and trailing `c` removed, as `str::trim_matches(c)`
/// gives it.
pub open spec fn trim_char(s: Seq<char>, c: char) -> Seq<char> {
    let t = s.skip(leading_char(s, c) as int);
    t.take(t.len() - trailing_char(t, c))
}

proof fn lemma_leading_ws_step(s: Seq<char>, i: int)
    requires
        0 <= i < s.len(),
        forall|j: int| 0 <= j < i ==> is_white_space(s[j]),
    ensures
        leading_ws(s) == i + leading_ws(s.skip(i)),
    decreases i,
{
    if i > 0 {
        lemma_leading_ws_step(s.drop_first(), i - 1);
        assert(s.drop_first().skip(i - 1) =~= s.skip(i));
    } else {
        assert(s.skip(0) =~= s);
    }
}

proof fn lemma_leading_ws_all(s: Seq<char>)
    requires
        forall|j: int| 0 <= j < s.len() ==> is_white_space(s[j]),
    ensures
        leading_ws(s) == s.len(),
    decreases s.len(),
{
    if s.len() > 0 {
        lemma_leading_ws_all(s.drop_first());
    }
}

proof fn lemma_trailing_ws_step(s: Seq<char>, k: int)
    requires
        0 <= k < s.len(),
        forall|j: int| s.len() - k <= j < s.len() ==> is_white_space(s[j]),
    ensures
        trailing_ws(s) == k + trailing_ws(s.take(s.len() - k)),
    decreases k,
{
    if k > 0 {
        lemma_trailing_ws_step(s.drop_last(), k - 1);
        assert(s.drop_last().take(s.drop_last().len() - (k - 1)) =~= s.take(s.len() - k));
    } else {
        assert(s.take(s.len() as int) =~= s);
    }
}

proof fn lemma_leading_char_step(s: Seq<char>, c: char, i: int)
    requires
        0 <= i <= s.len(),
        forall|j: int| 0 <= j < i ==> s[j] == c,
        i < s.len() ==> s[i] != c,
    ensures
        leading_char(s, c) == i,
    decreases i,
{
    if i > 0 {
        lemma_leading_char_step(s.drop_first(), c, i - 1);
    }
}

proof fn lemma_trailing_char_step(s: Seq<char>, c: char, k: int)
    requires
        0 <= k <= s.len(),
        forall|j: int| s.len() - k <= j < s.len() ==> s[j] == c,
        k < s.len() ==> s[s.len() - k - 1] != c,
    ensures
        trailing_char(s, c) == k,
    decreases k,
{
    if k > 0 {
        lemma_trailing_char_step(s.drop_last(), c, k - 1);
    }
}

/// The bounds `(start, end)` of `trim(cs[from..to])` inside `cs`.
pub fn trim_bounds(cs: &Vec<char>, from: usize, to: usize) -> (r: (usize, usize))
    requires
        from <= to <= cs@.len(),
    ensures
        from <= r.0 <= r.1 <= to,
        cs@.subrange(r.0 as int, r.1 as int) == trim(cs@.subrange(from as int, to as int)),
{
    let ghost s = cs@.subrange(from as int, to as int);
    let mut a: usize = from;
    while a < to && char_is_white_space(cs[a])
        invariant
            from <= a <= to <= cs@.len(),
            s == cs@.subrange(from as int, to as int),
            forall|j: int| 0 <= j < a - from ==> is_white_space(s[j]),
        decreases to - a,
    {
        a = a + 1;
    }
    proof {
        if a < to {
            lemma_leading_ws_step(s, a - from);
            assert(!is_white_space(s.skip(a - from)[0]));
        } else {
            lemma_leading_ws_all(s);
        }
    }
    let ghost t = s.skip(leading_ws(s) as int);
    assert(t =~= cs@.subrange(a as int, to as int));
    let mut b: usize = to;
    while b > a && char_is_white_space(cs[b - 1])
        invariant
            from <= a <= b <= to <= cs@.len(),
            t == cs@.subrange(a as int, to as int),
            forall|j: int| t.len() - (to - b) <= j < t.len() ==> is_white_space(t[j]),
        decreases b - a,
    {
        b = b - 1;
    }
    proof {
        let k = (to - b) as int;
        if b > a {
            lemma_trailing_ws_step(t, k);
            let u = t.take(t.len() - k);
            assert(u.last() == cs@[b - 1]);
            assert(trailing_ws(u) == 0);
        } else if t.len() > 0 {
            lemma_trailing_ws_step(t, k - 1);
            let u = t.take(t.len() - (k - 1));
            assert(u.len() == 1);
            assert(u.drop_last().len() == 0);
            assert(trailing_ws(u.drop_last()) == 0);
        }
        assert(t.take(t.len() - trailing_ws(t)) =~= cs@.subrange(a as int, b as int));
    }
    (a, b)
}

/// The bounds of `trim_char(cs[from..to], c)` inside `cs`.
pub fn trim_char_bounds(cs: &Vec<char>, from: usize, to: usize, c: char) -> (r: (usize, usize))
    requires
        from <= to <= cs@.len(),
    ensures
        from <= r.0 <= r.1 <= to,
        cs@.subrange(r.0 as int, r.1 as int) == trim_char(cs@.subrange(from as int, to as int), c),
{
    let ghost s = cs@.subrange(from as int, to as int);
    let mut a: usize = from;
    while a < to && cs[a] == c
        invariant
            from <= a <= to <= cs@.len(),
            s == cs@.subrange(from as int, to as int),
            forall|j: int| 0 <= j < a - from ==> s[j] == c,
        decreases to - a,
    {
        a = a + 1;
    }
    proof {
        lemma_leading_char_step(s, c, a - from);
    }
    let ghost t = s.skip(leading_char(s, c) as int);
    assert(t =~= cs@.subrange(a as int, to as int));
    let mut b: usize = to;
    while b > a && cs[b - 1] == c
        invariant
            from <= a <= b <= to <= cs@.len(),
            t == cs@.subrange(a as int, to as int),
            forall|j: int| t.len() - (to - b) <= j < t.len() ==> t[j] == c,
        decreases b - a,
    {
        b = b - 1;
    }
    proof {
        lemma_trailing_char_step(t, c, (to - b) as int);
        assert(t.take(t.len() - trailing_char(t, c)) =~= cs@.subrange(a as int, b as int));
    }
    (a, b)
}

/// `trim(s)` as an owned string.
pub fn trimmed(s: &str) -> (r: String)
    ensures
        r@ == trim(s@),
{
    let cs = chars_of(s);
    let (a, b) = trim_bounds(&cs, 0, cs.len());
    assert(cs@.subrange(0, cs@.len() as int) =~= s@);
    string_from_chars(&cs, a, b)
}

// ---------------------------------------------------------------------------
// Ordering
// ---------------------------------------------------------------------------

/// Lexicographic order of character sequences by code point: the order of
/// `str`'s `Ord` (UTF-8 byte order coincides with code point order).
pub open spec fn text_lt(a: Seq<char>, b: Seq<char>) -> bool
    decreases a.len(),
{
    if a.len() == 0 {
        b.len() > 0
    } else if b.len() == 0 {
        false
    } else if a[0] == b[0] {
        text_lt(a.drop_first(), b.drop_first())
    } else {
        a[0] < b[0]
    }
}

pub proof fn lemma_text_lt_irreflexive(a: Seq<char>)
    ensures
        !text_lt(a, a),
    decreases a.len(),
{
    if a.len() > 0 {
        lemma_text_lt_irreflexive(a.drop_first());
    }
}

pub proof fn lemma_text_lt_transitive(a: Seq<char>, b: Seq<char>, c: Seq<char>)
    requires
        text_lt(a, b),
        text_lt(b, c),
    ensures
        text_lt(a, c),
    decreases a.len(),
{
    if a.len() > 0 && b.len() > 0 && c.len() > 0 {
        if a[0] == b[0] && b[0] == c[0] {
            lemma_text_lt_transitive(a.drop_first(), b.drop_first(), c.drop_first());
        }
    }
}

pub proof fn lemma_text_lt_total(a: Seq<char>, b: Seq<char>)
    ensures
        a == b || text_lt(a, b) || text_lt(b, a),
    decreases a.len(),
{
    if a.len() > 0 && b.len() > 0 {
        if a[0] == b[0] {
            lemma_text_lt_total(a.drop_first(), b.drop_first());
            if a.drop_first() == b.drop_first() {
                assert(a =~= seq![a[0]] + a.drop_first());
                assert(b =~= seq![b[0]] + b.drop_first());
            }
        }
    } else if a.len() == 0 && b.len() == 0 {
        assert(a =~= b);
    }
}

pub proof fn lemma_text_lt_asymmetric(a: Seq<char>, b: Seq<char>)
    requires
        text_lt(a, b),
    ensures
        !text_lt(b, a),
{
    if text_lt(b, a) {
        lemma_text_lt_transitive(a, b, a);
        lemma_text_lt_irreflexive(a);
    }
}

/// The outcome of comparing two texts.
pub enum TextOrder {
    Less,
    Equal,
    Greater,
}

/// Compares two texts in the order `text_lt`.
pub fn compare_text(a: &str, b: &str) -> (r: TextOrder)
    ensures
        r is Less <==> text_lt(a@, b@),
        r is Equal <==> a@ == b@,
        r is Greater <==> text_lt(b@, a@),
{
    let ca = chars_of(a);
    let cb = chars_of(b);
    let na: usize = ca.len();
    let nb: usize = cb.len();
    let mut i: usize = 0;
    assert(ca@.skip(0) =~= ca@);
    assert(cb@.skip(0) =~= cb@);
    while i < na && i < nb && ca[i] == cb[i]
        invariant
            na == ca@.len(),
            nb == cb@.len(),
            i <= na,
            i <= nb,
            ca@.take(i as int) == cb@.take(i as int),
            text_lt(a@, b@) == text_lt(ca@.skip(i as int), cb@.skip(i as int)),
            text_lt(b@, a@) == text_lt(cb@.skip(i as int), ca@.skip(i as int)),
        decreases na - i,
    {
        assert(ca@.skip(i as int).drop_first() =~= ca@.skip(i + 1));
        assert(cb@.skip(i as int).drop_first() =~= cb@.skip(i + 1));
        i = i + 1;
        assert(ca@.take(i as int) =~= ca@.take(i - 1).push(ca@[i - 1]));
        assert(cb@.take(i as int) =~= cb@.take(i - 1).push(cb@[i - 1]));
    }
    proof {
        lemma_text_lt_total(a@, b@);
        lemma_text_lt_irreflexive(a@);
        if text_lt(a@, b@) {
            lemma_text_lt_asymmetric(a@, b@);
        }
        if i == na && i == nb {
            assert(ca@ =~= ca@.take(i as int));
            assert(cb@ =~= cb@.take(i as int));
        }
        if a@ == b@ {
            lemma_text_lt_irreflexive(b@);
        }
    }
    if i == na && i == nb {
        TextOrder::Equal
    } else if i == na {
        TextOrder::Less
    } else if i == nb {
        TextOrder::Greater
    } else if ca[i] < cb[i] {
        assert(ca@ != cb@ ) by {
            assert(ca@[i as int] != cb@[i as int]);
        }
        TextOrder::Less
    } else {
        assert(ca@[i as int] != cb@[i as int]);
        TextOrder::Greater
    }
}

// ---------------------------------------------------------------------------
// Lines
// ---------------------------------------------------------------------------

/// A line without the `\r` of a `\r\n` ending.
pub open spec fn strip_cr(line: Seq<char>) -> Seq<char> {
    if line.len() > 0 && line.last() == '\r' {
        line.drop_last()
    } else {
        line
    }
}

/// The lines of `s` as `str::lines` yields them: split at `\n` or `\r\n`;
/// a final line ending is optional and yields no empty last line.
pub open spec fn lines(s: Seq<char>) -> Seq<Seq<char>>
    decreases s.len(),
{
    if s.len() == 0 {
        seq![]
    } else if exists|i: int| first_occurrence(s, seq!['\n'], i) {
        let i = choose|i: int| first_occurrence(s, seq!['\n'], i);
        seq![strip_cr(s.take(i))] + lines(s.skip(i + 1))
    } else {
        seq![s]
    }
}

proof fn lemma_first_occurrence_is(s: Seq<char>, p: Seq<char>, i: int)
    requires
        first_occurrence(s, p, i),
    ensures
        (choose|j: int| first_occurrence(s, p, j)) == i,
{
    let j = choose|j: int| first_occurrence(s, p, j);
    assert(first_occurrence(s, p, j));
}

/// The lines of `text`, as `str::lines` yields them.
pub fn split_lines(text: &str) -> (r: Vec<String>)
    ensures
        r@.map_values(|l: String| l@) == lines(text@),
{
    let cs = chars_of(text);
    let n: usize = cs.len();
    let nl = vec!['\n'];
    assert(nl@ =~= seq!['\n']);
    let mut r: Vec<String> = Vec::new();
    let mut pos: usize = 0;
    assert(cs@.skip(0) =~= text@);
    assert(r@.map_values(|l: String| l@) =~= Seq::<Seq<char>>::empty());
    while pos < n
        invariant
            n == cs@.len(),
            cs@ == text@,
            nl@ == seq!['\n'],
            pos <= n,
            lines(text@) == r@.map_values(|l: String| l@) + lines(cs@.skip(pos as int)),
        decreases n - pos,
    {
        let ghost rest = cs@.skip(pos as int);
        let ghost before = r@.map_values(|l: String| l@);
        match find_text(&cs, pos, &nl) {
            Some(j) => {
                let k = j - pos;
                proof {
                    lemma_first_occurrence_is(rest, seq!['\n'], k as int);
                }
                let end: usize = if j > pos && cs[j - 1] == '\r' { j - 1 } else { j };
                let line = string_from_chars(&cs, pos, end);
                assert(cs@.subrange(pos as int, end as int) =~= strip_cr(rest.take(k as int)));
                r.push(line);
                assert(rest.skip(k + 1) =~= cs@.skip(j + 1));
                assert(r@.map_values(|l: String| l@) =~= before.push(strip_cr(rest.take(k as int))));
                assert(lines(rest) == seq![strip_cr(rest.take(k as int))] + lines(rest.skip(k + 1)));
                assert(lines(text@) =~= r@.map_values(|l: String| l@) + lines(cs@.skip(j + 1)));
                pos = j + 1;
            },
            None => {
                let line = string_from_chars(&cs, pos, n);
                assert(cs@.subrange(pos as int, n as int) =~= rest);
                r.push(line);
                assert(!(exists|i: int| first_occurrence(rest, seq!['\n'], i)));
                assert(r@.map_values(|l: String| l@) =~= before.push(rest));
                assert(cs@.skip(n as int) =~= Seq::<char>::empty());
                assert(lines(text@) =~= r@.map_values(|l: String| l@) + lines(cs@.skip(n as int)));
                pos = n;
            },
        }
    }
    assert(cs@.skip(n as int) =~= Seq::<char>::empty());
    assert(lines(text@) =~= r@.map_values(|l: String| l@));
    r
}

// ---------------------------------------------------------------------------
// Words
// ---------------------------------------------------------------------------

/// The number of leading characters of `s` that are not white space.
pub open spec fn leading_word(s: Seq<char>) -> nat
    decreases s.len(),
{
    if s.len() > 0 && !is_white_space(s[0]) {
        1 + leading_word(s.drop_first())
    } else {
        0
    }
}

/// The white-space separated words of `s`, as `str::split_whitespace`
/// yields them.
pub open spec fn words(s: Seq<char>) -> Seq<Seq<char>>
    decreases s.len(),
{
    let t = s.skip(leading_ws(s) as int);
    if t.len() == 0 {
        seq![]
    } else {
        proof {
            lemma_leading_ws_bound(s);
            lemma_leading_word_bound(t);
        }
        let k = leading_word(t);
        seq![t.take(k as int)] + words(t.skip(k as int))
    }
}

pub proof fn lemma_leading_ws_bound(s: Seq<char>)
    ensures
        leading_ws(s) <= s.len(),
        leading_ws(s) < s.len() ==> !is_white_space(s[leading_ws(s) as int]),
        forall|j: int| 0 <= j < leading_ws(s) ==> is_white_space(s[j]),
    decreases s.len(),
{
    if s.len() > 0 && is_white_space(s[0]) {
        lemma_leading_ws_bound(s.drop_first());
        assert forall|j: int| 0 <= j < leading_ws(s) implies is_white_space(s[j]) by {
            if j > 0 {
                assert(s[j] == s.drop_first()[j - 1]);
            }
        }
    }
}

pub proof fn lemma_leading_word_bound(s: Seq<char>)
    ensures
        leading_word(s) <= s.len(),
        leading_word(s) < s.len() ==> is_white_space(s[leading_word(s) as int]),
        forall|j: int| 0 <= j < leading_word(s) ==> !is_white_space(s[j]),
    decreases s.len(),
{
    if s.len() > 0 && !is_white_space(s[0]) {
        lemma_leading_word_bound(s.drop_first());
        assert forall|j: int| 0 <= j < leading_word(s) implies !is_white_space(s[j]) by {
            if j > 0 {
                assert(s[j] == s.drop_first()[j - 1]);
            }
        }
    }
}

proof fn lemma_leading_word_exact(s: Seq<char>, k: int)
    requires
        0 <= k <= s.len(),
        forall|j: int| 0 <= j < k ==> !is_white_space(s[j]),
        k < s.len() ==> is_white_space(s[k]),
    ensures
        leading_word(s) == k,
    decreases k,
{
    if k > 0 {
        lemma_leading_word_exact(s.drop_first(), k - 1);
    }
}

/// The white-space separated words of `text`.
pub fn split_words(text: &str) -> (r: Vec<String>)
    ensures
        r@.map_values(|w: String| w@) == words(text@),
{
    let cs = chars_of(text);
    let n: usize = cs.len();
    let mut r: Vec<String> = Vec::new();
    let mut pos: usize = 0;
    assert(cs@.skip(0) =~= text@);
    assert(r@.map_values(|w: String| w@) =~= Seq::<Seq<char>>::empty());
    while pos < n
        invariant
            n == cs@.len(),
            cs@ == text@,
            pos <= n,
            words(text@) == r@.map_values(|w: String| w@) + words(cs@.skip(pos as int)),
        decreases n - pos,
    {
        let ghost s = cs@.skip(pos as int);
        let ghost before = r@.map_values(|w: String| w@);
        let mut a: usize = pos;
        while a < n && char_is_white_space(cs[a])
            invariant
                pos <= a <= n,
                n == cs@.len(),
                s == cs@.skip(pos as int),
                forall|j: int| 0 <= j < a - pos ==> is_white_space(s[j]),
            decreases n - a,
        {
            a = a + 1;
        }
        proof {
            lemma_leading_ws_bound(s);
            if a < n {
                lemma_leading_ws_step(s, a - pos);
                assert(leading_ws(s.skip(a - pos)) == 0);
            } else {
                lemma_leading_ws_all(s);
            }
        }
        let ghost t = s.skip(leading_ws(s) as int);
        assert(t =~= cs@.skip(a as int));
        if a == n {
            assert(t.len() == 0);
            assert(words(s) == Seq::<Seq<char>>::empty());
            assert(cs@.skip(n as int) =~= Seq::<char>::empty());
            pos = n;
        } else {
            let mut b: usize = a;
            while b < n && !char_is_white_space(cs[b])
                invariant
                    a <= b <= n,
                    n == cs@.len(),
                    t == cs@.skip(a as int),
                    forall|j: int| 0 <= j < b - a ==> !is_white_space(t[j]),
                decreases n - b,
            {
                b = b + 1;
            }
            proof {
                lemma_leading_word_exact(t, b - a);
                assert(!is_white_space(t[0]));
            }
            let w = string_from_chars(&cs, a, b);
            assert(cs@.subrange(a as int, b as int) =~= t.take((b - a) as int));
            r.push(w);
            assert(t.skip((b - a) as int) =~= cs@.skip(b as int));
            assert(r@.map_values(|w: String| w@) =~= before.push(t.take((b - a) as int)));
            assert(words(s) == seq![t.take((b - a) as int)] + words(t.skip((b - a) as int)));
            assert(words(text@) =~= r@.map_values(|w: String| w@) + words(cs@.skip(b as int)));
            pos = b;
        }
    }
    assert(cs@.skip(n as int) =~= Seq::<char>::empty());
    assert(words(Seq::<char>::empty()) =~= Seq::<Seq<char>>::empty());
    assert(words(text@) =~= r@.map_values(|w: String| w@));
    r
}

// ---------------------------------------------------------------------------
// Decimal numbers
// ---------------------------------------------------------------------------

pub open spec fn digit_char(d: nat) -> char {
    ((48 + d) as u8) as char
}

/// The decimal digits of `n`, most significant first, without leading zeros.
pub open spec fn decimal(n: nat) -> Seq<char>
    decreases n,
{
    if n < 10 {
        seq![digit_char(n)]
    } else {
        decimal(n / 10).push(digit_char(n % 10))
    }
}

/// Appends the decimal digits of `n` to `out`.
pub fn push_decimal(out: &mut String, n: u64)
    ensures
        final(out)@ == old(out)@ + decimal(n as nat),
    decreases n,
{
    if n >= 10 {
        push_decimal(out, n / 10);
    }
    let d: u8 = (n % 10) as u8;
    push_char(out, (48u8 + d) as char);
    proof {
        if n < 10 {
            assert(old(out)@ + decimal(n as nat) =~= old(out)@.push(digit_char(n as nat)));
        } else {
            assert(old(out)@ + decimal(n as nat) =~= (old(out)@ + decimal((n / 10) as nat)).push(
                digit_char((n % 10) as nat),
            ));
        }
    }
}

/// The decimal digits of `n`.
pub fn decimal_text(n: u64) -> (s: String)
    ensures
        s@ == decimal(n as nat),
{
    let mut s = String::new();
    push_decimal(&mut s, n);
    assert(s@ =~= decimal(n as nat));
    s
}

} // verus!
