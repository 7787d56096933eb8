//! JSON values as the tape stores them, and their canonical compact text:
//! object members in key order, no white space, strings escaped as
//! `serde_json` escapes them.

use vstd::prelude::*;

use crate::crypto::hex_digit;
use crate::text::{chars_of, decimal, decimal_text, owned, push_char, push_str, text_eq, text_lt};

verus! {

broadcast use vstd::std_specs::vec::group_vec_axioms;

/// The mathematical model of a JSON value.
pub enum JsonData {
    Null,
    Bool(bool),
    /// A number, kept as its decimal text.
    Number(Seq<char>),
    Str(Seq<char>),
    Array(Seq<JsonData>),
    Object(Seq<(Seq<char>, JsonData)>),
}

/// A JSON value.  A number is kept as its decimal text (for instance `1`,
/// `-2` or `0.5`), which is how it is written back out.  An object is a
/// list of members, written out in the order held; the object builders of
/// this module require their keys in strictly increasing order (`text_lt`),
/// the order in which `serde_json::Map` keeps them.
#[derive(Debug, PartialEq, Eq)]
pub enum JsonValue {
    Null,
    Bool(bool),
    Number(String),
    Str(String),
    Array(Vec<JsonValue>),
    Object(Vec<(String, JsonValue)>),
}

pub open spec fn data_of(v: JsonValue) -> JsonData
    decreases v,
{
    match v {
        JsonValue::Null => JsonData::Null,
        JsonValue::Bool(b) => JsonData::Bool(b),
        JsonValue::Number(t) => JsonData::Number(t@),
        JsonValue::Str(s) => JsonData::Str(s@),
        JsonValue::Array(items) => JsonData::Array(items_data(items@)),
        JsonValue::Object(members) => JsonData::Object(members_data(members@)),
    }
}

pub open spec fn items_data(s: Seq<JsonValue>) -> Seq<JsonData>
    decreases s,
{
    if s.len() == 0 {
        seq![]
    } else {
        items_data(s.subrange(0, s.len() - 1)).push(data_of(s[s.len() - 1]))
    }
}

pub open spec fn members_data(s: Seq<(String, JsonValue)>) -> Seq<(Seq<char>, JsonData)>
    decreases s,
{
    if s.len() == 0 {
        seq![]
    } else {
        members_data(s.subrange(0, s.len() - 1)).push(
            (s[s.len() - 1].0@, data_of(s[s.len() - 1].1)),
        )
    }
}

impl View for JsonValue {
    type V = JsonData;

    open spec fn view(&self) -> JsonData {
        data_of(*self)
    }
}

pub proof fn lemma_items_data(s: Seq<JsonValue>)
    ensures
        items_data(s).len() == s.len(),
        forall|i: int| 0 <= i < s.len() ==> #[trigger] items_data(s)[i] == data_of(s[i]),
    decreases s.len(),
{
    if s.len() > 0 {
        lemma_items_data(s.subrange(0, s.len() - 1));
    }
}

pub proof fn lemma_members_data(s: Seq<(String, JsonValue)>)
    ensures
        members_data(s).len() == s.len(),
        forall|i: int|
            0 <= i < s.len() ==> #[trigger] members_data(s)[i] == (s[i].0@, data_of(s[i].1)),
    decreases s.len(),
{
    if s.len() > 0 {
        lemma_members_data(s.subrange(0, s.len() - 1));
    }
}

// ---------------------------------------------------------------------------
// Canonical text
// ---------------------------------------------------------------------------

/// How one character of a string is written inside JSON quotes.
pub open spec fn escape_char(c: char) -> Seq<char> {
    if c == '"' {
        seq!['\\', '"']
    } else if c == '\\' {
        seq!['\\', '\\']
    } else if c == '\x08' {
        seq!['\\', 'b']
    } else if c == '\x0c' {
        seq!['\\', 'f']
    } else if c == '\n' {
        seq!['\\', 'n']
    } else if c == '\r' {
        seq!['\\', 'r']
    } else if c == '\t' {
        seq!['\\', 't']
    } else if (c as u32) < 0x20 {
        seq!['\\', 'u', '0', '0', hex_digit(c as int / 16), hex_digit(c as int % 16)]
    } else {
        seq![c]
    }
}

pub open spec fn escaped(s: Seq<char>) -> Seq<char>
    decreases s.len(),
{
    if s.len() == 0 {
        seq![]
    } else {
        escaped(s.drop_last()) + escape_char(s.last())
    }
}

/// A string literal in JSON.
pub open spec fn quoted(s: Seq<char>) -> Seq<char> {
    seq!['"'] + escaped(s) + seq!['"']
}

/// The compact JSON text of `d`.
pub open spec fn json_text(d: JsonData) -> Seq<char>
    decreases d,
{
    match d {
        JsonData::Null => seq!['n', 'u', 'l', 'l'],
        JsonData::Bool(b) => if b {
            seq!['t', 'r', 'u', 'e']
        } else {
            seq!['f', 'a', 'l', 's', 'e']
        },
        JsonData::Number(t) => t,
        JsonData::Str(s) => quoted(s),
        JsonData::Array(items) => seq!['['] + items_text(items) + seq![']'],
        JsonData::Object(members) => seq!['{'] + members_text(members) + seq!['}'],
    }
}

/// The comma-separated texts of `items`.
pub open spec fn items_text(items: Seq<JsonData>) -> Seq<char>
    decreases items,
{
    if items.len() == 0 {
        seq![]
    } else if items.len() == 1 {
        json_text(items[0])
    } else {
        items_text(items.subrange(0, items.len() - 1)) + seq![','] + json_text(
            items[items.len() - 1],
        )
    }
}

/// The comma-separated `"key":value` texts of `members`.
pub open spec fn members_text(members: Seq<(Seq<char>, JsonData)>) -> Seq<char>
    decreases members,
{
    if members.len() == 0 {
        seq![]
    } else if members.len() == 1 {
        quoted(members[0].0) + seq![':'] + json_text(members[0].1)
    } else {
        members_text(members.subrange(0, members.len() - 1)) + seq![','] + quoted(
            members[members.len() - 1].0,
        ) + seq![':'] + json_text(members[members.len() - 1].1)
    }
}

fn hex_digit_char(n: u32) -> (c: char)
    requires
        n < 16,
    ensures
        c == hex_digit(n as int),
{
    if n < 10 {
        ((48 + n) as u8) as char
    } else {
        ((87 + n) as u8) as char
    }
}

/// Appends the escaped form of `c` to `out`.
fn push_escaped_char(out: &mut String, c: char)
    ensures
        final(out)@ == old(out)@ + escape_char(c),
{
    if c == '"' {
        push_char(out, '\\');
        push_char(out, '"');
    } else if c == '\\' {
        push_char(out, '\\');
        push_char(out, '\\');
    } else if c == '\x08' {
        push_char(out, '\\');
        push_char(out, 'b');
    } else if c == '\x0c' {
        push_char(out, '\\');
        push_char(out, 'f');
    } else if c == '\n' {
        push_char(out, '\\');
        push_char(out, 'n');
    } else if c == '\r' {
        push_char(out, '\\');
        push_char(out, 'r');
    } else if c == '\t' {
        push_char(out, '\\');
        push_char(out, 't');
    } else if (c as u32) < 0x20 {
        let u = c as u32;
        push_char(out, '\\');
        push_char(out, 'u');
        push_char(out, '0');
        push_char(out, '0');
        push_char(out, hex_digit_char(u / 16));
        push_char(out, hex_digit_char(u % 16));
    } else {
        push_char(out, c);
    }
    assert(final(out)@ =~= old(out)@ + escape_char(c));
}

/// Appends `quoted(s)` to `out`.
pub fn push_quoted(out: &mut String, s: &str)
    ensures
        final(out)@ == old(out)@ + quoted(s@),
{
    let cs = chars_of(s);
    let ghost start = out@;
    push_char(out, '"');
    let mut i: usize = 0;
    while i < cs.len()
        invariant
            i <= cs@.len(),
            cs@ == s@,
            out@ == start + seq!['"'] + escaped(cs@.take(i as int)),
        decreases cs@.len() - i,
    {
        push_escaped_char(out, cs[i]);
        assert(cs@.take(i + 1).drop_last() =~= cs@.take(i as int));
        i = i + 1;
    }
    push_char(out, '"');
    assert(cs@.take(cs@.len() as int) =~= s@);
    assert(out@ =~= start + quoted(s@));
}

/// Appends the compact JSON text of `v` to `out`.
pub fn push_json(out: &mut String, v: &JsonValue)
    ensures
        final(out)@ == old(out)@ + json_text(v@),
    decreases v,
{
    let ghost start = out@;
    match v {
        JsonValue::Null => {
            push_str(out, "null");
            assert(out@ =~= start + json_text(v@)) by {
                reveal_strlit("null");
            }
        },
        JsonValue::Bool(b) => {
            if *b {
                push_str(out, "true");
                assert(out@ =~= start + json_text(v@)) by {
                    reveal_strlit("true");
                }
            } else {
                push_str(out, "false");
                assert(out@ =~= start + json_text(v@)) by {
                    reveal_strlit("false");
                }
            }
        },
        JsonValue::Number(t) => {
            push_str(out, t.as_str());
        },
        JsonValue::Str(s) => {
            push_quoted(out, s.as_str());
        },
        JsonValue::Array(items) => {
            proof {
                lemma_items_data(items@);
            }
            let ghost d = items_data(items@);
            push_char(out, '[');
            let mut i: usize = 0;
            while i < items.len()
                invariant
                    i <= items@.len(),
                    *v == JsonValue::Array(*items),
                    d == items_data(items@),
                    d.len() == items@.len(),
                    forall|k: int| 0 <= k < items@.len() ==> #[trigger] d[k] == data_of(items@[k]),
                    out@ == start + seq!['['] + items_text(d.take(i as int)),
                decreases items@.len() - i,
            {
                if i > 0 {
                    push_char(out, ',');
                }
                proof {
                    assert(decreases_to!(*items => items@[i as int]));
                    assert(decreases_to!(*v => (*v)->Array_0));
                    assert(decreases_to!(*v => items@[i as int]));
                }
                push_json(out, &items[i]);
                assert(d.take(i + 1).subrange(0, i as int) =~= d.take(i as int));
                assert(d.take(i + 1)[i as int] == items@[i as int]@);
                proof {
                    if i == 0 {
                        assert(d.take(0) =~= Seq::<JsonData>::empty());
                    }
                }
                i = i + 1;
            }
            push_char(out, ']');
            assert(d.take(d.len() as int) =~= d);
            assert(out@ =~= start + json_text(v@));
        },
        JsonValue::Object(members) => {
            proof {
                lemma_members_data(members@);
            }
            let ghost d = members_data(members@);
            push_char(out, '{');
            let mut i: usize = 0;
            while i < members.len()
                invariant
                    i <= members@.len(),
                    *v == JsonValue::Object(*members),
                    d == members_data(members@),
                    d.len() == members@.len(),
                    forall|k: int|
                        0 <= k < members@.len() ==> #[trigger] d[k] == (
                            members@[k].0@,
                            data_of(members@[k].1),
                        ),
                    out@ == start + seq!['{'] + members_text(d.take(i as int)),
                decreases members@.len() - i,
            {
                if i > 0 {
                    push_char(out, ',');
                }
                let (key, value) = &members[i];
                proof {
                    assert(decreases_to!(*members => members@[i as int]));
                    assert(decreases_to!(members@[i as int] => members@[i as int].1));
                    assert(decreases_to!(*v => (*v)->Object_0));
                    assert(decreases_to!(*v => members@[i as int].1));
                }
                push_quoted(out, key.as_str());
                push_char(out, ':');
                push_json(out, value);
                assert(d.take(i + 1).subrange(0, i as int) =~= d.take(i as int));
                assert(d.take(i + 1)[i as int] == (key@, value@));
                proof {
                    if i == 0 {
                        assert(d.take(0) =~= Seq::<(Seq<char>, JsonData)>::empty());
                    }
                }
                i = i + 1;
            }
            push_char(out, '}');
            assert(d.take(d.len() as int) =~= d);
            assert(out@ =~= start + json_text(v@));
        },
    }
}

/// The compact JSON text of `v`.
pub fn to_json_text(v: &JsonValue) -> (s: String)
    ensures
        s@ == json_text(v@),
{
    let mut s = String::new();
    push_json(&mut s, v);
    assert(s@ =~= json_text(v@));
    s
}


// ---------------------------------------------------------------------------
// Copies, equality and lookup
// ---------------------------------------------------------------------------

proof fn lemma_items_data_equal(a: Seq<JsonValue>, b: Seq<JsonValue>)
    requires
        a.len() == b.len(),
        forall|i: int| 0 <= i < a.len() ==> data_of(#[trigger] a[i]) == data_of(b[i]),
    ensures
        items_data(a) == items_data(b),
{
    lemma_items_data(a);
    lemma_items_data(b);
    assert(items_data(a) =~= items_data(b));
}

proof fn lemma_members_data_equal(a: Seq<(String, JsonValue)>, b: Seq<(String, JsonValue)>)
    requires
        a.len() == b.len(),
        forall|i: int|
            0 <= i < a.len() ==> (#[trigger] a[i]).0@ == b[i].0@ && data_of(a[i].1) == data_of(
                b[i].1,
            ),
    ensures
        members_data(a) == members_data(b),
{
    lemma_members_data(a);
    lemma_members_data(b);
    assert(members_data(a) =~= members_data(b));
}

/// The decimal text of an integer, with a leading `-` when it is negative.
pub open spec fn signed_decimal(n: int) -> Seq<char> {
    if n < 0 {
        seq!['-'] + decimal((-n) as nat)
    } else {
        decimal(n as nat)
    }
}

impl JsonValue {
    /// A number value holding the decimal text of `n`.
    pub fn from_u64(n: u64) -> (v: JsonValue)
        ensures
            v@ == JsonData::Number(decimal(n as nat)),
    {
        JsonValue::Number(decimal_text(n))
    }

    /// A number value holding the decimal text of `n`, with a leading `-`
    /// when it is negative.
    pub fn from_i64(n: i64) -> (v: JsonValue)
        ensures
            v@ == JsonData::Number(signed_decimal(n as int)),
    {
        let mut t = String::new();
        if n < 0 {
            push_char(&mut t, '-');
            let magnitude: u64 = if n == i64::MIN {
                9223372036854775808u64
            } else {
                (-n) as u64
            };
            crate::text::push_decimal(&mut t, magnitude);
        } else {
            crate::text::push_decimal(&mut t, n as u64);
        }
        assert(t@ =~= signed_decimal(n as int));
        JsonValue::Number(t)
    }

    /// A string value holding `s`.
    pub fn from_str(s: &str) -> (v: JsonValue)
        ensures
            v@ == JsonData::Str(s@),
    {
        JsonValue::Str(owned(s))
    }

    /// An object without members.
    pub fn empty_object() -> (v: JsonValue)
        ensures
            v@ == JsonData::Object(seq![]),
    {
        let members: Vec<(String, JsonValue)> = Vec::new();
        assert(members_data(members@) =~= Seq::<(Seq<char>, JsonData)>::empty());
        JsonValue::Object(members)
    }

    /// A value equal to `self`, sharing nothing with it.
    pub fn copy(&self) -> (r: JsonValue)
        ensures
            r@ == self@,
        decreases self,
    {
        match self {
            JsonValue::Null => JsonValue::Null,
            JsonValue::Bool(b) => JsonValue::Bool(*b),
            JsonValue::Number(t) => JsonValue::Number(t.clone()),
            JsonValue::Str(t) => JsonValue::Str(t.clone()),
            JsonValue::Array(items) => {
                let mut out: Vec<JsonValue> = Vec::new();
                let mut i: usize = 0;
                while i < items.len()
                    invariant
                        i <= items@.len(),
                        *self == JsonValue::Array(*items),
                        out@.len() == i,
                        forall|k: int| 0 <= k < i ==> data_of(#[trigger] out@[k]) == data_of(items@[k]),
                    decreases items@.len() - i,
                {
                    proof {
                        assert(decreases_to!(*items => items@[i as int]));
                        assert(decreases_to!(*self => (*self)->Array_0));
                        assert(decreases_to!(*self => items@[i as int]));
                    }
                    let c = items[i].copy();
                    out.push(c);
                    i = i + 1;
                }
                proof {
                    lemma_items_data_equal(out@, items@);
                }
                JsonValue::Array(out)
            },
            JsonValue::Object(members) => {
                let mut out: Vec<(String, JsonValue)> = Vec::new();
                let mut i: usize = 0;
                while i < members.len()
                    invariant
                        i <= members@.len(),
                        *self == JsonValue::Object(*members),
                        out@.len() == i,
                        forall|k: int|
                            0 <= k < i ==> (#[trigger] out@[k]).0@ == members@[k].0@ && data_of(
                                out@[k].1,
                            ) == data_of(members@[k].1),
                    decreases members@.len() - i,
                {
                    let (key, value) = &members[i];
                    proof {
                        assert(decreases_to!(*members => members@[i as int]));
                        assert(decreases_to!(members@[i as int] => members@[i as int].1));
                        assert(decreases_to!(*self => (*self)->Object_0));
                        assert(decreases_to!(*self => members@[i as int].1));
                    }
                    let c = value.copy();
                    out.push((key.clone(), c));
                    i = i + 1;
                }
                proof {
                    lemma_members_data_equal(out@, members@);
                }
                JsonValue::Object(out)
            },
        }
    }

    /// Whether `self` and `other` are the same JSON value.
    pub fn same_as(&self, other: &JsonValue) -> (r: bool)
        ensures
            r == (self@ == other@),
        decreases self,
    {
        match (self, other) {
            (JsonValue::Null, JsonValue::Null) => true,
            (JsonValue::Bool(a), JsonValue::Bool(b)) => *a == *b,
            (JsonValue::Number(a), JsonValue::Number(b)) => text_eq(a.as_str(), b.as_str()),
            (JsonValue::Str(a), JsonValue::Str(b)) => text_eq(a.as_str(), b.as_str()),
            (JsonValue::Array(a), JsonValue::Array(b)) => {
                proof {
                    lemma_items_data(a@);
                    lemma_items_data(b@);
                }
                if a.len() != b.len() {
                    return false;
                }
                let mut i: usize = 0;
                while i < a.len()
                    invariant
                        i <= a@.len(),
                        a@.len() == b@.len(),
                        *self == JsonValue::Array(*a),
                        *other == JsonValue::Array(*b),
                        forall|k: int| 0 <= k < i ==> data_of(#[trigger] a@[k]) == data_of(b@[k]),
                    decreases a@.len() - i,
                {
                    proof {
                        assert(decreases_to!(*a => a@[i as int]));
                        assert(decreases_to!(*self => (*self)->Array_0));
                        assert(decreases_to!(*self => a@[i as int]));
                    }
                    if !a[i].same_as(&b[i]) {
                        proof {
                            lemma_items_data(a@);
                            lemma_items_data(b@);
                        }
                        assert(items_data(a@)[i as int] != items_data(b@)[i as int]);
                        return false;
                    }
                    i = i + 1;
                }
                proof {
                    lemma_items_data_equal(a@, b@);
                }
                true
            },
            (JsonValue::Object(a), JsonValue::Object(b)) => {
                proof {
                    lemma_members_data(a@);
                    lemma_members_data(b@);
                }
                if a.len() != b.len() {
                    return false;
                }
                let mut i: usize = 0;
                while i < a.len()
                    invariant
                        i <= a@.len(),
                        a@.len() == b@.len(),
                        *self == JsonValue::Object(*a),
                        *other == JsonValue::Object(*b),
                        forall|k: int|
                            0 <= k < i ==> (#[trigger] a@[k]).0@ == b@[k].0@ && data_of(a@[k].1)
                                == data_of(b@[k].1),
                    decreases a@.len() - i,
                {
                    let (ka, va) = &a[i];
                    let (kb, vb) = &b[i];
                    proof {
                        assert(decreases_to!(*a => a@[i as int]));
                        assert(decreases_to!(a@[i as int] => a@[i as int].1));
                        assert(decreases_to!(*self => (*self)->Object_0));
                        assert(decreases_to!(*self => a@[i as int].1));
                    }
                    if !text_eq(ka.as_str(), kb.as_str()) || !va.same_as(vb) {
                        proof {
                            lemma_members_data(a@);
                            lemma_members_data(b@);
                        }
                        assert(members_data(a@)[i as int] != members_data(b@)[i as int]);
                        return false;
                    }
                    i = i + 1;
                }
                proof {
                    lemma_members_data_equal(a@, b@);
                }
                true
            },
            _ => false,
        }
    }

    /// The value of member `key` when `self` is an object that has one, as
    /// `serde_json::Value::get` with a string key answers.
    pub fn get(&self, key: &str) -> (r: Option<&JsonValue>)
        ensures
            r is Some <==> lookup(self@, key@) is Some,
            r matches Some(x) ==> lookup(self@, key@) == Some(x@),
    {
        match self {
            JsonValue::Object(members) => {
                proof {
                    lemma_members_data(members@);
                }
                let ghost d = members_data(members@);
                let mut i: usize = 0;
                while i < members.len()
                    invariant
                        i <= members@.len(),
                        *self == JsonValue::Object(*members),
                        d == members_data(members@),
                        d.len() == members@.len(),
                        forall|k: int|
                            0 <= k < members@.len() ==> #[trigger] d[k] == (
                                members@[k].0@,
                                data_of(members@[k].1),
                            ),
                        lookup_members(d.take(i as int), key@) is None,
                    decreases members@.len() - i,
                {
                    let (k, v) = &members[i];
                    assert(d.take(i + 1).subrange(0, i as int) =~= d.take(i as int));
                    if text_eq(k.as_str(), key) {
                        proof {
                            lemma_lookup_prefix(d, key@, i + 1);
                        }
                        return Some(v);
                    }
                    i = i + 1;
                }
                assert(d.take(d.len() as int) =~= d);
                None
            },
            _ => None,
        }
    }
}

/// The value of the first member of `members` whose key is `key`.
pub open spec fn lookup_members(members: Seq<(Seq<char>, JsonData)>, key: Seq<char>) -> Option<JsonData>
    decreases members.len(),
{
    if members.len() == 0 {
        None
    } else {
        let earlier = lookup_members(members.subrange(0, members.len() - 1), key);
        if earlier is Some {
            earlier
        } else if members[members.len() - 1].0 == key {
            Some(members[members.len() - 1].1)
        } else {
            None
        }
    }
}

/// The value of member `key` of `d`, if `d` is an object that has one.
pub open spec fn lookup(d: JsonData, key: Seq<char>) -> Option<JsonData> {
    match d {
        JsonData::Object(members) => lookup_members(members, key),
        _ => None,
    }
}

proof fn lemma_lookup_prefix(d: Seq<(Seq<char>, JsonData)>, key: Seq<char>, n: int)
    requires
        0 < n <= d.len(),
        lookup_members(d.take(n - 1), key) is None,
        d[n - 1].0 == key,
    ensures
        lookup_members(d, key) == Some(d[n - 1].1),
    decreases d.len() - n,
{
    assert(d.take(n).subrange(0, n - 1) =~= d.take(n - 1));
    if n < d.len() {
        assert(d.take(n + 1).subrange(0, n) =~= d.take(n));
        lemma_lookup_prefix_extend(d, key, n);
    } else {
        assert(d.take(n) =~= d);
    }
}

proof fn lemma_lookup_prefix_extend(d: Seq<(Seq<char>, JsonData)>, key: Seq<char>, n: int)
    requires
        0 < n <= d.len(),
        lookup_members(d.take(n), key) is Some,
    ensures
        lookup_members(d, key) == lookup_members(d.take(n), key),
    decreases d.len() - n,
{
    if n < d.len() {
        assert(d.take(n + 1).subrange(0, n) =~= d.take(n));
        lemma_lookup_prefix_extend(d, key, n + 1);
    } else {
        assert(d.take(n) =~= d);
    }
}


// ---------------------------------------------------------------------------
// Redaction
// ---------------------------------------------------------------------------

/// `d` with the value of every object member whose key is in `keys`, at any
/// depth, replaced by the string `[REDACTED]`.
pub open spec fn redact(d: JsonData, keys: Seq<Seq<char>>) -> JsonData
    decreases d,
{
    match d {
        JsonData::Object(members) => JsonData::Object(redact_members(members, keys)),
        JsonData::Array(items) => JsonData::Array(redact_items(items, keys)),
        _ => d,
    }
}

pub open spec fn redact_items(items: Seq<JsonData>, keys: Seq<Seq<char>>) -> Seq<JsonData>
    decreases items,
{
    if items.len() == 0 {
        seq![]
    } else {
        redact_items(items.subrange(0, items.len() - 1), keys).push(
            redact(items[items.len() - 1], keys),
        )
    }
}

pub open spec fn redacted_marker() -> Seq<char> {
    "[REDACTED]"@
}

pub open spec fn redact_members(members: Seq<(Seq<char>, JsonData)>, keys: Seq<Seq<char>>) -> Seq<
    (Seq<char>, JsonData),
>
    decreases members,
{
    if members.len() == 0 {
        seq![]
    } else {
        let last = members[members.len() - 1];
        redact_members(members.subrange(0, members.len() - 1), keys).push(
            (
                last.0,
                if keys.contains(last.0) {
                    JsonData::Str(redacted_marker())
                } else {
                    redact(last.1, keys)
                },
            ),
        )
    }
}

pub proof fn lemma_redact_items(items: Seq<JsonData>, keys: Seq<Seq<char>>)
    ensures
        redact_items(items, keys).len() == items.len(),
        forall|i: int|
            0 <= i < items.len() ==> #[trigger] redact_items(items, keys)[i] == redact(items[i], keys),
    decreases items.len(),
{
    if items.len() > 0 {
        lemma_redact_items(items.subrange(0, items.len() - 1), keys);
    }
}

pub proof fn lemma_redact_members(members: Seq<(Seq<char>, JsonData)>, keys: Seq<Seq<char>>)
    ensures
        redact_members(members, keys).len() == members.len(),
        forall|i: int|
            0 <= i < members.len() ==> #[trigger] redact_members(members, keys)[i] == (
                members[i].0,
                if keys.contains(members[i].0) {
                    JsonData::Str(redacted_marker())
                } else {
                    redact(members[i].1, keys)
                },
            ),
    decreases members.len(),
{
    if members.len() > 0 {
        lemma_redact_members(members.subrange(0, members.len() - 1), keys);
    }
}

/// Redacting twice gives what redacting once gives.
pub proof fn lemma_redact_idempotent(d: JsonData, keys: Seq<Seq<char>>)
    ensures
        redact(redact(d, keys), keys) == redact(d, keys),
    decreases d,
{
    match d {
        JsonData::Object(members) => {
            let once = redact_members(members, keys);
            lemma_redact_members(members, keys);
            lemma_redact_members(once, keys);
            assert forall|i: int| 0 <= i < members.len() implies #[trigger] redact_members(
                once,
                keys,
            )[i] == once[i] by {
                if !keys.contains(members[i].0) {
                    lemma_redact_idempotent(members[i].1, keys);
                }
            }
            assert(redact_members(once, keys) =~= once);
        },
        JsonData::Array(items) => {
            let once = redact_items(items, keys);
            lemma_redact_items(items, keys);
            lemma_redact_items(once, keys);
            assert forall|i: int| 0 <= i < items.len() implies #[trigger] redact_items(
                once,
                keys,
            )[i] == once[i] by {
                lemma_redact_idempotent(items[i], keys);
            }
            assert(redact_items(once, keys) =~= once);
        },
        _ => {},
    }
}

/// A value is in a concatenation exactly when it is in one of the parts.
pub proof fn lemma_keys_concat(k1: Seq<Seq<char>>, k2: Seq<Seq<char>>, x: Seq<char>)
    ensures
        (k1 + k2).contains(x) <==> (k1.contains(x) || k2.contains(x)),
{
    let k = k1 + k2;
    if k.contains(x) {
        let i = choose|i: int| 0 <= i < k.len() && k[i] == x;
        if i < k1.len() {
            assert(k1[i] == x);
        } else {
            assert(k2[i - k1.len()] == x);
        }
    }
    if k1.contains(x) {
        let i = choose|i: int| 0 <= i < k1.len() && k1[i] == x;
        assert(k[i] == x);
    }
    if k2.contains(x) {
        let i = choose|i: int| 0 <= i < k2.len() && k2[i] == x;
        assert(k[k1.len() + i] == x);
    }
}

/// Redacting with one key list and then another gives what redacting once
/// with both lists gives.
pub proof fn lemma_redact_compose(d: JsonData, k1: Seq<Seq<char>>, k2: Seq<Seq<char>>)
    ensures
        redact(redact(d, k1), k2) == redact(d, k1 + k2),
    decreases d,
{
    match d {
        JsonData::Object(members) => {
            let once = redact_members(members, k1);
            lemma_redact_members(members, k1);
            lemma_redact_members(once, k2);
            lemma_redact_members(members, k1 + k2);
            assert forall|i: int| 0 <= i < members.len() implies #[trigger] redact_members(
                once,
                k2,
            )[i] == redact_members(members, k1 + k2)[i] by {
                lemma_keys_concat(k1, k2, members[i].0);
                if !k1.contains(members[i].0) {
                    lemma_redact_compose(members[i].1, k1, k2);
                }
            }
            assert(redact_members(once, k2) =~= redact_members(members, k1 + k2));
        },
        JsonData::Array(items) => {
            let once = redact_items(items, k1);
            lemma_redact_items(items, k1);
            lemma_redact_items(once, k2);
            lemma_redact_items(items, k1 + k2);
            assert forall|i: int| 0 <= i < items.len() implies #[trigger] redact_items(
                once,
                k2,
            )[i] == redact_items(items, k1 + k2)[i] by {
                lemma_redact_compose(items[i], k1, k2);
            }
            assert(redact_items(once, k2) =~= redact_items(items, k1 + k2));
        },
        _ => {},
    }
}

pub open spec fn key_views(keys: Seq<String>) -> Seq<Seq<char>> {
    keys.map_values(|k: String| k@)
}

fn is_listed(keys: &Vec<String>, key: &str) -> (r: bool)
    ensures
        r == key_views(keys@).contains(key@),
{
    let mut i: usize = 0;
    while i < keys.len()
        invariant
            i <= keys@.len(),
            forall|k: int| 0 <= k < i ==> keys@[k]@ != key@,
        decreases keys@.len() - i,
    {
        if text_eq(keys[i].as_str(), key) {
            assert(key_views(keys@)[i as int] == key@);
            return true;
        }
        i = i + 1;
    }
    assert(!key_views(keys@).contains(key@)) by {
        if key_views(keys@).contains(key@) {
            let k = choose|k: int| 0 <= k < key_views(keys@).len() && key_views(keys@)[k] == key@;
            assert(keys@[k]@ == key@);
        }
    }
    false
}

/// `value` with the value of every object member whose key is in
/// `sensitive_keys`, at any depth, replaced by the string `[REDACTED]`.
pub fn redact_value(value: &JsonValue, sensitive_keys: &Vec<String>) -> (r: JsonValue)
    ensures
        r@ == redact(value@, key_views(sensitive_keys@)),
    decreases value,
{
    let ghost keys = key_views(sensitive_keys@);
    match value {
        JsonValue::Object(members) => {
            let mut out: Vec<(String, JsonValue)> = Vec::new();
            let mut i: usize = 0;
            while i < members.len()
                invariant
                    i <= members@.len(),
                    *value == JsonValue::Object(*members),
                    keys == key_views(sensitive_keys@),
                    out@.len() == i,
                    forall|k: int|
                        0 <= k < i ==> (#[trigger] out@[k]).0@ == members@[k].0@ && data_of(
                            out@[k].1,
                        ) == (if keys.contains(members@[k].0@) {
                            JsonData::Str(redacted_marker())
                        } else {
                            redact(data_of(members@[k].1), keys)
                        }),
                decreases members@.len() - i,
            {
                let (key, v) = &members[i];
                if is_listed(sensitive_keys, key.as_str()) {
                    let marker = JsonValue::from_str("[REDACTED]");
                    out.push((key.clone(), marker));
                } else {
                    proof {
                        assert(decreases_to!(*members => members@[i as int]));
                        assert(decreases_to!(members@[i as int] => members@[i as int].1));
                        assert(decreases_to!(*value => (*value)->Object_0));
                        assert(decreases_to!(*value => members@[i as int].1));
                    }
                    let red = redact_value(v, sensitive_keys);
                    out.push((key.clone(), red));
                }
                i = i + 1;
            }
            proof {
                lemma_members_data(out@);
                lemma_members_data(members@);
                lemma_redact_members(members_data(members@), keys);
                assert(members_data(out@) =~= redact_members(members_data(members@), keys));
            }
            JsonValue::Object(out)
        },
        JsonValue::Array(items) => {
            let mut out: Vec<JsonValue> = Vec::new();
            let mut i: usize = 0;
            while i < items.len()
                invariant
                    i <= items@.len(),
                    *value == JsonValue::Array(*items),
                    keys == key_views(sensitive_keys@),
                    out@.len() == i,
                    forall|k: int|
                        0 <= k < i ==> data_of(#[trigger] out@[k]) == redact(data_of(items@[k]), keys),
                decreases items@.len() - i,
            {
                proof {
                    assert(decreases_to!(*items => items@[i as int]));
                    assert(decreases_to!(*value => (*value)->Array_0));
                    assert(decreases_to!(*value => items@[i as int]));
                }
                let red = redact_value(&items[i], sensitive_keys);
                out.push(red);
                i = i + 1;
            }
            proof {
                lemma_items_data(out@);
                lemma_items_data(items@);
                lemma_redact_items(items_data(items@), keys);
                assert(items_data(out@) =~= redact_items(items_data(items@), keys));
            }
            JsonValue::Array(out)
        },
        _ => value.copy(),
    }
}


// ---------------------------------------------------------------------------
// Small builders
// ---------------------------------------------------------------------------

/// The object with members `k1: v1, k2: v2`; the keys must be in
/// increasing order, as object keys always are.
pub fn object2(k1: &str, v1: JsonValue, k2: &str, v2: JsonValue) -> (v: JsonValue)
    requires
        text_lt(k1@, k2@),
    ensures
        v@ == JsonData::Object(seq![(k1@, v1@), (k2@, v2@)]),
{
    let mut m: Vec<(String, JsonValue)> = Vec::new();
    m.push((owned(k1), v1));
    m.push((owned(k2), v2));
    proof {
        lemma_members_data(m@);
        assert(members_data(m@) =~= seq![(k1@, v1@), (k2@, v2@)]);
    }
    JsonValue::Object(m)
}

/// The object with the one member `k1: v1`.
pub fn object1(k1: &str, v1: JsonValue) -> (v: JsonValue)
    ensures
        v@ == JsonData::Object(seq![(k1@, v1@)]),
{
    let mut m: Vec<(String, JsonValue)> = Vec::new();
    m.push((owned(k1), v1));
    proof {
        lemma_members_data(m@);
        assert(members_data(m@) =~= seq![(k1@, v1@)]);
    }
    JsonValue::Object(m)
}

/// The array with the one item `v1`.
pub fn array1(v1: JsonValue) -> (v: JsonValue)
    ensures
        v@ == JsonData::Array(seq![v1@]),
{
    let mut a: Vec<JsonValue> = Vec::new();
    a.push(v1);
    proof {
        lemma_items_data(a@);
        assert(items_data(a@) =~= seq![v1@]);
    }
    JsonValue::Array(a)
}

/// The object with three members; the keys must be in increasing order.
pub fn object3(k1: &str, v1: JsonValue, k2: &str, v2: JsonValue, k3: &str, v3: JsonValue) -> (v: JsonValue)
    requires
        text_lt(k1@, k2@),
        text_lt(k2@, k3@),
    ensures
        v@ == JsonData::Object(seq![(k1@, v1@), (k2@, v2@), (k3@, v3@)]),
{
    let mut m: Vec<(String, JsonValue)> = Vec::new();
    m.push((owned(k1), v1));
    m.push((owned(k2), v2));
    m.push((owned(k3), v3));
    proof {
        lemma_members_data(m@);
        assert(members_data(m@) =~= seq![(k1@, v1@), (k2@, v2@), (k3@, v3@)]);
    }
    JsonValue::Object(m)
}

/// The object with four members; the keys must be in increasing order.
pub fn object4(
    k1: &str,
    v1: JsonValue,
    k2: &str,
    v2: JsonValue,
    k3: &str,
    v3: JsonValue,
    k4: &str,
    v4: JsonValue,
) -> (v: JsonValue)
    requires
        text_lt(k1@, k2@),
        text_lt(k2@, k3@),
        text_lt(k3@, k4@),
    ensures
        v@ == JsonData::Object(seq![(k1@, v1@), (k2@, v2@), (k3@, v3@), (k4@, v4@)]),
{
    let mut m: Vec<(String, JsonValue)> = Vec::new();
    m.push((owned(k1), v1));
    m.push((owned(k2), v2));
    m.push((owned(k3), v3));
    m.push((owned(k4), v4));
    proof {
        lemma_members_data(m@);
        assert(members_data(m@) =~= seq![(k1@, v1@), (k2@, v2@), (k3@, v3@), (k4@, v4@)]);
    }
    JsonValue::Object(m)
}

/// The array with the three items `v1, v2, v3`.
pub fn array3(v1: JsonValue, v2: JsonValue, v3: JsonValue) -> (v: JsonValue)
    ensures
        v@ == JsonData::Array(seq![v1@, v2@, v3@]),
{
    let mut a: Vec<JsonValue> = Vec::new();
    a.push(v1);
    a.push(v2);
    a.push(v3);
    proof {
        lemma_items_data(a@);
        assert(items_data(a@) =~= seq![v1@, v2@, v3@]);
    }
    JsonValue::Array(a)
}

} // verus!
