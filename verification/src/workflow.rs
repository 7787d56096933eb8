//! The decisions behind the command-line workflows: replay overrides,
//! diffs, bisection and guard policies.

use vstd::prelude::*;

use crate::assertion::{assertion_outcome, parse_simple_assertion};
use crate::event::{string_views, Event, EventData, EventKind};
use crate::json::JsonData;
use crate::label::label_views;
use crate::tape::{event_views, CausaError, Tape, TapeData};
use crate::text::{
    chars_of, find_text, first_occurrence, occurs_at, starts_with, string_from_chars, text_eq,
    text_starts_with,
};

verus! {

broadcast use vstd::std_specs::vec::group_vec_axioms;

// ---------------------------------------------------------------------------
// Replay override specs: `step:N@fixture.json`
// ---------------------------------------------------------------------------

/// Why an override spec was refused.
#[derive(Debug, Clone, Copy, PartialEq, Eq, Structural)]
pub enum OverrideSpecError {
    /// There is no `@` in the spec.
    MissingAt,
    /// The step is not an unsigned 64-bit integer.
    InvalidStep,
    /// The step is zero.
    ZeroStep,
    /// The fixture path is empty.
    EmptyPath,
}

pub open spec fn is_digit(c: char) -> bool {
    '0' <= c && c <= '9'
}

pub open spec fn all_digits(s: Seq<char>) -> bool {
    forall|i: int| 0 <= i < s.len() ==> is_digit(#[trigger] s[i])
}

/// The value of a sequence of decimal digits.
pub open spec fn digits_value(s: Seq<char>) -> nat
    decreases s.len(),
{
    if s.len() == 0 {
        0
    } else {
        digits_value(s.drop_last()) * 10 + ((s.last() as int - 48) as nat)
    }
}

/// What `str::parse::<u64>` gives: an optional `+` followed by at least one
/// decimal digit, with a value that fits in 64 bits.
pub open spec fn parse_u64_spec(s: Seq<char>) -> Option<u64> {
    let d = if s.len() > 0 && s[0] == '+' {
        s.drop_first()
    } else {
        s
    };
    if d.len() > 0 && all_digits(d) && digits_value(d) <= u64::MAX {
        Some(digits_value(d) as u64)
    } else {
        None
    }
}

proof fn lemma_digits_value_grows(s: Seq<char>, k: int)
    requires
        0 <= k <= s.len(),
        all_digits(s),
    ensures
        digits_value(s.take(k)) <= digits_value(s),
    decreases s.len() - k,
{
    if k < s.len() {
        lemma_digits_value_grows(s, k + 1);
        assert(s.take(k + 1).drop_last() =~= s.take(k));
    } else {
        assert(s.take(k) =~= s);
    }
}

/// Reads an unsigned 64-bit integer as `str::parse::<u64>` does.
pub fn parse_u64(cs: &Vec<char>, from: usize, to: usize) -> (r: Option<u64>)
    requires
        from <= to <= cs@.len(),
    ensures
        r == parse_u64_spec(cs@.subrange(from as int, to as int)),
{
    let ghost s = cs@.subrange(from as int, to as int);
    let start: usize = if from < to && cs[from] == '+' {
        from + 1
    } else {
        from
    };
    let ghost d = cs@.subrange(start as int, to as int);
    assert(d =~= if s.len() > 0 && s[0] == '+' {
        s.drop_first()
    } else {
        s
    });
    if start == to {
        return None;
    }
    let mut value: u64 = 0;
    let mut i: usize = start;
    while i < to
        invariant
            from <= start <= i <= to <= cs@.len(),
            s == cs@.subrange(from as int, to as int),
            d == cs@.subrange(start as int, to as int),
            d == (if s.len() > 0 && s[0] == '+' {
                s.drop_first()
            } else {
                s
            }),
            d.len() > 0,
            all_digits(d.take(i - start)),
            value == digits_value(d.take(i - start)),
        decreases to - i,
    {
        let c = cs[i];
        if !('0' <= c && c <= '9') {
            assert(!all_digits(d)) by {
                assert(d[i - start] == c);
            }
            return None;
        }
        let digit: u64 = (c as u32 - 48) as u64;
        assert(d.take(i - start + 1).drop_last() =~= d.take(i - start));
        if value > (u64::MAX - digit) / 10 {
            proof {
                assert(digits_value(d.take(i - start + 1)) > u64::MAX);
                if all_digits(d) {
                    lemma_digits_value_grows(d, i - start + 1);
                }
            }
            return None;
        }
        value = value * 10 + digit;
        i = i + 1;
    }
    assert(d.take(to - start) =~= d);
    Some(value)
}

/// What `parse_override_spec` gives for the text `s`.
pub open spec fn override_spec_outcome(s: Seq<char>) -> Result<(u64, Seq<char>), OverrideSpecError> {
    if !(exists|i: int| first_occurrence(s, seq!['@'], i)) {
        Err(OverrideSpecError::MissingAt)
    } else {
        let i = choose|i: int| first_occurrence(s, seq!['@'], i);
        let step_text = s.take(i);
        let digits = if starts_with(step_text, "step:"@) {
            step_text.skip(5)
        } else {
            step_text
        };
        let path = s.skip(i + 1);
        match parse_u64_spec(digits) {
            None => Err(OverrideSpecError::InvalidStep),
            Some(step) => if step == 0 {
                Err(OverrideSpecError::ZeroStep)
            } else if path.len() == 0 {
                Err(OverrideSpecError::EmptyPath)
            } else {
                Ok((step, path))
            },
        }
    }
}

/// Reads a replay override of the form `step:N@fixture.json` (the `step:`
/// prefix is optional): the step, a positive integer, and the fixture path,
/// which may not be empty.
pub fn parse_override_spec(spec: &str) -> (r: Result<(u64, String), OverrideSpecError>)
    ensures
        match (r, override_spec_outcome(spec@)) {
            (Ok((n, p)), Ok((m, q))) => n == m && p@ == q,
            (Err(e), Err(f)) => e == f,
            _ => false,
        },
{
    let cs = chars_of(spec);
    let at = vec!['@'];
    assert(at@ =~= seq!['@']);
    assert(cs@.skip(0) =~= cs@);
    let i = match find_text(&cs, 0, &at) {
        None => {
            assert(!(exists|i: int| first_occurrence(spec@, seq!['@'], i))) by {
                if exists|i: int| first_occurrence(spec@, seq!['@'], i) {
                    let i = choose|i: int| first_occurrence(spec@, seq!['@'], i);
                    assert(occurs_at(cs@, at@, i));
                }
            }
            return Err(OverrideSpecError::MissingAt);
        },
        Some(i) => i,
    };
    proof {
        let j = choose|j: int| first_occurrence(spec@, seq!['@'], j);
        assert(first_occurrence(spec@, seq!['@'], i as int));
        assert(i == j);
    }
    let step_text = string_from_chars(&cs, 0, i);
    assert(cs@.subrange(0, i as int) =~= spec@.take(i as int));
    let from: usize = if text_starts_with(step_text.as_str(), "step:") {
        proof {
            reveal_strlit("step:");
        }
        5
    } else {
        0
    };
    assert(cs@.subrange(from as int, i as int) =~= if starts_with(spec@.take(i as int), "step:"@) {
        spec@.take(i as int).skip(5)
    } else {
        spec@.take(i as int)
    });
    let step = match parse_u64(&cs, from, i) {
        None => return Err(OverrideSpecError::InvalidStep),
        Some(n) => n,
    };
    if step == 0 {
        return Err(OverrideSpecError::ZeroStep);
    }
    if i + 1 == cs.len() {
        return Err(OverrideSpecError::EmptyPath);
    }
    let path = string_from_chars(&cs, i + 1, cs.len());
    assert(cs@.subrange(i + 1, cs@.len() as int) =~= spec@.skip(i + 1));
    Ok((step, path))
}


// ---------------------------------------------------------------------------
// Comparing events and tapes
// ---------------------------------------------------------------------------

pub open spec fn field_if(changed: bool, name: Seq<char>) -> Seq<Seq<char>> {
    if changed {
        seq![name]
    } else {
        seq![]
    }
}

/// The names of the fields in which two events differ, in field order.
pub open spec fn changed_field_names(l: EventData, r: EventData) -> Seq<Seq<char>> {
    field_if(l.kind != r.kind, "kind"@) + field_if(l.name != r.name, "name"@) + field_if(
        l.input != r.input,
        "input"@,
    ) + field_if(l.output != r.output, "output"@) + field_if(l.labels != r.labels, "labels"@)
        + field_if(l.parents != r.parents, "parents"@)
}

pub open spec fn str_views(s: Seq<&'static str>) -> Seq<Seq<char>> {
    s.map_values(|t: &'static str| t@)
}

fn labels_equal(a: &Event, b: &Event) -> (r: bool)
    ensures
        r == (a@.labels == b@.labels),
{
    if a.labels.len() != b.labels.len() {
        assert(label_views(a.labels@).len() != label_views(b.labels@).len());
        return false;
    }
    let mut i: usize = 0;
    while i < a.labels.len()
        invariant
            i <= a.labels@.len(),
            a.labels@.len() == b.labels@.len(),
            forall|k: int| 0 <= k < i ==> label_views(a.labels@)[k] == label_views(b.labels@)[k],
        decreases a.labels@.len() - i,
    {
        if !text_eq(a.labels[i].namespace.as_str(), b.labels[i].namespace.as_str()) || !text_eq(
            a.labels[i].value.as_str(),
            b.labels[i].value.as_str(),
        ) {
            assert(label_views(a.labels@)[i as int] != label_views(b.labels@)[i as int]);
            return false;
        }
        i = i + 1;
    }
    assert(label_views(a.labels@) =~= label_views(b.labels@));
    true
}

fn strings_equal(a: &Vec<String>, b: &Vec<String>) -> (r: bool)
    ensures
        r == (string_views(a@) == string_views(b@)),
{
    if a.len() != b.len() {
        assert(string_views(a@).len() != string_views(b@).len());
        return false;
    }
    let mut i: usize = 0;
    while i < a.len()
        invariant
            i <= a@.len(),
            a@.len() == b@.len(),
            forall|k: int| 0 <= k < i ==> string_views(a@)[k] == string_views(b@)[k],
        decreases a@.len() - i,
    {
        if !text_eq(a[i].as_str(), b[i].as_str()) {
            assert(string_views(a@)[i as int] != string_views(b@)[i as int]);
            return false;
        }
        i = i + 1;
    }
    assert(string_views(a@) =~= string_views(b@));
    true
}

/// The names of the fields (`kind`, `name`, `input`, `output`, `labels`,
/// `parents`) in which two events differ.
pub fn changed_fields(left: &Event, right: &Event) -> (r: Vec<&'static str>)
    ensures
        str_views(r@) == changed_field_names(left@, right@),
{
    let mut fields: Vec<&'static str> = Vec::new();
    let ghost l = left@;
    let ghost rr = right@;
    if left.kind != right.kind {
        fields.push("kind");
    }
    assert(str_views(fields@) =~= field_if(l.kind != rr.kind, "kind"@));
    let ghost a1 = str_views(fields@);
    if !text_eq(left.name.as_str(), right.name.as_str()) {
        fields.push("name");
    }
    assert(str_views(fields@) =~= a1 + field_if(l.name != rr.name, "name"@));
    let ghost a2 = str_views(fields@);
    if !left.input.same_as(&right.input) {
        fields.push("input");
    }
    assert(str_views(fields@) =~= a2 + field_if(l.input != rr.input, "input"@));
    let ghost a3 = str_views(fields@);
    if !left.output.same_as(&right.output) {
        fields.push("output");
    }
    assert(str_views(fields@) =~= a3 + field_if(l.output != rr.output, "output"@));
    let ghost a4 = str_views(fields@);
    if !labels_equal(left, right) {
        fields.push("labels");
    }
    assert(str_views(fields@) =~= a4 + field_if(l.labels != rr.labels, "labels"@));
    let ghost a5 = str_views(fields@);
    if !strings_equal(&left.parents, &right.parents) {
        fields.push("parents");
    }
    assert(str_views(fields@) =~= a5 + field_if(l.parents != rr.parents, "parents"@));
    fields
}

/// Step `i` (from 0) differs between two event lists: present in one only,
/// or present in both with different hashes.
pub open spec fn differs_at(l: Seq<EventData>, r: Seq<EventData>, i: int) -> bool {
    ((i < l.len()) != (i < r.len())) || (i < l.len() && i < r.len() && l[i].hash != r[i].hash)
}

/// `i` is the first index at which both lists have an event and the hashes
/// differ.
pub open spec fn first_hash_mismatch(l: Seq<EventData>, r: Seq<EventData>, i: int) -> bool {
    &&& 0 <= i < l.len()
    &&& i < r.len()
    &&& l[i].hash != r[i].hash
    &&& forall|j: int| 0 <= j < i ==> (#[trigger] l[j]).hash == r[j].hash
}

pub open spec fn max_len(l: Seq<EventData>, r: Seq<EventData>) -> int {
    if l.len() >= r.len() {
        l.len() as int
    } else {
        r.len() as int
    }
}

/// The length of the shorter of two event lists.
pub open spec fn shorter_len(l: Seq<EventData>, r: Seq<EventData>) -> int {
    if l.len() <= r.len() {
        l.len() as int
    } else {
        r.len() as int
    }
}

/// The result of comparing two tapes node by node.
pub struct TapeDiff {
    /// The indices (from 0) at which the tapes differ, in order.
    pub differing: Vec<usize>,
    /// The first divergent step (from 1): one past the first common index
    /// whose hashes differ, else one past the shorter tape; 0 when the tapes
    /// do not differ.
    pub first_divergence: usize,
}

fn first_mismatch(l: &Vec<Event>, r: &Vec<Event>) -> (m: Option<usize>)
    ensures
        m matches Some(i) ==> first_hash_mismatch(event_views(l@), event_views(r@), i as int),
        m is None ==> forall|i: int|
            0 <= i < l@.len() && i < r@.len() ==> (#[trigger] l@[i])@.hash == r@[i]@.hash,
{
    let mut i: usize = 0;
    while i < l.len() && i < r.len()
        invariant
            i <= l@.len(),
            i <= r@.len(),
            forall|j: int| 0 <= j < i ==> (#[trigger] l@[j])@.hash == r@[j]@.hash,
        decreases l@.len() - i,
    {
        if !text_eq(l[i].hash.as_str(), r[i].hash.as_str()) {
            assert(first_hash_mismatch(event_views(l@), event_views(r@), i as int)) by {
                assert forall|j: int| 0 <= j < i implies (#[trigger] event_views(l@)[j]).hash
                    == event_views(r@)[j].hash by {
                    assert(l@[j]@.hash == r@[j]@.hash);
                }
            }
            return Some(i);
        }
        i = i + 1;
    }
    None
}

/// Compares two tapes node by node: the indices at which they differ and
/// the first divergent step.
pub fn diff_tapes(left: &Tape, right: &Tape) -> (d: TapeDiff)
    requires
        left@.events.len() < usize::MAX,
    ensures
        forall|k: int|
            0 <= k < d.differing@.len() ==> (#[trigger] d.differing@[k]) < max_len(
                left@.events,
                right@.events,
            ) && differs_at(left@.events, right@.events, d.differing@[k] as int),
        forall|k: int, m: int|
            0 <= k < m < d.differing@.len() ==> #[trigger] d.differing@[k]
                < #[trigger] d.differing@[m],
        forall|i: int|
            0 <= i < max_len(left@.events, right@.events) && differs_at(
                left@.events,
                right@.events,
                i,
            ) ==> #[trigger] d.differing@.contains(i as usize),
        d.differing@.len() == 0 ==> d.first_divergence == 0,
        d.differing@.len() > 0 ==> (forall|i: int|
            first_hash_mismatch(left@.events, right@.events, i) ==> d.first_divergence == i + 1),
        d.differing@.len() > 0 && (forall|i: int| !first_hash_mismatch(left@.events, right@.events, i))
            ==> d.first_divergence == shorter_len(left@.events, right@.events) + 1,
{
    let ghost l = left@.events;
    let ghost r = right@.events;
    let nl: usize = left.events.len();
    let nr: usize = right.events.len();
    let n: usize = if nl >= nr { nl } else { nr };
    let mut differing: Vec<usize> = Vec::new();
    let mut i: usize = 0;
    while i < n
        invariant
            i <= n,
            n as int == max_len(l, r),
            nl == l.len(),
            nr == r.len(),
            l == left@.events,
            r == right@.events,
            forall|k: int| 0 <= k < differing@.len() ==> (#[trigger] differing@[k]) < i && differs_at(l, r, differing@[k] as int),
            forall|k: int, m: int| 0 <= k < m < differing@.len() ==> #[trigger] differing@[k] < #[trigger] differing@[m],
            forall|j: int| 0 <= j < i && differs_at(l, r, j) ==> #[trigger] differing@.contains(j as usize),
        decreases n - i,
    {
        let differs = if i < nl && i < nr {
            !text_eq(left.events[i].hash.as_str(), right.events[i].hash.as_str())
        } else {
            true
        };
        let ghost before = differing@;
        if differs {
            differing.push(i);
            assert forall|j: int| 0 <= j < i + 1 && differs_at(l, r, j) implies #[trigger] differing@.contains(j as usize) by {
                if j < i {
                    assert(before.contains(j as usize));
                    let k = choose|k: int| 0 <= k < before.len() && before[k] == j as usize;
                    assert(differing@[k] == j as usize);
                } else {
                    assert(differing@[differing@.len() - 1] == j as usize);
                }
            }
        } else {
            assert(!differs_at(l, r, i as int));
        }
        i = i + 1;
    }
    let first_divergence: usize = if differing.len() == 0 {
        0
    } else {
        match first_mismatch(&left.events, &right.events) {
            Some(k) => k + 1,
            None => {
                assert forall|k: int| !first_hash_mismatch(l, r, k) by {
                    if 0 <= k < l.len() && k < r.len() {
                        assert(left.events@[k]@.hash == right.events@[k]@.hash);
                    }
                }
                if nl <= nr {
                    nl + 1
                } else {
                    nr + 1
                }
            },
        }
    };
    proof {
        assert forall|a: int, b: int| first_hash_mismatch(l, r, a) && first_hash_mismatch(l, r, b) implies a == b by {}
    }
    TapeDiff { differing, first_divergence }
}


// ---------------------------------------------------------------------------
// Bisection
// ---------------------------------------------------------------------------

/// Why a bisection could not run.
#[derive(Debug)]
pub enum BisectError {
    /// The assertion could not be evaluated on one of the tapes.
    Assertion(CausaError),
    /// The assertion does not pass on the good tape and fail on the bad one.
    NotFlipped,
}

/// The outcome of a bisection.
#[derive(Debug, Clone, Copy, PartialEq, Eq, Structural)]
pub enum BisectOutcome {
    /// The tapes have the same events.
    NoDivergence,
    /// The bad tape's event at `index` (from 0) is the first divergent node;
    /// `affected` events of the bad tape are at its step or later, and the
    /// bad tape ends at `last_step`.
    RootCause { index: usize, affected: usize, last_step: u64 },
    /// The bad tape's events agree with the good tape's but stop short of
    /// them: the first divergent node is the good tape's node `first_missing`
    /// (from 1), which the bad tape lacks.
    Truncated { first_missing: usize },
}

/// The first divergent step (from 1) of `bad` against `good`: the first
/// common index with different hashes, else one past the shorter tape when
/// the lengths differ, else 0.
pub open spec fn bisect_first(bad: Seq<EventData>, good: Seq<EventData>) -> int {
    if exists|i: int| first_hash_mismatch(bad, good, i) {
        (choose|i: int| first_hash_mismatch(bad, good, i)) + 1
    } else if bad.len() != good.len() {
        (if bad.len() <= good.len() {
            bad.len() as int
        } else {
            good.len() as int
        }) + 1
    } else {
        0
    }
}

/// The number of events at step `step` or later.
pub open spec fn count_from_step(events: Seq<EventData>, step: u64) -> nat
    decreases events.len(),
{
    if events.len() == 0 {
        0
    } else {
        count_from_step(events.drop_last(), step) + if events.last().step >= step {
            1nat
        } else {
            0nat
        }
    }
}

/// The assertion passes on the good tape and fails on the bad one.
pub open spec fn assertion_flips(assertion: Seq<char>, bad: TapeData, good: TapeData) -> bool {
    assertion_outcome(assertion, good) == Ok::<bool, bool>(true) && assertion_outcome(
        assertion,
        bad,
    ) == Ok::<bool, bool>(false)
}

/// Finds the first node at which a bad tape diverges from a good one, given
/// an assertion that passes on the good tape and fails on the bad one.  When
/// the bad tape's events are a strict prefix of the good tape's, the first
/// divergent node is the first one the bad tape lacks.
pub fn bisect(bad: &Tape, good: &Tape, assertion: &str) -> (r: Result<BisectOutcome, BisectError>)
    ensures
        assertion_outcome(assertion@, good@) is Err ==> r matches Err(BisectError::Assertion(_)),
        assertion_outcome(assertion@, good@) is Ok && assertion_outcome(assertion@, bad@) is Err
            ==> r matches Err(BisectError::Assertion(_)),
        assertion_outcome(assertion@, good@) is Ok && assertion_outcome(assertion@, bad@) is Ok
            && !assertion_flips(assertion@, bad@, good@) ==> r matches Err(BisectError::NotFlipped),
        assertion_flips(assertion@, bad@, good@) ==> {
            let first = bisect_first(bad@.events, good@.events);
            &&& first == 0 ==> r == Ok::<BisectOutcome, BisectError>(BisectOutcome::NoDivergence)
            &&& first > bad@.events.len() ==> r == Ok::<BisectOutcome, BisectError>(
                BisectOutcome::Truncated { first_missing: first as usize },
            )
            &&& 0 < first <= bad@.events.len() ==> r == Ok::<BisectOutcome, BisectError>(
                BisectOutcome::RootCause {
                    index: (first - 1) as usize,
                    affected: count_from_step(bad@.events, bad@.events[first - 1].step) as usize,
                    last_step: bad@.events.last().step,
                },
            )
        },
{
    let good_pass = match parse_simple_assertion(assertion, good) {
        Ok(b) => b,
        Err(e) => return Err(BisectError::Assertion(e)),
    };
    let bad_pass = match parse_simple_assertion(assertion, bad) {
        Ok(b) => b,
        Err(e) => return Err(BisectError::Assertion(e)),
    };
    if !(good_pass && !bad_pass) {
        return Err(BisectError::NotFlipped);
    }
    let ghost b = bad@.events;
    let ghost g = good@.events;
    proof {
        assert forall|x: int, y: int| first_hash_mismatch(b, g, x) && first_hash_mismatch(b, g, y) implies x == y by {}
    }
    let nb: usize = bad.events.len();
    let ng: usize = good.events.len();
    let first: usize = match first_mismatch(&bad.events, &good.events) {
        Some(k) => k + 1,
        None => {
            assert forall|k: int| !first_hash_mismatch(b, g, k) by {
                if 0 <= k < b.len() && k < g.len() {
                    assert(bad.events@[k]@.hash == good.events@[k]@.hash);
                }
            }
            if nb != ng {
                (if nb <= ng { nb } else { ng }) + 1
            } else {
                0
            }
        },
    };
    assert(first == bisect_first(b, g));
    if first == 0 {
        return Ok(BisectOutcome::NoDivergence);
    }
    if first > nb {
        return Ok(BisectOutcome::Truncated { first_missing: first });
    }
    let index: usize = first - 1;
    let step = bad.events[index].step;
    let mut affected: usize = 0;
    let mut i: usize = 0;
    while i < nb
        invariant
            nb == b.len(),
            b == bad@.events,
            i <= nb,
            affected <= i,
            affected == count_from_step(b.take(i as int), step),
        decreases nb - i,
    {
        assert(b.take(i + 1).drop_last() =~= b.take(i as int));
        if bad.events[i].step >= step {
            affected = affected + 1;
        }
        i = i + 1;
    }
    assert(b.take(nb as int) =~= b);
    let last_step = bad.events[nb - 1].step;
    Ok(BisectOutcome::RootCause { index, affected, last_step })
}

} // verus!
