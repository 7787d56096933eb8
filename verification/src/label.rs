//! Provenance labels (`namespace:value`) and sorted label sets.

use vstd::prelude::*;

use crate::text::{
    chars_of, compare_text, find_text, first_occurrence, lemma_text_lt_asymmetric,
    lemma_text_lt_irreflexive, lemma_text_lt_total, lemma_text_lt_transitive, owned, push_char,
    push_str, string_from_chars, text_eq, text_lt, TextOrder,
};

verus! {

/// A provenance label such as `web:untrusted`.
#[derive(Debug, Clone, PartialEq, Eq, PartialOrd, Ord)]
pub struct Label {
    pub namespace: String,
    pub value: String,
}

impl View for Label {
    type V = (Seq<char>, Seq<char>);

    open spec fn view(&self) -> (Seq<char>, Seq<char>) {
        (self.namespace@, self.value@)
    }
}

/// Why a text is not a label.
#[derive(Debug, Clone, Copy, PartialEq, Eq, Structural)]
pub enum LabelError {
    /// There is no `:` in the text.
    MissingSeparator,
    /// The namespace or the value is empty.
    EmptyPart,
}

/// The text `namespace:value` of a label.
pub open spec fn label_text(l: (Seq<char>, Seq<char>)) -> Seq<char> {
    l.0 + seq![':'] + l.1
}

/// What `Label::parse` gives for the text `s`.
pub open spec fn parse_label_spec(s: Seq<char>) -> Result<(Seq<char>, Seq<char>), LabelError> {
    if !(exists|i: int| first_occurrence(s, seq![':'], i)) {
        Err(LabelError::MissingSeparator)
    } else {
        let i = choose|i: int| first_occurrence(s, seq![':'], i);
        if i == 0 || i == s.len() - 1 {
            Err(LabelError::EmptyPart)
        } else {
            Ok((s.take(i), s.skip(i + 1)))
        }
    }
}

proof fn lemma_first_occurrence_unique(s: Seq<char>, p: Seq<char>, i: int, j: int)
    requires
        first_occurrence(s, p, i),
        first_occurrence(s, p, j),
    ensures
        i == j,
{
}

impl Label {
    /// The label `namespace:value`.
    pub fn new(namespace: &str, value: &str) -> (l: Label)
        ensures
            l@ == (namespace@, value@),
    {
        Label { namespace: owned(namespace), value: owned(value) }
    }

    /// Reads a label from text of the form `namespace:value`, split at the
    /// first `:`; neither part may be empty.
    pub fn parse(text: &str) -> (r: Result<Label, LabelError>)
        ensures
            match (r, parse_label_spec(text@)) {
                (Ok(l), Ok(m)) => l@ == m,
                (Err(e), Err(f)) => e == f,
                _ => false,
            },
    {
        let cs = chars_of(text);
        let sep = vec![':'];
        let found = find_text(&cs, 0, &sep);
        assert(cs@.skip(0) =~= text@);
        assert(sep@ =~= seq![':']);
        match found {
            None => {
                assert(!(exists|i: int| first_occurrence(text@, seq![':'], i))) by {
                    if exists|i: int| first_occurrence(text@, seq![':'], i) {
                        let i = choose|i: int| first_occurrence(text@, seq![':'], i);
                        assert(crate::text::occurs_at(text@, seq![':'], i));
                    }
                }
                Err(LabelError::MissingSeparator)
            },
            Some(i) => {
                proof {
                    let j = choose|j: int| first_occurrence(text@, seq![':'], j);
                    lemma_first_occurrence_unique(text@, seq![':'], i as int, j);
                }
                if i == 0 || i == cs.len() - 1 {
                    Err(LabelError::EmptyPart)
                } else {
                    let namespace = string_from_chars(&cs, 0, i);
                    let value = string_from_chars(&cs, i + 1, cs.len());
                    assert(cs@.subrange(0, i as int) =~= text@.take(i as int));
                    assert(cs@.subrange(i + 1, cs@.len() as int) =~= text@.skip(i + 1));
                    Ok(Label { namespace, value })
                }
            },
        }
    }

    /// The text `namespace:value`.
    pub fn as_string(&self) -> (s: String)
        ensures
            s@ == label_text(self@),
    {
        let mut s = owned(self.namespace.as_str());
        push_char(&mut s, ':');
        push_str(&mut s, self.value.as_str());
        assert(s@ =~= label_text(self@));
        s
    }

    /// An equal label.
    pub fn copy(&self) -> (l: Label)
        ensures
            l@ == self@,
    {
        Label { namespace: self.namespace.clone(), value: self.value.clone() }
    }
}

// ---------------------------------------------------------------------------
// Order and sets
// ---------------------------------------------------------------------------

/// The order of `Label`'s derived `Ord`: by namespace, then by value.
pub open spec fn label_lt(a: (Seq<char>, Seq<char>), b: (Seq<char>, Seq<char>)) -> bool {
    text_lt(a.0, b.0) || (a.0 == b.0 && text_lt(a.1, b.1))
}

pub proof fn lemma_label_lt_transitive(
    a: (Seq<char>, Seq<char>),
    b: (Seq<char>, Seq<char>),
    c: (Seq<char>, Seq<char>),
)
    requires
        label_lt(a, b),
        label_lt(b, c),
    ensures
        label_lt(a, c),
{
    if text_lt(a.0, b.0) && text_lt(b.0, c.0) {
        lemma_text_lt_transitive(a.0, b.0, c.0);
    } else if text_lt(a.0, b.0) {
    } else if text_lt(b.0, c.0) {
    } else {
        lemma_text_lt_transitive(a.1, b.1, c.1);
    }
}

pub proof fn lemma_label_lt_irreflexive(a: (Seq<char>, Seq<char>))
    ensures
        !label_lt(a, a),
{
    lemma_text_lt_irreflexive(a.0);
    lemma_text_lt_irreflexive(a.1);
}

/// The views of a sequence of labels.
pub open spec fn label_views(s: Seq<Label>) -> Seq<(Seq<char>, Seq<char>)> {
    s.map_values(|l: Label| l@)
}

/// Strictly increasing in `label_lt`: sorted, and nothing occurs twice.
pub open spec fn sorted_labels(s: Seq<(Seq<char>, Seq<char>)>) -> bool {
    forall|i: int, j: int| 0 <= i < j < s.len() ==> label_lt(#[trigger] s[i], #[trigger] s[j])
}

/// The label `x` is in `s`.
pub open spec fn has_label(s: Seq<(Seq<char>, Seq<char>)>, x: (Seq<char>, Seq<char>)) -> bool {
    exists|i: int| 0 <= i < s.len() && s[i] == x
}

/// Two sorted label sequences with the same labels are the same sequence.
pub proof fn lemma_sorted_labels_unique(a: Seq<(Seq<char>, Seq<char>)>, b: Seq<(Seq<char>, Seq<char>)>)
    requires
        sorted_labels(a),
        sorted_labels(b),
        forall|x: (Seq<char>, Seq<char>)| has_label(a, x) <==> has_label(b, x),
    ensures
        a == b,
    decreases a.len(),
{
    if a.len() == 0 {
        if b.len() > 0 {
            assert(has_label(b, b[0]));
        }
        assert(a =~= b);
    } else if b.len() == 0 {
        assert(has_label(a, a[0]));
    } else {
        assert(has_label(a, a[0]));
        assert(has_label(b, b[0]));
        let j = choose|j: int| 0 <= j < b.len() && b[j] == a[0];
        let i = choose|i: int| 0 <= i < a.len() && a[i] == b[0];
        if i > 0 && j > 0 {
            assert(label_lt(a[0], a[i]));
            assert(label_lt(b[0], b[j]));
            lemma_label_lt_transitive(a[0], b[0], a[0]);
            lemma_label_lt_irreflexive(a[0]);
        }
        assert(a[0] == b[0]);
        let ta = a.drop_first();
        let tb = b.drop_first();
        assert forall|x: (Seq<char>, Seq<char>)| has_label(ta, x) <==> has_label(tb, x) by {
            if has_label(ta, x) {
                let k = choose|k: int| 0 <= k < ta.len() && ta[k] == x;
                assert(a[k + 1] == x);
                assert(label_lt(a[0], a[k + 1]));
                lemma_label_lt_irreflexive(x);
                assert(has_label(a, x));
                let m = choose|m: int| 0 <= m < b.len() && b[m] == x;
                assert(m != 0);
                assert(tb[m - 1] == x);
            }
            if has_label(tb, x) {
                let k = choose|k: int| 0 <= k < tb.len() && tb[k] == x;
                assert(b[k + 1] == x);
                assert(label_lt(b[0], b[k + 1]));
                lemma_label_lt_irreflexive(x);
                assert(has_label(b, x));
                let m = choose|m: int| 0 <= m < a.len() && a[m] == x;
                assert(m != 0);
                assert(ta[m - 1] == x);
            }
        }
        assert forall|p: int, q: int| 0 <= p < q < ta.len() implies label_lt(
            #[trigger] ta[p],
            #[trigger] ta[q],
        ) by {
            assert(ta[p] == a[p + 1] && ta[q] == a[q + 1]);
        }
        assert forall|p: int, q: int| 0 <= p < q < tb.len() implies label_lt(
            #[trigger] tb[p],
            #[trigger] tb[q],
        ) by {
            assert(tb[p] == b[p + 1] && tb[q] == b[q + 1]);
        }
        lemma_sorted_labels_unique(ta, tb);
        assert(a =~= b) by {
            assert forall|k: int| 0 <= k < a.len() implies a[k] == b[k] by {
                if k > 0 {
                    assert(a[k] == ta[k - 1]);
                    assert(b[k] == tb[k - 1]);
                }
            }
        }
    }
}

/// Compares two labels in `label_lt`.
pub fn compare_labels(a: &Label, b: &Label) -> (r: TextOrder)
    ensures
        r is Less <==> label_lt(a@, b@),
        r is Equal <==> a@ == b@,
        r is Greater <==> label_lt(b@, a@),
{
    proof {
        lemma_text_lt_total(a@.0, b@.0);
        lemma_text_lt_total(a@.1, b@.1);
        lemma_text_lt_irreflexive(a@.0);
        lemma_text_lt_irreflexive(a@.1);
    }
    match compare_text(a.namespace.as_str(), b.namespace.as_str()) {
        TextOrder::Less => {
            proof {
                lemma_text_lt_asymmetric(a@.0, b@.0);
            }
            TextOrder::Less
        },
        TextOrder::Greater => {
            proof {
                lemma_text_lt_asymmetric(b@.0, a@.0);
            }
            TextOrder::Greater
        },
        TextOrder::Equal => {
            let r = compare_text(a.value.as_str(), b.value.as_str());
            proof {
                if text_lt(a@.1, b@.1) {
                    lemma_text_lt_asymmetric(a@.1, b@.1);
                }
            }
            r
        },
    }
}

/// Adds `l` to the sorted label set `set`, keeping it sorted.
pub fn insert_label(set: &mut Vec<Label>, l: Label)
    requires
        sorted_labels(label_views(old(set)@)),
    ensures
        sorted_labels(label_views(final(set)@)),
        forall|x: (Seq<char>, Seq<char>)|
            has_label(label_views(final(set)@), x) <==> (has_label(label_views(old(set)@), x) || x
                == l@),
{
    let ghost before = label_views(set@);
    let n: usize = set.len();
    let mut i: usize = 0;
    while i < n
        invariant
            n == set@.len(),
            i <= n,
            set@ == old(set)@,
            before == label_views(set@),
            sorted_labels(before),
            forall|k: int| 0 <= k < i ==> label_lt(#[trigger] before[k], l@),
        ensures
            i <= n,
            set@ == old(set)@,
            forall|k: int| 0 <= k < i ==> label_lt(#[trigger] before[k], l@),
            i == n || label_lt(l@, before[i as int]),
        decreases n - i,
    {
        match compare_labels(&set[i], &l) {
            TextOrder::Less => {
                i = i + 1;
            },
            TextOrder::Equal => {
                assert(has_label(before, l@)) by {
                    assert(before[i as int] == l@);
                }
                return;
            },
            TextOrder::Greater => {
                break;
            },
        }
    }
    set.insert(i, l);
    proof {
        let after = label_views(set@);
        assert(after =~= before.insert(i as int, l@));
        assert forall|a: int, b: int| 0 <= a < b < after.len() implies label_lt(
            #[trigger] after[a],
            #[trigger] after[b],
        ) by {
            if b < i {
            } else if a < i && b == i {
            } else if a < i && b > i {
                assert(after[b] == before[b - 1]);
                if i < n {
                    assert(label_lt(l@, before[i as int]));
                    if b - 1 > i {
                        lemma_label_lt_transitive(l@, before[i as int], before[b - 1]);
                    }
                    lemma_label_lt_transitive(before[a], l@, before[b - 1]);
                }
            } else if a == i {
                assert(after[b] == before[b - 1]);
                assert(label_lt(l@, before[i as int]));
                if b - 1 > i {
                    lemma_label_lt_transitive(l@, before[i as int], before[b - 1]);
                }
            } else {
                assert(after[a] == before[a - 1]);
                assert(after[b] == before[b - 1]);
            }
        }
        assert forall|x: (Seq<char>, Seq<char>)| has_label(after, x) <==> (has_label(before, x)
            || x == l@) by {
            if has_label(after, x) {
                let k = choose|k: int| 0 <= k < after.len() && after[k] == x;
                if k < i {
                    assert(before[k] == x);
                } else if k > i {
                    assert(before[k - 1] == x);
                }
            }
            if has_label(before, x) {
                let k = choose|k: int| 0 <= k < before.len() && before[k] == x;
                if k < i {
                    assert(after[k] == x);
                } else {
                    assert(after[k + 1] == x);
                }
            }
            if x == l@ {
                assert(after[i as int] == x);
            }
        }
    }
}

/// An equal copy of a label set.
pub fn copy_labels(set: &Vec<Label>) -> (r: Vec<Label>)
    ensures
        label_views(r@) == label_views(set@),
{
    let mut r: Vec<Label> = Vec::new();
    let mut i: usize = 0;
    while i < set.len()
        invariant
            i <= set@.len(),
            r@.len() == i,
            label_views(r@) == label_views(set@).take(i as int),
        decreases set@.len() - i,
    {
        r.push(set[i].copy());
        i = i + 1;
        assert(label_views(r@) =~= label_views(set@).take(i as int));
    }
    assert(label_views(set@).take(set@.len() as int) =~= label_views(set@));
    r
}

/// Adds every label of `more` to the sorted set `set`.
pub fn extend_labels(set: &mut Vec<Label>, more: &Vec<Label>)
    requires
        sorted_labels(label_views(old(set)@)),
    ensures
        sorted_labels(label_views(final(set)@)),
        forall|x: (Seq<char>, Seq<char>)|
            has_label(label_views(final(set)@), x) <==> (has_label(label_views(old(set)@), x)
                || has_label(label_views(more@), x)),
{
    let mut i: usize = 0;
    while i < more.len()
        invariant
            i <= more@.len(),
            sorted_labels(label_views(set@)),
            forall|x: (Seq<char>, Seq<char>)|
                has_label(label_views(set@), x) <==> (has_label(label_views(old(set)@), x)
                    || has_label(label_views(more@).take(i as int), x)),
        decreases more@.len() - i,
    {
        insert_label(set, more[i].copy());
        proof {
            let m = label_views(more@);
            let t1 = m.take(i + 1);
            let t0 = m.take(i as int);
            assert forall|x: (Seq<char>, Seq<char>)|
                has_label(t1, x) <==> (has_label(t0, x) || x == m[i as int])
            by {
                if has_label(t1, x) {
                    let k = choose|k: int| 0 <= k < t1.len() && t1[k] == x;
                    if k < i {
                        assert(t0[k] == x);
                    }
                }
                if has_label(t0, x) {
                    let k = choose|k: int| 0 <= k < t0.len() && t0[k] == x;
                    assert(t1[k] == x);
                }
                if x == m[i as int] {
                    assert(t1[i as int] == x);
                }
            }
        }
        i = i + 1;
    }
    assert(label_views(more@).take(more@.len() as int) =~= label_views(more@));
}

/// The sorted set of the labels in `labels`.
pub fn label_set(labels: &Vec<Label>) -> (r: Vec<Label>)
    ensures
        sorted_labels(label_views(r@)),
        forall|x: (Seq<char>, Seq<char>)|
            has_label(label_views(r@), x) <==> has_label(label_views(labels@), x),
{
    let mut r: Vec<Label> = Vec::new();
    assert(label_views(r@) =~= Seq::<(Seq<char>, Seq<char>)>::empty());
    extend_labels(&mut r, labels);
    r
}

/// Whether the label `namespace:value` is in `set`.
pub fn contains_label(set: &Vec<Label>, namespace: &str, value: &str) -> (r: bool)
    ensures
        r == has_label(label_views(set@), (namespace@, value@)),
{
    let mut i: usize = 0;
    while i < set.len()
        invariant
            i <= set@.len(),
            forall|k: int| 0 <= k < i ==> label_views(set@)[k] != (namespace@, value@),
        decreases set@.len() - i,
    {
        if text_eq(set[i].namespace.as_str(), namespace) && text_eq(set[i].value.as_str(), value) {
            assert(label_views(set@)[i as int] == (namespace@, value@));
            return true;
        }
        i = i + 1;
    }
    false
}

/// Some text of `texts` parses as the label `x`.
pub open spec fn parses_to_one_of(texts: Seq<&str>, x: (Seq<char>, Seq<char>)) -> bool {
    exists|i: int|
        0 <= i < texts.len() && parse_label_spec(#[trigger] texts[i]@) == Ok::<
            (Seq<char>, Seq<char>),
            LabelError,
        >(x)
}

/// The sorted set of the labels that the texts in `values` parse as; texts
/// that are not labels are skipped.
pub fn _labels(values: &[&str]) -> (r: Vec<Label>)
    ensures
        sorted_labels(label_views(r@)),
        forall|x: (Seq<char>, Seq<char>)|
            has_label(label_views(r@), x) <==> parses_to_one_of(values@, x),
{
    let mut r: Vec<Label> = Vec::new();
    assert(label_views(r@) =~= Seq::<(Seq<char>, Seq<char>)>::empty());
    let mut i: usize = 0;
    while i < values.len()
        invariant
            i <= values@.len(),
            sorted_labels(label_views(r@)),
            forall|x: (Seq<char>, Seq<char>)|
                has_label(label_views(r@), x) <==> parses_to_one_of(values@.take(i as int), x),
        decreases values@.len() - i,
    {
        let ghost before = label_views(r@);
        let parsed = Label::parse(values[i]);
        proof {
            let t0 = values@.take(i as int);
            let t1 = values@.take(i + 1);
            assert forall|x: (Seq<char>, Seq<char>)|
                parses_to_one_of(t1, x) <==> (parses_to_one_of(t0, x) || parse_label_spec(
                    values@[i as int]@,
                ) == Ok::<(Seq<char>, Seq<char>), LabelError>(x)) by {
                if parses_to_one_of(t1, x) {
                    let k = choose|k: int|
                        0 <= k < t1.len() && parse_label_spec(#[trigger] t1[k]@) == Ok::<
                            (Seq<char>, Seq<char>),
                            LabelError,
                        >(x);
                    if k < i {
                        assert(t0[k] == t1[k]);
                    }
                }
                if parses_to_one_of(t0, x) {
                    let k = choose|k: int|
                        0 <= k < t0.len() && parse_label_spec(#[trigger] t0[k]@) == Ok::<
                            (Seq<char>, Seq<char>),
                            LabelError,
                        >(x);
                    assert(t1[k] == t0[k]);
                }
                if parse_label_spec(values@[i as int]@) == Ok::<(Seq<char>, Seq<char>), LabelError>(x) {
                    assert(t1[i as int] == values@[i as int]);
                }
            }
        }
        match parsed {
            Ok(l) => {
                insert_label(&mut r, l);
            },
            Err(_) => {},
        }
        i = i + 1;
    }
    assert(values@.take(values@.len() as int) =~= values@);
    r
}

} // verus!
