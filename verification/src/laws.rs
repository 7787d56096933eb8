//! Properties that relate several operations of the library: what parsing a
//! label gives back of its text, what a builder's tape passes, how a built
//! tape chains its events, which labels a step inherits, and what comparing
//! a tape with itself reports.

use vstd::prelude::*;

use crate::event::{content_members, hash_matches, EventData};
use crate::json::{key_views, lemma_redact_compose, lemma_redact_idempotent, redact, JsonData};
use crate::label::lemma_sorted_labels_unique;
use crate::guard::{decision_text, rule_fires, target_matches, GuardCondition, RuleData};
use crate::proxy::replay_text;
use crate::json::{lemma_keys_concat, lookup};
use crate::label::{has_label, label_text, parse_label_spec};
use crate::tape::{
    appended_event, built_from, event_hashes, first_at_step, first_with_hash, format_version, merkle_root_text,
    next_parents, overridden_event, step_labels, tape_intact, EventContent, MetadataData, TapeData,
};
use crate::text::{first_occurrence, occurs_at};
use crate::workflow::{bisect_first, changed_field_names, differs_at, field_if, first_hash_mismatch};
use crate::lineage::{ancestor, is_lineage, lemma_lineage_step, parent_edge};

verus! {

/// The tape that finishing a builder with `events` gives.
pub open spec fn finished_tape(metadata: MetadataData, events: Seq<EventData>) -> TapeData {
    TapeData {
        format: format_version(),
        metadata,
        events,
        merkle_root: merkle_root_text(event_hashes(events)),
        signature: None,
    }
}

/// Parsing the text of a label gives the label back, when its namespace
/// and value are not empty and its namespace holds no `:`.
pub proof fn law_label_text_parses_back(l: (Seq<char>, Seq<char>))
    requires
        l.0.len() > 0,
        l.1.len() > 0,
        !l.0.contains(':'),
    ensures
        parse_label_spec(label_text(l)) == Ok::<(Seq<char>, Seq<char>), crate::label::LabelError>(l),
{
    let s = label_text(l);
    let n = l.0.len() as int;
    assert(s.subrange(n, n + 1) =~= seq![':']);
    assert(occurs_at(s, seq![':'], n));
    assert forall|j: int| 0 <= j < n implies !occurs_at(s, seq![':'], j) by {
        if occurs_at(s, seq![':'], j) {
            assert(s.subrange(j, j + 1)[0] == ':');
            assert(s[j] == l.0[j]);
            assert(l.0.contains(':'));
        }
    }
    assert(first_occurrence(s, seq![':'], n));
    let i = choose|i: int| first_occurrence(s, seq![':'], i);
    if i < n {
        assert(!occurs_at(s, seq![':'], i));
    } else if i > n {
        assert(!occurs_at(s, seq![':'], n));
    }
    assert(i == n);
    assert(s.take(n) =~= l.0);
    assert(s.skip(n + 1) =~= l.1);
}

/// A text that parses as a label is that label's text.
pub proof fn law_parsed_label_text(s: Seq<char>)
    ensures
        parse_label_spec(s) matches Ok(l) ==> label_text(l) == s,
{
    if parse_label_spec(s) is Ok {
        let i = choose|i: int| first_occurrence(s, seq![':'], i);
        assert(occurs_at(s, seq![':'], i));
        assert(s.subrange(i, i + 1)[0] == s[i]);
        assert(seq![':'][0] == ':');
        assert(s.take(i) + seq![':'] + s.skip(i + 1) =~= s);
    }
}

/// The tape a builder finishes passes the integrity check: every event of
/// it carries its own content hash and its root is the Merkle root of
/// those hashes.
pub proof fn law_built_tape_is_intact(
    metadata: MetadataData,
    events: Seq<EventData>,
    contents: Seq<EventContent>,
)
    requires
        built_from(events, contents),
    ensures
        tape_intact(finished_tape(metadata, events)),
{
    assert forall|i: int| 0 <= i < events.len() implies hash_matches(#[trigger] events[i]) by {
        assert(built_from(events, contents));
    }
}

/// In a built tape the event at index `i` is step `i + 1`, the first event
/// has no parent and every later one has the previous event's hash as its
/// only parent.
pub proof fn law_built_tape_chain(events: Seq<EventData>, contents: Seq<EventContent>)
    requires
        built_from(events, contents),
    ensures
        forall|i: int| 0 <= i < events.len() ==> (#[trigger] events[i]).step == i + 1,
        events.len() > 0 ==> events[0].parents == Seq::<Seq<char>>::empty(),
        forall|i: int|
            0 < i < events.len() ==> (#[trigger] events[i]).parents == seq![events[i - 1].hash],
{
    assert forall|i: int| 0 <= i < events.len() implies (#[trigger] events[i]).step == i + 1 by {
        assert(events.take(i).len() == i);
    }
    assert forall|i: int| 0 < i < events.len() implies (#[trigger] events[i]).parents == seq![
        events[i - 1].hash,
    ] by {
        assert(events[i].parents == next_parents(events.take(i)));
        assert(events.take(i)[i - 1] == events[i - 1]);
    }
    if events.len() > 0 {
        assert(events[0].parents == next_parents(events.take(0)));
    }
}

/// The labels of a step include the labels of the event at that step.
pub proof fn law_step_labels_include_own(
    events: Seq<EventData>,
    step: u64,
    i: int,
    x: (Seq<char>, Seq<char>),
)
    requires
        first_at_step(events, step, i),
        has_label(events[i].labels, x),
    ensures
        step_labels(events, step, x),
{
    let path = seq![i];
    assert(is_lineage(events, path));
    assert(ancestor(events, i, i));
}

/// The labels of a step include the labels of every event that it descends
/// from along a chain of parent hashes, however long.
pub proof fn law_step_labels_include_ancestors(
    events: Seq<EventData>,
    step: u64,
    i: int,
    path: Seq<int>,
    x: (Seq<char>, Seq<char>),
)
    requires
        first_at_step(events, step, i),
        is_lineage(events, path),
        path[0] == i,
        has_label(events[path.last()].labels, x),
    ensures
        step_labels(events, step, x),
{
    assert(ancestor(events, i, path.last()));
}

/// The labels of a step include the labels of the event that each of its
/// parent hashes names.
pub proof fn law_step_labels_include_parent(
    events: Seq<EventData>,
    step: u64,
    i: int,
    p: int,
    k: int,
    x: (Seq<char>, Seq<char>),
)
    requires
        first_at_step(events, step, i),
        0 <= p < events[i].parents.len(),
        first_with_hash(events, events[i].parents[p], k),
        has_label(events[k].labels, x),
    ensures
        step_labels(events, step, x),
{
    assert(is_lineage(events, seq![i]));
    assert(parent_edge(events, i, k));
    lemma_lineage_step(events, seq![i], k);
    assert(seq![i].push(k) =~= seq![i, k]);
    law_step_labels_include_ancestors(events, step, i, seq![i, k], x);
}

proof fn lemma_built_parent_edge(events: Seq<EventData>, contents: Seq<EventContent>, m: int)
    requires
        built_from(events, contents),
        forall|a: int, b: int|
            0 <= a < b < events.len() ==> (#[trigger] events[a]).hash != (#[trigger] events[b]).hash,
        0 <= m,
        m + 1 < events.len(),
    ensures
        parent_edge(events, m + 1, m),
{
    let e = events[m + 1];
    assert(appended_event(
        e,
        events.take(m + 1),
        contents[m + 1].0,
        contents[m + 1].1,
        contents[m + 1].2,
        contents[m + 1].3,
        contents[m + 1].4,
    ));
    assert(events.take(m + 1)[m] == events[m]);
    assert(e.parents == seq![events[m].hash]);
    assert forall|j: int| 0 <= j < m implies (#[trigger] events[j]).hash != events[m].hash by {
        assert(events[j].hash != events[m].hash);
    }
    assert(first_with_hash(events, e.parents[0], m));
}

proof fn lemma_chain_ancestor(events: Seq<EventData>, i: int, k: int)
    requires
        forall|m: int| 0 <= m && m + 1 < events.len() ==> #[trigger] parent_edge(events, m + 1, m),
        0 <= k <= i < events.len(),
    ensures
        ancestor(events, i, k),
    decreases i - k,
{
    if k == i {
        assert(is_lineage(events, seq![i]));
        assert(seq![i].last() == i);
    } else {
        lemma_chain_ancestor(events, i, k + 1);
        let path = choose|path: Seq<int>|
            #[trigger] is_lineage(events, path) && path[0] == i && path.last() == k + 1;
        assert(parent_edge(events, k + 1, k));
        lemma_lineage_step(events, path, k);
        assert(path.push(k)[0] == i);
    }
}

/// In a built tape whose event hashes are all different, every event
/// descends from every earlier one: a label recorded at one step reaches
/// every later step.
pub proof fn law_built_tape_inherits(
    events: Seq<EventData>,
    contents: Seq<EventContent>,
    i: int,
    k: int,
)
    requires
        built_from(events, contents),
        forall|a: int, b: int|
            0 <= a < b < events.len() ==> (#[trigger] events[a]).hash != (#[trigger] events[b]).hash,
        0 <= k <= i < events.len(),
    ensures
        ancestor(events, i, k),
{
    assert forall|m: int| 0 <= m && m + 1 < events.len() implies #[trigger] parent_edge(
        events,
        m + 1,
        m,
    ) by {
        lemma_built_parent_edge(events, contents, m);
    }
    lemma_chain_ancestor(events, i, k);
}

/// Re-recording the events of a built tape, with the output of the event at
/// `step` replaced, gives back each event unchanged, hash included, as long
/// as every event up to it keeps its output.
proof fn lemma_override_same_upto(
    s: Seq<EventData>,
    contents: Seq<EventContent>,
    f: Seq<EventData>,
    step: u64,
    output: JsonData,
    n: int,
)
    requires
        built_from(s, contents),
        f.len() == s.len(),
        forall|i: int|
            0 <= i < s.len() ==> overridden_event(#[trigger] f[i], s[i], f.take(i), step, output),
        0 <= n <= s.len(),
        forall|i: int| 0 <= i < n ==> (#[trigger] s[i]).step != step || s[i].output == output,
    ensures
        forall|i: int| 0 <= i < n ==> #[trigger] f[i] == s[i],
    decreases n,
{
    if n > 0 {
        let i = n - 1;
        lemma_override_same_upto(s, contents, f, step, output, i);
        assert(f.take(i) =~= s.take(i)) by {
            assert forall|k: int| 0 <= k < i implies f.take(i)[k] == s.take(i)[k] by {
                assert(f[k] == s[k]);
            }
        }
        let a = f[i];
        let b = s[i];
        assert(overridden_event(a, b, f.take(i), step, output));
        assert(appended_event(
            b,
            s.take(i),
            contents[i].0,
            contents[i].1,
            contents[i].2,
            contents[i].3,
            contents[i].4,
        ));
        assert(a.parents == b.parents);
        assert(a.output == b.output);
        lemma_sorted_labels_unique(a.labels, b.labels);
        assert(content_members(a) == content_members(b));
        assert(a.hash == b.hash);
        assert(a == b);
    }
}

/// Overriding an output leaves every event before the overridden step as it
/// was, hash included; overriding with the output already recorded gives
/// the same events.
#[verifier::rlimit(40)]
pub proof fn law_override_keeps_earlier_events(
    s: Seq<EventData>,
    contents: Seq<EventContent>,
    f: Seq<EventData>,
    step: u64,
    output: JsonData,
)
    requires
        built_from(s, contents),
        f.len() == s.len(),
        forall|i: int|
            0 <= i < s.len() ==> overridden_event(#[trigger] f[i], s[i], f.take(i), step, output),
    ensures
        forall|i: int| 0 <= i < s.len() && i + 1 < step ==> #[trigger] f[i] == s[i],
        (forall|i: int| 0 <= i < s.len() && (#[trigger] s[i]).step == step ==> s[i].output == output)
            ==> f == s,
{
    let m: int = if step as int - 1 <= s.len() { step as int - 1 } else { s.len() as int };
    let m: int = if m < 0 { 0 } else { m };
    assert forall|i: int| 0 <= i < m implies (#[trigger] s[i]).step != step || s[i].output == output by {
        assert(appended_event(
            s[i],
            s.take(i),
            contents[i].0,
            contents[i].1,
            contents[i].2,
            contents[i].3,
            contents[i].4,
        ));
        assert(s.take(i).len() == i);
    }
    lemma_override_same_upto(s, contents, f, step, output, m);
    assert forall|i: int| 0 <= i < s.len() && i + 1 < step implies #[trigger] f[i] == s[i] by {
        assert(i < m);
    }
    if forall|i: int| 0 <= i < s.len() && (#[trigger] s[i]).step == step ==> s[i].output == output {
        lemma_override_same_upto(s, contents, f, step, output, s.len() as int);
        assert(f =~= s);
    }
}

/// Redacting with one key list and then with another is redacting once
/// with both lists; in particular redacting twice with the same list is
/// redacting once.
pub proof fn law_redaction_composes(v: JsonData, k1: Seq<String>, k2: Seq<String>)
    ensures
        redact(redact(v, key_views(k1)), key_views(k2)) == redact(v, key_views(k1 + k2)),
        redact(redact(v, key_views(k1)), key_views(k1)) == redact(v, key_views(k1)),
{
    assert(key_views(k1 + k2) =~= key_views(k1) + key_views(k2));
    lemma_redact_compose(v, key_views(k1), key_views(k2));
    lemma_redact_idempotent(v, key_views(k1));
}

/// Comparing a tape's events with themselves finds no differing node.
pub proof fn law_diff_with_itself(events: Seq<EventData>)
    ensures
        forall|i: int| !#[trigger] differs_at(events, events, i),
{
}

/// Bisecting a tape against the same events finds no divergent node.
pub proof fn law_bisect_same_events(events: Seq<EventData>)
    ensures
        bisect_first(events, events) == 0,
{
    assert(!exists|i: int| first_hash_mismatch(events, events, i));
}

/// In audit mode no firing decides `deny`; outside it, a firing decides
/// `deny` exactly when its rule's effect is `deny`.
pub proof fn law_audit_never_denies(effect: Seq<char>)
    ensures
        decision_text(effect, true) != "deny"@,
        decision_text(effect, false) == "deny"@ <==> effect == "deny"@,
{
    reveal_strlit("deny");
    reveal_strlit("audit");
    reveal_strlit("allow");
    assert("audit"@[0] != "deny"@[0]);
    assert("allow"@[0] != "deny"@[0]);
}


// ---------------------------------------------------------------------------
// Replay override re-chains the derived tape
// ---------------------------------------------------------------------------

/// The events an override re-records form a chain of their own: the first
/// has no parent, every later one has the new hash of the event before it as
/// its only parent, and each carries its own content hash.
pub proof fn law_override_rechains(
    s: Seq<EventData>,
    f: Seq<EventData>,
    step: u64,
    output: JsonData,
)
    requires
        f.len() == s.len(),
        forall|i: int|
            0 <= i < s.len() ==> overridden_event(#[trigger] f[i], s[i], f.take(i), step, output),
    ensures
        f.len() > 0 ==> f[0].parents.len() == 0,
        forall|i: int| 0 < i < f.len() ==> (#[trigger] f[i]).parents == seq![f[i - 1].hash],
        forall|i: int| 0 <= i < f.len() ==> hash_matches(#[trigger] f[i]),
{
    if f.len() > 0 {
        assert(overridden_event(f[0], s[0], f.take(0), step, output));
    }
    assert forall|i: int| 0 < i < f.len() implies (#[trigger] f[i]).parents == seq![f[i - 1].hash] by {
        assert(overridden_event(f[i], s[i], f.take(i), step, output));
        assert(f.take(i)[i - 1] == f[i - 1]);
    }
    assert forall|i: int| 0 <= i < f.len() implies hash_matches(#[trigger] f[i]) by {
        assert(overridden_event(f[i], s[i], f.take(i), step, output));
    }
}

// ---------------------------------------------------------------------------
// Guard conditions look at inherited labels
// ---------------------------------------------------------------------------

/// A taint rule whose target names an event fires when the label it looks
/// for (`db:pii` for `PiiTaint`, `web:untrusted` for `WebTaint`) is carried
/// by the event or by any event it descends from through parent hashes.
pub proof fn law_taint_rules_see_inherited_labels(
    events: Seq<EventData>,
    i: int,
    path: Seq<int>,
    r: RuleData,
)
    requires
        0 <= i < events.len(),
        forall|j: int| 0 <= j < i ==> (#[trigger] events[j]).step != events[i].step,
        is_lineage(events, path),
        path[0] == i,
        target_matches(events[i].name, r.target),
        r.condition == GuardCondition::PiiTaint ==> has_label(
            events[path.last()].labels,
            ("db"@, "pii"@),
        ),
        r.condition == GuardCondition::WebTaint ==> has_label(
            events[path.last()].labels,
            ("web"@, "untrusted"@),
        ),
        r.condition != GuardCondition::WorkspaceWrite,
    ensures
        rule_fires(events, events[i], r),
{
    assert(first_at_step(events, events[i].step, i));
    if r.condition == GuardCondition::PiiTaint {
        law_step_labels_include_ancestors(events, events[i].step, i, path, ("db"@, "pii"@));
    } else {
        law_step_labels_include_ancestors(events, events[i].step, i, path, ("web"@, "untrusted"@));
    }
}

// ---------------------------------------------------------------------------
// Bisection points at the least differing index
// ---------------------------------------------------------------------------

proof fn lemma_least_mismatch(l: Seq<EventData>, r: Seq<EventData>, j: int)
    requires
        0 <= j < l.len(),
        j < r.len(),
        l[j].hash != r[j].hash,
    ensures
        exists|m: int| first_hash_mismatch(l, r, m),
    decreases j,
{
    if forall|k: int| 0 <= k < j ==> (#[trigger] l[k]).hash == r[k].hash {
        assert(first_hash_mismatch(l, r, j));
    } else {
        let k = choose|k: int| 0 <= k < j && (#[trigger] l[k]).hash != r[k].hash;
        lemma_least_mismatch(l, r, k);
    }
}

/// The first divergent step that bisection reports is one past the least
/// index at which the two event lists differ (a different hash, or an event
/// that only one list has), and 0 exactly when they differ nowhere; so two
/// lists of different lengths always have a divergent step.
pub proof fn law_bisect_first_is_least_difference(b: Seq<EventData>, g: Seq<EventData>)
    ensures
        bisect_first(b, g) == 0 <==> forall|i: int| 0 <= i ==> !#[trigger] differs_at(b, g, i),
        bisect_first(b, g) > 0 ==> differs_at(b, g, bisect_first(b, g) - 1),
        forall|j: int| 0 <= j < bisect_first(b, g) - 1 ==> !#[trigger] differs_at(b, g, j),
        b.len() != g.len() ==> bisect_first(b, g) > 0,
{
    if exists|m: int| first_hash_mismatch(b, g, m) {
        let m = choose|m: int| first_hash_mismatch(b, g, m);
        assert(bisect_first(b, g) == m + 1);
        assert(differs_at(b, g, m));
        assert forall|j: int| 0 <= j < bisect_first(b, g) - 1 implies !#[trigger] differs_at(b, g, j) by {
            assert(b[j].hash == g[j].hash);
        }
    } else {
        assert forall|k: int| 0 <= k < b.len() && k < g.len() implies (#[trigger] b[k]).hash
            == g[k].hash by {
            if b[k].hash != g[k].hash {
                lemma_least_mismatch(b, g, k);
            }
        }
        if b.len() != g.len() {
            let n = if b.len() <= g.len() { b.len() as int } else { g.len() as int };
            assert(bisect_first(b, g) == n + 1);
            assert(differs_at(b, g, n));
            assert forall|j: int| 0 <= j < bisect_first(b, g) - 1 implies !#[trigger] differs_at(b, g, j) by {
                assert(b[j].hash == g[j].hash);
            }
        } else {
            assert forall|i: int| 0 <= i implies !#[trigger] differs_at(b, g, i) by {
                if i < b.len() {
                    assert(b[i].hash == g[i].hash);
                }
            }
        }
    }
}

// ---------------------------------------------------------------------------
// Changed fields name exactly the fields that differ
// ---------------------------------------------------------------------------

proof fn lemma_field_if_contains(changed: bool, name: Seq<char>, x: Seq<char>)
    ensures
        field_if(changed, name).contains(x) <==> (changed && x == name),
{
    if changed {
        assert(field_if(changed, name)[0] == name);
    }
}

/// `x` is among the changed fields exactly when it names a field that
/// differs.
proof fn lemma_changed_contains(l: EventData, r: EventData, x: Seq<char>)
    ensures
        changed_field_names(l, r).contains(x) <==> ((l.kind != r.kind && x == "kind"@) || (l.name
            != r.name && x == "name"@) || (l.input != r.input && x == "input"@) || (l.output
            != r.output && x == "output"@) || (l.labels != r.labels && x == "labels"@) || (l.parents
            != r.parents && x == "parents"@)),
{
    let p1 = field_if(l.kind != r.kind, "kind"@);
    let p2 = field_if(l.name != r.name, "name"@);
    let p3 = field_if(l.input != r.input, "input"@);
    let p4 = field_if(l.output != r.output, "output"@);
    let p5 = field_if(l.labels != r.labels, "labels"@);
    let p6 = field_if(l.parents != r.parents, "parents"@);
    lemma_keys_concat(p1, p2, x);
    lemma_keys_concat(p1 + p2, p3, x);
    lemma_keys_concat(p1 + p2 + p3, p4, x);
    lemma_keys_concat(p1 + p2 + p3 + p4, p5, x);
    lemma_keys_concat(p1 + p2 + p3 + p4 + p5, p6, x);
    lemma_field_if_contains(l.kind != r.kind, "kind"@, x);
    lemma_field_if_contains(l.name != r.name, "name"@, x);
    lemma_field_if_contains(l.input != r.input, "input"@, x);
    lemma_field_if_contains(l.output != r.output, "output"@, x);
    lemma_field_if_contains(l.labels != r.labels, "labels"@, x);
    lemma_field_if_contains(l.parents != r.parents, "parents"@, x);
}

/// The changed fields of two events name each field exactly when the two
/// events differ in it; two events agreeing in every field have none.
pub proof fn law_changed_fields_name_differences(l: EventData, r: EventData)
    ensures
        changed_field_names(l, r).contains("kind"@) <==> l.kind != r.kind,
        changed_field_names(l, r).contains("name"@) <==> l.name != r.name,
        changed_field_names(l, r).contains("input"@) <==> l.input != r.input,
        changed_field_names(l, r).contains("output"@) <==> l.output != r.output,
        changed_field_names(l, r).contains("labels"@) <==> l.labels != r.labels,
        changed_field_names(l, r).contains("parents"@) <==> l.parents != r.parents,
        changed_field_names(l, r).len() == 0 <==> (l.kind == r.kind && l.name == r.name && l.input
            == r.input && l.output == r.output && l.labels == r.labels && l.parents == r.parents),
{
    reveal_strlit("kind");
    reveal_strlit("name");
    reveal_strlit("input");
    reveal_strlit("output");
    reveal_strlit("labels");
    reveal_strlit("parents");
    assert("kind"@ != "name"@ && "kind"@ != "input"@ && "kind"@ != "output"@ && "kind"@ != "labels"@
        && "kind"@ != "parents"@) by {
        assert("kind"@[0] != "name"@[0] && "kind"@[0] != "input"@[0] && "kind"@[0] != "output"@[0]
            && "kind"@[0] != "labels"@[0] && "kind"@[0] != "parents"@[0]);
    }
    assert("name"@ != "input"@ && "name"@ != "output"@ && "name"@ != "labels"@ && "name"@
        != "parents"@) by {
        assert("name"@[0] != "input"@[0] && "name"@[0] != "output"@[0] && "name"@[0]
            != "labels"@[0] && "name"@[0] != "parents"@[0]);
    }
    assert("input"@ != "output"@ && "input"@ != "labels"@ && "input"@ != "parents"@) by {
        assert("input"@[0] != "output"@[0] && "input"@[0] != "labels"@[0] && "input"@[0]
            != "parents"@[0]);
    }
    assert("output"@ != "labels"@ && "output"@ != "parents"@) by {
        assert("output"@[0] != "labels"@[0] && "output"@[0] != "parents"@[0]);
    }
    assert("labels"@ != "parents"@) by {
        assert("labels"@[0] != "parents"@[0]);
    }
    lemma_changed_contains(l, r, "kind"@);
    lemma_changed_contains(l, r, "name"@);
    lemma_changed_contains(l, r, "input"@);
    lemma_changed_contains(l, r, "output"@);
    lemma_changed_contains(l, r, "labels"@);
    lemma_changed_contains(l, r, "parents"@);
    let c = changed_field_names(l, r);
    if c.len() > 0 {
        lemma_changed_contains(l, r, c[0]);
        assert(c.contains(c[0]));
    }
}

// ---------------------------------------------------------------------------
// Replay reads the first choice
// ---------------------------------------------------------------------------

/// When a response carries a `choices` array whose first item has a
/// `message` with string `content`, the replayed text is that content,
/// whatever later choices hold.
pub proof fn law_replay_reads_first_choice(
    output: JsonData,
    choices: Seq<JsonData>,
    message: JsonData,
    content: Seq<char>,
)
    requires
        lookup(output, "choices"@) == Some(JsonData::Array(choices)),
        choices.len() > 0,
        lookup(choices[0], "message"@) == Some(message),
        lookup(message, "content"@) == Some(JsonData::Str(content)),
    ensures
        replay_text(output) == content,
{
}

} // verus!
