//! Guard policies: provenance-aware rules that allow or deny events, and
//! their evaluation over a tape.

use vstd::prelude::*;

use crate::event::{hash_matches, string_views, Event, EventData, EventKind};
use crate::json::{lemma_members_data, lookup, members_data, JsonData, JsonValue};
use crate::label::{contains_label, has_label, label_views, sorted_labels, Label};
use crate::tape::{
    content_intact, copy_events, hashes_match, tape_intact, event_hashes, event_views, merkle_root_text, next_parents,
    signature_view, step_labels, MetadataData, Tape, TapeData, TapeMetadata, TapeSignature,
};
use crate::label::copy_labels;
use crate::text::{
    chars_of, contains_text, ends_with, find_text, first_occurrence, lines, occurs_at, owned,
    split_lines, starts_with, string_from_chars, text_contains, text_ends_with, text_eq,
    text_starts_with, trim, trim_bounds, trimmed,
};

verus! {

broadcast use vstd::std_specs::vec::group_vec_axioms;

/// The condition under which a rule fires.
#[derive(Debug, Clone, Copy, PartialEq, Eq, Structural)]
pub enum GuardCondition {
    /// The event's context carries `web:untrusted`.
    WebTaint,
    /// The event's context carries `db:pii`.
    PiiTaint,
    /// The event's input names a path under `./workspace/`.
    WorkspaceWrite,
}

/// A rule `<effect>: <target> when <condition>`.
#[derive(Debug, Clone)]
pub struct GuardRule {
    pub effect: String,
    pub target: String,
    pub condition: GuardCondition,
}

pub struct RuleData {
    pub effect: Seq<char>,
    pub target: Seq<char>,
    pub condition: GuardCondition,
}

impl View for GuardRule {
    type V = RuleData;

    open spec fn view(&self) -> RuleData {
        RuleData { effect: self.effect@, target: self.target@, condition: self.condition }
    }
}

pub open spec fn rule_views(s: Seq<GuardRule>) -> Seq<RuleData> {
    s.map_values(|r: GuardRule| r@)
}

/// Why a policy text was refused; each carries the line number (from 1).
#[derive(Debug, Clone, Copy, PartialEq, Eq, Structural)]
pub enum PolicyError {
    /// The line has no ` when `.
    MissingWhen(usize),
    /// The part before ` when ` has no `:`.
    MissingEffect(usize),
    /// The condition is none of the supported ones.
    UnsupportedCondition(usize),
}

/// What one line of a policy contributes.
pub enum LineRule {
    Skip,
    Rule(RuleData),
    Fail(PolicyError),
}

/// The condition named in `text`, if any: the first of
/// `tainted_by(source.web)`, `label(pii)` and `path under ./workspace`
/// that it contains.
pub open spec fn condition_of(text: Seq<char>) -> Option<GuardCondition> {
    if contains_text(text, "tainted_by(source.web)"@) {
        Some(GuardCondition::WebTaint)
    } else if contains_text(text, "label(pii)"@) {
        Some(GuardCondition::PiiTaint)
    } else if contains_text(text, "path under ./workspace"@) {
        Some(GuardCondition::WorkspaceWrite)
    } else {
        None
    }
}

/// What the line `raw`, numbered `number`, contributes to a policy.  Blank
/// lines, comments (`#`) and the header `policies:` are skipped.
pub open spec fn line_rule(raw: Seq<char>, number: usize) -> LineRule {
    let line = trim(raw);
    if line.len() == 0 || starts_with(line, "#"@) || line == "policies:"@ {
        LineRule::Skip
    } else if !(exists|i: int| first_occurrence(line, " when "@, i)) {
        LineRule::Fail(PolicyError::MissingWhen(number))
    } else {
        let i = choose|i: int| first_occurrence(line, " when "@, i);
        let head = line.take(i);
        let cond = line.skip(i + 6);
        if !(exists|j: int| first_occurrence(head, ":"@, j)) {
            LineRule::Fail(PolicyError::MissingEffect(number))
        } else {
            let j = choose|j: int| first_occurrence(head, ":"@, j);
            match condition_of(cond) {
                None => LineRule::Fail(PolicyError::UnsupportedCondition(number)),
                Some(c) => LineRule::Rule(
                    RuleData {
                        effect: trim(head.take(j)),
                        target: trim(head.skip(j + 1)),
                        condition: c,
                    },
                ),
            }
        }
    }
}

/// The rules of lines `i..` of a policy, or the first error among them.
pub open spec fn policy_rules(ls: Seq<Seq<char>>, i: int) -> Result<Seq<RuleData>, PolicyError>
    decreases ls.len() - i,
{
    if i < 0 || i >= ls.len() {
        Ok(seq![])
    } else {
        match line_rule(ls[i], (i + 1) as usize) {
            LineRule::Skip => policy_rules(ls, i + 1),
            LineRule::Fail(e) => Err(e),
            LineRule::Rule(r) => match policy_rules(ls, i + 1) {
                Ok(rs) => Ok(seq![r] + rs),
                Err(e) => Err(e),
            },
        }
    }
}

enum LineOutcome {
    Skip,
    Rule(GuardRule),
    Fail(PolicyError),
}

proof fn lemma_first_is(s: Seq<char>, p: Seq<char>, i: int)
    requires
        first_occurrence(s, p, i),
    ensures
        (choose|j: int| first_occurrence(s, p, j)) == i,
{
    let j = choose|j: int| first_occurrence(s, p, j);
    assert(first_occurrence(s, p, j));
}

fn read_line_rule(raw: &str, number: usize) -> (r: LineOutcome)
    ensures
        match (r, line_rule(raw@, number)) {
            (LineOutcome::Skip, LineRule::Skip) => true,
            (LineOutcome::Rule(g), LineRule::Rule(d)) => g@ == d,
            (LineOutcome::Fail(e), LineRule::Fail(f)) => e == f,
            _ => false,
        },
{
    let line = trimmed(raw);
    if line.as_str().is_empty() || text_starts_with(line.as_str(), "#") || text_eq(
        line.as_str(),
        "policies:",
    ) {
        return LineOutcome::Skip;
    }
    let cs = chars_of(line.as_str());
    let when = chars_of(" when ");
    assert(when@ =~= " when "@);
    assert(cs@.skip(0) =~= cs@);
    let i = match find_text(&cs, 0, &when) {
        None => {
            assert(!(exists|i: int| first_occurrence(line@, " when "@, i))) by {
                if exists|i: int| first_occurrence(line@, " when "@, i) {
                    let i = choose|i: int| first_occurrence(line@, " when "@, i);
                    assert(occurs_at(cs@, when@, i));
                }
            }
            return LineOutcome::Fail(PolicyError::MissingWhen(number));
        },
        Some(i) => i,
    };
    proof {
        lemma_first_is(line@, " when "@, i as int);
        reveal_strlit(" when ");
        assert(when@.len() == 6);
    }
    let n: usize = cs.len();
    assert(i + 6 <= n);
    let head = string_from_chars(&cs, 0, i);
    let cond = string_from_chars(&cs, i + 6, n);
    assert(cs@.subrange(0, i as int) =~= line@.take(i as int));
    assert(cs@.subrange(i + 6, cs@.len() as int) =~= line@.skip(i + 6));
    let hc = chars_of(head.as_str());
    let colon = chars_of(":");
    assert(hc@.skip(0) =~= hc@);
    let j = match find_text(&hc, 0, &colon) {
        None => {
            assert(!(exists|j: int| first_occurrence(head@, ":"@, j))) by {
                if exists|j: int| first_occurrence(head@, ":"@, j) {
                    let j = choose|j: int| first_occurrence(head@, ":"@, j);
                    assert(occurs_at(hc@, colon@, j));
                }
            }
            return LineOutcome::Fail(PolicyError::MissingEffect(number));
        },
        Some(j) => j,
    };
    proof {
        lemma_first_is(head@, ":"@, j as int);
        reveal_strlit(":");
        assert(colon@.len() == 1);
    }
    let condition = if text_contains(cond.as_str(), "tainted_by(source.web)") {
        GuardCondition::WebTaint
    } else if text_contains(cond.as_str(), "label(pii)") {
        GuardCondition::PiiTaint
    } else if text_contains(cond.as_str(), "path under ./workspace") {
        GuardCondition::WorkspaceWrite
    } else {
        return LineOutcome::Fail(PolicyError::UnsupportedCondition(number));
    };
    let (e0, e1) = trim_bounds(&hc, 0, j);
    let (t0, t1) = trim_bounds(&hc, j + 1, hc.len());
    assert(hc@.subrange(0, j as int) =~= head@.take(j as int));
    assert(hc@.subrange(j + 1, hc@.len() as int) =~= head@.skip(j + 1));
    let effect = string_from_chars(&hc, e0, e1);
    let target = string_from_chars(&hc, t0, t1);
    LineOutcome::Rule(GuardRule { effect, target, condition })
}

/// Reads a guard policy: one rule `<effect>: <target> when <condition>`
/// per line; blank lines, `#` comments and a `policies:` header are
/// skipped; the first malformed line is reported with its number.
pub fn parse_guard_policy(policy_text: &str) -> (r: Result<Vec<GuardRule>, PolicyError>)
    ensures
        match (r, policy_rules(lines(policy_text@), 0)) {
            (Ok(v), Ok(s)) => rule_views(v@) == s,
            (Err(e), Err(f)) => e == f,
            _ => false,
        },
{
    let ls = split_lines(policy_text);
    let ghost l = ls@.map_values(|x: String| x@);
    let mut rules: Vec<GuardRule> = Vec::new();
    let mut i: usize = 0;
    while i < ls.len()
        invariant
            i <= ls@.len(),
            l == ls@.map_values(|x: String| x@),
            l == lines(policy_text@),
            match policy_rules(l, i as int) {
                Ok(rest) => policy_rules(l, 0) == Ok::<Seq<RuleData>, PolicyError>(
                    rule_views(rules@) + rest,
                ),
                Err(e) => policy_rules(l, 0) == Err::<Seq<RuleData>, PolicyError>(e),
            },
        decreases ls@.len() - i,
    {
        let outcome = read_line_rule(ls[i].as_str(), i + 1);
        assert(l[i as int] == ls@[i as int]@);
        match outcome {
            LineOutcome::Skip => {},
            LineOutcome::Rule(g) => {
                let ghost before = rule_views(rules@);
                rules.push(g);
                assert(rule_views(rules@) =~= before.push(g@));
                proof {
                    match policy_rules(l, i + 1) {
                        Ok(rest) => {
                            assert(before + (seq![g@] + rest) =~= rule_views(rules@) + rest);
                        },
                        Err(e) => {},
                    }
                }
            },
            LineOutcome::Fail(e) => {
                return Err(e);
            },
        }
        i = i + 1;
    }
    assert(policy_rules(l, i as int) == Ok::<Seq<RuleData>, PolicyError>(seq![]));
    assert(rule_views(rules@) + seq![] =~= rule_views(rules@));
    Ok(rules)
}


// ---------------------------------------------------------------------------
// Evaluation
// ---------------------------------------------------------------------------

/// The rule's target names the event: equal to its name or a suffix of it.
pub open spec fn target_matches(name: Seq<char>, target: Seq<char>) -> bool {
    name == target || ends_with(name, target)
}

/// The condition holds of event `e` of a tape with events `events`.
pub open spec fn condition_holds(events: Seq<EventData>, e: EventData, c: GuardCondition) -> bool {
    match c {
        GuardCondition::WebTaint => step_labels(events, e.step, ("web"@, "untrusted"@)),
        GuardCondition::PiiTaint => step_labels(events, e.step, ("db"@, "pii"@)),
        GuardCondition::WorkspaceWrite => lookup(e.input, "path"@) matches Some(JsonData::Str(p))
            && starts_with(p, "./workspace/"@),
    }
}

pub open spec fn rule_fires(events: Seq<EventData>, e: EventData, r: RuleData) -> bool {
    target_matches(e.name, r.target) && condition_holds(events, e, r.condition)
}

/// The decision a firing rule records.
pub open spec fn decision_text(effect: Seq<char>, audit: bool) -> Seq<char> {
    if effect == "deny"@ {
        if audit {
            "audit"@
        } else {
            "deny"@
        }
    } else {
        "allow"@
    }
}

/// The pairs (event `i`, rule `j`), `j < m`, at which a rule fires.
pub open spec fn event_hits(events: Seq<EventData>, rules: Seq<RuleData>, i: int, m: int) -> Seq<
    (int, int),
>
    decreases m,
{
    if m <= 0 {
        seq![]
    } else {
        event_hits(events, rules, i, m - 1) + if rule_fires(events, events[i], rules[m - 1]) {
            seq![(i, m - 1)]
        } else {
            seq![]
        }
    }
}

/// The pairs (event, rule) at which a rule fires, for the first `n` events,
/// event by event and rule by rule.
pub open spec fn guard_hits(events: Seq<EventData>, rules: Seq<RuleData>, n: int) -> Seq<(int, int)>
    decreases n,
{
    if n <= 0 {
        seq![]
    } else {
        guard_hits(events, rules, n - 1) + event_hits(events, rules, n - 1, rules.len() as int)
    }
}

proof fn lemma_event_hits_len(events: Seq<EventData>, rules: Seq<RuleData>, i: int, a: int, b: int)
    requires
        0 <= a <= b,
    ensures
        event_hits(events, rules, i, a).len() <= event_hits(events, rules, i, b).len(),
        event_hits(events, rules, i, b).len() <= b,
    decreases b,
{
    if b > 0 {
        if a < b {
            lemma_event_hits_len(events, rules, i, a, b - 1);
        } else {
            lemma_event_hits_len(events, rules, i, a - 1, b - 1);
        }
    }
}

proof fn lemma_guard_hits_len(events: Seq<EventData>, rules: Seq<RuleData>, a: int, b: int)
    requires
        0 <= a <= b,
    ensures
        guard_hits(events, rules, a).len() <= guard_hits(events, rules, b).len(),
        guard_hits(events, rules, b).len() <= b * rules.len(),
    decreases b,
{
    if b > 0 {
        lemma_event_hits_len(events, rules, b - 1, 0, rules.len() as int);
        if a < b {
            lemma_guard_hits_len(events, rules, a, b - 1);
        } else {
            lemma_guard_hits_len(events, rules, a - 1, b - 1);
        }
        let m = rules.len() as int;
        assert((b - 1) * m + m == b * m) by (nonlinear_arith);
    }
}

/// Event `a`, appended after `prior`, records that rule `r` fired on event
/// `e` of a tape with events `events`.
pub open spec fn decision_event(
    a: EventData,
    prior: Seq<EventData>,
    events: Seq<EventData>,
    e: EventData,
    r: RuleData,
    audit: bool,
) -> bool {
    &&& a.step == prior.len() + 1
    &&& a.kind == EventKind::GuardDecision
    &&& a.name == "guard.decision"@
    &&& a.input == JsonData::Object(
        seq![
            ("event_step"@, JsonData::Number(crate::text::decimal(e.step as nat))),
            ("rule"@, JsonData::Str(r.target)),
        ],
    )
    &&& a.output == JsonData::Object(seq![("decision"@, JsonData::Str(decision_text(r.effect, audit)))])
    &&& sorted_labels(a.labels)
    &&& forall|x: (Seq<char>, Seq<char>)| has_label(a.labels, x) <==> step_labels(events, e.step, x)
    &&& a.parents == next_parents(prior)
    &&& hash_matches(a)
}

/// A rule that fired: on the event at `step` named `name`, the rule for
/// `target` decided `decision`.
#[derive(Debug)]
pub struct GuardDecision {
    pub step: u64,
    pub name: String,
    pub target: String,
    pub decision: &'static str,
}

/// The result of evaluating a policy over a tape.
#[derive(Debug)]
pub struct GuardOutcome {
    /// The tape with a `GuardDecision` event appended for every firing.
    pub annotated: Tape,
    /// Every firing, in order.
    pub decisions: Vec<GuardDecision>,
    /// The number of firings of `deny` rules.
    pub blocked: usize,
}

/// The number of firings in `hits` of rules whose effect is `deny`.
pub open spec fn denied_count(hits: Seq<(int, int)>, rules: Seq<RuleData>) -> nat
    decreases hits.len(),
{
    if hits.len() == 0 {
        0
    } else {
        denied_count(hits.drop_last(), rules) + if rules[hits.last().1].effect == "deny"@ {
            1nat
        } else {
            0nat
        }
    }
}

/// The metadata of a guarded copy of a run.
pub open spec fn guarded_metadata(m: MetadataData) -> MetadataData {
    MetadataData { run_id: m.run_id + "-guard"@, mode: "guarded"@, ..m }
}

fn rule_fires_exec(tape: &Tape, event: &Event, labels: &Vec<Label>, rule: &GuardRule) -> (r: bool)
    requires
        forall|x: (Seq<char>, Seq<char>)|
            has_label(label_views(labels@), x) <==> step_labels(tape@.events, event@.step, x),
    ensures
        r == rule_fires(tape@.events, event@, rule@),
{
    let target_match = text_eq(event.name.as_str(), rule.target.as_str()) || text_ends_with(
        event.name.as_str(),
        rule.target.as_str(),
    );
    if !target_match {
        return false;
    }
    match rule.condition {
        GuardCondition::WebTaint => contains_label(labels, "web", "untrusted"),
        GuardCondition::PiiTaint => contains_label(labels, "db", "pii"),
        GuardCondition::WorkspaceWrite => match event.input.get("path") {
            Some(JsonValue::Str(p)) => text_starts_with(p.as_str(), "./workspace/"),
            _ => false,
        },
    }
}

/// Evaluates `rules` over every event of `tape`, in order.  Each firing is
/// reported and recorded as a `GuardDecision` event appended to a copy of
/// the tape (run id extended by `-guard`, mode `guarded`, no signature,
/// since the source's signature does not cover the new envelope); a firing `deny`
/// rule decides `audit` when `audit` is set, else `deny`; any other rule
/// decides `allow`.
pub fn guard_tape(tape: &Tape, rules: &Vec<GuardRule>, audit: bool) -> (g: GuardOutcome)
    requires
        tape@.events.len() + tape@.events.len() * rules@.len() < u64::MAX,
    ensures
        ({
            let t = tape@;
            let rs = rule_views(rules@);
            let n = t.events.len() as int;
            let hits = guard_hits(t.events, rs, n);
            let a = g.annotated@;
            &&& g.decisions@.len() == hits.len()
            &&& forall|d: int|
                0 <= d < hits.len() ==> {
                    let (i, j) = #[trigger] hits[d];
                    &&& g.decisions@[d].step == t.events[i].step
                    &&& g.decisions@[d].name@ == t.events[i].name
                    &&& g.decisions@[d].target@ == rs[j].target
                    &&& g.decisions@[d].decision@ == decision_text(rs[j].effect, audit)
                }
            &&& g.blocked == denied_count(hits, rs)
            &&& a.format == t.format
            &&& a.metadata == guarded_metadata(t.metadata)
            &&& a.events.len() == n + hits.len()
            &&& a.events.take(n) == t.events
            &&& forall|d: int|
                0 <= d < hits.len() ==> decision_event(
                    #[trigger] a.events[n + d],
                    a.events.take(n + d),
                    t.events,
                    t.events[hits[d].0],
                    rs[hits[d].1],
                    audit,
                )
            &&& hits.len() == 0 ==> a.merkle_root == t.merkle_root
            &&& hits.len() > 0 ==> a.merkle_root == merkle_root_text(event_hashes(a.events))
            &&& a.signature is None
            &&& content_intact(t) ==> tape_intact(a)
        }),
{
    let ghost t = tape@;
    let ghost rs = rule_views(rules@);
    let n: usize = tape.events.len();
    let m: usize = rules.len();
    let mut metadata = tape.metadata.copy();
    crate::text::push_str(&mut metadata.run_id, "-guard");
    metadata.mode = owned("guarded");
    let mut annotated = Tape {
        format: tape.format.clone(),
        metadata,
        events: copy_events(&tape.events, n),
        merkle_root: tape.merkle_root.clone(),
        signature: None,
    };
    assert(t.events.take(n as int) =~= t.events);
    assert(annotated@.metadata == guarded_metadata(t.metadata));
    let mut decisions: Vec<GuardDecision> = Vec::new();
    let mut blocked: usize = 0;
    let mut i: usize = 0;
    proof {
        lemma_guard_hits_len(t.events, rs, 0, n as int);
    }
    while i < n
        invariant
            n == t.events.len(),
            m == rs.len(),
            t == tape@,
            rs == rule_views(rules@),
            i <= n,
            guard_hits(t.events, rs, n as int).len() <= n * m,
            n + n * m < u64::MAX,
            decisions@.len() == guard_hits(t.events, rs, i as int).len(),
            forall|d: int|
                0 <= d < decisions@.len() ==> {
                    let (ei, rj) = #[trigger] guard_hits(t.events, rs, i as int)[d];
                    &&& decisions@[d].step == t.events[ei].step
                    &&& decisions@[d].name@ == t.events[ei].name
                    &&& decisions@[d].target@ == rs[rj].target
                    &&& decisions@[d].decision@ == decision_text(rs[rj].effect, audit)
                },
            blocked == denied_count(guard_hits(t.events, rs, i as int), rs),
            blocked <= decisions@.len(),
            annotated@.format == t.format,
            annotated@.metadata == guarded_metadata(t.metadata),
            annotated@.events.len() == n + decisions@.len(),
            annotated@.events.take(n as int) == t.events,
            forall|d: int|
                0 <= d < decisions@.len() ==> decision_event(
                    #[trigger] annotated@.events[n + d],
                    annotated@.events.take(n + d),
                    t.events,
                    t.events[guard_hits(t.events, rs, i as int)[d].0],
                    rs[guard_hits(t.events, rs, i as int)[d].1],
                    audit,
                ),
            decisions@.len() == 0 ==> annotated@.merkle_root == t.merkle_root,
            decisions@.len() > 0 ==> annotated@.merkle_root == merkle_root_text(
                event_hashes(annotated@.events),
            ),
            annotated@.signature is None,
        decreases n - i,
    {
        let event = &tape.events[i];
        assert(event@ == t.events[i as int]);
        let labels = tape.labels_for_step(event.step);
        let ghost done = guard_hits(t.events, rs, i as int);
        let mut j: usize = 0;
        proof {
            lemma_guard_hits_len(t.events, rs, i + 1, n as int);
            lemma_event_hits_len(t.events, rs, i as int, 0, m as int);
            assert(event_hits(t.events, rs, i as int, 0) =~= Seq::<(int, int)>::empty());
            assert(done + event_hits(t.events, rs, i as int, 0) =~= done);
        }
        while j < m
            invariant
                n == t.events.len(),
                m == rs.len(),
                t == tape@,
                rs == rule_views(rules@),
                i < n,
                j <= m,
                event@ == t.events[i as int],
                forall|x: (Seq<char>, Seq<char>)|
                    has_label(label_views(labels@), x) <==> step_labels(t.events, event@.step, x),
                done == guard_hits(t.events, rs, i as int),
                done.len() + event_hits(t.events, rs, i as int, m as int).len() <= guard_hits(
                    t.events,
                    rs,
                    n as int,
                ).len(),
                guard_hits(t.events, rs, n as int).len() <= n * m,
                n + n * m < u64::MAX,
                decisions@.len() == (done + event_hits(t.events, rs, i as int, j as int)).len(),
                forall|d: int|
                    0 <= d < decisions@.len() ==> {
                        let (ei, rj) = #[trigger] (done + event_hits(t.events, rs, i as int, j as int))[d];
                        &&& decisions@[d].step == t.events[ei].step
                        &&& decisions@[d].name@ == t.events[ei].name
                        &&& decisions@[d].target@ == rs[rj].target
                        &&& decisions@[d].decision@ == decision_text(rs[rj].effect, audit)
                    },
                blocked == denied_count(done + event_hits(t.events, rs, i as int, j as int), rs),
                blocked <= decisions@.len(),
                annotated@.format == t.format,
                annotated@.metadata == guarded_metadata(t.metadata),
                annotated@.events.len() == n + decisions@.len(),
                annotated@.events.take(n as int) == t.events,
                forall|d: int|
                    0 <= d < decisions@.len() ==> decision_event(
                        #[trigger] annotated@.events[n + d],
                        annotated@.events.take(n + d),
                        t.events,
                        t.events[(done + event_hits(t.events, rs, i as int, j as int))[d].0],
                        rs[(done + event_hits(t.events, rs, i as int, j as int))[d].1],
                        audit,
                    ),
                decisions@.len() == 0 ==> annotated@.merkle_root == t.merkle_root,
                decisions@.len() > 0 ==> annotated@.merkle_root == merkle_root_text(
                    event_hashes(annotated@.events),
                ),
                annotated@.signature is None,
            decreases m - j,
        {
            let rule = &rules[j];
            assert(rule@ == rs[j as int]);
            let ghost prev = done + event_hits(t.events, rs, i as int, j as int);
            let ghost next = done + event_hits(t.events, rs, i as int, j + 1);
            proof {
                lemma_event_hits_len(t.events, rs, i as int, j + 1, m as int);
            }
            if rule_fires_exec(tape, event, &labels, rule) {
                assert(next =~= prev.push((i as int, j as int)));
                let denied = text_eq(rule.effect.as_str(), "deny");
                let decision: &'static str = if denied && audit {
                    "audit"
                } else if denied {
                    "deny"
                } else {
                    "allow"
                };
                let mut input_members: Vec<(String, JsonValue)> = Vec::new();
                input_members.push((owned("event_step"), JsonValue::from_u64(event.step)));
                input_members.push((owned("rule"), JsonValue::from_str(rule.target.as_str())));
                let mut output_members: Vec<(String, JsonValue)> = Vec::new();
                output_members.push((owned("decision"), JsonValue::from_str(decision)));
                proof {
                    lemma_members_data(input_members@);
                    lemma_members_data(output_members@);
                    assert(members_data(input_members@) =~= seq![
                        ("event_step"@, JsonData::Number(crate::text::decimal(event@.step as nat))),
                        ("rule"@, JsonData::Str(rs[j as int].target)),
                    ]);
                    assert(members_data(output_members@) =~= seq![
                        ("decision"@, JsonData::Str(decision_text(rs[j as int].effect, audit))),
                    ]);
                }
                let ghost before = annotated@;
                let copy_of_labels = copy_labels(&labels);
                let ghost copied = label_views(copy_of_labels@);
                annotated.append_event(
                    EventKind::GuardDecision,
                    "guard.decision",
                    JsonValue::Object(input_members),
                    JsonValue::Object(output_members),
                    copy_of_labels,
                );
                proof {
                    assert(annotated@.events.take(n as int) =~= before.events.take(n as int));
                    assert forall|d: int| 0 <= d < decisions@.len() + 1 implies decision_event(
                        #[trigger] annotated@.events[n + d],
                        annotated@.events.take(n + d),
                        t.events,
                        t.events[next[d].0],
                        rs[next[d].1],
                        audit,
                    ) by {
                        if d < decisions@.len() {
                            assert(decision_event(
                                before.events[n + d],
                                before.events.take(n + d),
                                t.events,
                                t.events[prev[d].0],
                                rs[prev[d].1],
                                audit,
                            ));
                            assert(annotated@.events[n + d] == before.events[n + d]);
                            assert(annotated@.events.take(n + d) =~= before.events.take(n + d));
                            assert(next[d] == prev[d]);
                        } else {
                            assert(annotated@.events.take(n + d) =~= before.events);
                            assert(n + d == annotated@.events.len() - 1);
                            assert(annotated@.events[n + d] == annotated@.events.last());
                            assert(next[d] == (i as int, j as int));
                            assert(copied == label_views(labels@));
                            let a = annotated@.events[n + d];
                            let prior = annotated@.events.take(n + d);
                            assert(a.step == prior.len() + 1);
                            assert(a.kind == EventKind::GuardDecision);
                            assert(a.name == "guard.decision"@);
                            assert(a.input == JsonData::Object(
                                seq![
                                    ("event_step"@, JsonData::Number(crate::text::decimal(t.events[next[d].0].step as nat))),
                                    ("rule"@, JsonData::Str(rs[next[d].1].target)),
                                ],
                            ));
                            assert(a.output == JsonData::Object(seq![("decision"@, JsonData::Str(decision_text(rs[next[d].1].effect, audit)))]));
                            assert(sorted_labels(a.labels));
                            assert(a.parents == next_parents(prior));
                            assert(hash_matches(a));
                            assert forall|x: (Seq<char>, Seq<char>)| has_label(a.labels, x)
                                <==> step_labels(t.events, t.events[next[d].0].step, x) by {
                                assert(has_label(a.labels, x) <==> has_label(copied, x));
                            }
                        }
                    }
                }
                decisions.push(
                    GuardDecision {
                        step: event.step,
                        name: event.name.clone(),
                        target: rule.target.clone(),
                        decision,
                    },
                );
                assert(blocked < decisions.len());
                if denied {
                    blocked = blocked + 1;
                }
                assert(next.drop_last() =~= prev);
            } else {
                assert(next =~= prev);
            }
            j = j + 1;
        }
        assert(guard_hits(t.events, rs, i + 1) =~= done + event_hits(t.events, rs, i as int, m as int));
        i = i + 1;
    }
    proof {
        if content_intact(t) {
            let hits = guard_hits(t.events, rs, n as int);
            assert forall|k: int| 0 <= k < annotated@.events.len() implies hash_matches(
                #[trigger] annotated@.events[k],
            ) by {
                if k < n {
                    assert(annotated@.events[k] == annotated@.events.take(n as int)[k]);
                } else {
                    let d = k - n;
                    assert(annotated@.events[n + d] == annotated@.events[k]);
                    assert(decision_event(
                        annotated@.events[n + d],
                        annotated@.events.take(n + d),
                        t.events,
                        t.events[hits[d].0],
                        rs[hits[d].1],
                        audit,
                    ));
                }
            }
            if decisions@.len() == 0 {
                assert(annotated@.events =~= t.events);
            }
        }
    }
    GuardOutcome { annotated, decisions, blocked }
}

} // verus!
