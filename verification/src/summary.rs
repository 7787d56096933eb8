//! Summaries and JSON renderings of tapes, and new run metadata.

use vstd::prelude::*;
use vstd::utf8::encode_utf8;

use crate::crypto::{blake3_digest, blake3_hash, hex_encode, hex_text};
use crate::event::{EventData, EventKind, Event, kind_label};
use crate::json::{data_of, items_data, lemma_items_data, lemma_members_data, members_data, JsonData, JsonValue};
use crate::label::{label_text, label_views, Label};
use crate::tape::{event_views, opt_view, MetadataData, Tape, TapeData, TapeMetadata};
use crate::text::{decimal, owned, push_decimal, push_str};

verus! {

broadcast use vstd::std_specs::vec::group_vec_axioms;

/// The texts of a list of labels, as a JSON array.
pub open spec fn labels_text_data(labels: Seq<(Seq<char>, Seq<char>)>) -> JsonData {
    JsonData::Array(labels.map_values(|l: (Seq<char>, Seq<char>)| JsonData::Str(label_text(l))))
}

/// The labels as a JSON array of `namespace:value` strings.
pub fn labels_to_json(labels: &Vec<Label>) -> (v: JsonValue)
    ensures
        v@ == labels_text_data(label_views(labels@)),
{
    let mut items: Vec<JsonValue> = Vec::new();
    let mut i: usize = 0;
    while i < labels.len()
        invariant
            i <= labels@.len(),
            items@.len() == i,
            forall|k: int|
                0 <= k < i ==> data_of(#[trigger] items@[k]) == JsonData::Str(label_text(labels@[k]@)),
        decreases labels@.len() - i,
    {
        items.push(JsonValue::Str(labels[i].as_string()));
        i = i + 1;
    }
    proof {
        lemma_items_data(items@);
        assert(items_data(items@) =~= label_views(labels@).map_values(
            |l: (Seq<char>, Seq<char>)| JsonData::Str(label_text(l)),
        ));
    }
    JsonValue::Array(items)
}

/// The kinds in the order of their display names.
pub open spec fn kind_order() -> Seq<EventKind> {
    seq![
        EventKind::FileRead,
        EventKind::FileWrite,
        EventKind::GuardDecision,
        EventKind::HttpRequest,
        EventKind::ModelRequest,
        EventKind::ModelResponse,
        EventKind::Note,
        EventKind::ProcessExit,
        EventKind::StateWrite,
        EventKind::ToolCall,
        EventKind::ToolResult,
        EventKind::UserMessage,
    ]
}

/// The number of events of kind `k`.
pub open spec fn count_kind(events: Seq<EventData>, k: EventKind) -> nat
    decreases events.len(),
{
    if events.len() == 0 {
        0
    } else {
        count_kind(events.drop_last(), k) + if events.last().kind == k {
            1nat
        } else {
            0nat
        }
    }
}

/// `display name: count` for each kind in `ks` that occurs in `events`.
pub open spec fn kind_counts(events: Seq<EventData>, ks: Seq<EventKind>) -> Seq<(Seq<char>, JsonData)>
    decreases ks.len(),
{
    if ks.len() == 0 {
        seq![]
    } else {
        let rest = kind_counts(events, ks.drop_last());
        let c = count_kind(events, ks.last());
        if c > 0 {
            rest.push((kind_label(ks.last()), JsonData::Number(decimal(c))))
        } else {
            rest
        }
    }
}

/// The summary of a tape.
pub open spec fn summary_data(t: TapeData) -> JsonData {
    JsonData::Object(
        seq![
            ("kinds"@, JsonData::Object(kind_counts(t.events, kind_order()))),
            ("merkle_root"@, JsonData::Str(t.merkle_root)),
            ("run_id"@, JsonData::Str(t.metadata.run_id)),
            ("signed"@, JsonData::Bool(t.signature is Some)),
            ("steps"@, JsonData::Number(decimal(t.events.len()))),
        ],
    )
}

fn count_of_kind(events: &Vec<Event>, k: EventKind) -> (c: usize)
    ensures
        c == count_kind(event_views(events@), k),
{
    let mut c: usize = 0;
    let mut i: usize = 0;
    while i < events.len()
        invariant
            i <= events@.len(),
            c <= i,
            c == count_kind(event_views(events@).take(i as int), k),
        decreases events@.len() - i,
    {
        assert(event_views(events@).take(i + 1).drop_last() =~= event_views(events@).take(i as int));
        if events[i].kind == k {
            c = c + 1;
        }
        i = i + 1;
    }
    assert(event_views(events@).take(events@.len() as int) =~= event_views(events@));
    c
}

/// A summary of the tape: its run id, number of steps, Merkle root, whether
/// it is signed, and how many events of each kind it holds.
pub fn tape_summary(tape: &Tape) -> (v: JsonValue)
    ensures
        v@ == summary_data(tape@),
{
    let order: Vec<EventKind> = vec![
        EventKind::FileRead,
        EventKind::FileWrite,
        EventKind::GuardDecision,
        EventKind::HttpRequest,
        EventKind::ModelRequest,
        EventKind::ModelResponse,
        EventKind::Note,
        EventKind::ProcessExit,
        EventKind::StateWrite,
        EventKind::ToolCall,
        EventKind::ToolResult,
        EventKind::UserMessage,
    ];
    assert(order@ =~= kind_order());
    let ghost events = tape@.events;
    let mut kinds: Vec<(String, JsonValue)> = Vec::new();
    let mut i: usize = 0;
    while i < order.len()
        invariant
            i <= order@.len(),
            events == tape@.events,
            members_data(kinds@) == kind_counts(events, order@.take(i as int)),
        decreases order@.len() - i,
    {
        let c = count_of_kind(&tape.events, order[i]);
        assert(order@.take(i + 1).drop_last() =~= order@.take(i as int));
        if c > 0 {
            let ghost before = kinds@;
            kinds.push((owned(order[i].as_str()), JsonValue::from_u64(c as u64)));
            assert(kinds@.subrange(0, kinds@.len() - 1) =~= before);
        }
        i = i + 1;
    }
    assert(order@.take(order@.len() as int) =~= order@);
    let mut members: Vec<(String, JsonValue)> = Vec::new();
    members.push((owned("kinds"), JsonValue::Object(kinds)));
    members.push((owned("merkle_root"), JsonValue::from_str(tape.merkle_root.as_str())));
    members.push((owned("run_id"), JsonValue::from_str(tape.metadata.run_id.as_str())));
    members.push((owned("signed"), JsonValue::Bool(tape.signature.is_some())));
    members.push((owned("steps"), JsonValue::from_u64(tape.events.len() as u64)));
    proof {
        lemma_members_data(members@);
        assert(members_data(members@) =~= seq![
            ("kinds"@, JsonData::Object(kind_counts(tape@.events, kind_order()))),
            ("merkle_root"@, JsonData::Str(tape@.merkle_root)),
            ("run_id"@, JsonData::Str(tape@.metadata.run_id)),
            ("signed"@, JsonData::Bool(tape@.signature is Some)),
            ("steps"@, JsonData::Number(decimal(tape@.events.len()))),
        ]);
    }
    JsonValue::Object(members)
}

/// The run id derived from a clock reading: `run-` and the hex of the
/// first six bytes of the BLAKE3 digest of the reading's text.
pub open spec fn run_id_text(clock: Seq<char>) -> Seq<char> {
    "run-"@ + hex_text(blake3_digest(encode_utf8(clock)).take(6))
}

/// The creation time text for a Unix time in seconds.
pub open spec fn unix_time_text(seconds: u64) -> Seq<char> {
    "unix:"@ + decimal(seconds as nat)
}

/// The creation time text `unix:<seconds>` for a clock reading of
/// `unix_seconds` seconds since the Unix epoch.
pub fn chrono_like_now(unix_seconds: u64) -> (s: String)
    ensures
        s@ == unix_time_text(unix_seconds),
{
    let mut s = owned("unix:");
    push_decimal(&mut s, unix_seconds);
    s
}

/// Metadata for a new run from a clock reading (`clock_text`, the debug
/// text of the current time, and `unix_seconds`) and the platform name.
pub fn new_run_metadata(
    command: Option<String>,
    mode: &str,
    clock_text: &str,
    unix_seconds: u64,
    platform: &str,
) -> (m: TapeMetadata)
    ensures
        m@ == (MetadataData {
            run_id: run_id_text(clock_text@),
            created_at: unix_time_text(unix_seconds),
            command: opt_view(command),
            platform: platform@,
            mode: mode@,
            content_policy: "recorded-content"@,
            source_run_id: None,
            fork_at: None,
        }),
{
    let bytes = clock_text.as_bytes();
    let digest = blake3_hash(bytes);
    let mut head: Vec<u8> = Vec::new();
    let mut i: usize = 0;
    while i < 6
        invariant
            i <= 6,
            digest@.len() == 32,
            head@ == digest@.take(i as int),
        decreases 6 - i,
    {
        head.push(digest[i]);
        i = i + 1;
        assert(head@ =~= digest@.take(i as int));
    }
    let mut run_id = owned("run-");
    let hex = hex_encode(head.as_slice());
    push_str(&mut run_id, hex.as_str());
    TapeMetadata {
        run_id,
        created_at: chrono_like_now(unix_seconds),
        command,
        platform: owned(platform),
        mode: owned(mode),
        content_policy: owned("recorded-content"),
        source_run_id: None,
        fork_at: None,
    }
}


/// The texts of labels joined by `, `.
pub open spec fn joined_labels(labels: Seq<(Seq<char>, Seq<char>)>) -> Seq<char>
    decreases labels.len(),
{
    if labels.len() == 0 {
        seq![]
    } else if labels.len() == 1 {
        label_text(labels[0])
    } else {
        joined_labels(labels.drop_last()) + ", "@ + label_text(labels.last())
    }
}

/// The labels as `namespace:value` texts joined by `, `, as the timeline
/// view shows them.
pub fn labels_display(labels: &Vec<Label>) -> (s: String)
    ensures
        s@ == joined_labels(label_views(labels@)),
{
    let ghost l = label_views(labels@);
    let mut s = String::new();
    let mut i: usize = 0;
    while i < labels.len()
        invariant
            i <= labels@.len(),
            l == label_views(labels@),
            s@ == joined_labels(l.take(i as int)),
        decreases labels@.len() - i,
    {
        if i > 0 {
            push_str(&mut s, ", ");
        }
        let t = labels[i].as_string();
        push_str(&mut s, t.as_str());
        assert(l.take(i + 1).drop_last() =~= l.take(i as int));
        proof {
            if i == 0 {
                assert(l.take(0) =~= Seq::<(Seq<char>, Seq<char>)>::empty());
            }
        }
        i = i + 1;
    }
    assert(l.take(l.len() as int) =~= l);
    s
}

/// The indices of the events at step `start` or later, in order: what a
/// replay from `start` shows.
pub fn events_from_step(tape: &Tape, start: u64) -> (r: Vec<usize>)
    ensures
        forall|k: int|
            0 <= k < r@.len() ==> (#[trigger] r@[k]) < tape@.events.len() && tape@.events[r@[k] as int].step >= start,
        forall|k: int, m: int| 0 <= k < m < r@.len() ==> #[trigger] r@[k] < #[trigger] r@[m],
        forall|i: int|
            0 <= i < tape@.events.len() && (#[trigger] tape@.events[i]).step >= start ==> r@.contains(
                i as usize,
            ),
{
    let mut r: Vec<usize> = Vec::new();
    let mut i: usize = 0;
    while i < tape.events.len()
        invariant
            i <= tape@.events.len(),
            forall|k: int|
                0 <= k < r@.len() ==> (#[trigger] r@[k]) < i && tape@.events[r@[k] as int].step >= start,
            forall|k: int, m: int| 0 <= k < m < r@.len() ==> #[trigger] r@[k] < #[trigger] r@[m],
            forall|j: int|
                0 <= j < i && (#[trigger] tape@.events[j]).step >= start ==> r@.contains(j as usize),
        decreases tape@.events.len() - i,
    {
        let ghost before = r@;
        if tape.events[i].step >= start {
            r.push(i);
            assert forall|j: int|
                0 <= j < i + 1 && (#[trigger] tape@.events[j]).step >= start implies r@.contains(
                    j as usize,
                ) by {
                if j < i {
                    let k = choose|k: int| 0 <= k < before.len() && before[k] == j as usize;
                    assert(r@[k] == j as usize);
                } else {
                    assert(r@[r@.len() - 1] == j as usize);
                }
            }
        }
        i = i + 1;
    }
    r
}

} // verus!
