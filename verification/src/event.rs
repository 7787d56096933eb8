//! Events: the nodes of a tape, addressed by the BLAKE3 hash of their
//! canonical content.

use vstd::prelude::*;
use vstd::utf8::encode_utf8;

use crate::crypto::{blake3_digest, blake3_hash, hex_encode, hex_text, is_lower_hex, lemma_hex_text_shape};
use crate::json::{
    data_of, items_data, json_text, lemma_items_data, lemma_members_data, members_data,
    to_json_text, JsonData, JsonValue,
};
use crate::label::{
    extend_labels, has_label, label_set, label_views, sorted_labels, Label,
};
use crate::text::{decimal, decimal_text, owned};

verus! {

broadcast use vstd::std_specs::vec::group_vec_axioms;

/// What an event records.
#[derive(Debug, Clone, Copy, PartialEq, Eq, Structural)]
pub enum EventKind {
    UserMessage,
    ModelRequest,
    ModelResponse,
    ToolCall,
    ToolResult,
    FileRead,
    FileWrite,
    HttpRequest,
    StateWrite,
    GuardDecision,
    Note,
    ProcessExit,
}

/// The dotted display name of a kind, as `EventKind::as_str` returns it.
pub open spec fn kind_label(k: EventKind) -> Seq<char> {
    match k {
        EventKind::UserMessage => "user.message"@,
        EventKind::ModelRequest => "model.request"@,
        EventKind::ModelResponse => "model.response"@,
        EventKind::ToolCall => "tool.call"@,
        EventKind::ToolResult => "tool.result"@,
        EventKind::FileRead => "fs.read"@,
        EventKind::FileWrite => "fs.write"@,
        EventKind::HttpRequest => "http.request"@,
        EventKind::StateWrite => "state.write"@,
        EventKind::GuardDecision => "guard.decision"@,
        EventKind::Note => "note"@,
        EventKind::ProcessExit => "process.exit"@,
    }
}

/// The name under which a kind is stored in a tape: its variant's name.
pub open spec fn kind_name(k: EventKind) -> Seq<char> {
    match k {
        EventKind::UserMessage => "UserMessage"@,
        EventKind::ModelRequest => "ModelRequest"@,
        EventKind::ModelResponse => "ModelResponse"@,
        EventKind::ToolCall => "ToolCall"@,
        EventKind::ToolResult => "ToolResult"@,
        EventKind::FileRead => "FileRead"@,
        EventKind::FileWrite => "FileWrite"@,
        EventKind::HttpRequest => "HttpRequest"@,
        EventKind::StateWrite => "StateWrite"@,
        EventKind::GuardDecision => "GuardDecision"@,
        EventKind::Note => "Note"@,
        EventKind::ProcessExit => "ProcessExit"@,
    }
}

impl EventKind {
    /// The dotted display name, such as `tool.call`.
    pub fn as_str(&self) -> (s: &'static str)
        ensures
            s@ == kind_label(*self),
    {
        match self {
            EventKind::UserMessage => "user.message",
            EventKind::ModelRequest => "model.request",
            EventKind::ModelResponse => "model.response",
            EventKind::ToolCall => "tool.call",
            EventKind::ToolResult => "tool.result",
            EventKind::FileRead => "fs.read",
            EventKind::FileWrite => "fs.write",
            EventKind::HttpRequest => "http.request",
            EventKind::StateWrite => "state.write",
            EventKind::GuardDecision => "guard.decision",
            EventKind::Note => "note",
            EventKind::ProcessExit => "process.exit",
        }
    }

    /// The name under which the kind is stored, such as `ToolCall`.
    pub fn stored_name(&self) -> (s: &'static str)
        ensures
            s@ == kind_name(*self),
    {
        match self {
            EventKind::UserMessage => "UserMessage",
            EventKind::ModelRequest => "ModelRequest",
            EventKind::ModelResponse => "ModelResponse",
            EventKind::ToolCall => "ToolCall",
            EventKind::ToolResult => "ToolResult",
            EventKind::FileRead => "FileRead",
            EventKind::FileWrite => "FileWrite",
            EventKind::HttpRequest => "HttpRequest",
            EventKind::StateWrite => "StateWrite",
            EventKind::GuardDecision => "GuardDecision",
            EventKind::Note => "Note",
            EventKind::ProcessExit => "ProcessExit",
        }
    }
}

/// One recorded step of a run.
#[derive(Debug)]
pub struct Event {
    pub step: u64,
    pub kind: EventKind,
    pub name: String,
    pub input: JsonValue,
    pub output: JsonValue,
    /// The labels; `Event::new` and every event the library records hold
    /// them as a sorted set (`sorted_labels`), as a tape file stores them.
    pub labels: Vec<Label>,
    /// Hashes of the events this one follows from.
    pub parents: Vec<String>,
    pub hash: String,
}

/// The model of an event.
pub struct EventData {
    pub step: u64,
    pub kind: EventKind,
    pub name: Seq<char>,
    pub input: JsonData,
    pub output: JsonData,
    pub labels: Seq<(Seq<char>, Seq<char>)>,
    pub parents: Seq<Seq<char>>,
    pub hash: Seq<char>,
}

pub open spec fn string_views(s: Seq<String>) -> Seq<Seq<char>> {
    s.map_values(|t: String| t@)
}

impl View for Event {
    type V = EventData;

    open spec fn view(&self) -> EventData {
        EventData {
            step: self.step,
            kind: self.kind,
            name: self.name@,
            input: self.input@,
            output: self.output@,
            labels: label_views(self.labels@),
            parents: string_views(self.parents@),
            hash: self.hash@,
        }
    }
}

/// A label as stored: `{"namespace":...,"value":...}`.
pub open spec fn label_data(l: (Seq<char>, Seq<char>)) -> JsonData {
    JsonData::Object(seq![("namespace"@, JsonData::Str(l.0)), ("value"@, JsonData::Str(l.1))])
}

pub open spec fn labels_data(s: Seq<(Seq<char>, Seq<char>)>) -> JsonData {
    JsonData::Array(s.map_values(|l: (Seq<char>, Seq<char>)| label_data(l)))
}

pub open spec fn strings_data(s: Seq<Seq<char>>) -> JsonData {
    JsonData::Array(s.map_values(|t: Seq<char>| JsonData::Str(t)))
}

/// The members of an event's content, in key order, without its hash.
pub open spec fn content_members(e: EventData) -> Seq<(Seq<char>, JsonData)> {
    seq![
        ("input"@, e.input),
        ("kind"@, JsonData::Str(kind_name(e.kind))),
        ("labels"@, labels_data(e.labels)),
        ("name"@, JsonData::Str(e.name)),
        ("output"@, e.output),
        ("parents"@, strings_data(e.parents)),
        ("step"@, JsonData::Number(decimal(e.step as nat))),
    ]
}

/// The bytes an event's hash covers: the compact JSON of its content
/// without the hash.
pub open spec fn canonical_bytes(e: EventData) -> Seq<u8> {
    encode_utf8(json_text(JsonData::Object(content_members(e))))
}

/// The content hash of an event: lowercase hex of the BLAKE3 digest of its
/// canonical bytes.
pub open spec fn content_hash(e: EventData) -> Seq<char> {
    hex_text(blake3_digest(canonical_bytes(e)))
}

/// The event carries the hash of its own content.
pub open spec fn hash_matches(e: EventData) -> bool {
    e.hash == content_hash(e)
}

/// An event as stored in a tape, hash included.
pub open spec fn event_record(e: EventData) -> JsonData {
    JsonData::Object(seq![("hash"@, JsonData::Str(e.hash))] + content_members(e))
}

/// The JSON value of a label set.
pub fn labels_json(labels: &Vec<Label>) -> (v: JsonValue)
    ensures
        v@ == labels_data(label_views(labels@)),
{
    let mut items: Vec<JsonValue> = Vec::new();
    let mut i: usize = 0;
    while i < labels.len()
        invariant
            i <= labels@.len(),
            items@.len() == i,
            forall|k: int| 0 <= k < i ==> data_of(#[trigger] items@[k]) == label_data(labels@[k]@),
        decreases labels@.len() - i,
    {
        let mut members: Vec<(String, JsonValue)> = Vec::new();
        members.push((owned("namespace"), JsonValue::from_str(labels[i].namespace.as_str())));
        members.push((owned("value"), JsonValue::from_str(labels[i].value.as_str())));
        proof {
            lemma_members_data(members@);
            assert(members_data(members@) =~= seq![
                ("namespace"@, JsonData::Str(labels@[i as int]@.0)),
                ("value"@, JsonData::Str(labels@[i as int]@.1)),
            ]);
        }
        items.push(JsonValue::Object(members));
        i = i + 1;
    }
    proof {
        lemma_items_data(items@);
        assert(items_data(items@) =~= label_views(labels@).map_values(
            |l: (Seq<char>, Seq<char>)| label_data(l),
        ));
    }
    JsonValue::Array(items)
}

/// The JSON value of a list of strings.
pub fn strings_json(strings: &Vec<String>) -> (v: JsonValue)
    ensures
        v@ == strings_data(string_views(strings@)),
{
    let mut items: Vec<JsonValue> = Vec::new();
    let mut i: usize = 0;
    while i < strings.len()
        invariant
            i <= strings@.len(),
            items@.len() == i,
            forall|k: int| 0 <= k < i ==> data_of(#[trigger] items@[k]) == JsonData::Str(strings@[k]@),
        decreases strings@.len() - i,
    {
        items.push(JsonValue::from_str(strings[i].as_str()));
        i = i + 1;
    }
    proof {
        lemma_items_data(items@);
        assert(items_data(items@) =~= string_views(strings@).map_values(
            |t: Seq<char>| JsonData::Str(t),
        ));
    }
    JsonValue::Array(items)
}

/// A copy of a list of strings.
pub fn copy_strings(strings: &Vec<String>) -> (r: Vec<String>)
    ensures
        string_views(r@) == string_views(strings@),
{
    let mut r: Vec<String> = Vec::new();
    let mut i: usize = 0;
    while i < strings.len()
        invariant
            i <= strings@.len(),
            r@.len() == i,
            forall|k: int| 0 <= k < i ==> (#[trigger] r@[k])@ == strings@[k]@,
        decreases strings@.len() - i,
    {
        r.push(strings[i].clone());
        i = i + 1;
    }
    assert(string_views(r@) =~= string_views(strings@));
    r
}

impl Event {
    /// The event's content members, hash excluded, as a JSON object.
    fn content_json(&self) -> (v: JsonValue)
        ensures
            v@ == JsonData::Object(content_members(self@)),
    {
        let mut members: Vec<(String, JsonValue)> = Vec::new();
        members.push((owned("input"), self.input.copy()));
        members.push((owned("kind"), JsonValue::from_str(self.kind.stored_name())));
        members.push((owned("labels"), labels_json(&self.labels)));
        members.push((owned("name"), JsonValue::from_str(self.name.as_str())));
        members.push((owned("output"), self.output.copy()));
        members.push((owned("parents"), strings_json(&self.parents)));
        members.push((owned("step"), JsonValue::from_u64(self.step)));
        proof {
            lemma_members_data(members@);
            assert(members_data(members@) =~= content_members(self@));
        }
        JsonValue::Object(members)
    }

    /// The event as stored, hash included.
    pub fn record_json(&self) -> (v: JsonValue)
        ensures
            v@ == event_record(self@),
    {
        let mut members: Vec<(String, JsonValue)> = Vec::new();
        members.push((owned("hash"), JsonValue::from_str(self.hash.as_str())));
        members.push((owned("input"), self.input.copy()));
        members.push((owned("kind"), JsonValue::from_str(self.kind.stored_name())));
        members.push((owned("labels"), labels_json(&self.labels)));
        members.push((owned("name"), JsonValue::from_str(self.name.as_str())));
        members.push((owned("output"), self.output.copy()));
        members.push((owned("parents"), strings_json(&self.parents)));
        members.push((owned("step"), JsonValue::from_u64(self.step)));
        proof {
            lemma_members_data(members@);
            assert(members_data(members@) =~= seq![("hash"@, JsonData::Str(self@.hash))]
                + content_members(self@));
        }
        JsonValue::Object(members)
    }

    /// The bytes the hash covers.
    pub fn canonical_without_hash(&self) -> (b: Vec<u8>)
        ensures
            b@ == canonical_bytes(self@),
    {
        let text = to_json_text(&self.content_json());
        let bytes = text.as_str().as_bytes();
        let mut b: Vec<u8> = Vec::new();
        let mut i: usize = 0;
        while i < bytes.len()
            invariant
                i <= bytes@.len(),
                b@ == bytes@.take(i as int),
            decreases bytes@.len() - i,
        {
            b.push(bytes[i]);
            i = i + 1;
            assert(b@ =~= bytes@.take(i as int));
        }
        assert(bytes@.take(bytes@.len() as int) =~= bytes@);
        b
    }

    /// The hash of the event's content: lowercase hex of the BLAKE3 digest of
    /// `canonical_without_hash`.
    pub fn calculate_hash(&self) -> (h: String)
        ensures
            h@ == content_hash(self@),
            h@.len() == 64,
            is_lower_hex(h@),
    {
        let bytes = self.canonical_without_hash();
        let digest = blake3_hash(bytes.as_slice());
        proof {
            lemma_hex_text_shape(digest@);
        }
        hex_encode(digest.as_slice())
    }

    /// A new event whose labels are the set of `labels` and whose hash is
    /// the hash of its content.
    pub fn new(
        step: u64,
        kind: EventKind,
        name: &str,
        input: JsonValue,
        output: JsonValue,
        labels: Vec<Label>,
        parents: Vec<String>,
    ) -> (e: Event)
        ensures
            e@.step == step,
            e@.kind == kind,
            e@.name == name@,
            e@.input == input@,
            e@.output == output@,
            sorted_labels(e@.labels),
            forall|x: (Seq<char>, Seq<char>)|
                has_label(e@.labels, x) <==> has_label(label_views(labels@), x),
            e@.parents == string_views(parents@),
            hash_matches(e@),
    {
        let set = label_set(&labels);
        let mut e = Event {
            step,
            kind,
            name: owned(name),
            input,
            output,
            labels: set,
            parents,
            hash: String::new(),
        };
        e.hash = e.calculate_hash();
        e
    }

    /// An equal event.
    pub fn copy(&self) -> (e: Event)
        ensures
            e@ == self@,
    {
        Event {
            step: self.step,
            kind: self.kind,
            name: self.name.clone(),
            input: self.input.copy(),
            output: self.output.copy(),
            labels: crate::label::copy_labels(&self.labels),
            parents: copy_strings(&self.parents),
            hash: self.hash.clone(),
        }
    }

    /// The set of all labels carried by `events`.
    pub fn inherited_labels(events: &Vec<Event>) -> (r: Vec<Label>)
        ensures
            sorted_labels(label_views(r@)),
            forall|x: (Seq<char>, Seq<char>)|
                has_label(label_views(r@), x) <==> exists|i: int|
                    0 <= i < events@.len() && has_label(#[trigger] events@[i]@.labels, x),
    {
        let mut r: Vec<Label> = Vec::new();
        let mut i: usize = 0;
        assert(label_views(r@) =~= Seq::<(Seq<char>, Seq<char>)>::empty());
        while i < events.len()
            invariant
                i <= events@.len(),
                sorted_labels(label_views(r@)),
                forall|x: (Seq<char>, Seq<char>)|
                    has_label(label_views(r@), x) <==> exists|k: int|
                        0 <= k < i && has_label(#[trigger] events@[k]@.labels, x),
            decreases events@.len() - i,
        {
            extend_labels(&mut r, &events[i].labels);
            proof {
                assert forall|x: (Seq<char>, Seq<char>)|
                    has_label(label_views(r@), x) <==> exists|k: int|
                        0 <= k < i + 1 && has_label(#[trigger] events@[k]@.labels, x) by {
                    if has_label(events@[i as int]@.labels, x) {
                        assert(0 <= i < i + 1);
                    }
                    if exists|k: int| 0 <= k < i + 1 && has_label(#[trigger] events@[k]@.labels, x) {
                        let k = choose|k: int| 0 <= k < i + 1 && has_label(#[trigger] events@[k]@.labels, x);
                        if k < i {
                        }
                    }
                }
            }
            i = i + 1;
        }
        r
    }
}

} // verus!
