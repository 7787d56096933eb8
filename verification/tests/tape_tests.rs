use causa_core::event::{Event, EventKind};
use causa_core::json::{to_json_text, JsonValue};
use causa_core::label::Label;
use causa_core::summary::{chrono_like_now, new_run_metadata, tape_summary};
use causa_core::tape::{
    merkle_root, CausaError, SigningKey, Tape, TapeBuilder, TapeError, TapeMetadata, TapeSignature,
};
use ed25519_dalek::Verifier;

fn metadata() -> TapeMetadata {
    new_run_metadata(
        Some("test".to_string()),
        "test",
        "SystemTime { tv_sec: 1700000000, tv_nsec: 12345 }",
        1700000000,
        "linux",
    )
}

fn obj(members: Vec<(&str, JsonValue)>) -> JsonValue {
    JsonValue::Object(members.into_iter().map(|(k, v)| (k.to_string(), v)).collect())
}

fn text(s: &str) -> JsonValue {
    JsonValue::from_str(s)
}

fn num(n: u64) -> JsonValue {
    JsonValue::from_u64(n)
}

fn to_serde(v: &JsonValue) -> serde_json::Value {
    match v {
        JsonValue::Null => serde_json::Value::Null,
        JsonValue::Bool(b) => serde_json::Value::Bool(*b),
        JsonValue::Number(n) => serde_json::from_str(n).unwrap(),
        JsonValue::Str(s) => serde_json::Value::String(s.clone()),
        JsonValue::Array(items) => serde_json::Value::Array(items.iter().map(to_serde).collect()),
        JsonValue::Object(members) => {
            let mut map = serde_json::Map::new();
            for (k, v) in members {
                map.insert(k.clone(), to_serde(v));
            }
            serde_json::Value::Object(map)
        }
    }
}

fn serde_labels(labels: &[Label]) -> serde_json::Value {
    serde_json::Value::Array(
        labels
            .iter()
            .map(|l| {
                let mut map = serde_json::Map::new();
                map.insert("namespace".to_string(), serde_json::Value::String(l.namespace.clone()));
                map.insert("value".to_string(), serde_json::Value::String(l.value.clone()));
                serde_json::Value::Object(map)
            })
            .collect(),
    )
}

fn serde_strings(items: &[String]) -> serde_json::Value {
    serde_json::Value::Array(items.iter().map(|s| serde_json::Value::String(s.clone())).collect())
}

/// The content document of an event as serde writes it: keys in order.
fn serde_content(e: &Event) -> serde_json::Map<String, serde_json::Value> {
    let mut map = serde_json::Map::new();
    map.insert("step".to_string(), serde_json::Value::from(e.step));
    map.insert("kind".to_string(), serde_json::Value::String(format!("{:?}", e.kind)));
    map.insert("name".to_string(), serde_json::Value::String(e.name.clone()));
    map.insert("input".to_string(), to_serde(&e.input));
    map.insert("output".to_string(), to_serde(&e.output));
    map.insert("labels".to_string(), serde_labels(&e.labels));
    map.insert("parents".to_string(), serde_strings(&e.parents));
    map
}

fn independent_hash(e: &Event) -> String {
    let bytes = serde_json::to_vec(&serde_json::Value::Object(serde_content(e))).unwrap();
    hex::encode(blake3::hash(&bytes).as_bytes())
}

fn independent_root(hashes: &[String]) -> String {
    if hashes.is_empty() {
        return hex::encode(blake3::hash(b"causa:empty").as_bytes());
    }
    let mut level: Vec<[u8; 32]> = hashes.iter().map(|h| *blake3::hash(h.as_bytes()).as_bytes()).collect();
    while level.len() > 1 {
        let mut next = Vec::new();
        for pair in level.chunks(2) {
            let mut hasher = blake3::Hasher::new();
            hasher.update(&pair[0]);
            hasher.update(pair.get(1).unwrap_or(&pair[0]));
            next.push(*hasher.finalize().as_bytes());
        }
        level = next;
    }
    hex::encode(level[0])
}

fn opt_string(o: &Option<String>) -> serde_json::Value {
    match o {
        Some(s) => serde_json::Value::String(s.clone()),
        None => serde_json::Value::Null,
    }
}

fn independent_signing_bytes(t: &Tape) -> Vec<u8> {
    let m = &t.metadata;
    let mut meta = serde_json::Map::new();
    meta.insert("run_id".to_string(), serde_json::Value::String(m.run_id.clone()));
    meta.insert("created_at".to_string(), serde_json::Value::String(m.created_at.clone()));
    meta.insert("command".to_string(), opt_string(&m.command));
    meta.insert("platform".to_string(), serde_json::Value::String(m.platform.clone()));
    meta.insert("mode".to_string(), serde_json::Value::String(m.mode.clone()));
    meta.insert("content_policy".to_string(), serde_json::Value::String(m.content_policy.clone()));
    meta.insert("source_run_id".to_string(), opt_string(&m.source_run_id));
    meta.insert(
        "fork_at".to_string(),
        match m.fork_at {
            Some(n) => serde_json::Value::from(n),
            None => serde_json::Value::Null,
        },
    );
    let events: Vec<serde_json::Value> = t
        .events
        .iter()
        .map(|e| {
            let mut map = serde_content(e);
            map.insert("hash".to_string(), serde_json::Value::String(e.hash.clone()));
            serde_json::Value::Object(map)
        })
        .collect();
    let mut doc = serde_json::Map::new();
    doc.insert("format".to_string(), serde_json::Value::String(t.format.clone()));
    doc.insert("metadata".to_string(), serde_json::Value::Object(meta));
    doc.insert("events".to_string(), serde_json::Value::Array(events));
    doc.insert("merkle_root".to_string(), serde_json::Value::String(t.merkle_root.clone()));
    serde_json::to_vec(&serde_json::Value::Object(doc)).unwrap()
}

fn two_step_tape() -> Tape {
    let mut builder = TapeBuilder::new(metadata());
    builder.push(
        EventKind::UserMessage,
        "input",
        obj(vec![("text", text("hi \"there\"\n\u{1}é"))]),
        obj(vec![("accepted", JsonValue::Bool(true))]),
        vec![Label::new("user", "trusted")],
    );
    builder.push(
        EventKind::ToolResult,
        "search",
        obj(vec![]),
        obj(vec![("value", num(1))]),
        vec![Label::new("web", "untrusted"), Label::new("tool", "search")],
    );
    builder.finish()
}

#[test]
fn event_hash_matches_serde_canonical_form() {
    let e = Event::new(
        7,
        EventKind::HttpRequest,
        "fetch \"page\"",
        obj(vec![("a", JsonValue::Array(vec![num(1), JsonValue::Null, JsonValue::from_i64(-3)]))]),
        obj(vec![("b", text("tab\there"))]),
        vec![Label::new("web", "untrusted"), Label::new("db", "pii"), Label::new("web", "untrusted")],
        vec!["abc".to_string()],
    );
    assert_eq!(e.labels, vec![Label::new("db", "pii"), Label::new("web", "untrusted")]);
    assert_eq!(e.hash, independent_hash(&e));
    assert_eq!(e.hash.len(), 64);
}

#[test]
fn merkle_root_matches_pairwise_hashing() {
    assert_eq!(merkle_root(&vec![]), independent_root(&[]));
    let mut events = Vec::new();
    for i in 1..=5u64 {
        events.push(Event::new(i, EventKind::Note, "n", num(i), JsonValue::Null, vec![], vec![]));
        let hashes: Vec<String> = events.iter().map(|e| e.hash.clone()).collect();
        assert_eq!(merkle_root(&events), independent_root(&hashes));
    }
}

#[test]
fn signing_bytes_match_serde_envelope() {
    let tape = two_step_tape();
    assert_eq!(tape.signing_bytes(), independent_signing_bytes(&tape));
    let fork = tape.fork_at(1, "x").unwrap();
    assert_eq!(fork.signing_bytes(), independent_signing_bytes(&fork));
}

#[test]
fn builder_chains_events() {
    let tape = two_step_tape();
    assert_eq!(tape.format, "0.1");
    assert_eq!(tape.events.len(), 2);
    assert_eq!(tape.events[0].step, 1);
    assert_eq!(tape.events[1].step, 2);
    assert!(tape.events[0].parents.is_empty());
    assert_eq!(tape.events[1].parents, vec![tape.events[0].hash.clone()]);
    assert!(tape.signature.is_none());
    assert!(tape.verify_integrity().is_ok());
}

#[test]
fn integrity_rejects_unknown_format() {
    let mut tape = two_step_tape();
    tape.format = "0.2".to_string();
    match tape.verify_integrity() {
        Err(TapeError::UnsupportedVersion(f)) => assert_eq!(f, "0.2"),
        other => panic!("unexpected {:?}", other),
    }
}

#[test]
fn integrity_reports_tampered_event() {
    let mut tape = two_step_tape();
    let stored = tape.events[1].hash.clone();
    tape.events[1].output = obj(vec![("value", num(2))]);
    let actual = tape.events[1].calculate_hash();
    match tape.verify_integrity() {
        Err(TapeError::Integrity { expected, actual: got }) => {
            assert_eq!(expected, stored);
            assert_eq!(got, actual);
        }
        other => panic!("unexpected {:?}", other),
    }
}

#[test]
fn integrity_reports_wrong_root() {
    let mut tape = two_step_tape();
    let root = tape.merkle_root.clone();
    tape.merkle_root = "00".to_string();
    match tape.verify_integrity() {
        Err(TapeError::Integrity { expected, actual }) => {
            assert_eq!(expected, "00");
            assert_eq!(actual, root);
        }
        other => panic!("unexpected {:?}", other),
    }
}

#[test]
fn signature_is_checked() {
    let mut tape = two_step_tape();
    let key = SigningKey::from_bytes([7u8; 32]);
    tape.sign(&key);
    assert!(tape.verify_integrity().is_ok());
    let sig = tape.signature.clone().unwrap();
    assert_eq!(sig.public_key.len(), 64);
    assert_eq!(sig.signature.len(), 128);
    let dalek = ed25519_dalek::SigningKey::from_bytes(&[7u8; 32]);
    assert_eq!(sig.public_key, hex::encode(dalek.verifying_key().to_bytes()));
    let public: [u8; 32] = hex::decode(&sig.public_key).unwrap().try_into().unwrap();
    let signature: [u8; 64] = hex::decode(&sig.signature).unwrap().try_into().unwrap();
    let verifying = ed25519_dalek::VerifyingKey::from_bytes(&public).unwrap();
    assert!(verifying
        .verify(&tape.signing_bytes(), &ed25519_dalek::Signature::from_bytes(&signature))
        .is_ok());
    // Signing is deterministic.
    let mut again = two_step_tape();
    again.sign(&key);
    assert_eq!(again.signature.unwrap().signature, sig.signature);
    // A signature over other content does not verify.
    tape.metadata.mode = "changed".to_string();
    assert!(matches!(tape.verify_integrity(), Err(TapeError::InvalidSignature)));
}

#[test]
fn malformed_signature_is_invalid() {
    let mut tape = two_step_tape();
    tape.signature = Some(TapeSignature { public_key: "zz".to_string(), signature: "00".to_string() });
    assert!(matches!(tape.verify_integrity(), Err(TapeError::InvalidSignature)));
    tape.signature = Some(TapeSignature { public_key: "00".repeat(32), signature: "00".repeat(63) });
    assert!(matches!(tape.verify_integrity(), Err(TapeError::InvalidSignature)));
    let sig = TapeSignature { public_key: "ab".repeat(32), signature: "cd".repeat(64) };
    assert!(matches!(tape.verify_signature(&sig), Err(TapeError::InvalidSignature)));
}

#[test]
fn signing_key_roundtrip() {
    let key = SigningKey::from_bytes([3u8; 32]);
    assert_eq!(key.to_bytes(), [3u8; 32]);
    let fresh = Tape::generate_signing_key();
    let other = Tape::generate_signing_key();
    assert_ne!(fresh.to_bytes(), other.to_bytes());
}

#[test]
fn append_event_extends_chain_and_clears_signature() {
    let mut tape = two_step_tape();
    tape.sign(&SigningKey::from_bytes([1u8; 32]));
    let h = tape.append_event(
        EventKind::ProcessExit,
        "final",
        obj(vec![]),
        obj(vec![("status", text("ok"))]),
        vec![],
    );
    assert_eq!(tape.events.len(), 3);
    assert_eq!(tape.events[2].step, 3);
    assert_eq!(tape.events[2].hash, h);
    assert_eq!(tape.events[2].parents, vec![tape.events[1].hash.clone()]);
    assert!(tape.signature.is_none());
    assert!(tape.verify_integrity().is_ok());
    let hashes: Vec<String> = tape.events.iter().map(|e| e.hash.clone()).collect();
    assert_eq!(tape.merkle_root, independent_root(&hashes));
}

#[test]
fn fork_records_note_and_lineage() {
    let source = two_step_tape();
    let fork = source.fork_at(1, "alternate").unwrap();
    assert_eq!(fork.metadata.run_id, format!("{}-fork-1", source.metadata.run_id));
    assert_eq!(fork.metadata.mode, "fork");
    assert_eq!(fork.events.len(), 2);
    let note = &fork.events[1];
    assert_eq!(note.step, 2);
    assert_eq!(note.kind, EventKind::Note);
    assert_eq!(note.name, "fork");
    assert_eq!(
        note.input,
        obj(vec![("at", num(1)), ("source_run_id", text(&source.metadata.run_id))])
    );
    assert_eq!(note.output, obj(vec![("note", text("alternate"))]));
    assert_eq!(note.parents, vec![source.events[0].hash.clone()]);
    assert!(note.labels.is_empty());
    let fork2 = source.fork_at(2, "end").unwrap();
    assert_eq!(fork2.events.len(), 3);
    assert!(fork2.verify_integrity().is_ok());
}

#[test]
fn fork_outside_tape_is_refused() {
    let source = two_step_tape();
    assert!(matches!(source.fork_at(0, "x"), Err(CausaError::ForkStepOutsideTape)));
    assert!(matches!(source.fork_at(3, "x"), Err(CausaError::ForkStepOutsideTape)));
}

#[test]
fn override_rechains_and_keeps_lineage() {
    let source = two_step_tape();
    let derived = source.override_output(2, text("new")).unwrap();
    assert_eq!(derived.metadata.run_id, format!("{}-replay-2", source.metadata.run_id));
    assert_eq!(derived.metadata.mode, "replay-override");
    assert_eq!(derived.metadata.source_run_id, Some(source.metadata.run_id.clone()));
    assert_eq!(derived.metadata.fork_at, Some(2));
    assert_eq!(derived.events[0].hash, source.events[0].hash);
    assert_eq!(derived.events[1].output, text("new"));
    assert_eq!(derived.events[1].input, source.events[1].input);
    assert_ne!(derived.events[1].hash, source.events[1].hash);
    assert!(derived.verify_integrity().is_ok());
    assert!(matches!(source.override_output(0, JsonValue::Null), Err(CausaError::OverrideStepOutsideTape)));
    assert!(matches!(source.override_output(3, JsonValue::Null), Err(CausaError::OverrideStepOutsideTape)));
}

#[test]
fn event_by_step_finds_first() {
    let tape = two_step_tape();
    assert_eq!(tape.event_by_step(2).unwrap().name, "search");
    assert!(tape.event_by_step(9).is_none());
}

#[test]
fn labels_for_step_include_parents() {
    let tape = two_step_tape();
    assert_eq!(tape.labels_for_step(1), vec![Label::new("user", "trusted")]);
    assert_eq!(
        tape.labels_for_step(2),
        vec![Label::new("tool", "search"), Label::new("user", "trusted"), Label::new("web", "untrusted")]
    );
    assert!(tape.labels_for_step(5).is_empty());
}

#[test]
fn inherited_labels_union() {
    let tape = two_step_tape();
    assert_eq!(
        Event::inherited_labels(&tape.events),
        vec![Label::new("tool", "search"), Label::new("user", "trusted"), Label::new("web", "untrusted")]
    );
}

#[test]
fn run_metadata_from_clock() {
    let clock = "SystemTime { tv_sec: 1700000000, tv_nsec: 12345 }";
    let m = metadata();
    let digest = blake3::hash(clock.as_bytes());
    assert_eq!(m.run_id, format!("run-{}", hex::encode(&digest.as_bytes()[..6])));
    assert_eq!(m.created_at, "unix:1700000000");
    assert_eq!(m.command, Some("test".to_string()));
    assert_eq!(m.platform, "linux");
    assert_eq!(m.mode, "test");
    assert_eq!(m.content_policy, "recorded-content");
    assert_eq!(m.source_run_id, None);
    assert_eq!(m.fork_at, None);
    assert_eq!(chrono_like_now(0), "unix:0");
    assert_eq!(chrono_like_now(18446744073709551615), "unix:18446744073709551615");
}

#[test]
fn summary_counts_kinds() {
    let mut tape = two_step_tape();
    tape.append_event(EventKind::ProcessExit, "final", obj(vec![]), JsonValue::Null, vec![]);
    tape.append_event(EventKind::UserMessage, "again", obj(vec![]), JsonValue::Null, vec![]);
    let summary = tape_summary(&tape);
    let expected = format!(
        "{{\"kinds\":{{\"process.exit\":1,\"tool.result\":1,\"user.message\":2}},\"merkle_root\":\"{}\",\"run_id\":\"{}\",\"signed\":false,\"steps\":4}}",
        tape.merkle_root, tape.metadata.run_id
    );
    assert_eq!(to_json_text(&summary), expected);
}
