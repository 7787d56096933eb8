use causa_core::assertion::parse_simple_assertion;
use causa_core::event::{Event, EventKind};
use causa_core::json::{redact_value, JsonValue};
use causa_core::label::Label;
use causa_core::summary::new_run_metadata;
use causa_core::tape::{Tape, TapeBuilder, TapeMetadata, TapeSignature};

fn metadata() -> TapeMetadata {
    new_run_metadata(
        Some("test".to_string()),
        "test",
        "SystemTime { tv_sec: 1700000000, tv_nsec: 12345 }",
        1700000000,
        "linux",
    )
}

fn obj(members: Vec<(&str, JsonValue)>) -> JsonValue {
    JsonValue::Object(members.into_iter().map(|(k, v)| (k.to_string(), v)).collect())
}

fn text(s: &str) -> JsonValue {
    JsonValue::from_str(s)
}

fn num(n: u64) -> JsonValue {
    JsonValue::from_u64(n)
}

fn json_from(v: &serde_json::Value) -> JsonValue {
    match v {
        serde_json::Value::Null => JsonValue::Null,
        serde_json::Value::Bool(b) => JsonValue::Bool(*b),
        serde_json::Value::Number(n) => JsonValue::Number(n.to_string()),
        serde_json::Value::String(s) => JsonValue::Str(s.clone()),
        serde_json::Value::Array(items) => JsonValue::Array(items.iter().map(json_from).collect()),
        serde_json::Value::Object(map) => {
            JsonValue::Object(map.iter().map(|(k, v)| (k.clone(), json_from(v))).collect())
        }
    }
}

fn opt_text(v: &serde_json::Value) -> Option<String> {
    v.as_str().map(|s| s.to_string())
}

fn kind_from(name: &str) -> EventKind {
    match name {
        "UserMessage" => EventKind::UserMessage,
        "ModelRequest" => EventKind::ModelRequest,
        "ModelResponse" => EventKind::ModelResponse,
        "ToolCall" => EventKind::ToolCall,
        "ToolResult" => EventKind::ToolResult,
        "FileRead" => EventKind::FileRead,
        "FileWrite" => EventKind::FileWrite,
        "HttpRequest" => EventKind::HttpRequest,
        "StateWrite" => EventKind::StateWrite,
        "GuardDecision" => EventKind::GuardDecision,
        "Note" => EventKind::Note,
        "ProcessExit" => EventKind::ProcessExit,
        other => panic!("unknown kind {}", other),
    }
}

/// Reads back a tape from its JSON form, as a `.causa` file holds it.
fn tape_from(v: &serde_json::Value) -> Tape {
    let m = &v["metadata"];
    let metadata = TapeMetadata {
        run_id: m["run_id"].as_str().unwrap().to_string(),
        created_at: m["created_at"].as_str().unwrap().to_string(),
        command: opt_text(&m["command"]),
        platform: m["platform"].as_str().unwrap().to_string(),
        mode: m["mode"].as_str().unwrap().to_string(),
        content_policy: m["content_policy"].as_str().unwrap().to_string(),
        source_run_id: opt_text(&m["source_run_id"]),
        fork_at: m["fork_at"].as_u64(),
    };
    let events = v["events"]
        .as_array()
        .unwrap()
        .iter()
        .map(|e| {
            let labels: Vec<Label> = e["labels"]
                .as_array()
                .unwrap()
                .iter()
                .map(|l| Label::new(l["namespace"].as_str().unwrap(), l["value"].as_str().unwrap()))
                .collect();
            Event {
                step: e["step"].as_u64().unwrap(),
                kind: kind_from(e["kind"].as_str().unwrap()),
                name: e["name"].as_str().unwrap().to_string(),
                input: json_from(&e["input"]),
                output: json_from(&e["output"]),
                labels: causa_core::label::label_set(&labels),
                parents: e["parents"]
                    .as_array()
                    .unwrap()
                    .iter()
                    .map(|p| p.as_str().unwrap().to_string())
                    .collect(),
                hash: e["hash"].as_str().unwrap().to_string(),
            }
        })
        .collect();
    let signature = match &v["signature"] {
        serde_json::Value::Null => None,
        s => Some(TapeSignature {
            public_key: s["public_key"].as_str().unwrap().to_string(),
            signature: s["signature"].as_str().unwrap().to_string(),
        }),
    };
    Tape {
        format: v["format"].as_str().unwrap().to_string(),
        metadata,
        events,
        merkle_root: v["merkle_root"].as_str().unwrap().to_string(),
        signature,
    }
}

/// The JSON form of a tape: its signed envelope and its signature.
fn tape_to_bytes(tape: &Tape) -> Vec<u8> {
    let mut doc: serde_json::Value = serde_json::from_slice(&tape.signing_bytes()).unwrap();
    let signature = match &tape.signature {
        None => serde_json::Value::Null,
        Some(s) => {
            let mut map = serde_json::Map::new();
            map.insert("public_key".to_string(), serde_json::Value::String(s.public_key.clone()));
            map.insert("signature".to_string(), serde_json::Value::String(s.signature.clone()));
            serde_json::Value::Object(map)
        }
    };
    doc.as_object_mut().unwrap().insert("signature".to_string(), signature);
    serde_json::to_vec(&doc).unwrap()
}

#[test]
fn content_hash_is_stable() {
    let event = Event::new(
        1,
        EventKind::Note,
        "hello",
        obj(vec![("a", num(1))]),
        obj(vec![("b", num(2))]),
        vec![Label::new("user", "trusted")],
        vec![],
    );
    assert_eq!(event.hash, event.calculate_hash());
}

#[test]
fn tape_roundtrip_and_integrity() {
    let mut builder = TapeBuilder::new(metadata());
    builder.push(
        EventKind::UserMessage,
        "input",
        obj(vec![("text", text("hi"))]),
        obj(vec![("accepted", JsonValue::Bool(true))]),
        vec![Label::new("user", "trusted")],
    );
    let tape = builder.finish();
    assert!(tape.verify_integrity().is_ok());
    let encoded = tape_to_bytes(&tape);
    let decoded: Tape = tape_from(&serde_json::from_slice(&encoded).unwrap());
    assert_eq!(decoded.merkle_root, tape.merkle_root);
    assert!(decoded.verify_integrity().is_ok());
    let mut signed = decoded;
    signed.sign(&causa_core::tape::SigningKey::from_bytes([5u8; 32]));
    let again = tape_from(&serde_json::from_slice(&tape_to_bytes(&signed)).unwrap());
    assert!(again.verify_integrity().is_ok());
}

#[test]
fn signature_verifies() {
    let mut builder = TapeBuilder::new(metadata());
    builder.push(
        EventKind::Note,
        "signed",
        obj(vec![]),
        obj(vec![("status", text("ok"))]),
        vec![],
    );
    let mut tape = builder.finish();
    let key = Tape::generate_signing_key();
    tape.sign(&key);
    assert!(tape.verify_integrity().is_ok());
}

#[test]
fn fork_preserves_source_lineage() {
    let mut builder = TapeBuilder::new(metadata());
    builder.push(
        EventKind::UserMessage,
        "input",
        obj(vec![("text", text("hi"))]),
        obj(vec![("accepted", JsonValue::Bool(true))]),
        vec![Label::new("user", "trusted")],
    );
    builder.push(
        EventKind::ToolResult,
        "search",
        obj(vec![]),
        obj(vec![("value", num(1))]),
        vec![Label::new("web", "untrusted")],
    );
    let source = builder.finish();
    let fork = source.fork_at(1, "alternate result").unwrap();
    assert_eq!(fork.events[0].hash, source.events[0].hash);
    assert_eq!(fork.metadata.source_run_id, Some(source.metadata.run_id.clone()));
    assert_eq!(fork.metadata.fork_at, Some(1));
    assert!(fork.verify_integrity().is_ok());
}

#[test]
fn replay_override_changes_only_selected_output() {
    let mut builder = TapeBuilder::new(metadata());
    builder.push(
        EventKind::ToolResult,
        "search",
        obj(vec![]),
        obj(vec![("value", num(1))]),
        vec![],
    );
    builder.push(
        EventKind::ProcessExit,
        "final",
        obj(vec![]),
        obj(vec![("status", text("ok"))]),
        vec![],
    );
    let source = builder.finish();
    let derived = source.override_output(1, obj(vec![("value", num(2))])).unwrap();
    assert_eq!(derived.events[0].output, obj(vec![("value", num(2))]));
    assert_eq!(derived.events[1].output, source.events[1].output);
    assert!(derived.verify_integrity().is_ok());
}

#[test]
fn redaction_replaces_nested_sensitive_keys() {
    let keys = vec!["token".to_string()];
    let result = redact_value(&obj(vec![("nested", obj(vec![("token", text("secret"))]))]), &keys);
    assert_eq!(
        result.get("nested").unwrap().get("token"),
        Some(&JsonValue::Str("[REDACTED]".to_string()))
    );
}

#[test]
fn assertion_is_safe_and_limited() {
    let mut builder = TapeBuilder::new(metadata());
    builder.push(
        EventKind::ProcessExit,
        "exit",
        obj(vec![]),
        obj(vec![("status", text("ok"))]),
        vec![],
    );
    let tape = builder.finish();
    assert!(parse_simple_assertion("final.status == \"ok\"", &tape).unwrap());
    assert!(parse_simple_assertion("system(", &tape).is_err());
}
