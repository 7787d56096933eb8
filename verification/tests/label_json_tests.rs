use causa_core::event::EventKind;
use causa_core::json::{redact_value, to_json_text, JsonValue};
use causa_core::label::{_labels, Label, LabelError};
use causa_core::text::{compare_text, decimal_text, split_lines, split_words, trimmed, TextOrder};

fn obj(members: Vec<(&str, JsonValue)>) -> JsonValue {
    JsonValue::Object(members.into_iter().map(|(k, v)| (k.to_string(), v)).collect())
}

fn text(s: &str) -> JsonValue {
    JsonValue::from_str(s)
}

fn to_serde(v: &JsonValue) -> serde_json::Value {
    match v {
        JsonValue::Null => serde_json::Value::Null,
        JsonValue::Bool(b) => serde_json::Value::Bool(*b),
        JsonValue::Number(n) => serde_json::from_str(n).unwrap(),
        JsonValue::Str(s) => serde_json::Value::String(s.clone()),
        JsonValue::Array(items) => serde_json::Value::Array(items.iter().map(to_serde).collect()),
        JsonValue::Object(members) => {
            let mut map = serde_json::Map::new();
            for (k, v) in members {
                map.insert(k.clone(), to_serde(v));
            }
            serde_json::Value::Object(map)
        }
    }
}

#[test]
fn label_parse_and_text() {
    let l = Label::parse("user:trusted").unwrap();
    assert_eq!(l, Label::new("user", "trusted"));
    assert_eq!(l.as_string(), "user:trusted");
    let nested = Label::parse("a:b:c").unwrap();
    assert_eq!(nested.namespace, "a");
    assert_eq!(nested.value, "b:c");
    assert_eq!(nested.as_string(), "a:b:c");
}

#[test]
fn label_parse_errors() {
    assert_eq!(Label::parse("plain").unwrap_err(), LabelError::MissingSeparator);
    assert_eq!(Label::parse("").unwrap_err(), LabelError::MissingSeparator);
    assert_eq!(Label::parse(":value").unwrap_err(), LabelError::EmptyPart);
    assert_eq!(Label::parse("ns:").unwrap_err(), LabelError::EmptyPart);
    assert_eq!(Label::parse(":").unwrap_err(), LabelError::EmptyPart);
}

#[test]
fn label_text_parses_back() {
    for (ns, v) in [("user", "trusted"), ("web", "untrusted"), ("db", "pii"), ("x", "y:z"), ("é", " ")] {
        let l = Label::new(ns, v);
        assert_eq!(Label::parse(&l.as_string()).unwrap(), l);
    }
}

#[test]
fn labels_helper_collects_parsed_set() {
    let set = _labels(&["web:untrusted", "junk", "user:trusted", "web:untrusted", ":x"]);
    assert_eq!(set, vec![Label::new("user", "trusted"), Label::new("web", "untrusted")]);
    assert!(_labels(&[]).is_empty());
}

#[test]
fn event_kind_names() {
    let all = [
        (EventKind::UserMessage, "user.message"),
        (EventKind::ModelRequest, "model.request"),
        (EventKind::ModelResponse, "model.response"),
        (EventKind::ToolCall, "tool.call"),
        (EventKind::ToolResult, "tool.result"),
        (EventKind::FileRead, "fs.read"),
        (EventKind::FileWrite, "fs.write"),
        (EventKind::HttpRequest, "http.request"),
        (EventKind::StateWrite, "state.write"),
        (EventKind::GuardDecision, "guard.decision"),
        (EventKind::Note, "note"),
        (EventKind::ProcessExit, "process.exit"),
    ];
    for (k, name) in all {
        assert_eq!(k.as_str(), name);
        assert_eq!(k.stored_name(), format!("{:?}", k));
    }
}

#[test]
fn json_text_matches_serde() {
    let v = obj(vec![
        ("a", JsonValue::Array(vec![JsonValue::Null, JsonValue::Bool(false), JsonValue::from_i64(-17)])),
        ("b", text("quote \" backslash \\ newline \n tab \t cr \r bell \u{7} del \u{7f} snow \u{2603} é")),
        ("c", obj(vec![])),
        ("d", JsonValue::Array(vec![])),
        ("e", JsonValue::from_u64(18446744073709551615)),
    ]);
    assert_eq!(to_json_text(&v), serde_json::to_string(&to_serde(&v)).unwrap());
    assert_eq!(to_json_text(&JsonValue::from_i64(i64::MIN)), "-9223372036854775808");
    assert_eq!(to_json_text(&text("\u{1}")), "\"\\u0001\"");
}

#[test]
fn json_get_and_copy() {
    let v = obj(vec![("a", JsonValue::from_u64(1)), ("b", text("x"))]);
    assert_eq!(v.get("b"), Some(&text("x")));
    assert_eq!(v.get("z"), None);
    assert_eq!(text("a").get("a"), None);
    let c = v.copy();
    assert_eq!(c, v);
    assert!(c.same_as(&v));
    assert!(!c.same_as(&text("x")));
}

#[test]
fn redaction_walks_arrays_and_is_idempotent() {
    let keys = vec!["token".to_string(), "password".to_string()];
    let v = obj(vec![
        ("items", JsonValue::Array(vec![obj(vec![("password", JsonValue::from_u64(1)), ("x", text("keep"))])])),
        ("token", obj(vec![("inner", text("gone"))])),
    ]);
    let once = redact_value(&v, &keys);
    let expected = obj(vec![
        ("items", JsonValue::Array(vec![obj(vec![("password", text("[REDACTED]")), ("x", text("keep"))])])),
        ("token", text("[REDACTED]")),
    ]);
    assert_eq!(once, expected);
    assert_eq!(redact_value(&once, &keys), once);
    assert_eq!(redact_value(&text("token"), &keys), text("token"));
    assert_eq!(redact_value(&v, &vec![]), v);
}

#[test]
fn text_helpers() {
    assert_eq!(trimmed("  \t a b \n"), "a b");
    assert_eq!(trimmed("\u{3000}x\u{85}"), "x");
    assert_eq!(split_lines("a\r\nb\n\nc"), vec!["a", "b", "", "c"]);
    assert_eq!(split_lines("a\n"), vec!["a"]);
    assert!(split_lines("").is_empty());
    assert_eq!(split_words("  one two\tthree\n"), vec!["one", "two", "three"]);
    assert!(split_words("   ").is_empty());
    assert_eq!(decimal_text(0), "0");
    assert_eq!(decimal_text(1203), "1203");
    assert!(matches!(compare_text("ab", "b"), TextOrder::Less));
    assert!(matches!(compare_text("b", "b"), TextOrder::Equal));
    assert!(matches!(compare_text("ba", "b"), TextOrder::Greater));
}
