use causa_core::assertion::parse_simple_assertion;
use causa_core::event::{Event, EventKind};
use causa_core::json::JsonValue;
use causa_core::label::Label;
use causa_core::record::{demo_tapes, record_tape};
use causa_core::summary::{events_from_step, labels_display, labels_to_json, new_run_metadata};
use causa_core::tape::{CausaError, TapeBuilder, TapeError, TapeMetadata};
use causa_core::workflow::{
    bisect, changed_fields, diff_tapes, parse_override_spec, BisectError, BisectOutcome,
    OverrideSpecError,
};

fn metadata(mode: &str) -> TapeMetadata {
    new_run_metadata(Some("causa demo".to_string()), mode, "clock", 1, "linux")
}

fn obj(members: Vec<(&str, JsonValue)>) -> JsonValue {
    JsonValue::Object(members.into_iter().map(|(k, v)| (k.to_string(), v)).collect())
}

fn text(s: &str) -> JsonValue {
    JsonValue::from_str(s)
}

#[test]
fn override_spec_forms() {
    assert_eq!(parse_override_spec("step:2@fixtures/alt.json"), Ok((2, "fixtures/alt.json".to_string())));
    assert_eq!(parse_override_spec("3@x.json"), Ok((3, "x.json".to_string())));
    assert_eq!(parse_override_spec("step:+4@a@b"), Ok((4, "a@b".to_string())));
    assert_eq!(parse_override_spec("step:18446744073709551615@f"), Ok((18446744073709551615, "f".to_string())));
}

#[test]
fn override_spec_errors() {
    assert_eq!(parse_override_spec("step:2"), Err(OverrideSpecError::MissingAt));
    assert_eq!(parse_override_spec("step:x@f"), Err(OverrideSpecError::InvalidStep));
    assert_eq!(parse_override_spec("@f"), Err(OverrideSpecError::InvalidStep));
    assert_eq!(parse_override_spec("step:@f"), Err(OverrideSpecError::InvalidStep));
    assert_eq!(parse_override_spec("step:-1@f"), Err(OverrideSpecError::InvalidStep));
    assert_eq!(parse_override_spec("step:18446744073709551616@f"), Err(OverrideSpecError::InvalidStep));
    assert_eq!(parse_override_spec("step:0@f"), Err(OverrideSpecError::ZeroStep));
    assert_eq!(parse_override_spec("step:1@"), Err(OverrideSpecError::EmptyPath));
}

#[test]
fn changed_fields_lists_differences() {
    let a = Event::new(1, EventKind::Note, "a", obj(vec![]), text("x"), vec![Label::new("user", "trusted")], vec![]);
    let b = Event::new(1, EventKind::Note, "a", obj(vec![]), text("y"), vec![], vec![]);
    assert_eq!(changed_fields(&a, &b), vec!["output", "labels"]);
    let c = Event::new(2, EventKind::ToolCall, "c", JsonValue::Null, text("x"), vec![], vec!["p".to_string()]);
    assert_eq!(changed_fields(&a, &c), vec!["kind", "name", "input", "labels", "parents"]);
    assert!(changed_fields(&a, &a).is_empty());
}

#[test]
fn diff_of_demo_pair() {
    let (good, bad) = demo_tapes(metadata("demo"), metadata("demo"));
    let d = diff_tapes(&bad, &good);
    assert_eq!(d.differing, vec![1, 2, 3]);
    assert_eq!(d.first_divergence, 2);
    let same = diff_tapes(&good, &good);
    assert!(same.differing.is_empty());
    assert_eq!(same.first_divergence, 0);
}

#[test]
fn diff_of_prefix() {
    let (good, _) = demo_tapes(metadata("demo"), metadata("demo"));
    let short = good.fork_at(2, "cut").unwrap();
    let d = diff_tapes(&short, &good);
    assert_eq!(d.differing, vec![2, 3]);
    assert_eq!(d.first_divergence, 3);
}

#[test]
fn bisect_finds_search_result() {
    let (good, bad) = demo_tapes(metadata("demo"), metadata("demo"));
    assert!(good.verify_integrity().is_ok());
    assert!(bad.verify_integrity().is_ok());
    let outcome = bisect(&bad, &good, "final.status == \"ok\"").unwrap();
    assert_eq!(outcome, BisectOutcome::RootCause { index: 1, affected: 3, last_step: 4 });
    assert_eq!(bad.events[1].name, "search.results");
}

#[test]
fn bisect_needs_flip() {
    let (good, bad) = demo_tapes(metadata("demo"), metadata("demo"));
    assert!(matches!(bisect(&good, &bad, "final.status == \"ok\""), Err(BisectError::NotFlipped)));
    assert!(matches!(
        bisect(&bad, &good, "rm -rf"),
        Err(BisectError::Assertion(CausaError::Tape(TapeError::InvalidAssertion(_))))
    ));
}

#[test]
fn bisect_without_divergence() {
    let (good, _) = demo_tapes(metadata("demo"), metadata("demo"));
    let mut bad_b = TapeBuilder::new(metadata("demo"));
    for e in &good.events {
        bad_b.push(e.kind, e.name.as_str(), e.input.copy(), e.output.copy(), e.labels.clone());
    }
    let same = bad_b.finish();
    assert!(matches!(bisect(&same, &good, "final.status == \"ok\""), Err(BisectError::NotFlipped)));
}

#[test]
fn assertion_forms() {
    let t = record_tape(metadata("record"), "sh -c true", true, Some(0), "hello", "");
    assert_eq!(parse_simple_assertion("  final.status == ok  ", &t).unwrap(), true);
    assert_eq!(parse_simple_assertion("final.status=='ok'", &t).unwrap(), true);
    assert_eq!(parse_simple_assertion("final.status == \"error\"", &t).unwrap(), false);
    assert_eq!(parse_simple_assertion("final.output.stdout == \"hello\"", &t).unwrap(), true);
    assert_eq!(parse_simple_assertion("final.output.code == 0", &t).unwrap(), true);
    assert_eq!(parse_simple_assertion("final.output.missing == 0", &t).unwrap(), false);
    match parse_simple_assertion("  final.other == x ", &t) {
        Err(CausaError::Tape(TapeError::InvalidAssertion(a))) => assert_eq!(a, "final.other == x"),
        other => panic!("unexpected {:?}", other),
    }
    let empty = TapeBuilder::new(metadata("x")).finish();
    assert!(matches!(parse_simple_assertion("final.status == ok", &empty), Err(CausaError::EmptyTape)));
    assert!(matches!(
        parse_simple_assertion("nothing here", &empty),
        Err(CausaError::Tape(TapeError::InvalidAssertion(_)))
    ));
}

#[test]
fn record_tape_captures_exit() {
    let t = record_tape(metadata("record"), "false", false, None, "", "boom");
    assert_eq!(t.events.len(), 2);
    assert_eq!(t.events[0].name, "process.start");
    assert_eq!(t.events[0].kind, EventKind::Note);
    assert_eq!(t.events[0].input, obj(vec![("command", text("false"))]));
    assert_eq!(t.events[0].output, obj(vec![("status", text("started"))]));
    assert_eq!(t.events[1].name, "process.exit");
    assert_eq!(t.events[1].kind, EventKind::ProcessExit);
    assert_eq!(
        t.events[1].output,
        obj(vec![
            ("code", JsonValue::Null),
            ("status", text("error")),
            ("stderr", text("boom")),
            ("stdout", text("")),
        ])
    );
    assert!(t.verify_integrity().is_ok());
    let failing = record_tape(metadata("record"), "x", false, Some(-2), "", "");
    assert_eq!(failing.events[1].output.get("code"), Some(&JsonValue::Number("-2".to_string())));
}

#[test]
fn timeline_helpers() {
    let (good, _) = demo_tapes(metadata("demo"), metadata("demo"));
    assert_eq!(events_from_step(&good, 3), vec![2, 3]);
    assert_eq!(events_from_step(&good, 1), vec![0, 1, 2, 3]);
    assert!(events_from_step(&good, 9).is_empty());
    let labels = vec![Label::new("tool", "search"), Label::new("web", "untrusted")];
    assert_eq!(labels_display(&labels), "tool:search, web:untrusted");
    assert_eq!(labels_display(&vec![]), "");
    assert_eq!(
        labels_to_json(&labels),
        JsonValue::Array(vec![text("tool:search"), text("web:untrusted")])
    );
}

fn prefix_of(tape: &causa_core::tape::Tape, n: usize) -> causa_core::tape::Tape {
    let mut b = TapeBuilder::new(metadata("prefix"));
    for e in &tape.events[..n] {
        b.push(e.kind, e.name.as_str(), e.input.copy(), e.output.copy(), e.labels.clone());
    }
    b.finish()
}

#[test]
fn diff_when_right_is_prefix() {
    let (good, _) = demo_tapes(metadata("demo"), metadata("demo"));
    let prefix = prefix_of(&good, 2);
    assert_eq!(prefix.events[1].hash, good.events[1].hash);
    let d = diff_tapes(&good, &prefix);
    assert_eq!(d.differing, vec![2, 3]);
    assert_eq!(d.first_divergence, 3);
    let e = diff_tapes(&prefix, &good);
    assert_eq!(e.differing, vec![2, 3]);
    assert_eq!(e.first_divergence, 3);
}

#[test]
fn bisect_on_truncated_bad_tape() {
    let (good, _) = demo_tapes(metadata("demo"), metadata("demo"));
    let bad = prefix_of(&good, 2);
    assert_eq!(
        bisect(&bad, &good, "final.status == \"ok\"").unwrap(),
        BisectOutcome::Truncated { first_missing: 3 }
    );
}
