use causa_core::event::EventKind;
use causa_core::guard::{guard_tape, parse_guard_policy, GuardCondition, PolicyError};
use causa_core::json::{to_json_text, JsonValue};
use causa_core::label::Label;
use causa_core::proxy::{
    error_reply, health_reply, http_json, http_sse, models_reply, not_found_reply,
    openai_response, record_exchange, replay_content, request_wants_stream, route_request,
    ProxyRoute, ReplayError, READY_MESSAGE,
};
use causa_core::summary::new_run_metadata;
use causa_core::tape::{Tape, TapeBuilder, TapeMetadata};

const DEFAULT_POLICY: &str = "deny: tool.email.send when tainted_by(source.web)\ndeny: tool.http.post when context has label(pii)";

fn metadata() -> TapeMetadata {
    new_run_metadata(Some("causa proxy".to_string()), "proxy", "clock", 5, "linux")
}

fn obj(members: Vec<(&str, JsonValue)>) -> JsonValue {
    JsonValue::Object(members.into_iter().map(|(k, v)| (k.to_string(), v)).collect())
}

fn text(s: &str) -> JsonValue {
    JsonValue::from_str(s)
}

fn to_serde(v: &JsonValue) -> serde_json::Value {
    match v {
        JsonValue::Null => serde_json::Value::Null,
        JsonValue::Bool(b) => serde_json::Value::Bool(*b),
        JsonValue::Number(n) => serde_json::from_str(n).unwrap(),
        JsonValue::Str(s) => serde_json::Value::String(s.clone()),
        JsonValue::Array(items) => serde_json::Value::Array(items.iter().map(to_serde).collect()),
        JsonValue::Object(members) => {
            let mut map = serde_json::Map::new();
            for (k, v) in members {
                map.insert(k.clone(), to_serde(v));
            }
            serde_json::Value::Object(map)
        }
    }
}

fn http(status: &str, body: &str) -> String {
    format!(
        "HTTP/1.1 {}\r\nContent-Type: application/json\r\nContent-Length: {}\r\nConnection: close\r\n\r\n{}",
        status,
        body.len(),
        body
    )
}

fn tainted_tape() -> Tape {
    let mut b = TapeBuilder::new(metadata());
    b.push(EventKind::ToolResult, "web.fetch", obj(vec![]), text("page"), vec![Label::new("web", "untrusted")]);
    b.push(EventKind::ToolCall, "tool.email.send", obj(vec![]), JsonValue::Null, vec![]);
    b.push(
        EventKind::FileWrite,
        "fs.write",
        obj(vec![("path", text("./workspace/out.txt"))]),
        JsonValue::Null,
        vec![],
    );
    b.finish()
}

#[test]
fn default_policy_parses() {
    let rules = parse_guard_policy(DEFAULT_POLICY).unwrap();
    assert_eq!(rules.len(), 2);
    assert_eq!(rules[0].effect, "deny");
    assert_eq!(rules[0].target, "tool.email.send");
    assert_eq!(rules[0].condition, GuardCondition::WebTaint);
    assert_eq!(rules[1].target, "tool.http.post");
    assert_eq!(rules[1].condition, GuardCondition::PiiTaint);
}

#[test]
fn policy_skips_comments_and_header() {
    let policy = "policies:\n\n  # a comment\n  allow : fs.write when path under ./workspace  \r\n";
    let rules = parse_guard_policy(policy).unwrap();
    assert_eq!(rules.len(), 1);
    assert_eq!(rules[0].effect, "allow");
    assert_eq!(rules[0].target, "fs.write");
    assert_eq!(rules[0].condition, GuardCondition::WorkspaceWrite);
    assert!(parse_guard_policy("").unwrap().is_empty());
}

#[test]
fn policy_errors_name_the_line() {
    assert_eq!(parse_guard_policy("# ok\ndeny tool.x").unwrap_err(), PolicyError::MissingWhen(2));
    assert_eq!(
        parse_guard_policy("deny tool.x when label(pii)").unwrap_err(),
        PolicyError::MissingEffect(1)
    );
    assert_eq!(
        parse_guard_policy("\n\ndeny: tool.x when sunny").unwrap_err(),
        PolicyError::UnsupportedCondition(3)
    );
}

#[test]
fn guard_denies_tainted_send() {
    let tape = tainted_tape();
    let rules = parse_guard_policy(DEFAULT_POLICY).unwrap();
    let outcome = guard_tape(&tape, &rules, false);
    assert_eq!(outcome.decisions.len(), 1);
    assert_eq!(outcome.blocked, 1);
    let d = &outcome.decisions[0];
    assert_eq!(d.step, 2);
    assert_eq!(d.name, "tool.email.send");
    assert_eq!(d.target, "tool.email.send");
    assert_eq!(d.decision, "deny");
    let a = &outcome.annotated;
    assert_eq!(a.metadata.run_id, format!("{}-guard", tape.metadata.run_id));
    assert_eq!(a.metadata.mode, "guarded");
    assert_eq!(a.events.len(), 4);
    let g = &a.events[3];
    assert_eq!(g.kind, EventKind::GuardDecision);
    assert_eq!(g.name, "guard.decision");
    assert_eq!(
        g.input,
        obj(vec![("event_step", JsonValue::from_u64(2)), ("rule", text("tool.email.send"))])
    );
    assert_eq!(g.output, obj(vec![("decision", text("deny"))]));
    assert_eq!(g.labels, vec![Label::new("web", "untrusted")]);
    assert!(a.verify_integrity().is_ok());
}

#[test]
fn guard_audit_and_allow() {
    let tape = tainted_tape();
    let mut rules = parse_guard_policy(DEFAULT_POLICY).unwrap();
    let audited = guard_tape(&tape, &rules, true);
    assert_eq!(audited.decisions[0].decision, "audit");
    assert_eq!(audited.blocked, 1);
    rules.extend(parse_guard_policy("allow: .write when path under ./workspace").unwrap());
    let both = guard_tape(&tape, &rules, false);
    assert_eq!(both.decisions.len(), 2);
    assert_eq!(both.decisions[1].decision, "allow");
    assert_eq!(both.decisions[1].step, 3);
    assert_eq!(both.blocked, 1);
    let quiet = guard_tape(&tape, &vec![], false);
    assert!(quiet.decisions.is_empty());
    assert_eq!(quiet.annotated.merkle_root, tape.merkle_root);
    assert_eq!(quiet.annotated.events.len(), 3);
}

#[test]
fn routes_by_path() {
    assert!(matches!(route_request("GET /health HTTP/1.1\r\nHost: x\r\n\r\n"), ProxyRoute::Health));
    assert!(matches!(route_request("GET   /v1/models HTTP/1.1\r\n\r\n"), ProxyRoute::Models));
    assert!(matches!(route_request("GET /other HTTP/1.1\r\n\r\n"), ProxyRoute::NotFound));
    assert!(matches!(route_request(""), ProxyRoute::NotFound));
    match route_request("POST /v1/chat/completions HTTP/1.1\r\nContent-Type: json\r\n\r\n{\"stream\":true}") {
        ProxyRoute::Completions { body } => assert_eq!(body, "{\"stream\":true}"),
        other => panic!("unexpected {:?}", other),
    }
    match route_request("POST /v1/chat/completions HTTP/1.1") {
        ProxyRoute::Completions { body } => assert_eq!(body, ""),
        other => panic!("unexpected {:?}", other),
    }
}

#[test]
fn fixed_replies() {
    assert_eq!(health_reply(), http("200 OK", "{\"service\":\"causa\",\"status\":\"ok\"}"));
    assert_eq!(
        models_reply(),
        http("200 OK", "{\"data\":[{\"id\":\"causa-replay\",\"object\":\"model\"}],\"object\":\"list\"}")
    );
    assert_eq!(not_found_reply(), http("404 Not Found", "{\"error\":\"not found\"}"));
    assert_eq!(error_reply("bad \"json\""), http("400 Bad Request", "{\"error\":\"bad \\\"json\\\"\"}"));
}

#[test]
fn completion_response_shape() {
    let r = openai_response("The widget  costs\t10 USD.");
    let expected = "{\"choices\":[{\"finish_reason\":\"stop\",\"index\":0,\"message\":{\"content\":\"The widget  costs\\t10 USD.\",\"role\":\"assistant\"}}],\"id\":\"causa-local\",\"object\":\"chat.completion\",\"usage\":{\"completion_tokens\":5,\"prompt_tokens\":0,\"total_tokens\":5}}";
    assert_eq!(to_json_text(&r), expected);
    assert_eq!(to_json_text(&r), serde_json::to_string(&to_serde(&r)).unwrap());
    let body = to_json_text(&r);
    assert_eq!(http_json("200 OK", &r), http("200 OK", &body));
}

#[test]
fn streamed_response_text() {
    let first = "{\"choices\":[{\"delta\":{\"content\":\"hé\",\"role\":\"assistant\"},\"finish_reason\":null,\"index\":0}],\"id\":\"causa-local\",\"object\":\"chat.completion.chunk\"}";
    let done = "{\"choices\":[{\"delta\":{},\"finish_reason\":\"stop\",\"index\":0}],\"id\":\"causa-local\",\"object\":\"chat.completion.chunk\"}";
    let body = format!("data: {}\n\ndata: {}\n\ndata: [DONE]\n\n", first, done);
    let expected = format!(
        "HTTP/1.1 200 OK\r\nContent-Type: text/event-stream\r\nCache-Control: no-cache\r\nContent-Length: {}\r\nConnection: close\r\n\r\n{}",
        body.len(),
        body
    );
    assert_eq!(http_sse("hé"), expected);
}

#[test]
fn stream_flag() {
    assert!(request_wants_stream(&obj(vec![("stream", JsonValue::Bool(true))])));
    assert!(!request_wants_stream(&obj(vec![("stream", text("true"))])));
    assert!(!request_wants_stream(&obj(vec![])));
    assert!(!request_wants_stream(&JsonValue::Null));
}

#[test]
fn exchange_is_recorded_and_replayed() {
    let mut tape = TapeBuilder::new(metadata()).finish();
    assert_eq!(replay_content(&tape), Err(ReplayError::NoModelResponse));
    let request = obj(vec![("model", text("causa-replay"))]);
    record_exchange(&mut tape, request, false, openai_response(READY_MESSAGE));
    assert_eq!(tape.events.len(), 2);
    assert_eq!(tape.events[0].kind, EventKind::ModelRequest);
    assert_eq!(tape.events[0].name, "openai.chat.completions");
    assert_eq!(tape.events[0].output, obj(vec![("accepted", JsonValue::Bool(true))]));
    assert_eq!(tape.events[1].kind, EventKind::ModelResponse);
    assert_eq!(tape.events[1].input, obj(vec![("stream", JsonValue::Bool(false))]));
    assert!(tape.verify_integrity().is_ok());
    assert_eq!(replay_content(&tape), Ok(READY_MESSAGE.to_string()));
    record_exchange(&mut tape, JsonValue::Null, true, obj(vec![("answer", text("forty-two"))]));
    assert_eq!(replay_content(&tape), Ok("forty-two".to_string()));
    record_exchange(&mut tape, JsonValue::Null, true, obj(vec![("answer", JsonValue::from_u64(42))]));
    assert_eq!(replay_content(&tape), Ok("{\"answer\":42}".to_string()));
    assert!(tape.verify_integrity().is_ok());
}

#[test]
fn labels_flow_down_the_whole_chain() {
    let mut b = TapeBuilder::new(metadata());
    b.push(EventKind::ToolResult, "search", obj(vec![]), obj(vec![]), vec![Label::new("web", "untrusted")]);
    b.push(EventKind::ModelResponse, "answer", obj(vec![]), obj(vec![]), vec![]);
    b.push(EventKind::ToolCall, "tool.email.send", obj(vec![]), obj(vec![]), vec![]);
    let tape = b.finish();
    assert_eq!(tape.labels_for_step(3), vec![Label::new("web", "untrusted")]);
    let rules = parse_guard_policy(DEFAULT_POLICY).unwrap();
    let outcome = guard_tape(&tape, &rules, false);
    assert_eq!(outcome.decisions.len(), 1);
    assert_eq!(outcome.decisions[0].step, 3);
    assert_eq!(outcome.blocked, 1);
}

#[test]
fn guarded_copy_of_signed_tape_verifies() {
    let mut tape = tainted_tape();
    tape.sign(&causa_core::tape::SigningKey::from_bytes([9u8; 32]));
    assert!(tape.verify_integrity().is_ok());
    let quiet = guard_tape(&tape, &vec![], false);
    assert!(quiet.annotated.signature.is_none());
    assert!(quiet.annotated.verify_integrity().is_ok());
    let rules = parse_guard_policy(DEFAULT_POLICY).unwrap();
    let loud = guard_tape(&tape, &rules, true);
    assert!(loud.annotated.signature.is_none());
    assert!(loud.annotated.verify_integrity().is_ok());
}
