//! The local OpenAI-compatible proxy: routing, responses, and what it
//! records on a tape.

use vstd::prelude::*;
use vstd::utf8::encode_utf8;

use crate::event::{EventData, EventKind};
use crate::json::{
    array1, json_text, lemma_items_data, lookup, object1, object2, object3, object4, to_json_text,
    JsonData, JsonValue,
};
use crate::label::Label;
use crate::tape::{
    appended_event, content_intact, event_hashes, merkle_root_text, tape_intact, CausaError, Tape,
};
use crate::text::{text_lt, 
    chars_of, decimal, find_text, first_occurrence, occurs_at, owned, push_decimal, push_str,
    split_words, string_from_chars, text_eq, words,
};

verus! {

broadcast use vstd::std_specs::vec::group_vec_axioms;

/// Where a request goes.
#[derive(Debug)]
pub enum ProxyRoute {
    /// `/health`
    Health,
    /// `/v1/models`
    Models,
    /// `/v1/chat/completions`, with the request body.
    Completions { body: String },
    /// Any other path.
    NotFound,
}

/// The text of `request` before its first `\r\n`.
pub open spec fn request_line(request: Seq<char>) -> Seq<char> {
    if exists|i: int| first_occurrence(request, "\r\n"@, i) {
        request.take(choose|i: int| first_occurrence(request, "\r\n"@, i))
    } else {
        request
    }
}

/// The text of `request` after its first `\r\n\r\n`, or nothing.
pub open spec fn request_body(request: Seq<char>) -> Seq<char> {
    if exists|i: int| first_occurrence(request, "\r\n\r\n"@, i) {
        request.skip((choose|i: int| first_occurrence(request, "\r\n\r\n"@, i)) + 4)
    } else {
        seq![]
    }
}

/// The path of a request: the second word of its first line, or `/`.
pub open spec fn request_path(request: Seq<char>) -> Seq<char> {
    let w = words(request_line(request));
    if w.len() > 1 {
        w[1]
    } else {
        "/"@
    }
}

proof fn lemma_first_is(s: Seq<char>, p: Seq<char>, i: int)
    requires
        first_occurrence(s, p, i),
    ensures
        (choose|j: int| first_occurrence(s, p, j)) == i,
{
    let j = choose|j: int| first_occurrence(s, p, j);
    assert(first_occurrence(s, p, j));
}

/// The text of `cs` before the first `p`, or all of it.
fn before_first(cs: &Vec<char>, p: &str) -> (r: String)
    ensures
        r@ == (if exists|i: int| first_occurrence(cs@, p@, i) {
            cs@.take(choose|i: int| first_occurrence(cs@, p@, i))
        } else {
            cs@
        }),
{
    let pc = chars_of(p);
    assert(cs@.skip(0) =~= cs@);
    match find_text(cs, 0, &pc) {
        Some(i) => {
            proof {
                lemma_first_is(cs@, p@, i as int);
            }
            assert(cs@.subrange(0, i as int) =~= cs@.take(i as int));
            string_from_chars(cs, 0, i)
        },
        None => {
            assert(!(exists|i: int| first_occurrence(cs@, p@, i))) by {
                if exists|i: int| first_occurrence(cs@, p@, i) {
                    let i = choose|i: int| first_occurrence(cs@, p@, i);
                    assert(occurs_at(cs@, pc@, i));
                }
            }
            assert(cs@.subrange(0, cs@.len() as int) =~= cs@);
            string_from_chars(cs, 0, cs.len())
        },
    }
}

/// Routes an HTTP request by the path in its request line.
pub fn route_request(request: &str) -> (r: ProxyRoute)
    ensures
        request_path(request@) == "/health"@ ==> r is Health,
        request_path(request@) != "/health"@ && request_path(request@) == "/v1/models"@ ==> r is Models,
        request_path(request@) != "/health"@ && request_path(request@) != "/v1/models"@
            && request_path(request@) != "/v1/chat/completions"@ ==> r is NotFound,
        request_path(request@) == "/v1/chat/completions"@ ==> (r matches ProxyRoute::Completions {
            body,
        } && body@ == request_body(request@)),
{
    proof {
        reveal_strlit("/health");
        reveal_strlit("/v1/models");
        reveal_strlit("/v1/chat/completions");
    }
    let cs = chars_of(request);
    let n: usize = cs.len();
    let first = before_first(&cs, "\r\n");
    let ws = split_words(first.as_str());
    let path = if ws.len() > 1 {
        ws[1].clone()
    } else {
        owned("/")
    };
    assert(ws@.map_values(|w: String| w@).len() == ws@.len());
    assert(path@ == request_path(request@));
    if text_eq(path.as_str(), "/health") {
        return ProxyRoute::Health;
    }
    if text_eq(path.as_str(), "/v1/models") {
        return ProxyRoute::Models;
    }
    if !text_eq(path.as_str(), "/v1/chat/completions") {
        return ProxyRoute::NotFound;
    }
    let sep = chars_of("\r\n\r\n");
    proof {
        reveal_strlit("\r\n\r\n");
    }
    assert(cs@.skip(0) =~= cs@);
    let body = match find_text(&cs, 0, &sep) {
        Some(i) => {
            proof {
                lemma_first_is(cs@, "\r\n\r\n"@, i as int);
            }
            assert(sep@.len() == 4);
            assert(cs@.subrange(i + 4, cs@.len() as int) =~= cs@.skip(i + 4));
            string_from_chars(&cs, i + 4, n)
        },
        None => {
            assert(!(exists|i: int| first_occurrence(cs@, "\r\n\r\n"@, i))) by {
                if exists|i: int| first_occurrence(cs@, "\r\n\r\n"@, i) {
                    let i = choose|i: int| first_occurrence(cs@, "\r\n\r\n"@, i);
                    assert(occurs_at(cs@, sep@, i));
                }
            }
            String::new()
        },
    };
    ProxyRoute::Completions { body }
}

/// The request asks for a streamed answer: its `stream` member is `true`.
pub open spec fn wants_stream(request: JsonData) -> bool {
    lookup(request, "stream"@) == Some(JsonData::Bool(true))
}

/// Whether the request's `stream` member is `true`.
pub fn request_wants_stream(request: &JsonValue) -> (r: bool)
    ensures
        r == wants_stream(request@),
{
    match request.get("stream") {
        Some(JsonValue::Bool(b)) => *b,
        _ => false,
    }
}

/// The answer the proxy gives when it is not replaying a tape.
pub const READY_MESSAGE: &'static str = "Causa proxy is ready. This response was captured locally and can be replayed offline.";

/// A chat completion answering `content`; the completion token count is
/// its number of words.
pub open spec fn openai_response_data(content: Seq<char>) -> JsonData {
    let tokens = JsonData::Number(decimal(words(content).len()));
    JsonData::Object(
        seq![
            (
                "choices"@,
                JsonData::Array(
                    seq![
                        JsonData::Object(
                            seq![
                                ("finish_reason"@, JsonData::Str("stop"@)),
                                ("index"@, JsonData::Number(decimal(0))),
                                (
                                    "message"@,
                                    JsonData::Object(
                                        seq![
                                            ("content"@, JsonData::Str(content)),
                                            ("role"@, JsonData::Str("assistant"@)),
                                        ],
                                    ),
                                ),
                            ],
                        ),
                    ],
                ),
            ),
            ("id"@, JsonData::Str("causa-local"@)),
            ("object"@, JsonData::Str("chat.completion"@)),
            (
                "usage"@,
                JsonData::Object(
                    seq![
                        ("completion_tokens"@, tokens),
                        ("prompt_tokens"@, JsonData::Number(decimal(0))),
                        ("total_tokens"@, tokens),
                    ],
                ),
            ),
        ],
    )
}

/// A chat completion whose answer is `content`.
pub fn openai_response(content: &str) -> (v: JsonValue)
    ensures
        v@ == openai_response_data(content@),
{
    proof {
        reveal_strlit("choices");
        reveal_strlit("completion_tokens");
        reveal_strlit("content");
        reveal_strlit("finish_reason");
        reveal_strlit("id");
        reveal_strlit("index");
        reveal_strlit("message");
        reveal_strlit("object");
        reveal_strlit("prompt_tokens");
        reveal_strlit("role");
        reveal_strlit("total_tokens");
        reveal_strlit("usage");
        reveal_with_fuel(text_lt, 8);
        assert(text_lt("content"@, "role"@));
        assert(text_lt("finish_reason"@, "index"@));
        assert(text_lt("index"@, "message"@));
        assert(text_lt("completion_tokens"@, "prompt_tokens"@));
        assert(text_lt("prompt_tokens"@, "total_tokens"@));
        assert(text_lt("choices"@, "id"@));
        assert(text_lt("id"@, "object"@));
        assert(text_lt("object"@, "usage"@));
    }
    let n: u64 = split_words(content).len() as u64;
    let message = object2(
        "content",
        JsonValue::from_str(content),
        "role",
        JsonValue::from_str("assistant"),
    );
    let choice = object3(
        "finish_reason",
        JsonValue::from_str("stop"),
        "index",
        JsonValue::from_u64(0),
        "message",
        message,
    );
    let usage = object3(
        "completion_tokens",
        JsonValue::from_u64(n),
        "prompt_tokens",
        JsonValue::from_u64(0),
        "total_tokens",
        JsonValue::from_u64(n),
    );
    let v = object4(
        "choices",
        array1(choice),
        "id",
        JsonValue::from_str("causa-local"),
        "object",
        JsonValue::from_str("chat.completion"),
        "usage",
        usage,
    );
    v
}

/// An HTTP response with a JSON body.
pub open spec fn http_json_text(status: Seq<char>, body: JsonData) -> Seq<char> {
    let text = json_text(body);
    "HTTP/1.1 "@ + status + "\r\nContent-Type: application/json\r\nContent-Length: "@ + decimal(
        encode_utf8(text).len(),
    ) + "\r\nConnection: close\r\n\r\n"@ + text
}

/// An HTTP response with status `status` and the compact JSON of `body`.
pub fn http_json(status: &str, body: &JsonValue) -> (r: String)
    ensures
        r@ == http_json_text(status@, body@),
{
    let text = to_json_text(body);
    let length: usize = text.as_str().as_bytes().len();
    let mut r = owned("HTTP/1.1 ");
    push_str(&mut r, status);
    push_str(&mut r, "\r\nContent-Type: application/json\r\nContent-Length: ");
    push_decimal(&mut r, length as u64);
    push_str(&mut r, "\r\nConnection: close\r\n\r\n");
    push_str(&mut r, text.as_str());
    assert(r@ =~= http_json_text(status@, body@));
    r
}

/// The first chunk of a streamed answer.
pub open spec fn sse_first_chunk(content: Seq<char>) -> JsonData {
    JsonData::Object(
        seq![
            (
                "choices"@,
                JsonData::Array(
                    seq![
                        JsonData::Object(
                            seq![
                                (
                                    "delta"@,
                                    JsonData::Object(
                                        seq![
                                            ("content"@, JsonData::Str(content)),
                                            ("role"@, JsonData::Str("assistant"@)),
                                        ],
                                    ),
                                ),
                                ("finish_reason"@, JsonData::Null),
                                ("index"@, JsonData::Number(decimal(0))),
                            ],
                        ),
                    ],
                ),
            ),
            ("id"@, JsonData::Str("causa-local"@)),
            ("object"@, JsonData::Str("chat.completion.chunk"@)),
        ],
    )
}

/// The closing chunk of a streamed answer.
pub open spec fn sse_done_chunk() -> JsonData {
    JsonData::Object(
        seq![
            (
                "choices"@,
                JsonData::Array(
                    seq![
                        JsonData::Object(
                            seq![
                                ("delta"@, JsonData::Object(seq![])),
                                ("finish_reason"@, JsonData::Str("stop"@)),
                                ("index"@, JsonData::Number(decimal(0))),
                            ],
                        ),
                    ],
                ),
            ),
            ("id"@, JsonData::Str("causa-local"@)),
            ("object"@, JsonData::Str("chat.completion.chunk"@)),
        ],
    )
}

/// The event-stream body of a streamed answer.
pub open spec fn sse_body(content: Seq<char>) -> Seq<char> {
    "data: "@ + json_text(sse_first_chunk(content)) + "\n\ndata: "@ + json_text(sse_done_chunk())
        + "\n\ndata: [DONE]\n\n"@
}

/// An HTTP response streaming `content` as server-sent events.
pub open spec fn http_sse_text(content: Seq<char>) -> Seq<char> {
    let body = sse_body(content);
    "HTTP/1.1 200 OK\r\nContent-Type: text/event-stream\r\nCache-Control: no-cache\r\nContent-Length: "@
        + decimal(encode_utf8(body).len()) + "\r\nConnection: close\r\n\r\n"@ + body
}

/// An HTTP response streaming `content` as server-sent events.
pub fn http_sse(content: &str) -> (r: String)
    ensures
        r@ == http_sse_text(content@),
{
    proof {
        reveal_strlit("choices");
        reveal_strlit("content");
        reveal_strlit("delta");
        reveal_strlit("finish_reason");
        reveal_strlit("id");
        reveal_strlit("index");
        reveal_strlit("object");
        reveal_strlit("role");
        reveal_with_fuel(text_lt, 8);
        assert(text_lt("content"@, "role"@));
        assert(text_lt("delta"@, "finish_reason"@));
        assert(text_lt("finish_reason"@, "index"@));
        assert(text_lt("choices"@, "id"@));
        assert(text_lt("id"@, "object"@));
    }
    let delta = object2(
        "content",
        JsonValue::from_str(content),
        "role",
        JsonValue::from_str("assistant"),
    );
    let first_choice = object3(
        "delta",
        delta,
        "finish_reason",
        JsonValue::Null,
        "index",
        JsonValue::from_u64(0),
    );
    let first = object3(
        "choices",
        array1(first_choice),
        "id",
        JsonValue::from_str("causa-local"),
        "object",
        JsonValue::from_str("chat.completion.chunk"),
    );
    let done_choice = object3(
        "delta",
        JsonValue::empty_object(),
        "finish_reason",
        JsonValue::from_str("stop"),
        "index",
        JsonValue::from_u64(0),
    );
    let done = object3(
        "choices",
        array1(done_choice),
        "id",
        JsonValue::from_str("causa-local"),
        "object",
        JsonValue::from_str("chat.completion.chunk"),
    );
    let mut body = owned("data: ");
    push_str(&mut body, to_json_text(&first).as_str());
    push_str(&mut body, "\n\ndata: ");
    push_str(&mut body, to_json_text(&done).as_str());
    push_str(&mut body, "\n\ndata: [DONE]\n\n");
    assert(body@ =~= sse_body(content@));
    let length: usize = body.as_str().as_bytes().len();
    let mut r = owned(
        "HTTP/1.1 200 OK\r\nContent-Type: text/event-stream\r\nCache-Control: no-cache\r\nContent-Length: ",
    );
    push_decimal(&mut r, length as u64);
    push_str(&mut r, "\r\nConnection: close\r\n\r\n");
    push_str(&mut r, body.as_str());
    assert(r@ =~= http_sse_text(content@));
    r
}

/// The reply to a health check.
pub fn health_reply() -> (r: String)
    ensures
        r@ == http_json_text(
            "200 OK"@,
            JsonData::Object(
                seq![("service"@, JsonData::Str("causa"@)), ("status"@, JsonData::Str("ok"@))],
            ),
        ),
{
    proof {
        reveal_strlit("service");
        reveal_strlit("status");
        reveal_with_fuel(text_lt, 8);
        assert(text_lt("service"@, "status"@));
    }
    http_json(
        "200 OK",
        &object2("service", JsonValue::from_str("causa"), "status", JsonValue::from_str("ok")),
    )
}

/// The reply listing the one model the proxy serves.
pub fn models_reply() -> (r: String)
    ensures
        r@ == http_json_text(
            "200 OK"@,
            JsonData::Object(
                seq![
                    (
                        "data"@,
                        JsonData::Array(
                            seq![
                                JsonData::Object(
                                    seq![
                                        ("id"@, JsonData::Str("causa-replay"@)),
                                        ("object"@, JsonData::Str("model"@)),
                                    ],
                                ),
                            ],
                        ),
                    ),
                    ("object"@, JsonData::Str("list"@)),
                ],
            ),
        ),
{
    proof {
        reveal_strlit("data");
        reveal_strlit("id");
        reveal_strlit("object");
        reveal_with_fuel(text_lt, 8);
        assert(text_lt("id"@, "object"@));
        assert(text_lt("data"@, "object"@));
    }
    let model = object2(
        "id",
        JsonValue::from_str("causa-replay"),
        "object",
        JsonValue::from_str("model"),
    );
    http_json(
        "200 OK",
        &object2("data", array1(model), "object", JsonValue::from_str("list")),
    )
}

/// The reply to an unknown path.
pub fn not_found_reply() -> (r: String)
    ensures
        r@ == http_json_text(
            "404 Not Found"@,
            JsonData::Object(seq![("error"@, JsonData::Str("not found"@))]),
        ),
{
    http_json("404 Not Found", &object1("error", JsonValue::from_str("not found")))
}

/// The reply to a request that could not be handled.
pub fn error_reply(message: &str) -> (r: String)
    ensures
        r@ == http_json_text(
            "400 Bad Request"@,
            JsonData::Object(seq![("error"@, JsonData::Str(message@))]),
        ),
{
    http_json("400 Bad Request", &object1("error", JsonValue::from_str(message)))
}

/// Records one proxied exchange: a `ModelRequest` event with the request
/// and a `ModelResponse` event with the response, both named
/// `openai.chat.completions`.
pub fn record_exchange(tape: &mut Tape, request: JsonValue, stream: bool, response: JsonValue)
    requires
        old(tape)@.events.len() + 2 < u64::MAX,
    ensures
        final(tape)@.format == old(tape)@.format,
        final(tape)@.metadata == old(tape)@.metadata,
        final(tape)@.events.len() == old(tape)@.events.len() + 2,
        final(tape)@.events.take(old(tape)@.events.len() as int) == old(tape)@.events,
        appended_event(
            final(tape)@.events[old(tape)@.events.len() as int],
            old(tape)@.events,
            EventKind::ModelRequest,
            "openai.chat.completions"@,
            request@,
            JsonData::Object(seq![("accepted"@, JsonData::Bool(true))]),
            seq![],
        ),
        appended_event(
            final(tape)@.events[old(tape)@.events.len() as int + 1],
            final(tape)@.events.take(old(tape)@.events.len() as int + 1),
            EventKind::ModelResponse,
            "openai.chat.completions"@,
            JsonData::Object(seq![("stream"@, JsonData::Bool(stream))]),
            response@,
            seq![],
        ),
        final(tape)@.merkle_root == merkle_root_text(event_hashes(final(tape)@.events)),
        final(tape)@.signature is None,
        content_intact(old(tape)@) ==> tape_intact(final(tape)@),
{
    let ghost start = tape@;
    let none: Vec<Label> = Vec::new();
    assert(crate::label::label_views(none@) =~= Seq::<(Seq<char>, Seq<char>)>::empty());
    tape.append_event(
        EventKind::ModelRequest,
        "openai.chat.completions",
        request,
        object1("accepted", JsonValue::Bool(true)),
        none,
    );
    let ghost middle = tape@;
    let none2: Vec<Label> = Vec::new();
    assert(crate::label::label_views(none2@) =~= Seq::<(Seq<char>, Seq<char>)>::empty());
    tape.append_event(
        EventKind::ModelResponse,
        "openai.chat.completions",
        object1("stream", JsonValue::Bool(stream)),
        response,
        none2,
    );
    proof {
        let n = start.events.len() as int;
        assert(tape@.events.take(n) =~= middle.events.take(n));
        assert(tape@.events[n] == middle.events[n]);
        assert(tape@.events.take(n + 1) =~= middle.events);
    }
}

/// Why recorded content could not be replayed.
#[derive(Debug, Clone, Copy, PartialEq, Eq, Structural)]
pub enum ReplayError {
    /// The tape has no `ModelResponse` event.
    NoModelResponse,
}

/// One step of a JSON pointer: a member of an object, or the first item of
/// an array for the token `0`.
pub open spec fn pointer_step(d: Option<JsonData>, token: Seq<char>) -> Option<JsonData> {
    match d {
        Some(JsonData::Object(members)) => crate::json::lookup_members(members, token),
        Some(JsonData::Array(items)) => if token == "0"@ && items.len() > 0 {
            Some(items[0])
        } else {
            None
        },
        _ => None,
    }
}

/// The value at `/choices/0/message/content`.
pub open spec fn choice_content(output: JsonData) -> Option<JsonData> {
    pointer_step(
        pointer_step(pointer_step(pointer_step(Some(output), "choices"@), "0"@), "message"@),
        "content"@,
    )
}

/// The text to replay from a response output: the first choice's message
/// content, else the `answer` member, when either is a string; else the
/// output's compact JSON.
pub open spec fn replay_text(output: JsonData) -> Seq<char> {
    match choice_content(output) {
        Some(JsonData::Str(s)) => s,
        _ => match lookup(output, "answer"@) {
            Some(JsonData::Str(s)) => s,
            _ => json_text(output),
        },
    }
}

/// `i` is the last `ModelResponse` event.
pub open spec fn last_response(events: Seq<EventData>, i: int) -> bool {
    &&& 0 <= i < events.len()
    &&& events[i].kind == EventKind::ModelResponse
    &&& forall|j: int| i < j < events.len() ==> (#[trigger] events[j]).kind != EventKind::ModelResponse
}

fn pointer_step_exec<'a>(v: Option<&'a JsonValue>, token: &str) -> (r: Option<&'a JsonValue>)
    ensures
        match v {
            Some(x) => match r {
                Some(y) => pointer_step(Some(x@), token@) == Some(y@),
                None => pointer_step(Some(x@), token@) is None,
            },
            None => r is None,
        },
{
    match v {
        None => None,
        Some(x) => match x {
            JsonValue::Object(_) => x.get(token),
            JsonValue::Array(items) => {
                if text_eq(token, "0") && items.len() > 0 {
                    proof {
                        lemma_items_data(items@);
                    }
                    Some(&items[0])
                } else {
                    proof {
                        lemma_items_data(items@);
                    }
                    None
                }
            },
            _ => None,
        },
    }
}

/// The content to replay from a tape: taken from the output of its last
/// `ModelResponse` event.
pub fn replay_content(tape: &Tape) -> (r: Result<String, ReplayError>)
    ensures
        r is Err <==> forall|i: int|
            0 <= i < tape@.events.len() ==> (#[trigger] tape@.events[i]).kind
                != EventKind::ModelResponse,
        r matches Ok(s) ==> exists|i: int|
            last_response(tape@.events, i) && s@ == replay_text(tape@.events[i].output),
{
    let mut k: usize = tape.events.len();
    while k > 0 && tape.events[k - 1].kind != EventKind::ModelResponse
        invariant
            k <= tape@.events.len(),
            forall|j: int| k <= j < tape@.events.len() ==> (#[trigger] tape@.events[j]).kind
                != EventKind::ModelResponse,
        decreases k,
    {
        k = k - 1;
    }
    if k == 0 {
        return Err(ReplayError::NoModelResponse);
    }
    let event = &tape.events[k - 1];
    assert(last_response(tape@.events, k - 1));
    let output = &event.output;
    let content = pointer_step_exec(
        pointer_step_exec(
            pointer_step_exec(pointer_step_exec(Some(output), "choices"), "0"),
            "message",
        ),
        "content",
    );
    if let Some(JsonValue::Str(s)) = content {
        return Ok(s.clone());
    }
    if let Some(JsonValue::Str(s)) = output.get("answer") {
        return Ok(s.clone());
    }
    Ok(to_json_text(output))
}

} // verus!
