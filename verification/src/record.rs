//! Tapes that the library writes itself: a recorded process run and the
//! demonstration pair.

use vstd::prelude::*;

use crate::event::EventKind;
use crate::json::{array1, array3, object1, object2, object4, signed_decimal, JsonData, JsonValue};
use crate::label::{label_views, Label};
use crate::tape::{
    built_from, event_hashes, format_version, lemma_built_from_push, merkle_root_text,
    EventContent, Tape, TapeBuilder, TapeMetadata,
};
use crate::text::{decimal, text_lt};

verus! {

broadcast use vstd::std_specs::vec::group_vec_axioms;

/// The events recorded for a process run: its start and its exit.
pub open spec fn process_events(
    command: Seq<char>,
    success: bool,
    code: Option<i32>,
    stdout: Seq<char>,
    stderr: Seq<char>,
) -> Seq<EventContent> {
    seq![
        (
            EventKind::Note,
            "process.start"@,
            JsonData::Object(seq![("command"@, JsonData::Str(command))]),
            JsonData::Object(seq![("status"@, JsonData::Str("started"@))]),
            seq![],
        ),
        (
            EventKind::ProcessExit,
            "process.exit"@,
            JsonData::Object(seq![("command"@, JsonData::Str(command))]),
            JsonData::Object(
                seq![
                    (
                        "code"@,
                        match code {
                            Some(c) => JsonData::Number(signed_decimal(c as int)),
                            None => JsonData::Null,
                        },
                    ),
                    ("status"@, JsonData::Str(if success { "ok"@ } else { "error"@ })),
                    ("stderr"@, JsonData::Str(stderr)),
                    ("stdout"@, JsonData::Str(stdout)),
                ],
            ),
            seq![],
        ),
    ]
}

fn no_labels() -> (v: Vec<Label>)
    ensures
        label_views(v@) == Seq::<(Seq<char>, Seq<char>)>::empty(),
{
    let v: Vec<Label> = Vec::new();
    assert(label_views(v@) =~= Seq::<(Seq<char>, Seq<char>)>::empty());
    v
}

/// The tape of a process run: a `Note` when it started and a
/// `ProcessExit` with its status, exit code and output.
pub fn record_tape(
    metadata: TapeMetadata,
    command: &str,
    success: bool,
    code: Option<i32>,
    stdout: &str,
    stderr: &str,
) -> (t: Tape)
    ensures
        t@.format == format_version(),
        t@.metadata == metadata@,
        built_from(t@.events, process_events(command@, success, code, stdout@, stderr@)),
        t@.merkle_root == merkle_root_text(event_hashes(t@.events)),
        t@.signature is None,
{
    proof {
        reveal_strlit("code");
        reveal_strlit("status");
        reveal_strlit("stderr");
        reveal_strlit("stdout");
        reveal_with_fuel(text_lt, 8);
        assert(text_lt("code"@, "status"@));
        assert(text_lt("status"@, "stderr"@));
        assert(text_lt("stderr"@, "stdout"@));
    }
    let mut builder = TapeBuilder::new(metadata);
    let ghost b0 = builder@.1;
    builder.push(
        EventKind::Note,
        "process.start",
        object1("command", JsonValue::from_str(command)),
        object1("status", JsonValue::from_str("started")),
        no_labels(),
    );
    let ghost b1 = builder@.1;
    proof {
        assert(built_from(b0, seq![]));
        lemma_built_from_push(b0, b1, seq![], process_events(command@, success, code, stdout@, stderr@)[0]);
    }
    let code_value = match code {
        Some(c) => JsonValue::from_i64(c as i64),
        None => JsonValue::Null,
    };
    assert(code_value@ == match code {
        Some(c) => JsonData::Number(signed_decimal(c as int)),
        None => JsonData::Null,
    });
    let status = if success { "ok" } else { "error" };
    assert(status@ == if success { "ok"@ } else { "error"@ });
    let ghost cv = code_value@;
    let exit_output = object4(
        "code",
        code_value,
        "status",
        JsonValue::from_str(status),
        "stderr",
        JsonValue::from_str(stderr),
        "stdout",
        JsonValue::from_str(stdout),
    );
    proof {
        let pe = process_events(command@, success, code, stdout@, stderr@);
        assert(pe[1].3->Object_0 =~= seq![
            ("code"@, cv),
            ("status"@, JsonData::Str(status@)),
            ("stderr"@, JsonData::Str(stderr@)),
            ("stdout"@, JsonData::Str(stdout@)),
        ]);
    }
    assert(exit_output@ == process_events(command@, success, code, stdout@, stderr@)[1].3);
    builder.push(
        EventKind::ProcessExit,
        "process.exit",
        object1("command", JsonValue::from_str(command)),
        exit_output,
        no_labels(),
    );
    proof {
        let all = process_events(command@, success, code, stdout@, stderr@);
        lemma_built_from_push(b1, builder@.1, seq![all[0]], all[1]);
        assert(seq![all[0]].push(all[1]) =~= all);
    }
    builder.finish()
}


pub open spec fn text_data(s: Seq<char>) -> JsonData {
    JsonData::Str(s)
}

/// The events of the demonstration tapes.  The good run's search returns
/// its columns as `item, currency, amount`; the failing run's search
/// returns them reordered, and its answer and exit report an error.
pub open spec fn demo_events(good: bool) -> Seq<EventContent> {
    let search_output = if good {
        JsonData::Object(
            seq![
                (
                    "columns"@,
                    JsonData::Array(
                        seq![text_data("item"@), text_data("currency"@), text_data("amount"@)],
                    ),
                ),
                (
                    "rows"@,
                    JsonData::Array(
                        seq![
                            JsonData::Array(
                                seq![
                                    text_data("widget"@),
                                    text_data("USD"@),
                                    JsonData::Number(decimal(10)),
                                ],
                            ),
                        ],
                    ),
                ),
            ],
        )
    } else {
        JsonData::Object(
            seq![
                (
                    "columns"@,
                    JsonData::Array(
                        seq![text_data("item"@), text_data("amount"@), text_data("currency"@)],
                    ),
                ),
                (
                    "rows"@,
                    JsonData::Array(
                        seq![
                            JsonData::Array(
                                seq![
                                    text_data("widget"@),
                                    JsonData::Number(decimal(10)),
                                    text_data("EUR"@),
                                ],
                            ),
                        ],
                    ),
                ),
            ],
        )
    };
    let answer_output = if good {
        JsonData::Object(
            seq![
                ("answer"@, text_data("The widget costs 10 USD."@)),
                ("status"@, text_data("ok"@)),
            ],
        )
    } else {
        JsonData::Object(
            seq![
                ("answer"@, text_data("Currency column changed."@)),
                ("status"@, text_data("error"@)),
            ],
        )
    };
    let final_status = if good {
        "ok"@
    } else {
        "error"@
    };
    seq![
        (
            EventKind::UserMessage,
            "user.prompt"@,
            JsonData::Object(seq![("text"@, text_data("Find the price"@))]),
            JsonData::Object(seq![("accepted"@, JsonData::Bool(true))]),
            seq![("user"@, "trusted"@)],
        ),
        (
            EventKind::ToolCall,
            "search.results"@,
            JsonData::Object(seq![("query"@, text_data("price"@))]),
            search_output,
            seq![("web"@, "untrusted"@), ("tool"@, "search"@)],
        ),
        (
            EventKind::ModelResponse,
            "agent.answer"@,
            JsonData::Object(seq![("context_step"@, JsonData::Number(decimal(2)))]),
            answer_output,
            seq![("web"@, "untrusted"@)],
        ),
        (
            EventKind::ProcessExit,
            "final"@,
            JsonData::Object(seq![]),
            JsonData::Object(seq![("status"@, text_data(final_status))]),
            seq![],
        ),
    ]
}

fn one_label(namespace: &str, value: &str) -> (v: Vec<Label>)
    ensures
        label_views(v@) == seq![(namespace@, value@)],
{
    let mut v: Vec<Label> = Vec::new();
    v.push(Label::new(namespace, value));
    assert(label_views(v@) =~= seq![(namespace@, value@)]);
    v
}

fn two_labels(n1: &str, v1: &str, n2: &str, v2: &str) -> (v: Vec<Label>)
    ensures
        label_views(v@) == seq![(n1@, v1@), (n2@, v2@)],
{
    let mut v: Vec<Label> = Vec::new();
    v.push(Label::new(n1, v1));
    v.push(Label::new(n2, v2));
    assert(label_views(v@) =~= seq![(n1@, v1@), (n2@, v2@)]);
    v
}

fn demo_search_output(good: bool) -> (v: JsonValue)
    ensures
        v@ == demo_events(good)[1].3,
{
    proof {
        reveal_strlit("columns");
        reveal_strlit("rows");
        reveal_with_fuel(text_lt, 8);
        assert(text_lt("columns"@, "rows"@));
    }
    let s = |t: &str| -> (r: JsonValue)
        ensures
            r@ == text_data(t@),
        { JsonValue::from_str(t) };
    let v = if good {
        object2(
            "columns",
            array3(s("item"), s("currency"), s("amount")),
            "rows",
            array1(array3(s("widget"), s("USD"), JsonValue::from_u64(10))),
        )
    } else {
        object2(
            "columns",
            array3(s("item"), s("amount"), s("currency")),
            "rows",
            array1(array3(s("widget"), JsonValue::from_u64(10), s("EUR"))),
        )
    };
    v
}

fn demo_answer_output(good: bool) -> (v: JsonValue)
    ensures
        v@ == demo_events(good)[2].3,
{
    proof {
        reveal_strlit("answer");
        reveal_strlit("status");
        reveal_with_fuel(text_lt, 8);
        assert(text_lt("answer"@, "status"@));
    }
    if good {
        object2(
            "answer",
            JsonValue::from_str("The widget costs 10 USD."),
            "status",
            JsonValue::from_str("ok"),
        )
    } else {
        object2(
            "answer",
            JsonValue::from_str("Currency column changed."),
            "status",
            JsonValue::from_str("error"),
        )
    }
}

/// One of the demonstration tapes: the good run, or the failing one.
pub fn demo_tape(metadata: TapeMetadata, good: bool) -> (t: Tape)
    ensures
        t@.format == format_version(),
        t@.metadata == metadata@,
        built_from(t@.events, demo_events(good)),
        t@.merkle_root == merkle_root_text(event_hashes(t@.events)),
        t@.signature is None,
{
    let ghost all = demo_events(good);
    let mut builder = TapeBuilder::new(metadata);
    let ghost b0 = builder@.1;
    builder.push(
        EventKind::UserMessage,
        "user.prompt",
        object1("text", JsonValue::from_str("Find the price")),
        object1("accepted", JsonValue::Bool(true)),
        one_label("user", "trusted"),
    );
    let ghost b1 = builder@.1;
    proof {
        assert(built_from(b0, seq![]));
        lemma_built_from_push(b0, b1, seq![], all[0]);
    }
    builder.push(
        EventKind::ToolCall,
        "search.results",
        object1("query", JsonValue::from_str("price")),
        demo_search_output(good),
        two_labels("web", "untrusted", "tool", "search"),
    );
    let ghost b2 = builder@.1;
    proof {
        lemma_built_from_push(b1, b2, seq![all[0]], all[1]);
    }
    builder.push(
        EventKind::ModelResponse,
        "agent.answer",
        object1("context_step", JsonValue::from_u64(2)),
        demo_answer_output(good),
        one_label("web", "untrusted"),
    );
    let ghost b3 = builder@.1;
    proof {
        lemma_built_from_push(b2, b3, seq![all[0], all[1]], all[2]);
    }
    let status = if good { "ok" } else { "error" };
    let final_output = object1("status", JsonValue::from_str(status));
    proof {
        assert(final_output@->Object_0 =~= all[3].3->Object_0);
    }
    builder.push(
        EventKind::ProcessExit,
        "final",
        JsonValue::empty_object(),
        final_output,
        no_labels(),
    );
    proof {
        lemma_built_from_push(b3, builder@.1, seq![all[0], all[1], all[2]], all[3]);
        assert(seq![all[0], all[1], all[2]].push(all[3]) =~= all);
    }
    builder.finish()
}

/// The demonstration pair: a good run and a run that fails because its
/// search result changed shape.
pub fn demo_tapes(good_metadata: TapeMetadata, bad_metadata: TapeMetadata) -> (r: (Tape, Tape))
    ensures
        r.0@.format == format_version(),
        r.0@.metadata == good_metadata@,
        built_from(r.0@.events, demo_events(true)),
        r.0@.merkle_root == merkle_root_text(event_hashes(r.0@.events)),
        r.0@.signature is None,
        r.1@.format == format_version(),
        r.1@.metadata == bad_metadata@,
        built_from(r.1@.events, demo_events(false)),
        r.1@.merkle_root == merkle_root_text(event_hashes(r.1@.events)),
        r.1@.signature is None,
{
    (demo_tape(good_metadata, true), demo_tape(bad_metadata, false))
}

} // verus!
