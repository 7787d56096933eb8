//! The small assertion language used to judge a tape's outcome:
//! `final.status == "ok"` and `final.output.<key> == <value>`.

use vstd::prelude::*;

use crate::json::{json_text, lookup, to_json_text, JsonData, JsonValue};
use crate::tape::{CausaError, Tape, TapeData, TapeError};
use crate::text::{
    chars_equal, chars_of, contains_text, find_text, first_occurrence, occurs_at, starts_with,
    string_from_chars, text_eq, text_starts_with, trim, trim_bounds, trim_char, trim_char_bounds,
    trimmed,
};

verus! {

/// The right-hand side of an assertion whose text after `==` is `rest`:
/// trimmed, then stripped of surrounding double and then single quotes.
pub open spec fn assertion_right(rest: Seq<char>) -> Seq<char> {
    trim_char(trim_char(trim(rest), '"'), '\'')
}

/// The verdict of a supported assertion against the final event's output.
pub open spec fn final_status_holds(output: JsonData, right: Seq<char>) -> bool {
    lookup(output, "status"@) matches Some(JsonData::Str(s)) && s == right
}

pub open spec fn final_output_holds(output: JsonData, key: Seq<char>, right: Seq<char>) -> bool {
    lookup(output, key) matches Some(v) && trim_char(json_text(v), '"') == right
}

/// What `parse_simple_assertion` answers for the text `text` on a tape with
/// events `t.events`: `Ok(verdict)`, `Err(true)` for an unsupported
/// assertion, `Err(false)` for a tape without events.
pub open spec fn assertion_outcome(text: Seq<char>, t: TapeData) -> Result<bool, bool> {
    let a = trim(text);
    if !(exists|i: int| first_occurrence(a, "=="@, i)) {
        Err(true)
    } else {
        let i = choose|i: int| first_occurrence(a, "=="@, i);
        let left = trim(a.take(i));
        let right = assertion_right(a.skip(i + 2));
        if left == "final.status"@ {
            if t.events.len() == 0 {
                Err(false)
            } else {
                Ok(final_status_holds(t.events.last().output, right))
            }
        } else if starts_with(left, "final.output."@) {
            if t.events.len() == 0 {
                Err(false)
            } else {
                Ok(final_output_holds(t.events.last().output, left.skip(13), right))
            }
        } else {
            Err(true)
        }
    }
}

proof fn lemma_first_unique(s: Seq<char>, p: Seq<char>, i: int, j: int)
    requires
        first_occurrence(s, p, i),
        first_occurrence(s, p, j),
    ensures
        i == j,
{
}

/// Evaluates an assertion against the tape's final event.  Only
/// `final.status == <text>` (the final output's `status` string equals the
/// text) and `final.output.<key> == <text>` (the compact JSON of the final
/// output's member `key`, stripped of surrounding double quotes, equals the
/// text) are supported; the text may be quoted.
pub fn parse_simple_assertion(assertion: &str, tape: &Tape) -> (r: Result<bool, CausaError>)
    ensures
        match assertion_outcome(assertion@, tape@) {
            Ok(b) => r == Ok::<bool, CausaError>(b),
            Err(true) => r matches Err(CausaError::Tape(TapeError::InvalidAssertion(t)))
                && t@ == trim(assertion@),
            Err(false) => r matches Err(CausaError::EmptyTape),
        },
{
    let a = trimmed(assertion);
    let cs = chars_of(a.as_str());
    let eq = vec!['=', '='];
    assert(eq@ =~= "=="@) by {
        reveal_strlit("==");
    }
    assert(cs@.skip(0) =~= cs@);
    let found = find_text(&cs, 0, &eq);
    let i = match found {
        None => {
            assert(!(exists|i: int| first_occurrence(a@, "=="@, i))) by {
                if exists|i: int| first_occurrence(a@, "=="@, i) {
                    let i = choose|i: int| first_occurrence(a@, "=="@, i);
                    assert(occurs_at(cs@, eq@, i));
                }
            }
            return Err(CausaError::Tape(TapeError::InvalidAssertion(a)));
        },
        Some(i) => i,
    };
    proof {
        let j = choose|j: int| first_occurrence(a@, "=="@, j);
        lemma_first_unique(a@, "=="@, i as int, j);
    }
    let n: usize = cs.len();
    let (l0, l1) = trim_bounds(&cs, 0, i);
    let left = string_from_chars(&cs, l0, l1);
    assert(cs@.subrange(0, i as int) =~= a@.take(i as int));
    let (r0, r1) = trim_bounds(&cs, i + 2, n);
    let (r2, r3) = trim_char_bounds(&cs, r0, r1, '"');
    let (r4, r5) = trim_char_bounds(&cs, r2, r3, '\'');
    assert(cs@.subrange(i + 2, n as int) =~= a@.skip(i + 2));
    let ghost right = cs@.subrange(r4 as int, r5 as int);
    assert(right == assertion_right(a@.skip(i + 2)));
    if text_eq(left.as_str(), "final.status") {
        if tape.events.len() == 0 {
            return Err(CausaError::EmptyTape);
        }
        let last = &tape.events[tape.events.len() - 1];
        assert(last@ == tape@.events.last());
        let verdict = match last.output.get("status") {
            Some(JsonValue::Str(s)) => {
                let sc = chars_of(s.as_str());
                if sc.len() == r5 - r4 {
                    let same = chars_equal(&sc, 0, &cs, r4, r5 - r4);
                    assert(sc@.subrange(0, sc@.len() as int) =~= sc@);
                    same
                } else {
                    false
                }
            },
            _ => false,
        };
        return Ok(verdict);
    }
    if text_starts_with(left.as_str(), "final.output.") {
        if tape.events.len() == 0 {
            return Err(CausaError::EmptyTape);
        }
        proof {
            reveal_strlit("final.output.");
        }
        let lc = chars_of(left.as_str());
        let key = string_from_chars(&lc, 13, lc.len());
        assert(lc@.subrange(13, lc@.len() as int) =~= left@.skip(13));
        let last = &tape.events[tape.events.len() - 1];
        assert(last@ == tape@.events.last());
        let verdict = match last.output.get(key.as_str()) {
            Some(v) => {
                let text = to_json_text(v);
                let tc = chars_of(text.as_str());
                let (t0, t1) = trim_char_bounds(&tc, 0, tc.len(), '"');
                assert(tc@.subrange(0, tc@.len() as int) =~= tc@);
                if t1 - t0 == r5 - r4 {
                    chars_equal(&tc, t0, &cs, r4, r5 - r4)
                } else {
                    false
                }
            },
            None => false,
        };
        return Ok(verdict);
    }
    Err(CausaError::Tape(TapeError::InvalidAssertion(a)))
}

} // verus!
