//! The trace on the wire: a JSON array of objects with a single key each,
//! `{"call":{"executed":V}}`, `{"call":{"request_sent_by":P}}`,
//! `{"call":{"call_service_failed":M}}` and `{"par":[L,R]}`, as UTF-8 text.

use crate::json::{json_parse, json_text, values_view, JNumber, JNumberView, JValue, JValueView};
use crate::trace::{
    is_well_formed, trace_view, well_formed, CallResult, CallResultView, ExecutedState,
    ExecutionTrace, ParResult, StateView,
};
use vstd::prelude::*;
use vstd::string::{StrSliceExecFns, StringExecFns, StringSliceAdditionalSpecFns};
use vstd::utf8::{decode_utf8, encode_utf8, encode_utf8_decode_utf8, valid_utf8};

verus! {

/// The JSON object with the single entry `key: value`.
pub open spec fn entry(key: Seq<char>, value: JValueView) -> JValueView {
    JValueView::Object(seq![(key, value)])
}

/// The JSON number that a length is written as.
pub open spec fn length_json(n: nat) -> JValueView {
    JValueView::Number(JNumberView::PosInt(n as u64))
}

/// What stands under the key `call` for the result of a call.
pub open spec fn call_json(call: CallResultView) -> JValueView {
    match call {
        CallResultView::Executed(value) => entry("executed"@, value),
        CallResultView::RequestSentBy(peer) => entry("request_sent_by"@, JValueView::String(peer)),
        CallResultView::CallServiceFailed(message) => entry(
            "call_service_failed"@,
            JValueView::String(message),
        ),
    }
}

/// The JSON value of one record of a trace.
pub open spec fn state_json(state: StateView) -> JValueView {
    match state {
        StateView::Call(call) => entry("call"@, call_json(call)),
        StateView::Par(left, right) => entry(
            "par"@,
            JValueView::Array(seq![length_json(left), length_json(right)]),
        ),
    }
}

/// The JSON value of a trace: the array of its records.
pub open spec fn trace_json(trace: Seq<StateView>) -> JValueView {
    JValueView::Array(Seq::new(trace.len(), |i: int| state_json(trace[i])))
}

/// The bytes of a trace: its JSON value as compact UTF-8 text.
pub open spec fn encode_spec(trace: Seq<StateView>) -> Seq<u8> {
    encode_utf8(json_text(trace_json(trace)))
}

/// The length that a JSON value is, where it is a whole number that is not
/// negative and not beyond the largest length.
pub open spec fn json_length(value: JValueView) -> Option<nat> {
    match value {
        JValueView::Number(JNumberView::PosInt(n)) => if n <= usize::MAX {
            Some(n as nat)
        } else {
            None
        },
        _ => None,
    }
}

/// The text that a JSON value is, where it is a string.
pub open spec fn json_string(value: JValueView) -> Option<Seq<char>> {
    match value {
        JValueView::String(text) => Some(text),
        _ => None,
    }
}

/// The key and the value of a JSON object with a single entry.
pub open spec fn json_entry(value: JValueView) -> Option<(Seq<char>, JValueView)> {
    match value {
        JValueView::Object(entries) => if entries.len() == 1 {
            Some(entries[0])
        } else {
            None
        },
        _ => None,
    }
}

/// The result of a call that a JSON value stands for.
pub open spec fn json_call(value: JValueView) -> Option<CallResultView> {
    match json_entry(value) {
        None => None,
        Some((key, inner)) => if key == "executed"@ {
            Some(CallResultView::Executed(inner))
        } else if key == "request_sent_by"@ {
            match json_string(inner) {
                Some(peer) => Some(CallResultView::RequestSentBy(peer)),
                None => None,
            }
        } else if key == "call_service_failed"@ {
            match json_string(inner) {
                Some(message) => Some(CallResultView::CallServiceFailed(message)),
                None => None,
            }
        } else {
            None
        },
    }
}

/// The header of a `par` that a JSON value stands for.
pub open spec fn json_par(value: JValueView) -> Option<StateView> {
    match value {
        JValueView::Array(items) => if items.len() == 2 {
            match (json_length(items[0]), json_length(items[1])) {
                (Some(left), Some(right)) => Some(StateView::Par(left, right)),
                _ => None,
            }
        } else {
            None
        },
        _ => None,
    }
}

/// The record of a trace that a JSON value stands for.
pub open spec fn json_state(value: JValueView) -> Option<StateView> {
    match json_entry(value) {
        None => None,
        Some((key, inner)) => if key == "call"@ {
            match json_call(inner) {
                Some(call) => Some(StateView::Call(call)),
                None => None,
            }
        } else if key == "par"@ {
            json_par(inner)
        } else {
            None
        },
    }
}

/// The records that the first `n` of `items` stand for, where each of them
/// stands for one.
pub open spec fn json_states(items: Seq<JValueView>, n: int) -> Option<Seq<StateView>>
    decreases n,
{
    if n <= 0 {
        Some(Seq::empty())
    } else {
        match json_states(items, n - 1) {
            None => None,
            Some(states) => match json_state(items[n - 1]) {
                None => None,
                Some(state) => Some(states.push(state)),
            },
        }
    }
}

/// The trace that a JSON value stands for: it has to be an array of
/// records that is a well-formed trace.
pub open spec fn json_trace(value: JValueView) -> Option<Seq<StateView>> {
    match value {
        JValueView::Array(items) => match json_states(items, items.len() as int) {
            Some(states) => if well_formed(states) {
                Some(states)
            } else {
                None
            },
            None => None,
        },
        _ => None,
    }
}

/// The trace that bytes stand for. No bytes stand for the empty trace;
/// else the bytes have to be the UTF-8 text of a JSON value that stands for
/// a trace.
pub open spec fn decode_spec(data: Seq<u8>) -> Option<Seq<StateView>> {
    if data.len() == 0 {
        Some(Seq::empty())
    } else if !valid_utf8(data) {
        None
    } else {
        match json_parse(decode_utf8(data)) {
            Some(value) => json_trace(value),
            None => None,
        }
    }
}

/// The lengths in the headers of a trace are lengths of lists in memory.
pub open spec fn lengths_fit(trace: Seq<StateView>) -> bool {
    forall|i: int|
        0 <= i < trace.len() ==> match #[trigger] trace[i] {
            StateView::Par(left, right) => left <= usize::MAX && right <= usize::MAX,
            StateView::Call(_) => true,
        }
}

/// A record is read back from its JSON value.
pub proof fn lemma_state_round_trip(state: StateView)
    requires
        match state {
            StateView::Par(left, right) => left <= usize::MAX && right <= usize::MAX,
            StateView::Call(_) => true,
        },
    ensures
        json_state(state_json(state)) == Some(state),
{
    reveal_strlit("call");
    reveal_strlit("par");
    reveal_strlit("executed");
    reveal_strlit("request_sent_by");
    reveal_strlit("call_service_failed");
    assert("call"@.len() == 4 && "par"@.len() == 3);
    assert("executed"@.len() == 8 && "request_sent_by"@.len() == 15);
    assert("call_service_failed"@.len() == 19);
}

/// A well-formed trace is read back from its JSON value.
pub proof fn lemma_trace_round_trip(trace: Seq<StateView>)
    requires
        well_formed(trace),
        lengths_fit(trace),
    ensures
        json_trace(trace_json(trace)) == Some(trace),
{
    lemma_states_round_trip(trace, trace.len() as int);
    assert(trace.subrange(0, trace.len() as int) =~= trace);
}

/// The first `n` records of a trace are read back from their JSON values.
proof fn lemma_states_round_trip(trace: Seq<StateView>, n: int)
    requires
        0 <= n <= trace.len(),
        lengths_fit(trace),
    ensures
        json_states(trace_json(trace)->Array_0, n) == Some(trace.subrange(0, n)),
    decreases n,
{
    if n > 0 {
        lemma_states_round_trip(trace, n - 1);
        lemma_state_round_trip(trace[n - 1]);
        assert(trace.subrange(0, n - 1).push(trace[n - 1]) =~= trace.subrange(0, n));
    } else {
        assert(trace.subrange(0, 0) =~= Seq::empty());
    }
}

/// `core::str::Utf8Error`, the error of `core::str::from_utf8`.
#[verifier::external_type_specification]
#[verifier::external_body]
pub struct ExUtf8Error(core::str::Utf8Error);

/// `core::str::from_utf8` gives the bytes as a text where they are valid
/// UTF-8, and an error where they are not.
pub assume_specification<'a>[ core::str::from_utf8 ](v: &'a [u8]) -> (r: Result<
    &'a str,
    core::str::Utf8Error,
>)
    ensures
        (r is Ok) == valid_utf8(v@),
        r is Ok ==> r->Ok_0.spec_bytes() == v@,
;

/// The JSON object with the single entry `key: value`; see [`entry`].
fn entry_of(key: &str, value: JValue) -> (r: JValue)
    ensures
        r@ == entry(key@, value@),
{
    let mut entries: Vec<(String, JValue)> = Vec::new();
    entries.push((String::from_str(key), value));
    let r = JValue::Object(entries);
    assert(r@->Object_0 =~= seq![(key@, value@)]);
    r
}

/// The JSON number of a length; see [`length_json`].
fn length_of(n: usize) -> (r: JValue)
    ensures
        r@ == length_json(n as nat),
{
    JValue::Number(JNumber::PosInt(n as u64))
}

/// The JSON value of the result of a call; see [`call_json`].
pub fn call_to_json(call: &CallResult) -> (r: JValue)
    ensures
        r@ == call_json(call@),
{
    match call {
        CallResult::Executed(value) => entry_of("executed", value.clone()),
        CallResult::RequestSentBy(peer) => entry_of(
            "request_sent_by",
            JValue::String(peer.clone()),
        ),
        CallResult::CallServiceFailed(message) => entry_of(
            "call_service_failed",
            JValue::String(message.clone()),
        ),
    }
}

/// The JSON value of one record; see [`state_json`].
pub fn state_to_json(state: &ExecutedState) -> (r: JValue)
    ensures
        r@ == state_json(state@),
{
    match state {
        ExecutedState::Call(call) => entry_of("call", call_to_json(call)),
        ExecutedState::Par(par) => {
            let mut sides: Vec<JValue> = Vec::new();
            sides.push(length_of(par.0));
            sides.push(length_of(par.1));
            let array = JValue::Array(sides);
            assert(array@->Array_0 =~= seq![
                length_json(par.0 as nat),
                length_json(par.1 as nat),
            ]);
            entry_of("par", array)
        },
    }
}

/// The JSON value of a trace; see [`trace_json`].
pub fn trace_to_json(trace: &Vec<ExecutedState>) -> (r: JValue)
    ensures
        r@ == trace_json(trace_view(trace@)),
{
    let mut items: Vec<JValue> = Vec::new();
    let mut i: usize = 0;
    while i < trace.len()
        invariant
            i <= trace.len(),
            items.len() == i,
            forall|k: int| 0 <= k < i ==> items[k]@ == state_json(trace[k]@),
        decreases trace.len() - i,
    {
        items.push(state_to_json(&trace[i]));
        i += 1;
    }
    let r = JValue::Array(items);
    assert(r@->Array_0 =~= trace_json(trace_view(trace@))->Array_0);
    r
}

/// The bytes of a trace; see [`encode_spec`].
pub fn encode_trace(trace: &Vec<ExecutedState>) -> (r: Vec<u8>)
    ensures
        r@ == encode_spec(trace_view(trace@)),
{
    let text = trace_to_json(trace).to_text();
    text.as_str().as_bytes_vec()
}

/// Whether a text is `word`.
fn is_key(key: &String, word: &str) -> (r: bool)
    ensures
        r == (key@ == word@),
{
    *key == String::from_str(word)
}

/// The length that a JSON value is; see [`json_length`].
fn length_from_json(value: &JValue) -> (r: Option<usize>)
    ensures
        match r {
            Some(n) => json_length(value@) == Some(n as nat),
            None => json_length(value@) is None,
        },
{
    match value {
        JValue::Number(JNumber::PosInt(n)) => {
            if *n <= usize::MAX as u64 {
                Some(*n as usize)
            } else {
                None
            }
        },
        _ => None,
    }
}

/// The single entry of a JSON object; see [`json_entry`].
fn entry_from_json(value: &JValue) -> (r: Option<(&String, &JValue)>)
    ensures
        match r {
            Some((key, inner)) => json_entry(value@) == Some((key@, inner@)),
            None => json_entry(value@) is None,
        },
{
    match value {
        JValue::Object(entries) => {
            if entries.len() == 1 {
                Some((&entries[0].0, &entries[0].1))
            } else {
                None
            }
        },
        _ => None,
    }
}

/// The text that a JSON value is; see [`json_string`].
fn string_from_json(value: &JValue) -> (r: Option<String>)
    ensures
        match r {
            Some(text) => json_string(value@) == Some(text@),
            None => json_string(value@) is None,
        },
{
    match value {
        JValue::String(text) => Some(text.clone()),
        _ => None,
    }
}

/// The result of a call that a JSON value stands for; see [`json_call`].
fn call_from_json(value: &JValue) -> (r: Option<CallResult>)
    ensures
        match r {
            Some(call) => json_call(value@) == Some(call@),
            None => json_call(value@) is None,
        },
{
    let (key, inner) = entry_from_json(value)?;
    if is_key(key, "executed") {
        Some(CallResult::Executed(inner.clone()))
    } else if is_key(key, "request_sent_by") {
        match string_from_json(inner) {
            Some(peer) => Some(CallResult::RequestSentBy(peer)),
            None => None,
        }
    } else if is_key(key, "call_service_failed") {
        match string_from_json(inner) {
            Some(message) => Some(CallResult::CallServiceFailed(message)),
            None => None,
        }
    } else {
        None
    }
}

/// The header of a `par` that a JSON value stands for; see [`json_par`].
fn par_from_json(value: &JValue) -> (r: Option<ExecutedState>)
    ensures
        match r {
            Some(state) => json_par(value@) == Some(state@),
            None => json_par(value@) is None,
        },
{
    match value {
        JValue::Array(items) => {
            if items.len() != 2 {
                return None;
            }
            assert(value@->Array_0[0] == items[0]@);
            assert(value@->Array_0[1] == items[1]@);
            match (length_from_json(&items[0]), length_from_json(&items[1])) {
                (Some(left), Some(right)) => Some(ExecutedState::Par(ParResult(left, right))),
                _ => None,
            }
        },
        _ => None,
    }
}

/// The record that a JSON value stands for; see [`json_state`].
pub fn state_from_json(value: &JValue) -> (r: Option<ExecutedState>)
    ensures
        match r {
            Some(state) => json_state(value@) == Some(state@),
            None => json_state(value@) is None,
        },
{
    let (key, inner) = entry_from_json(value)?;
    if is_key(key, "call") {
        match call_from_json(inner) {
            Some(call) => Some(ExecutedState::Call(call)),
            None => None,
        }
    } else if is_key(key, "par") {
        par_from_json(inner)
    } else {
        None
    }
}

/// The view of a trace that may be missing.
pub open spec fn optional_trace_view(r: Option<ExecutionTrace>) -> Option<Seq<StateView>> {
    match r {
        Some(trace) => Some(trace_view(trace@)),
        None => None,
    }
}

/// The trace that a JSON value stands for; see [`json_trace`].
pub fn trace_from_json(value: &JValue) -> (r: Option<ExecutionTrace>)
    ensures
        optional_trace_view(r) == json_trace(value@),
{
    match value {
        JValue::Array(items) => {
            let mut states: Vec<ExecutedState> = Vec::new();
            let mut i: usize = 0;
            assert(trace_view(states@) =~= Seq::empty());
            while i < items.len()
                invariant
                    i <= items.len(),
                    value@ == JValueView::Array(values_view(items@)),
                    json_states(values_view(items@), i as int) == Some(trace_view(states@)),
                decreases items.len() - i,
            {
                let ghost before = trace_view(states@);
                assert(values_view(items@)[i as int] == items[i as int]@);
                match state_from_json(&items[i]) {
                    None => {
                        proof {
                            lemma_states_missing(values_view(items@), i + 1, items.len() as int);
                        }
                        return None;
                    },
                    Some(state) => {
                        states.push(state);
                        assert(trace_view(states@) =~= before.push(state@));
                    },
                }
                i += 1;
            }
            if is_well_formed(&states) {
                Some(states)
            } else {
                None
            }
        },
        _ => None,
    }
}

/// Where the first items stand for no records, all of them stand for none.
proof fn lemma_states_missing(items: Seq<JValueView>, n: int, m: int)
    requires
        0 <= n <= m,
        json_states(items, n) is None,
    ensures
        json_states(items, m) is None,
    decreases m - n,
{
    if n < m {
        lemma_states_missing(items, n, m - 1);
    }
}

/// The trace that bytes stand for; see [`decode_spec`].
pub fn decode_trace(data: &Vec<u8>) -> (r: Option<ExecutionTrace>)
    ensures
        optional_trace_view(r) == decode_spec(data@),
{
    if data.len() == 0 {
        let empty: Vec<ExecutedState> = Vec::new();
        assert(trace_view(empty@) =~= Seq::empty());
        return Some(empty);
    }
    let text = match core::str::from_utf8(data.as_slice()) {
        Ok(text) => text,
        Err(_) => {
            return None;
        },
    };
    proof {
        encode_utf8_decode_utf8(text@);
    }
    match JValue::parse(text) {
        Some(value) => trace_from_json(&value),
        None => None,
    }
}

} // verus!
