//! The instruction tree of a script written as JSON, for tools that show
//! what a script was read as.

use crate::ast::{
    Call, CallArgValue, CallOutput, CallView, FunctionPart, FunctionPartView, Instruction,
    InstructionView, OutputView, PeerPart, PeerPartView, ValueView,
};
use crate::codec::entry;
use crate::json::{json_text, JValue, JValueView};
use crate::outcome::{describe_parser_error, parser_message};
use crate::parser::{parse, parse_spec};
use vstd::prelude::*;
use vstd::string::StringExecFns;

verus! {

/// The JSON array of two values.
pub open spec fn pair(first: JValueView, second: JValueView) -> JValueView {
    JValueView::Array(seq![first, second])
}

/// The JSON value of a value of the script: the name of its kind for
/// `%init_peer_id%`, else an object with the name of the kind as its key.
pub open spec fn value_json(value: ValueView) -> JValueView {
    match value {
        ValueView::InitPeerId => JValueView::String("InitPeerId"@),
        ValueView::Literal(text) => entry("Literal"@, JValueView::String(text)),
        ValueView::Variable(name) => entry("Variable"@, JValueView::String(name)),
        ValueView::JsonPath { variable, path } => entry(
            "JsonPath"@,
            JValueView::Object(
                seq![
                    ("variable"@, JValueView::String(variable)),
                    ("path"@, JValueView::String(path)),
                ],
            ),
        ),
    }
}

/// The JSON value of the output of a call.
pub open spec fn output_json(output: OutputView) -> JValueView {
    match output {
        OutputView::Scalar(name) => entry("Scalar"@, JValueView::String(name)),
        OutputView::Accumulator(name) => entry("Accumulator"@, JValueView::String(name)),
        OutputView::Discard => JValueView::String("None"@),
    }
}

/// The JSON value of the peer part of a call.
pub open spec fn peer_part_json(part: PeerPartView) -> JValueView {
    match part {
        PeerPartView::PeerPk(peer) => entry("PeerPk"@, value_json(peer)),
        PeerPartView::PeerPkWithServiceId(peer, service) => entry(
            "PeerPkWithServiceId"@,
            pair(value_json(peer), value_json(service)),
        ),
    }
}

/// The JSON value of the function part of a call.
pub open spec fn function_part_json(part: FunctionPartView) -> JValueView {
    match part {
        FunctionPartView::FuncName(name) => entry("FuncName"@, value_json(name)),
        FunctionPartView::ServiceIdWithFuncName(service, name) => entry(
            "ServiceIdWithFuncName"@,
            pair(value_json(service), value_json(name)),
        ),
    }
}

/// The JSON value of a call: an object with its four parts.
pub open spec fn call_json(call: CallView) -> JValueView {
    JValueView::Object(
        seq![
            ("peer_part"@, peer_part_json(call.peer_part)),
            ("function_part"@, function_part_json(call.function_part)),
            ("args"@, JValueView::Array(Seq::new(call.args.len(), |i: int| value_json(call.args[i])))),
            ("output"@, output_json(call.output)),
        ],
    )
}

/// The JSON value of a `match` or a `mismatch`: an object with its three parts.
pub open spec fn match_json(left: ValueView, right: ValueView, body: JValueView) -> JValueView {
    JValueView::Object(
        seq![
            ("left_value"@, value_json(left)),
            ("right_value"@, value_json(right)),
            ("instruction"@, body),
        ],
    )
}

/// The JSON value of an instruction: an object with the name of its kind
/// as the key, and `"Error"` for what could not be read.
pub open spec fn instruction_json(instr: InstructionView) -> JValueView
    decreases instr,
{
    match instr {
        InstructionView::Null => entry("Null"@, JValueView::Null),
        InstructionView::Call(call) => entry("Call"@, call_json(call)),
        InstructionView::Sequence(left, right) => entry(
            "Seq"@,
            pair(instruction_json(*left), instruction_json(*right)),
        ),
        InstructionView::Par(left, right) => entry(
            "Par"@,
            pair(instruction_json(*left), instruction_json(*right)),
        ),
        InstructionView::Xor(left, right) => entry(
            "Xor"@,
            pair(instruction_json(*left), instruction_json(*right)),
        ),
        InstructionView::Fold { iterable, iterator, instruction } => entry(
            "Fold"@,
            JValueView::Object(
                seq![
                    ("iterable"@, value_json(iterable)),
                    ("iterator"@, JValueView::String(iterator)),
                    ("instruction"@, instruction_json(*instruction)),
                ],
            ),
        ),
        InstructionView::Next(iterator) => entry("Next"@, JValueView::String(iterator)),
        InstructionView::Match { left_value, right_value, instruction } => entry(
            "Match"@,
            match_json(left_value, right_value, instruction_json(*instruction)),
        ),
        InstructionView::MisMatch { left_value, right_value, instruction } => entry(
            "MisMatch"@,
            match_json(left_value, right_value, instruction_json(*instruction)),
        ),
        InstructionView::Error => JValueView::String("Error"@),
    }
}

/// What [`ast`] gives for a script: the JSON text of its instruction, or
/// of an object that holds the message of the error under the key `error`.
pub open spec fn ast_spec(script: Seq<char>) -> Seq<char> {
    match parse_spec(script) {
        Ok(instr) => json_text(instruction_json(instr)),
        Err(e) => json_text(entry("error"@, JValueView::String(parser_message(e)))),
    }
}

/// The JSON string of a text.
fn text_json(text: &str) -> (r: JValue)
    ensures
        r@ == JValueView::String(text@),
{
    JValue::String(String::from_str(text))
}

/// The JSON object with the single entry `key: value`.
fn tagged(key: &str, value: JValue) -> (r: JValue)
    ensures
        r@ == entry(key@, value@),
{
    let mut entries: Vec<(String, JValue)> = Vec::new();
    entries.push((String::from_str(key), value));
    let r = JValue::Object(entries);
    assert(r@->Object_0 =~= seq![(key@, value@)]);
    r
}

/// The JSON array of two values; see [`pair`].
fn pair_of(first: JValue, second: JValue) -> (r: JValue)
    ensures
        r@ == pair(first@, second@),
{
    let mut items: Vec<JValue> = Vec::new();
    items.push(first);
    items.push(second);
    let r = JValue::Array(items);
    assert(r@->Array_0 =~= seq![first@, second@]);
    r
}

/// The JSON object with three entries.
fn object_of(
    first: (&str, JValue),
    second: (&str, JValue),
    third: (&str, JValue),
) -> (r: JValue)
    ensures
        r@ == JValueView::Object(
            seq![(first.0@, first.1@), (second.0@, second.1@), (third.0@, third.1@)],
        ),
{
    let mut entries: Vec<(String, JValue)> = Vec::new();
    entries.push((String::from_str(first.0), first.1));
    entries.push((String::from_str(second.0), second.1));
    entries.push((String::from_str(third.0), third.1));
    let r = JValue::Object(entries);
    assert(r@->Object_0 =~= seq![
        (first.0@, first.1@),
        (second.0@, second.1@),
        (third.0@, third.1@),
    ]);
    r
}

/// The JSON value of a value of the script; see [`value_json`].
pub fn value_to_json(value: &CallArgValue) -> (r: JValue)
    ensures
        r@ == value_json(value@),
{
    match value {
        CallArgValue::InitPeerId => text_json("InitPeerId"),
        CallArgValue::Literal(text) => tagged("Literal", JValue::String(text.clone())),
        CallArgValue::Variable(name) => tagged("Variable", JValue::String(name.clone())),
        CallArgValue::JsonPath { variable, path } => {
            let first = (String::from_str("variable"), JValue::String(variable.clone()));
            let second = (String::from_str("path"), JValue::String(path.clone()));
            assert(first.1@ == JValueView::String(variable@));
            assert(second.1@ == JValueView::String(path@));
            let mut entries: Vec<(String, JValue)> = Vec::new();
            entries.push(first);
            entries.push(second);
            let inner = JValue::Object(entries);
            assert(inner@->Object_0 =~= seq![
                ("variable"@, JValueView::String(variable@)),
                ("path"@, JValueView::String(path@)),
            ]);
            tagged("JsonPath", inner)
        },
    }
}

/// The JSON value of a call; see [`call_json`].
pub fn call_to_json(call: &Call) -> (r: JValue)
    ensures
        r@ == call_json(call@),
{
    let peer_part = match &call.peer_part {
        PeerPart::PeerPk(peer) => tagged("PeerPk", value_to_json(peer)),
        PeerPart::PeerPkWithServiceId(peer, service) => tagged(
            "PeerPkWithServiceId",
            pair_of(value_to_json(peer), value_to_json(service)),
        ),
    };
    let function_part = match &call.function_part {
        FunctionPart::FuncName(name) => tagged("FuncName", value_to_json(name)),
        FunctionPart::ServiceIdWithFuncName(service, name) => tagged(
            "ServiceIdWithFuncName",
            pair_of(value_to_json(service), value_to_json(name)),
        ),
    };
    let mut args: Vec<JValue> = Vec::new();
    let mut i: usize = 0;
    while i < call.args.len()
        invariant
            i <= call.args.len(),
            args.len() == i,
            forall|k: int| 0 <= k < i ==> args[k]@ == value_json(call.args[k]@),
        decreases call.args.len() - i,
    {
        args.push(value_to_json(&call.args[i]));
        i += 1;
    }
    let args = JValue::Array(args);
    assert(args@->Array_0 =~= Seq::new(
        call@.args.len(),
        |i: int| value_json(call@.args[i]),
    ));
    let output = match &call.output {
        CallOutput::Scalar(name) => tagged("Scalar", JValue::String(name.clone())),
        CallOutput::Accumulator(name) => tagged("Accumulator", JValue::String(name.clone())),
        CallOutput::Discard => text_json("None"),
    };
    let mut entries: Vec<(String, JValue)> = Vec::new();
    entries.push((String::from_str("peer_part"), peer_part));
    entries.push((String::from_str("function_part"), function_part));
    entries.push((String::from_str("args"), args));
    entries.push((String::from_str("output"), output));
    let r = JValue::Object(entries);
    assert(r@->Object_0 =~= call_json(call@)->Object_0);
    r
}

/// The JSON value of an instruction; see [`instruction_json`].
pub fn instruction_to_json(instr: &Instruction) -> (r: JValue)
    ensures
        r@ == instruction_json(instr@),
    decreases instr,
{
    match instr {
        Instruction::Null(_) => tagged("Null", JValue::Null),
        Instruction::Call(call) => tagged("Call", call_to_json(call)),
        Instruction::Sequence(seq) => tagged(
            "Seq",
            pair_of(instruction_to_json(&seq.0), instruction_to_json(&seq.1)),
        ),
        Instruction::Par(par) => tagged(
            "Par",
            pair_of(instruction_to_json(&par.0), instruction_to_json(&par.1)),
        ),
        Instruction::Xor(xor) => tagged(
            "Xor",
            pair_of(instruction_to_json(&xor.0), instruction_to_json(&xor.1)),
        ),
        Instruction::Fold(fold) => tagged(
            "Fold",
            object_of(
                ("iterable", value_to_json(&fold.iterable)),
                ("iterator", JValue::String(fold.iterator.clone())),
                ("instruction", instruction_to_json(&fold.instruction)),
            ),
        ),
        Instruction::Next(next) => tagged("Next", JValue::String(next.0.clone())),
        Instruction::Match(m) => tagged(
            "Match",
            object_of(
                ("left_value", value_to_json(&m.left_value)),
                ("right_value", value_to_json(&m.right_value)),
                ("instruction", instruction_to_json(&m.instruction)),
            ),
        ),
        Instruction::MisMatch(m) => tagged(
            "MisMatch",
            object_of(
                ("left_value", value_to_json(&m.left_value)),
                ("right_value", value_to_json(&m.right_value)),
                ("instruction", instruction_to_json(&m.instruction)),
            ),
        ),
        Instruction::Error => text_json("Error"),
    }
}

/// Reads a script and writes its instruction tree as JSON; see [`ast_spec`].
pub fn ast(script: String) -> (r: String)
    ensures
        r@ == ast_spec(script@),
{
    match parse(script.as_str()) {
        Ok(instr) => instruction_to_json(&instr).to_text(),
        Err(e) => tagged("error", JValue::String(describe_parser_error(&e))).to_text(),
    }
}

} // verus!
