//! One hop from end to end: the script is read, the two traces are decoded
//! and merged, the script is run on the merged trace, and what came of it
//! is put together.

use crate::ast::{Instruction, InstructionView};
use crate::call::{
    allowed, lemma_function_oracle, oracle_of, service_is_function, service_is_total, step_of,
    CallServiceResult, ExecutionTraceCtx, Oracle, Step, TraceCtxView,
};
use crate::codec::{
    call_json, call_to_json, decode_spec, decode_trace, encode_spec, encode_trace, state_json,
    state_to_json,
};
use crate::context::{
    distinct, keeps_peers, CtxView, ErrorView, ExecutionCtx, ExecutionError, FoldState,
};
use crate::engine::{exec_spec, execute_instruction};
use crate::json::json_text;
use crate::lexer::{lexer_text, LexerError};
use crate::lists::views;
use crate::merger::{merge_spec, DataMergingError, MergeErrorView, TraceMerger};
use crate::parser::{parse, parse_spec, ParserError};
use crate::trace::{lemma_well_formed_empty, trace_view, well_formed, ExecutionTrace, StateView};
use vstd::prelude::*;
use vstd::string::StringExecFns;

verus! {

/// The hop went through.
pub const SUCCESS: i32 = 0;

/// The script could not be read.
pub const PARSE_ERROR: i32 = 2;

/// A trace could not be decoded.
pub const TRACE_DECODE_ERROR: i32 = 3;

/// The two traces contradict each other.
pub const TRACE_MERGE_ERROR: i32 = 4;

/// The script could not be run to its end.
pub const EXECUTION_ERROR: i32 = 5;

/// What a hop gives back.
#[derive(Debug, PartialEq, Eq)]
pub struct StepperOutcome {
    /// [`SUCCESS`], or the kind of the error.
    pub ret_code: i32,
    /// What went wrong; empty after a hop that went through.
    pub error_message: String,
    /// The trace after the hop, as bytes; after an error that came before
    /// the script ran, the previous trace as it was given.
    pub data: Vec<u8>,
    /// The peers to send the trace to, none twice, in the order in which
    /// the script met them.
    pub next_peer_pks: Vec<String>,
}

/// The mathematical value of a [`StepperOutcome`].
pub struct OutcomeView {
    pub ret_code: i32,
    pub error_message: Seq<char>,
    pub data: Seq<u8>,
    pub next_peer_pks: Seq<Seq<char>>,
}

impl View for StepperOutcome {
    type V = OutcomeView;

    open spec fn view(&self) -> OutcomeView {
        OutcomeView {
            ret_code: self.ret_code,
            error_message: self.error_message@,
            data: self.data@,
            next_peer_pks: views(self.next_peer_pks@),
        }
    }
}

/// The text of a digit.
pub open spec fn digit_text(d: nat) -> Seq<char> {
    if d == 0 {
        "0"@
    } else if d == 1 {
        "1"@
    } else if d == 2 {
        "2"@
    } else if d == 3 {
        "3"@
    } else if d == 4 {
        "4"@
    } else if d == 5 {
        "5"@
    } else if d == 6 {
        "6"@
    } else if d == 7 {
        "7"@
    } else if d == 8 {
        "8"@
    } else {
        "9"@
    }
}

/// A number written in decimal digits.
pub open spec fn decimal(n: nat) -> Seq<char>
    decreases n,
{
    if n < 10 {
        digit_text(n)
    } else {
        decimal(n / 10) + digit_text(n % 10)
    }
}

/// The text of a digit; see [`digit_text`].
fn digit_str(d: usize) -> (r: &'static str)
    requires
        d < 10,
    ensures
        r@ == digit_text(d as nat),
{
    if d == 0 {
        "0"
    } else if d == 1 {
        "1"
    } else if d == 2 {
        "2"
    } else if d == 3 {
        "3"
    } else if d == 4 {
        "4"
    } else if d == 5 {
        "5"
    } else if d == 6 {
        "6"
    } else if d == 7 {
        "7"
    } else if d == 8 {
        "8"
    } else {
        "9"
    }
}

/// Writes a number in decimal digits; see [`decimal`].
pub fn to_decimal(n: usize) -> (r: String)
    ensures
        r@ == decimal(n as nat),
    decreases n,
{
    if n < 10 {
        String::from_str(digit_str(n))
    } else {
        to_decimal(n / 10).concat(digit_str(n % 10))
    }
}

/// The place that a lexer error starts at.
pub open spec fn lexer_place(e: LexerError) -> usize {
    match e {
        LexerError::UnclosedQuote(start, _) => start,
        LexerError::EmptyString(start, _) => start,
        LexerError::IsNotAlphanumeric(start, _) => start,
        LexerError::EmptyAccName(start, _) => start,
        LexerError::InvalidJsonPath(start, _) => start,
    }
}

/// What a parser error says, without the place.
pub open spec fn parser_text(e: ParserError) -> Seq<char> {
    match e {
        ParserError::Lexer(inner) => lexer_text(inner),
        ParserError::UnrecognizedEof { .. } => "the script ends where a token is needed"@,
        ParserError::UnrecognizedToken { .. } => "this token is not the one needed here"@,
        ParserError::ExtraToken { .. } => "this token follows the end of the script"@,
    }
}

/// The place in the script that a parser error is about.
pub open spec fn parser_place(e: ParserError) -> usize {
    match e {
        ParserError::Lexer(inner) => lexer_place(inner),
        ParserError::UnrecognizedEof { location } => location,
        ParserError::UnrecognizedToken { start, .. } => start,
        ParserError::ExtraToken { start, .. } => start,
    }
}

/// The message of a parser error: what it says, and the place in the script.
pub open spec fn parser_message(e: ParserError) -> Seq<char> {
    parser_text(e) + " at "@ + decimal(parser_place(e) as nat)
}

/// The message of a merge error: what is wrong, and the two records as JSON.
pub open spec fn merge_message(e: MergeErrorView) -> Seq<char> {
    match e {
        MergeErrorView::IncompatibleExecutedStates(prev, current) => {
            "executed states are incompatible: "@ + json_text(state_json(prev)) + " and "@
                + json_text(state_json(current))
        },
        MergeErrorView::IncompatibleCallResults(prev, current) => {
            "call results are incompatible: "@ + json_text(call_json(prev)) + " and "@
                + json_text(call_json(current))
        },
    }
}

/// The message of an execution error.
pub open spec fn execution_message(e: ErrorView) -> Seq<char> {
    match e {
        ErrorView::VariableNotFound(name) => "variable not found: "@ + name,
        ErrorView::MultipleVariablesFound(name) => "multiple variables found for name: "@ + name,
        ErrorView::IncompatibleJValueType(value, expected) => "expected a json "@ + expected
            + ", got: "@ + json_text(value),
        ErrorView::MultipleValuesInJsonPath(path) => "multiple values found for json path: "@
            + path,
        ErrorView::InstructionError(message) => message,
        ErrorView::JValueJsonPathError(value, path, message) => "json path "@ + path
            + " cannot be applied to "@ + json_text(value) + ": "@ + message,
        ErrorView::FoldStateNotFound(name) => "fold state not found for iterator: "@ + name,
        ErrorView::IterableNotArray(name) => "the iterable is not an array: "@ + name,
        ErrorView::LocalServiceError(message) => "local service error: "@ + message,
    }
}

/// The place that a lexer error starts at; see [`lexer_place`].
fn lexer_place_of(e: &LexerError) -> (r: usize)
    ensures
        r == lexer_place(*e),
{
    match e {
        LexerError::UnclosedQuote(start, _) => *start,
        LexerError::EmptyString(start, _) => *start,
        LexerError::IsNotAlphanumeric(start, _) => *start,
        LexerError::EmptyAccName(start, _) => *start,
        LexerError::InvalidJsonPath(start, _) => *start,
    }
}

/// Writes the message of a parser error; see [`parser_message`].
pub fn describe_parser_error(e: &ParserError) -> (r: String)
    ensures
        r@ == parser_message(*e),
{
    let (text, place) = match e {
        ParserError::Lexer(inner) => (inner.message(), lexer_place_of(inner)),
        ParserError::UnrecognizedEof { location } => (
            "the script ends where a token is needed",
            *location,
        ),
        ParserError::UnrecognizedToken { start, .. } => (
            "this token is not the one needed here",
            *start,
        ),
        ParserError::ExtraToken { start, .. } => ("this token follows the end of the script", *start),
    };
    String::from_str(text).concat(" at ").concat(to_decimal(place).as_str())
}

/// Writes the message of a merge error; see [`merge_message`].
pub fn describe_merge_error(e: &DataMergingError) -> (r: String)
    ensures
        r@ == merge_message(e@),
{
    match e {
        DataMergingError::IncompatibleExecutedStates(prev, current) => {
            let first = state_to_json(prev).to_text();
            let second = state_to_json(current).to_text();
            String::from_str("executed states are incompatible: ").concat(first.as_str()).concat(
                " and ",
            ).concat(second.as_str())
        },
        DataMergingError::IncompatibleCallResults(prev, current) => {
            let first = call_to_json(prev).to_text();
            let second = call_to_json(current).to_text();
            String::from_str("call results are incompatible: ").concat(first.as_str()).concat(
                " and ",
            ).concat(second.as_str())
        },
    }
}

/// Writes the message of an execution error; see [`execution_message`].
pub fn describe_execution_error(e: &ExecutionError) -> (r: String)
    ensures
        r@ == execution_message(e@),
{
    match e {
        ExecutionError::VariableNotFound(name) => String::from_str("variable not found: ").concat(
            name.as_str(),
        ),
        ExecutionError::MultipleVariablesFound(name) => String::from_str(
            "multiple variables found for name: ",
        ).concat(name.as_str()),
        ExecutionError::IncompatibleJValueType(value, expected) => String::from_str(
            "expected a json ",
        ).concat(expected.as_str()).concat(", got: ").concat(value.to_text().as_str()),
        ExecutionError::MultipleValuesInJsonPath(path) => String::from_str(
            "multiple values found for json path: ",
        ).concat(path.as_str()),
        ExecutionError::InstructionError(message) => message.clone(),
        ExecutionError::JValueJsonPathError(value, path, message) => String::from_str(
            "json path ",
        ).concat(path.as_str()).concat(" cannot be applied to ").concat(
            value.to_text().as_str(),
        ).concat(": ").concat(message.as_str()),
        ExecutionError::FoldStateNotFound(name) => String::from_str(
            "fold state not found for iterator: ",
        ).concat(name.as_str()),
        ExecutionError::IterableNotArray(name) => String::from_str(
            "the iterable is not an array: ",
        ).concat(name.as_str()),
        ExecutionError::LocalServiceError(message) => String::from_str(
            "local service error: ",
        ).concat(message.as_str()),
    }
}

/// The outcome of a hop that failed before the script ran: the previous
/// trace goes back as it came, and no peer is named.
pub open spec fn failure(ret_code: i32, error_message: Seq<char>, prev_data: Seq<u8>) -> OutcomeView {
    OutcomeView { ret_code, error_message, data: prev_data, next_peer_pks: Seq::empty() }
}

/// What is there before the script runs: its instruction and the two
/// traces; or the outcome of the hop, where the script cannot be read or a
/// trace cannot be decoded.
pub open spec fn prepare_spec(aqua: Seq<char>, prev_data: Seq<u8>, data: Seq<u8>) -> Result<
    (InstructionView, Seq<StateView>, Seq<StateView>),
    OutcomeView,
> {
    match parse_spec(aqua) {
        Err(e) => Err(failure(PARSE_ERROR, parser_message(e), prev_data)),
        Ok(instr) => match decode_spec(prev_data) {
            None => Err(
                failure(TRACE_DECODE_ERROR, "the previous trace cannot be decoded"@, prev_data),
            ),
            Some(prev) => match decode_spec(data) {
                None => Err(
                    failure(TRACE_DECODE_ERROR, "the current trace cannot be decoded"@, prev_data),
                ),
                Some(current) => Ok((instr, prev, current)),
            },
        },
    }
}

/// The context at the start of a hop.
pub open spec fn start_ctx(current_peer_id: Seq<char>, init_peer_id: Seq<char>) -> CtxView {
    CtxView {
        data_cache: Seq::empty(),
        next_peer_pks: Seq::empty(),
        current_peer_id,
        init_peer_id,
        subtree_complete: true,
    }
}

/// The trace context at the start of a hop.
pub open spec fn start_trace(merged: Seq<StateView>) -> TraceCtxView {
    TraceCtxView {
        current_trace: merged,
        position: 0,
        current_subtree_size: merged.len() as int,
        new_trace: Seq::empty(),
    }
}

/// The outcome of a hop whose script ran to the step `step`.
pub open spec fn finish_spec(step: Step) -> OutcomeView {
    match step.result {
        Ok(()) => OutcomeView {
            ret_code: SUCCESS,
            error_message: Seq::empty(),
            data: encode_spec(step.trace.new_trace),
            next_peer_pks: step.ctx.next_peer_pks,
        },
        Err(e) => OutcomeView {
            ret_code: EXECUTION_ERROR,
            error_message: execution_message(e),
            data: encode_spec(step.trace.new_trace),
            next_peer_pks: step.ctx.next_peer_pks,
        },
    }
}

/// The outcome of a hop on a script and two traces: where the traces
/// contradict each other, the previous trace goes back with the error;
/// else the script runs on their merge.
pub open spec fn run_spec(
    instr: InstructionView,
    prev: Seq<StateView>,
    current: Seq<StateView>,
    init_peer_id: Seq<char>,
    current_peer_id: Seq<char>,
    oracle: Oracle,
) -> OutcomeView {
    match merge_spec(prev, current) {
        Err(e) => failure(TRACE_MERGE_ERROR, merge_message(e), encode_spec(prev)),
        Ok(merged) => finish_spec(
            exec_spec(
                instr,
                Seq::empty(),
                start_ctx(current_peer_id, init_peer_id),
                start_trace(merged),
                oracle,
            ),
        ),
    }
}

/// The outcome of a hop.
pub open spec fn outcome_spec(
    init_peer_id: Seq<char>,
    aqua: Seq<char>,
    prev_data: Seq<u8>,
    data: Seq<u8>,
    current_peer_id: Seq<char>,
    oracle: Oracle,
) -> OutcomeView {
    match prepare_spec(aqua, prev_data, data) {
        Err(outcome) => outcome,
        Ok((instr, prev, current)) => run_spec(
            instr,
            prev,
            current,
            init_peer_id,
            current_peer_id,
            oracle,
        ),
    }
}

/// What holds of the outcome of a hop on two traces whatever the service
/// replies: no peer is named twice; where the traces contradict each other
/// the outcome is that of [`run_spec`]; else the hop went through or ended
/// in an execution error, and its trace is well-formed.
pub open spec fn outcome_holds(
    outcome: StepperOutcome,
    prev: Seq<StateView>,
    current: Seq<StateView>,
) -> bool {
    &&& distinct(outcome@.next_peer_pks)
    &&& match merge_spec(prev, current) {
        Err(e) => outcome@ == failure(TRACE_MERGE_ERROR, merge_message(e), encode_spec(prev)),
        Ok(_) => (outcome.ret_code == SUCCESS || outcome.ret_code == EXECUTION_ERROR)
            && exists|trace: Seq<StateView>|
            well_formed(trace) && outcome@.data == #[trigger] encode_spec(trace),
    }
}

/// The outcome of a hop that failed before the script ran; see [`failure`].
fn fail_with(ret_code: i32, error_message: String, prev_data: Vec<u8>) -> (r: StepperOutcome)
    ensures
        r@ == failure(ret_code, error_message@, prev_data@),
{
    let r = StepperOutcome { ret_code, error_message, data: prev_data, next_peer_pks: Vec::new() };
    assert(r@.next_peer_pks =~= Seq::empty());
    r
}

/// Runs one hop of a script on two traces.
///
/// `prev_trace` is the trace that came with the script, `current_trace` the
/// trace that this peer has from before; `call_service` makes the calls
/// that belong to this peer. What comes back is the outcome that
/// [`run_spec`] gives for replies that the service may have given; where
/// the service is deterministic these are the replies of [`oracle_of`].
pub fn execute<F: Fn(String, String, String) -> CallServiceResult>(
    script_ast: &Instruction,
    prev_trace: ExecutionTrace,
    current_trace: ExecutionTrace,
    init_peer_id: String,
    current_peer_id: String,
    call_service: &F,
) -> (r: StepperOutcome)
    requires
        well_formed(trace_view(prev_trace@)),
        well_formed(trace_view(current_trace@)),
        service_is_total(*call_service),
    ensures
        outcome_holds(r, trace_view(prev_trace@), trace_view(current_trace@)),
        exists|oracle: Oracle|
            allowed(*call_service, oracle) && r@ == #[trigger] run_spec(
                script_ast@,
                trace_view(prev_trace@),
                trace_view(current_trace@),
                init_peer_id@,
                current_peer_id@,
                oracle,
            ),
        service_is_function(*call_service) ==> r@ == run_spec(
            script_ast@,
            trace_view(prev_trace@),
            trace_view(current_trace@),
            init_peer_id@,
            current_peer_id@,
            oracle_of(*call_service),
        ),
{
    let prev_data = encode_trace(&prev_trace);
    let ghost prev = trace_view(prev_trace@);
    let ghost current = trace_view(current_trace@);
    let merged = match TraceMerger::new(prev_trace, current_trace, script_ast).merge() {
        Ok(merged) => merged,
        Err(e) => {
            let r = fail_with(TRACE_MERGE_ERROR, describe_merge_error(&e), prev_data);
            proof {
                assert(allowed(*call_service, oracle_of(*call_service)));
                assert(r@ == run_spec(
                    script_ast@,
                    prev,
                    current,
                    init_peer_id@,
                    current_peer_id@,
                    oracle_of(*call_service),
                ));
            }
            return r;
        },
    };
    let ghost start = start_ctx(current_peer_id@, init_peer_id@);
    let ghost start_at = start_trace(trace_view(merged@));
    let mut exec_ctx = ExecutionCtx::new(current_peer_id, init_peer_id);
    let mut trace_ctx = ExecutionTraceCtx::new(merged);
    let met_folds: Vec<FoldState> = Vec::new();
    assert(views(met_folds@) =~= Seq::empty());
    let result = execute_instruction(
        script_ast,
        &met_folds,
        &mut exec_ctx,
        &mut trace_ctx,
        call_service,
    );
    let data = encode_trace(&trace_ctx.new_trace);
    proof {
        let written = trace_view(trace_ctx.new_trace@);
        assert(written.subrange(0, written.len() as int) =~= written);
        assert(well_formed(written));
        reveal(keeps_peers);
    }
    let ghost step = step_of(exec_ctx, trace_ctx, result);
    let r = match result {
        Ok(()) => StepperOutcome {
            ret_code: SUCCESS,
            error_message: String::new(),
            data,
            next_peer_pks: exec_ctx.next_peer_pks,
        },
        Err(e) => StepperOutcome {
            ret_code: EXECUTION_ERROR,
            error_message: describe_execution_error(&e),
            data,
            next_peer_pks: exec_ctx.next_peer_pks,
        },
    };
    proof {
        let oracle = choose|oracle: Oracle|
            allowed(*call_service, oracle) && step == #[trigger] exec_spec(
                script_ast@,
                Seq::empty(),
                start,
                start_at,
                oracle,
            );
        assert(r@ == run_spec(
            script_ast@,
            prev,
            current,
            init_peer_id@,
            current_peer_id@,
            oracle,
        ));
        if service_is_function(*call_service) {
            lemma_function_oracle(*call_service, oracle);
        }
    }
    r
}

/// Runs one hop of a script on this peer, from the text of the script and
/// the bytes of the two traces.
///
/// Where the script cannot be read or a trace cannot be decoded, the
/// previous trace goes back as it came, with the error; else the outcome is
/// that of [`execute`]. What comes back is the outcome that [`outcome_spec`]
/// gives for replies that the service may have given.
pub fn execute_aqua<F: Fn(String, String, String) -> CallServiceResult>(
    init_peer_id: String,
    aqua: String,
    prev_data: Vec<u8>,
    data: Vec<u8>,
    current_peer_id: String,
    call_service: &F,
) -> (r: StepperOutcome)
    requires
        service_is_total(*call_service),
    ensures
        match prepare_spec(aqua@, prev_data@, data@) {
            Err(outcome) => r@ == outcome,
            Ok((_, prev, current)) => outcome_holds(r, prev, current),
        },
        exists|oracle: Oracle|
            allowed(*call_service, oracle) && r@ == #[trigger] outcome_spec(
                init_peer_id@,
                aqua@,
                prev_data@,
                data@,
                current_peer_id@,
                oracle,
            ),
        service_is_function(*call_service) ==> r@ == outcome_spec(
            init_peer_id@,
            aqua@,
            prev_data@,
            data@,
            current_peer_id@,
            oracle_of(*call_service),
        ),
{
    // up to the start of the script the outcome is the same with every oracle
    let ghost before_start = outcome_spec(
        init_peer_id@,
        aqua@,
        prev_data@,
        data@,
        current_peer_id@,
        oracle_of(*call_service),
    );
    proof {
        assert(allowed(*call_service, oracle_of(*call_service)));
    }
    let instr = match parse(aqua.as_str()) {
        Ok(instr) => instr,
        Err(e) => {
            return fail_with(PARSE_ERROR, describe_parser_error(&e), prev_data);
        },
    };
    let prev_trace = match decode_trace(&prev_data) {
        Some(trace) => trace,
        None => {
            return fail_with(
                TRACE_DECODE_ERROR,
                String::from_str("the previous trace cannot be decoded"),
                prev_data,
            );
        },
    };
    let current_trace = match decode_trace(&data) {
        Some(trace) => trace,
        None => {
            return fail_with(
                TRACE_DECODE_ERROR,
                String::from_str("the current trace cannot be decoded"),
                prev_data,
            );
        },
    };
    proof {
        lemma_decoded_well_formed(prev_data@);
        lemma_decoded_well_formed(data@);
    }
    let ghost prev = trace_view(prev_trace@);
    let ghost current = trace_view(current_trace@);
    let r = execute(&instr, prev_trace, current_trace, init_peer_id, current_peer_id, call_service);
    proof {
        let oracle = choose|oracle: Oracle|
            allowed(*call_service, oracle) && r@ == #[trigger] run_spec(
                instr@,
                prev,
                current,
                init_peer_id@,
                current_peer_id@,
                oracle,
            );
        assert(r@ == outcome_spec(
            init_peer_id@,
            aqua@,
            prev_data@,
            data@,
            current_peer_id@,
            oracle,
        ));
    }
    r
}

/// The outcome of a hop is determined by what went in and by what the
/// service replies: two services that give the same reply to every call
/// lead to the same outcome.
pub proof fn lemma_outcome_determined(
    init_peer_id: Seq<char>,
    aqua: Seq<char>,
    prev_data: Seq<u8>,
    data: Seq<u8>,
    current_peer_id: Seq<char>,
    first: Oracle,
    second: Oracle,
)
    requires
        forall|at: int, service_id: Seq<char>, function_name: Seq<char>, args: Seq<char>|
            #[trigger] first(at, service_id, function_name, args) == second(
                at,
                service_id,
                function_name,
                args,
            ),
    ensures
        outcome_spec(init_peer_id, aqua, prev_data, data, current_peer_id, first) == outcome_spec(
            init_peer_id,
            aqua,
            prev_data,
            data,
            current_peer_id,
            second,
        ),
{
    assert(first =~= second);
}

/// A trace that bytes stand for is well-formed.
pub proof fn lemma_decoded_well_formed(data: Seq<u8>)
    requires
        decode_spec(data) is Some,
    ensures
        well_formed(decode_spec(data)->Some_0),
{
    if data.len() == 0 {
        lemma_well_formed_empty(Seq::empty());
    }
}

} // verus!
