//! How an instruction is written down as tokens, and that the grammar reads
//! back what was written.

use crate::ast::{CallView, FunctionPartView, InstructionView, OutputView, PeerPartView, ValueView};
use crate::lexer::{SpannedView, TokenView};
use crate::parser::{
    args_from, call_at, instr_at, lemma_recover_fitting, output_at, pair_at, recover_tokens,
    script_of, ParserError,
};
use vstd::prelude::*;

verus! {

/// The token that a value is written as.
pub open spec fn value_token(value: ValueView) -> TokenView {
    match value {
        ValueView::InitPeerId => TokenView::InitPeerId,
        ValueView::Literal(text) => TokenView::StringLiteral(text),
        ValueView::Variable(name) => TokenView::Alphanumeric(name),
        ValueView::JsonPath { variable, path } => TokenView::JsonPath { variable, path },
    }
}

/// One value, or two values in round brackets.
pub open spec fn pair_tokens(first: ValueView, second: Option<ValueView>) -> Seq<TokenView> {
    match second {
        Some(second) => seq![
            TokenView::OpenRoundBracket,
            value_token(first),
            value_token(second),
            TokenView::CloseRoundBracket,
        ],
        None => seq![value_token(first)],
    }
}

/// The service id that stands with the peer, where there is one.
pub open spec fn peer_service(part: PeerPartView) -> (ValueView, Option<ValueView>) {
    match part {
        PeerPartView::PeerPk(peer) => (peer, None),
        PeerPartView::PeerPkWithServiceId(peer, service) => (peer, Some(service)),
    }
}

/// The function part as the one or two values it is written as.
pub open spec fn function_values(part: FunctionPartView) -> (ValueView, Option<ValueView>) {
    match part {
        FunctionPartView::FuncName(name) => (name, None),
        FunctionPartView::ServiceIdWithFuncName(service, name) => (service, Some(name)),
    }
}

/// The tokens of the output of a call: none where the result goes nowhere.
pub open spec fn output_tokens(output: OutputView) -> Seq<TokenView> {
    match output {
        OutputView::Scalar(name) => seq![TokenView::Alphanumeric(name)],
        OutputView::Accumulator(name) => seq![TokenView::Accumulator(name)],
        OutputView::Discard => Seq::empty(),
    }
}

/// The tokens of the arguments of a call, without the brackets.
pub open spec fn args_tokens(args: Seq<ValueView>) -> Seq<TokenView> {
    Seq::new(args.len(), |i: int| value_token(args[i]))
}

/// The tokens of a call behind its keyword, the closing bracket included.
pub open spec fn call_tokens(call: CallView) -> Seq<TokenView> {
    pair_tokens(peer_service(call.peer_part).0, peer_service(call.peer_part).1) + pair_tokens(
        function_values(call.function_part).0,
        function_values(call.function_part).1,
    ) + seq![TokenView::OpenSquareBracket] + args_tokens(call.args) + seq![
        TokenView::CloseSquareBracket,
    ] + output_tokens(call.output) + seq![TokenView::CloseRoundBracket]
}

/// The tokens that an instruction is written as.
pub open spec fn instruction_tokens(instr: InstructionView) -> Seq<TokenView>
    decreases instr,
{
    match instr {
        InstructionView::Null => seq![
            TokenView::OpenRoundBracket,
            TokenView::Null,
            TokenView::CloseRoundBracket,
        ],
        InstructionView::Call(call) => seq![TokenView::OpenRoundBracket, TokenView::Call]
            + call_tokens(call),
        InstructionView::Sequence(left, right) => seq![
            TokenView::OpenRoundBracket,
            TokenView::Sequence,
        ] + instruction_tokens(*left) + instruction_tokens(*right) + seq![
            TokenView::CloseRoundBracket,
        ],
        InstructionView::Par(left, right) => seq![TokenView::OpenRoundBracket, TokenView::Par]
            + instruction_tokens(*left) + instruction_tokens(*right) + seq![
            TokenView::CloseRoundBracket,
        ],
        InstructionView::Xor(left, right) => seq![TokenView::OpenRoundBracket, TokenView::Xor]
            + instruction_tokens(*left) + instruction_tokens(*right) + seq![
            TokenView::CloseRoundBracket,
        ],
        InstructionView::Fold { iterable, iterator, instruction } => seq![
            TokenView::OpenRoundBracket,
            TokenView::Fold,
            value_token(iterable),
            TokenView::Alphanumeric(iterator),
        ] + instruction_tokens(*instruction) + seq![TokenView::CloseRoundBracket],
        InstructionView::Next(iterator) => seq![
            TokenView::OpenRoundBracket,
            TokenView::Next,
            TokenView::Alphanumeric(iterator),
            TokenView::CloseRoundBracket,
        ],
        InstructionView::Match { left_value, right_value, instruction } => seq![
            TokenView::OpenRoundBracket,
            TokenView::Match,
            value_token(left_value),
            value_token(right_value),
        ] + instruction_tokens(*instruction) + seq![TokenView::CloseRoundBracket],
        InstructionView::MisMatch { left_value, right_value, instruction } => seq![
            TokenView::OpenRoundBracket,
            TokenView::MisMatch,
            value_token(left_value),
            value_token(right_value),
        ] + instruction_tokens(*instruction) + seq![TokenView::CloseRoundBracket],
        InstructionView::Error => Seq::empty(),
    }
}

/// Whether an instruction can be written down: it holds no error, a fold
/// walks over a variable or a JSON path, and the sides of a `match` are not
/// the id of the peer that started the script.
pub open spec fn writable(instr: InstructionView) -> bool
    decreases instr,
{
    match instr {
        InstructionView::Null => true,
        InstructionView::Call(_) => true,
        InstructionView::Sequence(left, right) => writable(*left) && writable(*right),
        InstructionView::Par(left, right) => writable(*left) && writable(*right),
        InstructionView::Xor(left, right) => writable(*left) && writable(*right),
        InstructionView::Fold { iterable, iterator, instruction } => (iterable is Variable
            || iterable is JsonPath) && writable(*instruction),
        InstructionView::Next(_) => true,
        InstructionView::Match { left_value, right_value, instruction } => !(left_value
            is InitPeerId) && !(right_value is InitPeerId) && writable(*instruction),
        InstructionView::MisMatch { left_value, right_value, instruction } => !(left_value
            is InitPeerId) && !(right_value is InitPeerId) && writable(*instruction),
        InstructionView::Error => false,
    }
}

/// From `pos` on the tokens are `written`.
pub open spec fn stands_at(tokens: Seq<SpannedView>, pos: int, written: Seq<TokenView>) -> bool {
    &&& 0 <= pos
    &&& pos + written.len() <= tokens.len()
    &&& forall|k: int| 0 <= k < written.len() ==> (#[trigger] tokens[pos + k]).token == written[k]
}

/// Where two lists of tokens stand one behind the other, each of them stands
/// at its place.
proof fn lemma_stands_split(
    tokens: Seq<SpannedView>,
    pos: int,
    first: Seq<TokenView>,
    second: Seq<TokenView>,
)
    requires
        stands_at(tokens, pos, first + second),
    ensures
        stands_at(tokens, pos, first),
        stands_at(tokens, pos + first.len(), second),
{
    assert forall|k: int| 0 <= k < first.len() implies (#[trigger] tokens[pos + k]).token
        == first[k] by {
        assert((first + second)[k] == first[k]);
    }
    assert forall|k: int| 0 <= k < second.len() implies (#[trigger] tokens[pos + first.len()
        + k]).token == second[k] by {
        assert((first + second)[first.len() + k] == second[k]);
        assert(tokens[pos + (first.len() + k)].token == (first + second)[first.len() + k]);
    }
}

/// One value, or two values in brackets, are read back from their tokens.
proof fn lemma_pair_read(
    tokens: Seq<SpannedView>,
    pos: int,
    first: ValueView,
    second: Option<ValueView>,
)
    requires
        stands_at(tokens, pos, pair_tokens(first, second)),
    ensures
        pair_at(tokens, pos) == Ok::<(ValueView, Option<ValueView>, int), ParserError>(
            (first, second, pos + pair_tokens(first, second).len()),
        ),
{
    let written = pair_tokens(first, second);
    assert(tokens[pos + 0].token == written[0]);
    if second is Some {
        assert(tokens[pos + 1].token == written[1]);
        assert(tokens[pos + 2].token == written[2]);
        assert(tokens[pos + 3].token == written[3]);
    }
}

/// The arguments of a call are read back from their tokens.
proof fn lemma_args_read(
    tokens: Seq<SpannedView>,
    pos: int,
    args: Seq<ValueView>,
    n: int,
)
    requires
        0 <= n <= args.len(),
        stands_at(tokens, pos, args_tokens(args) + seq![TokenView::CloseSquareBracket]),
    ensures
        args_from(tokens, pos + n, args.subrange(0, n)) == Ok::<(Seq<ValueView>, int), ParserError>(
            (args, pos + args.len() + 1),
        ),
    decreases args.len() - n,
{
    let written = args_tokens(args) + seq![TokenView::CloseSquareBracket];
    assert(tokens[pos + n].token == written[n]);
    if n < args.len() {
        lemma_args_read(tokens, pos, args, n + 1);
        assert(args.subrange(0, n).push(args[n]) =~= args.subrange(0, n + 1));
    } else {
        assert(args.subrange(0, n) =~= args);
    }
}

/// A call is read back from its tokens.
proof fn lemma_call_read(tokens: Seq<SpannedView>, pos: int, call: CallView)
    requires
        stands_at(tokens, pos, call_tokens(call)),
    ensures
        call_at(tokens, pos) == Ok::<(CallView, int), ParserError>(
            (call, pos + call_tokens(call).len()),
        ),
{
    let peer = pair_tokens(peer_service(call.peer_part).0, peer_service(call.peer_part).1);
    let function = pair_tokens(
        function_values(call.function_part).0,
        function_values(call.function_part).1,
    );
    let open = seq![TokenView::OpenSquareBracket];
    let args = args_tokens(call.args);
    let close = seq![TokenView::CloseSquareBracket];
    let output = output_tokens(call.output);
    let end = seq![TokenView::CloseRoundBracket];
    let whole = call_tokens(call);
    assert(whole =~= peer + (function + (open + ((args + close) + (output + end)))));
    lemma_stands_split(tokens, pos, peer, function + (open + ((args + close) + (output + end))));
    let after_peer = pos + peer.len();
    lemma_stands_split(tokens, after_peer, function, open + ((args + close) + (output + end)));
    let after_function = after_peer + function.len();
    lemma_stands_split(tokens, after_function, open, (args + close) + (output + end));
    lemma_stands_split(tokens, after_function + 1, args + close, output + end);
    let after_args = after_function + 1 + args.len() + 1;
    lemma_stands_split(tokens, after_args, output, end);
    lemma_pair_read(
        tokens,
        pos,
        peer_service(call.peer_part).0,
        peer_service(call.peer_part).1,
    );
    lemma_pair_read(
        tokens,
        after_peer,
        function_values(call.function_part).0,
        function_values(call.function_part).1,
    );
    assert(tokens[after_function + 0].token == open[0]);
    lemma_args_read(tokens, after_function + 1, call.args, 0);
    assert(call.args.subrange(0, 0) =~= Seq::empty());
    let after_output = after_args + output.len();
    assert(tokens[after_output + 0].token == end[0]);
    if output.len() > 0 {
        assert(tokens[after_args + 0].token == output[0]);
    }
    assert(output_at(tokens, after_args) == (call.output, after_output));
}

/// The grammar reads back what was written: where the tokens of a writable
/// instruction stand, that instruction is read, and the reading ends behind
/// its last token.
pub proof fn lemma_instruction_read(tokens: Seq<SpannedView>, pos: int, instr: InstructionView)
    requires
        writable(instr),
        stands_at(tokens, pos, instruction_tokens(instr)),
    ensures
        instr_at(tokens, pos) == Ok::<(InstructionView, int), ParserError>(
            (instr, pos + instruction_tokens(instr).len()),
        ),
    decreases instr, 1nat,
{
    let written = instruction_tokens(instr);
    assert(tokens[pos + 0].token == written[0]);
    assert(tokens[pos + 1].token == written[1]);
    let close = seq![TokenView::CloseRoundBracket];
    match instr {
        InstructionView::Null => {
            assert(tokens[pos + 2].token == written[2]);
        },
        InstructionView::Call(call) => {
            let head = seq![TokenView::OpenRoundBracket, TokenView::Call];
            lemma_stands_split(tokens, pos, head, call_tokens(call));
            lemma_call_read(tokens, pos + 2, call);
        },
        InstructionView::Sequence(left, right) => {
            lemma_two_read(tokens, pos, instr, *left, *right);
        },
        InstructionView::Par(left, right) => {
            lemma_two_read(tokens, pos, instr, *left, *right);
        },
        InstructionView::Xor(left, right) => {
            lemma_two_read(tokens, pos, instr, *left, *right);
        },
        InstructionView::Fold { iterable, iterator, instruction } => {
            let head = seq![
                TokenView::OpenRoundBracket,
                TokenView::Fold,
                value_token(iterable),
                TokenView::Alphanumeric(iterator),
            ];
            let body = instruction_tokens(*instruction);
            assert(written =~= head + (body + close));
            lemma_stands_split(tokens, pos, head, body + close);
            lemma_stands_split(tokens, pos + 4, body, close);
            assert(tokens[pos + 2].token == written[2]);
            assert(tokens[pos + 3].token == written[3]);
            lemma_instruction_read(tokens, pos + 4, *instruction);
            assert(tokens[pos + 4 + body.len() + 0].token == close[0]);
        },
        InstructionView::Next(iterator) => {
            assert(tokens[pos + 2].token == written[2]);
            assert(tokens[pos + 3].token == written[3]);
        },
        InstructionView::Match { left_value, right_value, instruction } => {
            let head = seq![
                TokenView::OpenRoundBracket,
                TokenView::Match,
                value_token(left_value),
                value_token(right_value),
            ];
            let body = instruction_tokens(*instruction);
            assert(written =~= head + (body + close));
            lemma_stands_split(tokens, pos, head, body + close);
            lemma_stands_split(tokens, pos + 4, body, close);
            assert(tokens[pos + 2].token == written[2]);
            assert(tokens[pos + 3].token == written[3]);
            lemma_instruction_read(tokens, pos + 4, *instruction);
            assert(tokens[pos + 4 + body.len() + 0].token == close[0]);
        },
        InstructionView::MisMatch { left_value, right_value, instruction } => {
            let head = seq![
                TokenView::OpenRoundBracket,
                TokenView::MisMatch,
                value_token(left_value),
                value_token(right_value),
            ];
            let body = instruction_tokens(*instruction);
            assert(written =~= head + (body + close));
            lemma_stands_split(tokens, pos, head, body + close);
            lemma_stands_split(tokens, pos + 4, body, close);
            assert(tokens[pos + 2].token == written[2]);
            assert(tokens[pos + 3].token == written[3]);
            lemma_instruction_read(tokens, pos + 4, *instruction);
            assert(tokens[pos + 4 + body.len() + 0].token == close[0]);
        },
        InstructionView::Error => {},
    }
}

/// [`lemma_instruction_read`] for `seq`, `par` and `xor`.
proof fn lemma_two_read(
    tokens: Seq<SpannedView>,
    pos: int,
    instr: InstructionView,
    left: InstructionView,
    right: InstructionView,
)
    requires
        instr == InstructionView::Sequence(Box::new(left), Box::new(right)) || instr
            == InstructionView::Par(Box::new(left), Box::new(right)) || instr
            == InstructionView::Xor(Box::new(left), Box::new(right)),
        writable(instr),
        stands_at(tokens, pos, instruction_tokens(instr)),
    ensures
        instr_at(tokens, pos) == Ok::<(InstructionView, int), ParserError>(
            (instr, pos + instruction_tokens(instr).len()),
        ),
    decreases instr, 0nat,
{
    let written = instruction_tokens(instr);
    let head = written.subrange(0, 2);
    let close = seq![TokenView::CloseRoundBracket];
    let first = instruction_tokens(left);
    let second = instruction_tokens(right);
    assert(written =~= head + (first + (second + close)));
    assert(tokens[pos + 0].token == written[0]);
    assert(tokens[pos + 1].token == written[1]);
    lemma_stands_split(tokens, pos, head, first + (second + close));
    lemma_stands_split(tokens, pos + 2, first, second + close);
    lemma_stands_split(tokens, pos + 2 + first.len(), second, close);
    lemma_instruction_read(tokens, pos + 2, left);
    lemma_written_not_empty(left);
    lemma_instruction_read(tokens, pos + 2 + first.len(), right);
    assert(tokens[pos + 2 + first.len() + second.len() + 0].token == close[0]);
}

/// What a writable instruction is written as starts with its bracket and
/// its keyword.
proof fn lemma_written_not_empty(instr: InstructionView)
    requires
        writable(instr),
    ensures
        instruction_tokens(instr).len() >= 2,
{
}

/// A script that is the writing of a writable instruction is read as that
/// instruction.
pub proof fn lemma_script_read(tokens: Seq<SpannedView>, instr: InstructionView)
    requires
        writable(instr),
        tokens.len() == instruction_tokens(instr).len(),
        stands_at(tokens, 0, instruction_tokens(instr)),
    ensures
        script_of(tokens) == Ok::<InstructionView, ParserError>(instr),
{
    lemma_instruction_read(tokens, 0, instr);
}

/// A script that is the writing of a writable instruction is read with
/// recovery as that instruction, and no error is met.
pub proof fn lemma_script_recovered(tokens: Seq<SpannedView>, instr: InstructionView)
    requires
        writable(instr),
        tokens.len() == instruction_tokens(instr).len(),
        stands_at(tokens, 0, instruction_tokens(instr)),
    ensures
        recover_tokens(tokens) == Ok::<(InstructionView, Seq<ParserError>), ParserError>(
            (instr, Seq::empty()),
        ),
{
    lemma_instruction_read(tokens, 0, instr);
    lemma_recover_fitting(tokens, 0);
}

} // verus!
