//! The grammar of AIR scripts: from tokens to the instruction tree.

use crate::ast::{
    Call, CallArgValue, CallOutput, CallView, Fold, FunctionPart, FunctionPartView, Instruction,
    InstructionView, Match, MisMatch, Next, Null, OutputView, Par, PeerPart, PeerPartView, Sequence,
    ValueView, Xor,
};
use crate::lexer::{lex, lex_spec, tokens_view, LexerError, Spanned, SpannedView, Token, TokenView};
use crate::lists::{lemma_views_push, views};
use vstd::prelude::*;

verus! {

/// Why a script cannot be read.
#[derive(Debug, Clone, Copy, PartialEq, Eq, Hash)]
pub enum ParserError {
    /// The script cannot be cut into tokens.
    Lexer(LexerError),
    /// The script ends where a token is needed; `location` is the place
    /// behind its last token.
    UnrecognizedEof { location: usize },
    /// The token from `start` up to `end` stands where another is needed.
    UnrecognizedToken { start: usize, end: usize },
    /// The token from `start` up to `end` follows the end of the script's
    /// instruction.
    ExtraToken { start: usize, end: usize },
}

/// The error for the token at `pos`, or for the end of the script where
/// there is no such token.
pub open spec fn unexpected(tokens: Seq<SpannedView>, pos: int) -> ParserError {
    if 0 <= pos < tokens.len() {
        ParserError::UnrecognizedToken {
            start: tokens[pos].start as usize,
            end: tokens[pos].end as usize,
        }
    } else if tokens.len() == 0 {
        ParserError::UnrecognizedEof { location: 0 }
    } else {
        ParserError::UnrecognizedEof { location: tokens.last().end as usize }
    }
}

/// Whether the token at `pos` is `token`.
pub open spec fn token_is(tokens: Seq<SpannedView>, pos: int, token: TokenView) -> bool {
    0 <= pos < tokens.len() && tokens[pos].token == token
}

/// The value that a token is as the peer, the service, the function or an
/// argument of a call.
pub open spec fn call_value(token: TokenView) -> Option<ValueView> {
    match token {
        TokenView::StringLiteral(text) => Some(ValueView::Literal(text)),
        TokenView::Alphanumeric(name) => Some(ValueView::Variable(name)),
        TokenView::JsonPath { variable, path } => Some(ValueView::JsonPath { variable, path }),
        TokenView::InitPeerId => Some(ValueView::InitPeerId),
        _ => None,
    }
}

/// The value that a token is as what a fold walks over.
pub open spec fn iterable_value(token: TokenView) -> Option<ValueView> {
    match token {
        TokenView::Alphanumeric(name) => Some(ValueView::Variable(name)),
        TokenView::JsonPath { variable, path } => Some(ValueView::JsonPath { variable, path }),
        _ => None,
    }
}

/// The value that a token is as a side of a `match`.
pub open spec fn matchable_value(token: TokenView) -> Option<ValueView> {
    match token {
        TokenView::StringLiteral(text) => Some(ValueView::Literal(text)),
        TokenView::Alphanumeric(name) => Some(ValueView::Variable(name)),
        TokenView::JsonPath { variable, path } => Some(ValueView::JsonPath { variable, path }),
        _ => None,
    }
}

/// The kinds of value that the grammar tells apart.
pub enum ValueKind {
    CallArg,
    Iterable,
    Matchable,
}

/// The value that a token is where a value of `kind` is needed.
pub open spec fn value_of(token: TokenView, kind: ValueKind) -> Option<ValueView> {
    match kind {
        ValueKind::CallArg => call_value(token),
        ValueKind::Iterable => iterable_value(token),
        ValueKind::Matchable => matchable_value(token),
    }
}

/// The value at `pos`.
pub open spec fn value_at(tokens: Seq<SpannedView>, pos: int, kind: ValueKind) -> Result<
    ValueView,
    ParserError,
> {
    if 0 <= pos < tokens.len() {
        match value_of(tokens[pos].token, kind) {
            Some(value) => Ok(value),
            None => Err(unexpected(tokens, pos)),
        }
    } else {
        Err(unexpected(tokens, pos))
    }
}

/// The name at `pos`.
pub open spec fn name_at(tokens: Seq<SpannedView>, pos: int) -> Result<Seq<char>, ParserError> {
    if 0 <= pos < tokens.len() && tokens[pos].token is Alphanumeric {
        Ok(tokens[pos].token->Alphanumeric_0)
    } else {
        Err(unexpected(tokens, pos))
    }
}

/// A value, or two values in round brackets, from `pos` on, and the place
/// behind them.
pub open spec fn pair_at(tokens: Seq<SpannedView>, pos: int) -> Result<
    (ValueView, Option<ValueView>, int),
    ParserError,
> {
    if token_is(tokens, pos, TokenView::OpenRoundBracket) {
        match value_at(tokens, pos + 1, ValueKind::CallArg) {
            Err(e) => Err(e),
            Ok(first) => match value_at(tokens, pos + 2, ValueKind::CallArg) {
                Err(e) => Err(e),
                Ok(second) => if token_is(tokens, pos + 3, TokenView::CloseRoundBracket) {
                    Ok((first, Some(second), pos + 4))
                } else {
                    Err(unexpected(tokens, pos + 3))
                },
            },
        }
    } else {
        match value_at(tokens, pos, ValueKind::CallArg) {
            Err(e) => Err(e),
            Ok(first) => Ok((first, None, pos + 1)),
        }
    }
}

/// The arguments of a call from `pos` on, put behind `done`, up to the
/// square bracket that closes them, and the place behind that bracket.
pub open spec fn args_from(tokens: Seq<SpannedView>, pos: int, done: Seq<ValueView>) -> Result<
    (Seq<ValueView>, int),
    ParserError,
>
    decreases tokens.len() - pos,
{
    if pos < 0 || pos >= tokens.len() {
        Err(unexpected(tokens, pos))
    } else if tokens[pos].token == TokenView::CloseSquareBracket {
        Ok((done, pos + 1))
    } else {
        match call_value(tokens[pos].token) {
            None => Err(unexpected(tokens, pos)),
            Some(value) => args_from(tokens, pos + 1, done.push(value)),
        }
    }
}

/// The output of a call at `pos`, where one is written, and the place
/// behind it.
pub open spec fn output_at(tokens: Seq<SpannedView>, pos: int) -> (OutputView, int) {
    if 0 <= pos < tokens.len() {
        match tokens[pos].token {
            TokenView::Alphanumeric(name) => (OutputView::Scalar(name), pos + 1),
            TokenView::Accumulator(name) => (OutputView::Accumulator(name), pos + 1),
            _ => (OutputView::Discard, pos),
        }
    } else {
        (OutputView::Discard, pos)
    }
}

/// What follows the keyword `call`, from `pos` on: the peer part, the
/// function part, the arguments in square brackets, the output where one is
/// written, and the closing bracket.
pub open spec fn call_at(tokens: Seq<SpannedView>, pos: int) -> Result<(CallView, int), ParserError> {
    match pair_at(tokens, pos) {
        Err(e) => Err(e),
        Ok((peer, peer_service, after_peer)) => match pair_at(tokens, after_peer) {
            Err(e) => Err(e),
            Ok((first, second, after_function)) => {
                if !token_is(tokens, after_function, TokenView::OpenSquareBracket) {
                    Err(unexpected(tokens, after_function))
                } else {
                    match args_from(tokens, after_function + 1, Seq::empty()) {
                        Err(e) => Err(e),
                        Ok((args, after_args)) => {
                            let (output, after_output) = output_at(tokens, after_args);
                            if token_is(tokens, after_output, TokenView::CloseRoundBracket) {
                                Ok(
                                    (
                                        CallView {
                                            peer_part: match peer_service {
                                                Some(service) => PeerPartView::PeerPkWithServiceId(
                                                    peer,
                                                    service,
                                                ),
                                                None => PeerPartView::PeerPk(peer),
                                            },
                                            function_part: match second {
                                                Some(name) => {
                                                    FunctionPartView::ServiceIdWithFuncName(
                                                        first,
                                                        name,
                                                    )
                                                },
                                                None => FunctionPartView::FuncName(first),
                                            },
                                            args,
                                            output,
                                        },
                                        after_output + 1,
                                    ),
                                )
                            } else {
                                Err(unexpected(tokens, after_output))
                            }
                        },
                    }
                }
            },
        }
    }
}

/// The instruction that starts at `pos`, and the place behind it.
///
/// An instruction stands in round brackets and starts with its keyword:
/// `(null)`, `(call ...)`, `(seq i i)`, `(par i i)`, `(xor i i)`,
/// `(fold iterable name i)`, `(next name)`, `(match v v i)` and
/// `(mismatch v v i)`.
pub open spec fn instr_at(tokens: Seq<SpannedView>, pos: int) -> Result<
    (InstructionView, int),
    ParserError,
>
    decreases tokens.len() - pos,
{
    if pos < 0 || !token_is(tokens, pos, TokenView::OpenRoundBracket) {
        Err(unexpected(tokens, pos))
    } else if pos + 1 >= tokens.len() {
        Err(unexpected(tokens, pos + 1))
    } else {
        match tokens[pos + 1].token {
            TokenView::Null => if token_is(tokens, pos + 2, TokenView::CloseRoundBracket) {
                Ok((InstructionView::Null, pos + 3))
            } else {
                Err(unexpected(tokens, pos + 2))
            },
            TokenView::Call => match call_at(tokens, pos + 2) {
                Err(e) => Err(e),
                Ok((call, next)) => Ok((InstructionView::Call(call), next)),
            },
            TokenView::Sequence | TokenView::Par | TokenView::Xor => match instr_at(tokens, pos + 2) {
                Err(e) => Err(e),
                Ok((left, middle)) => if middle <= pos + 2 || middle > tokens.len() {
                    Err(unexpected(tokens, middle))
                } else {
                    match instr_at(tokens, middle) {
                        Err(e) => Err(e),
                        Ok((right, end)) => if token_is(tokens, end, TokenView::CloseRoundBracket) {
                            Ok(
                                (
                                    match tokens[pos + 1].token {
                                        TokenView::Sequence => InstructionView::Sequence(
                                            Box::new(left),
                                            Box::new(right),
                                        ),
                                        TokenView::Par => InstructionView::Par(
                                            Box::new(left),
                                            Box::new(right),
                                        ),
                                        _ => InstructionView::Xor(Box::new(left), Box::new(right)),
                                    },
                                    end + 1,
                                ),
                            )
                        } else {
                            Err(unexpected(tokens, end))
                        },
                    }
                },
            },
            TokenView::Fold => match value_at(tokens, pos + 2, ValueKind::Iterable) {
                Err(e) => Err(e),
                Ok(iterable) => match name_at(tokens, pos + 3) {
                    Err(e) => Err(e),
                    Ok(iterator) => match instr_at(tokens, pos + 4) {
                        Err(e) => Err(e),
                        Ok((body, end)) => if token_is(tokens, end, TokenView::CloseRoundBracket) {
                            Ok(
                                (
                                    InstructionView::Fold {
                                        iterable,
                                        iterator,
                                        instruction: Box::new(body),
                                    },
                                    end + 1,
                                ),
                            )
                        } else {
                            Err(unexpected(tokens, end))
                        },
                    },
                },
            },
            TokenView::Next => match name_at(tokens, pos + 2) {
                Err(e) => Err(e),
                Ok(iterator) => if token_is(tokens, pos + 3, TokenView::CloseRoundBracket) {
                    Ok((InstructionView::Next(iterator), pos + 4))
                } else {
                    Err(unexpected(tokens, pos + 3))
                },
            },
            TokenView::Match | TokenView::MisMatch => match value_at(
                tokens,
                pos + 2,
                ValueKind::Matchable,
            ) {
                Err(e) => Err(e),
                Ok(left_value) => match value_at(tokens, pos + 3, ValueKind::Matchable) {
                    Err(e) => Err(e),
                    Ok(right_value) => match instr_at(tokens, pos + 4) {
                        Err(e) => Err(e),
                        Ok((body, end)) => if token_is(tokens, end, TokenView::CloseRoundBracket) {
                            Ok(
                                (
                                    if tokens[pos + 1].token is Match {
                                        InstructionView::Match {
                                            left_value,
                                            right_value,
                                            instruction: Box::new(body),
                                        }
                                    } else {
                                        InstructionView::MisMatch {
                                            left_value,
                                            right_value,
                                            instruction: Box::new(body),
                                        }
                                    },
                                    end + 1,
                                ),
                            )
                        } else {
                            Err(unexpected(tokens, end))
                        },
                    },
                },
            },
            _ => Err(unexpected(tokens, pos + 1)),
        }
    }
}

/// The instruction that the tokens of a script are: one instruction, and
/// nothing behind it.
pub open spec fn script_of(tokens: Seq<SpannedView>) -> Result<InstructionView, ParserError> {
    match instr_at(tokens, 0) {
        Err(e) => Err(e),
        Ok((instr, end)) => if 0 <= end < tokens.len() {
            Err(
                ParserError::ExtraToken {
                    start: tokens[end].start as usize,
                    end: tokens[end].end as usize,
                },
            )
        } else {
            Ok(instr)
        },
    }
}

/// What reading with recovery comes to: an instruction, the place behind
/// it, and the errors that were met, one for each `Error` in the instruction.
pub struct Recovered {
    pub instr: InstructionView,
    pub next: int,
    pub errors: Seq<ParserError>,
}

/// The place behind the round bracket that closes what stands open `depth`
/// deep at `pos`; the end of the script where nothing closes it.
pub open spec fn close_of(tokens: Seq<SpannedView>, pos: int, depth: nat) -> int
    decreases tokens.len() - pos,
{
    if pos < 0 || pos >= tokens.len() {
        tokens.len() as int
    } else if tokens[pos].token == TokenView::CloseRoundBracket {
        if depth <= 1 {
            pos + 1
        } else {
            close_of(tokens, pos + 1, (depth - 1) as nat)
        }
    } else if tokens[pos].token == TokenView::OpenRoundBracket {
        close_of(tokens, pos + 1, depth + 1)
    } else {
        close_of(tokens, pos + 1, depth)
    }
}

/// Where reading goes on behind an instruction at `pos` that could not be
/// read: behind the bracket that closes it where it starts with an opening
/// bracket; at `pos` where a closing bracket or nothing stands there; else
/// behind the one token at `pos`.
pub open spec fn resume(tokens: Seq<SpannedView>, pos: int) -> int {
    if pos < 0 || pos >= tokens.len() {
        pos
    } else if tokens[pos].token == TokenView::OpenRoundBracket {
        close_of(tokens, pos + 1, 1)
    } else if tokens[pos].token == TokenView::CloseRoundBracket {
        pos
    } else {
        pos + 1
    }
}

/// An instruction at `pos` that could not be read: an `Error` stands for
/// it, with the one error that says why.
pub open spec fn failed(tokens: Seq<SpannedView>, pos: int, error: ParserError) -> Recovered {
    Recovered { instr: InstructionView::Error, next: resume(tokens, pos), errors: seq![error] }
}

/// An instruction that was read without an error of its own.
pub open spec fn read(instr: InstructionView, next: int, errors: Seq<ParserError>) -> Recovered {
    Recovered { instr, next, errors }
}

/// The instruction with two sides that the keyword `token` starts.
pub open spec fn two_sided(token: TokenView, left: InstructionView, right: InstructionView)
    -> InstructionView {
    match token {
        TokenView::Sequence => InstructionView::Sequence(Box::new(left), Box::new(right)),
        TokenView::Par => InstructionView::Par(Box::new(left), Box::new(right)),
        _ => InstructionView::Xor(Box::new(left), Box::new(right)),
    }
}

/// The instruction around a `body` that the keyword `token` starts with
/// two values: a `match` or a `mismatch`.
pub open spec fn matching(
    token: TokenView,
    left_value: ValueView,
    right_value: ValueView,
    body: InstructionView,
) -> InstructionView {
    if token is Match {
        InstructionView::Match { left_value, right_value, instruction: Box::new(body) }
    } else {
        InstructionView::MisMatch { left_value, right_value, instruction: Box::new(body) }
    }
}

/// The instruction that starts at `pos`, read with recovery.
///
/// Where an instruction cannot be read as the grammar of [`instr_at`] has
/// it, an `Error` stands in its place, the error is kept, and reading goes
/// on at [`resume`]. The instructions inside an instruction are read in the
/// same way, so that an error in one of them leaves the instruction around
/// it standing. An instruction that fails after the instructions inside it
/// were read is an `Error` as a whole, with its own error alone.
pub open spec fn recover_at(tokens: Seq<SpannedView>, pos: int) -> Recovered
    decreases tokens.len() - pos,
{
    if pos < 0 || !token_is(tokens, pos, TokenView::OpenRoundBracket) {
        failed(tokens, pos, unexpected(tokens, pos))
    } else if pos + 1 >= tokens.len() {
        failed(tokens, pos, unexpected(tokens, pos + 1))
    } else {
        let keyword = tokens[pos + 1].token;
        match keyword {
            TokenView::Null => if token_is(tokens, pos + 2, TokenView::CloseRoundBracket) {
                read(InstructionView::Null, pos + 3, Seq::empty())
            } else {
                failed(tokens, pos, unexpected(tokens, pos + 2))
            },
            TokenView::Call => match call_at(tokens, pos + 2) {
                Err(e) => failed(tokens, pos, e),
                Ok((call, next)) => read(InstructionView::Call(call), next, Seq::empty()),
            },
            TokenView::Sequence | TokenView::Par | TokenView::Xor => {
                let left = recover_at(tokens, pos + 2);
                if left.next < pos + 2 || left.next > tokens.len() {
                    failed(tokens, pos, unexpected(tokens, left.next))
                } else {
                    let right = recover_at(tokens, left.next);
                    if token_is(tokens, right.next, TokenView::CloseRoundBracket) {
                        read(
                            two_sided(keyword, left.instr, right.instr),
                            right.next + 1,
                            left.errors + right.errors,
                        )
                    } else {
                        failed(tokens, pos, unexpected(tokens, right.next))
                    }
                }
            },
            TokenView::Fold => match value_at(tokens, pos + 2, ValueKind::Iterable) {
                Err(e) => failed(tokens, pos, e),
                Ok(iterable) => match name_at(tokens, pos + 3) {
                    Err(e) => failed(tokens, pos, e),
                    Ok(iterator) => {
                        let body = recover_at(tokens, pos + 4);
                        if token_is(tokens, body.next, TokenView::CloseRoundBracket) {
                            read(
                                InstructionView::Fold {
                                    iterable,
                                    iterator,
                                    instruction: Box::new(body.instr),
                                },
                                body.next + 1,
                                body.errors,
                            )
                        } else {
                            failed(tokens, pos, unexpected(tokens, body.next))
                        }
                    },
                },
            },
            TokenView::Next => match name_at(tokens, pos + 2) {
                Err(e) => failed(tokens, pos, e),
                Ok(iterator) => if token_is(tokens, pos + 3, TokenView::CloseRoundBracket) {
                    read(InstructionView::Next(iterator), pos + 4, Seq::empty())
                } else {
                    failed(tokens, pos, unexpected(tokens, pos + 3))
                },
            },
            TokenView::Match | TokenView::MisMatch => match value_at(
                tokens,
                pos + 2,
                ValueKind::Matchable,
            ) {
                Err(e) => failed(tokens, pos, e),
                Ok(left_value) => match value_at(tokens, pos + 3, ValueKind::Matchable) {
                    Err(e) => failed(tokens, pos, e),
                    Ok(right_value) => {
                        let body = recover_at(tokens, pos + 4);
                        if token_is(tokens, body.next, TokenView::CloseRoundBracket) {
                            read(
                                matching(keyword, left_value, right_value, body.instr),
                                body.next + 1,
                                body.errors,
                            )
                        } else {
                            failed(tokens, pos, unexpected(tokens, body.next))
                        }
                    },
                },
            },
            _ => failed(tokens, pos, unexpected(tokens, pos + 1)),
        }
    }
}

/// How often `Error` stands in an instruction.
pub open spec fn count_errors(instr: InstructionView) -> nat
    decreases instr,
{
    match instr {
        InstructionView::Error => 1,
        InstructionView::Sequence(left, right) => count_errors(*left) + count_errors(*right),
        InstructionView::Par(left, right) => count_errors(*left) + count_errors(*right),
        InstructionView::Xor(left, right) => count_errors(*left) + count_errors(*right),
        InstructionView::Fold { instruction, .. } => count_errors(*instruction),
        InstructionView::Match { instruction, .. } => count_errors(*instruction),
        InstructionView::MisMatch { instruction, .. } => count_errors(*instruction),
        _ => 0,
    }
}

/// The instruction that the tokens of a script are, read with recovery,
/// and the errors that were met; a token behind the instruction is an error
/// that ends the reading.
pub open spec fn recover_tokens(tokens: Seq<SpannedView>) -> Result<
    (InstructionView, Seq<ParserError>),
    ParserError,
> {
    let whole = recover_at(tokens, 0);
    if 0 <= whole.next < tokens.len() {
        Err(
            ParserError::ExtraToken {
                start: tokens[whole.next].start as usize,
                end: tokens[whole.next].end as usize,
            },
        )
    } else {
        Ok((whole.instr, whole.errors))
    }
}

/// The instruction that a script is, read with recovery, and the errors
/// that were met; an error of the lexer ends the reading.
pub open spec fn recover_spec(input: Seq<char>) -> Result<
    (InstructionView, Seq<ParserError>),
    ParserError,
> {
    match lex_spec(input) {
        Err(e) => Err(ParserError::Lexer(e)),
        Ok(tokens) => recover_tokens(tokens),
    }
}

/// The instruction that a script is, where it can be read without any
/// error; else the first error that was met.
pub open spec fn parse_spec(input: Seq<char>) -> Result<InstructionView, ParserError> {
    match recover_spec(input) {
        Err(e) => Err(e),
        Ok((instr, errors)) => if errors.len() == 0 {
            Ok(instr)
        } else {
            Err(errors[0])
        },
    }
}

/// An instruction that was read with recovery holds one `Error` for each
/// error that was met.
pub proof fn lemma_recover_counts(tokens: Seq<SpannedView>, pos: int)
    ensures
        count_errors(recover_at(tokens, pos).instr) == recover_at(tokens, pos).errors.len(),
    decreases tokens.len() - pos,
{
    if pos >= 0 && token_is(tokens, pos, TokenView::OpenRoundBracket) && pos + 1 < tokens.len() {
        match tokens[pos + 1].token {
            TokenView::Sequence | TokenView::Par | TokenView::Xor => {
                let left = recover_at(tokens, pos + 2);
                lemma_recover_counts(tokens, pos + 2);
                if pos + 2 <= left.next <= tokens.len() {
                    lemma_recover_counts(tokens, left.next);
                }
            },
            TokenView::Fold | TokenView::Match | TokenView::MisMatch => {
                if pos + 3 < tokens.len() {
                    lemma_recover_counts(tokens, pos + 4);
                }
            },
            _ => {},
        }
    }
}

/// Tokens that fit the grammar are read with recovery as the grammar reads
/// them, and no error is met: the instruction holds no `Error`.
pub proof fn lemma_recover_fitting(tokens: Seq<SpannedView>, pos: int)
    requires
        instr_at(tokens, pos) is Ok,
    ensures
        recover_at(tokens, pos) == read(
            instr_at(tokens, pos)->Ok_0.0,
            instr_at(tokens, pos)->Ok_0.1,
            Seq::empty(),
        ),
        count_errors(instr_at(tokens, pos)->Ok_0.0) == 0,
    decreases tokens.len() - pos,
{
    lemma_recover_counts(tokens, pos);
    match tokens[pos + 1].token {
        TokenView::Sequence | TokenView::Par | TokenView::Xor => {
            lemma_recover_fitting(tokens, pos + 2);
            lemma_recover_fitting(tokens, instr_at(tokens, pos + 2)->Ok_0.1);
            assert(Seq::<ParserError>::empty() + Seq::<ParserError>::empty() =~= Seq::empty());
        },
        TokenView::Fold | TokenView::Match | TokenView::MisMatch => {
            lemma_recover_fitting(tokens, pos + 4);
        },
        _ => {},
    }
}

/// The arguments of a call end behind the place they start at.
proof fn lemma_args_end(tokens: Seq<SpannedView>, pos: int, done: Seq<ValueView>)
    requires
        args_from(tokens, pos, done) is Ok,
    ensures
        pos < args_from(tokens, pos, done)->Ok_0.1 <= tokens.len(),
    decreases tokens.len() - pos,
{
    if 0 <= pos < tokens.len() && tokens[pos].token != TokenView::CloseSquareBracket {
        match call_value(tokens[pos].token) {
            Some(value) => {
                lemma_args_end(tokens, pos + 1, done.push(value));
            },
            None => {},
        }
    }
}

/// Tokens that are read with recovery without an error fit the grammar:
/// the grammar reads them as the same instruction, which ends behind the
/// place it starts at.
pub proof fn lemma_recover_clean(tokens: Seq<SpannedView>, pos: int)
    requires
        recover_at(tokens, pos).errors.len() == 0,
    ensures
        instr_at(tokens, pos) == Ok::<(InstructionView, int), ParserError>(
            (recover_at(tokens, pos).instr, recover_at(tokens, pos).next),
        ),
        pos < recover_at(tokens, pos).next <= tokens.len(),
    decreases tokens.len() - pos,
{
    if pos >= 0 && token_is(tokens, pos, TokenView::OpenRoundBracket) && pos + 1 < tokens.len() {
        match tokens[pos + 1].token {
            TokenView::Call => {
                if call_at(tokens, pos + 2) is Ok {
                    let after_peer = pair_at(tokens, pos + 2)->Ok_0.2;
                    let after_function = pair_at(tokens, after_peer)->Ok_0.2;
                    lemma_args_end(tokens, after_function + 1, Seq::empty());
                }
            },
            TokenView::Sequence | TokenView::Par | TokenView::Xor => {
                let left = recover_at(tokens, pos + 2);
                if pos + 2 <= left.next <= tokens.len() {
                    let right = recover_at(tokens, left.next);
                    if token_is(tokens, right.next, TokenView::CloseRoundBracket) {
                        assert((left.errors + right.errors).len() == left.errors.len()
                            + right.errors.len());
                        lemma_recover_clean(tokens, pos + 2);
                        lemma_recover_clean(tokens, left.next);
                    }
                }
            },
            TokenView::Fold | TokenView::Match | TokenView::MisMatch => {
                if pos + 3 < tokens.len() && recover_at(tokens, pos + 4).errors.len() == 0 {
                    lemma_recover_clean(tokens, pos + 4);
                }
            },
            _ => {},
        }
    }
}

/// The instruction that a script is, where its tokens fit the grammar of
/// [`script_of`].
pub open spec fn grammar_spec(input: Seq<char>) -> Option<InstructionView> {
    match lex_spec(input) {
        Err(_) => None,
        Ok(tokens) => match script_of(tokens) {
            Err(_) => None,
            Ok(instr) => Some(instr),
        },
    }
}

/// A script is read without an error exactly where its tokens fit the
/// grammar; it is then read as the instruction that the grammar gives, which
/// holds no `Error`, and reading it with recovery meets no error.
pub proof fn lemma_parse_grammar(input: Seq<char>)
    ensures
        match grammar_spec(input) {
            Some(instr) => parse_spec(input) == Ok::<InstructionView, ParserError>(instr)
                && recover_spec(input) == Ok::<(InstructionView, Seq<ParserError>), ParserError>(
                (instr, Seq::empty()),
            ) && count_errors(instr) == 0,
            None => parse_spec(input) is Err,
        },
{
    match lex_spec(input) {
        Err(_) => {},
        Ok(tokens) => {
            if instr_at(tokens, 0) is Ok {
                lemma_recover_fitting(tokens, 0);
            } else if recover_at(tokens, 0).errors.len() == 0 {
                lemma_recover_clean(tokens, 0);
            }
        },
    }
}

/// The error for the token at `pos`; see [`unexpected`].
pub fn unexpected_at(tokens: &Vec<Spanned>, pos: usize) -> (r: ParserError)
    ensures
        r == unexpected(tokens_view(tokens@), pos as int),
{
    if pos < tokens.len() {
        ParserError::UnrecognizedToken { start: tokens[pos].start, end: tokens[pos].end }
    } else if tokens.len() == 0 {
        ParserError::UnrecognizedEof { location: 0 }
    } else {
        ParserError::UnrecognizedEof { location: tokens[tokens.len() - 1].end }
    }
}

/// The value that a token is where a value of `kind` is needed; see
/// [`value_of`].
pub fn token_value(token: &Token, kind: &ValueKind) -> (r: Option<CallArgValue>)
    ensures
        match r {
            Some(value) => value_of(token@, *kind) == Some(value@),
            None => value_of(token@, *kind) is None,
        },
{
    match token {
        Token::StringLiteral(text) => match kind {
            ValueKind::Iterable => None,
            _ => Some(CallArgValue::Literal(text.clone())),
        },
        Token::Alphanumeric(name) => Some(CallArgValue::Variable(name.clone())),
        Token::JsonPath { variable, path } => Some(
            CallArgValue::JsonPath { variable: variable.clone(), path: path.clone() },
        ),
        Token::InitPeerId => match kind {
            ValueKind::CallArg => Some(CallArgValue::InitPeerId),
            _ => None,
        },
        _ => None,
    }
}

/// The view of a value or an error.
pub open spec fn value_result_view(r: Result<CallArgValue, ParserError>) -> Result<
    ValueView,
    ParserError,
> {
    match r {
        Ok(value) => Ok(value@),
        Err(e) => Err(e),
    }
}

/// Reads the value at `pos`; see [`value_at`].
pub fn parse_value(tokens: &Vec<Spanned>, pos: usize, kind: ValueKind) -> (r: Result<
    CallArgValue,
    ParserError,
>)
    ensures
        value_result_view(r) == value_at(tokens_view(tokens@), pos as int, kind),
{
    if pos < tokens.len() {
        match token_value(&tokens[pos].token, &kind) {
            Some(value) => Ok(value),
            None => Err(unexpected_at(tokens, pos)),
        }
    } else {
        Err(unexpected_at(tokens, pos))
    }
}

/// Reads the name at `pos`; see [`name_at`].
pub fn parse_name(tokens: &Vec<Spanned>, pos: usize) -> (r: Result<String, ParserError>)
    ensures
        match r {
            Ok(name) => name_at(tokens_view(tokens@), pos as int) == Ok::<Seq<char>, ParserError>(
                name@,
            ),
            Err(e) => name_at(tokens_view(tokens@), pos as int) == Err::<Seq<char>, ParserError>(e),
        },
{
    if pos < tokens.len() {
        if let Token::Alphanumeric(name) = &tokens[pos].token {
            return Ok(name.clone());
        }
    }
    Err(unexpected_at(tokens, pos))
}

/// Whether the token at `pos` is an opening round bracket.
pub fn is_open_round(tokens: &Vec<Spanned>, pos: usize) -> (r: bool)
    ensures
        r == token_is(tokens_view(tokens@), pos as int, TokenView::OpenRoundBracket),
{
    pos < tokens.len() && match &tokens[pos].token {
        Token::OpenRoundBracket => true,
        _ => false,
    }
}

/// Whether the token at `pos` is a closing round bracket.
pub fn is_close_round(tokens: &Vec<Spanned>, pos: usize) -> (r: bool)
    ensures
        r == token_is(tokens_view(tokens@), pos as int, TokenView::CloseRoundBracket),
{
    pos < tokens.len() && match &tokens[pos].token {
        Token::CloseRoundBracket => true,
        _ => false,
    }
}

/// Whether the token at `pos` is an opening square bracket.
pub fn is_open_square(tokens: &Vec<Spanned>, pos: usize) -> (r: bool)
    ensures
        r == token_is(tokens_view(tokens@), pos as int, TokenView::OpenSquareBracket),
{
    pos < tokens.len() && match &tokens[pos].token {
        Token::OpenSquareBracket => true,
        _ => false,
    }
}

/// Reads a value or two values in round brackets; see [`pair_at`].
pub fn parse_pair(tokens: &Vec<Spanned>, pos: usize) -> (r: Result<
    (CallArgValue, Option<CallArgValue>, usize),
    ParserError,
>)
    requires
        pos <= tokens.len(),
    ensures
        match r {
            Ok((first, second, next)) => pair_at(tokens_view(tokens@), pos as int) == Ok::<
                (ValueView, Option<ValueView>, int),
                ParserError,
            >(
                (
                    first@,
                    match second {
                        Some(value) => Some(value@),
                        None => None,
                    },
                    next as int,
                ),
            ) && pos < next <= tokens.len(),
            Err(e) => pair_at(tokens_view(tokens@), pos as int) == Err::<
                (ValueView, Option<ValueView>, int),
                ParserError,
            >(e),
        },
{
    if is_open_round(tokens, pos) {
        let first = parse_value(tokens, pos + 1, ValueKind::CallArg)?;
        let second = parse_value(tokens, pos + 2, ValueKind::CallArg)?;
        if is_close_round(tokens, pos + 3) {
            Ok((first, Some(second), pos + 4))
        } else {
            Err(unexpected_at(tokens, pos + 3))
        }
    } else {
        let first = parse_value(tokens, pos, ValueKind::CallArg)?;
        Ok((first, None, pos + 1))
    }
}

/// Reads the arguments of a call up to the bracket that closes them; see
/// [`args_from`].
pub fn parse_args(tokens: &Vec<Spanned>, start: usize) -> (r: Result<
    (Vec<CallArgValue>, usize),
    ParserError,
>)
    requires
        start <= tokens.len(),
    ensures
        match r {
            Ok((args, next)) => args_from(tokens_view(tokens@), start as int, Seq::empty()) == Ok::<
                (Seq<ValueView>, int),
                ParserError,
            >((views(args@), next as int)) && start < next <= tokens.len(),
            Err(e) => args_from(tokens_view(tokens@), start as int, Seq::empty()) == Err::<
                (Seq<ValueView>, int),
                ParserError,
            >(e),
        },
{
    let mut args: Vec<CallArgValue> = Vec::new();
    let mut pos = start;
    assert(views(args@) =~= Seq::empty());
    while pos < tokens.len()
        invariant
            start <= pos <= tokens.len(),
            args_from(tokens_view(tokens@), start as int, Seq::empty()) == args_from(
                tokens_view(tokens@),
                pos as int,
                views(args@),
            ),
        decreases tokens.len() - pos,
    {
        if let Token::CloseSquareBracket = &tokens[pos].token {
            return Ok((args, pos + 1));
        }
        match token_value(&tokens[pos].token, &ValueKind::CallArg) {
            None => {
                return Err(unexpected_at(tokens, pos));
            },
            Some(value) => {
                proof {
                    lemma_views_push(args@, value);
                }
                args.push(value);
            },
        }
        pos = pos + 1;
    }
    Err(unexpected_at(tokens, pos))
}

/// Reads the output of a call, where one is written; see [`output_at`].
pub fn parse_output(tokens: &Vec<Spanned>, pos: usize) -> (r: (CallOutput, usize))
    requires
        pos <= tokens.len(),
    ensures
        output_at(tokens_view(tokens@), pos as int) == (r.0@, r.1 as int),
        pos <= r.1 <= tokens.len(),
{
    if pos < tokens.len() {
        match &tokens[pos].token {
            Token::Alphanumeric(name) => (CallOutput::Scalar(name.clone()), pos + 1),
            Token::Accumulator(name) => (CallOutput::Accumulator(name.clone()), pos + 1),
            _ => (CallOutput::Discard, pos),
        }
    } else {
        (CallOutput::Discard, pos)
    }
}

/// Reads what follows the keyword `call`; see [`call_at`].
pub fn parse_call(tokens: &Vec<Spanned>, pos: usize) -> (r: Result<(Call, usize), ParserError>)
    requires
        pos <= tokens.len(),
    ensures
        match r {
            Ok((call, next)) => call_at(tokens_view(tokens@), pos as int) == Ok::<
                (CallView, int),
                ParserError,
            >((call@, next as int)) && pos < next <= tokens.len(),
            Err(e) => call_at(tokens_view(tokens@), pos as int) == Err::<
                (CallView, int),
                ParserError,
            >(e),
        },
{
    let (peer, peer_service, after_peer) = parse_pair(tokens, pos)?;
    let (first, second, after_function) = parse_pair(tokens, after_peer)?;
    if !is_open_square(tokens, after_function) {
        return Err(unexpected_at(tokens, after_function));
    }
    let (args, after_args) = parse_args(tokens, after_function + 1)?;
    let (output, after_output) = parse_output(tokens, after_args);
    if !is_close_round(tokens, after_output) {
        return Err(unexpected_at(tokens, after_output));
    }
    let peer_part = match peer_service {
        Some(service) => PeerPart::PeerPkWithServiceId(peer, service),
        None => PeerPart::PeerPk(peer),
    };
    let function_part = match second {
        Some(name) => FunctionPart::ServiceIdWithFuncName(first, name),
        None => FunctionPart::FuncName(first),
    };
    Ok((Call { peer_part, function_part, args, output }, after_output + 1))
}

/// The view of what reading with recovery gave.
pub open spec fn recovered_view(r: (Instruction, usize, Vec<ParserError>)) -> Recovered {
    Recovered { instr: r.0@, next: r.1 as int, errors: r.2@ }
}

/// Finds the bracket that closes what stands open at `start`; see
/// [`close_of`].
pub fn skip_to_close(tokens: &Vec<Spanned>, start: usize) -> (r: usize)
    requires
        start <= tokens.len(),
    ensures
        r == close_of(tokens_view(tokens@), start as int, 1),
        start <= r <= tokens.len(),
{
    let mut pos = start;
    // the brackets that were opened behind `start` and are not closed yet
    let mut opened: usize = 0;
    while pos < tokens.len()
        invariant
            start <= pos <= tokens.len(),
            opened <= pos - start,
            close_of(tokens_view(tokens@), start as int, 1) == close_of(
                tokens_view(tokens@),
                pos as int,
                (opened + 1) as nat,
            ),
        decreases tokens.len() - pos,
    {
        match &tokens[pos].token {
            Token::CloseRoundBracket => {
                if opened == 0 {
                    return pos + 1;
                }
                opened = opened - 1;
            },
            Token::OpenRoundBracket => {
                opened = opened + 1;
            },
            _ => {},
        }
        pos = pos + 1;
    }
    pos
}

/// Gives up an instruction at `pos` with an error; see [`failed`].
pub fn give_up(tokens: &Vec<Spanned>, pos: usize, error: ParserError) -> (r: (
    Instruction,
    usize,
    Vec<ParserError>,
))
    requires
        pos <= tokens.len(),
    ensures
        recovered_view(r) == failed(tokens_view(tokens@), pos as int, error),
        pos <= r.1 <= tokens.len(),
{
    let next = if pos >= tokens.len() {
        pos
    } else {
        match &tokens[pos].token {
            Token::OpenRoundBracket => skip_to_close(tokens, pos + 1),
            Token::CloseRoundBracket => pos,
            _ => pos + 1,
        }
    };
    let mut errors: Vec<ParserError> = Vec::new();
    errors.push(error);
    assert(errors@ =~= seq![error]);
    (Instruction::Error, next, errors)
}

/// Reads the instruction that starts at `pos` with recovery; see
/// [`recover_at`].
pub fn recover_instruction(tokens: &Vec<Spanned>, pos: usize) -> (r: (
    Instruction,
    usize,
    Vec<ParserError>,
))
    requires
        pos <= tokens.len(),
    ensures
        recovered_view(r) == recover_at(tokens_view(tokens@), pos as int),
        pos <= r.1 <= tokens.len(),
    decreases tokens.len() - pos, 1nat,
{
    if !is_open_round(tokens, pos) {
        return give_up(tokens, pos, unexpected_at(tokens, pos));
    }
    if pos + 1 >= tokens.len() {
        return give_up(tokens, pos, unexpected_at(tokens, pos + 1));
    }
    match &tokens[pos + 1].token {
        Token::Null => {
            if is_close_round(tokens, pos + 2) {
                (Instruction::Null(Null), pos + 3, Vec::new())
            } else {
                give_up(tokens, pos, unexpected_at(tokens, pos + 2))
            }
        },
        Token::Call => match parse_call(tokens, pos + 2) {
            Ok((call, next)) => (Instruction::Call(call), next, Vec::new()),
            Err(e) => give_up(tokens, pos, e),
        },
        Token::Sequence => match recover_two(tokens, pos) {
            Ok((left, right, next, errors)) => (
                Instruction::Sequence(Sequence(Box::new(left), Box::new(right))),
                next,
                errors,
            ),
            Err(e) => give_up(tokens, pos, e),
        },
        Token::Par => match recover_two(tokens, pos) {
            Ok((left, right, next, errors)) => (
                Instruction::Par(Par(Box::new(left), Box::new(right))),
                next,
                errors,
            ),
            Err(e) => give_up(tokens, pos, e),
        },
        Token::Xor => match recover_two(tokens, pos) {
            Ok((left, right, next, errors)) => (
                Instruction::Xor(Xor(Box::new(left), Box::new(right))),
                next,
                errors,
            ),
            Err(e) => give_up(tokens, pos, e),
        },
        Token::Fold => {
            let iterable = match parse_value(tokens, pos + 2, ValueKind::Iterable) {
                Ok(iterable) => iterable,
                Err(e) => {
                    return give_up(tokens, pos, e);
                },
            };
            let iterator = match parse_name(tokens, pos + 3) {
                Ok(iterator) => iterator,
                Err(e) => {
                    return give_up(tokens, pos, e);
                },
            };
            let (body, end, errors) = recover_instruction(tokens, pos + 4);
            if !is_close_round(tokens, end) {
                return give_up(tokens, pos, unexpected_at(tokens, end));
            }
            (
                Instruction::Fold(Fold { iterable, iterator, instruction: Box::new(body) }),
                end + 1,
                errors,
            )
        },
        Token::Next => {
            let iterator = match parse_name(tokens, pos + 2) {
                Ok(iterator) => iterator,
                Err(e) => {
                    return give_up(tokens, pos, e);
                },
            };
            if is_close_round(tokens, pos + 3) {
                (Instruction::Next(Next(iterator)), pos + 4, Vec::new())
            } else {
                give_up(tokens, pos, unexpected_at(tokens, pos + 3))
            }
        },
        Token::Match => match recover_matching(tokens, pos) {
            Ok((left_value, right_value, body, next, errors)) => (
                Instruction::Match(Match { left_value, right_value, instruction: Box::new(body) }),
                next,
                errors,
            ),
            Err(e) => give_up(tokens, pos, e),
        },
        Token::MisMatch => match recover_matching(tokens, pos) {
            Ok((left_value, right_value, body, next, errors)) => (
                Instruction::MisMatch(
                    MisMatch { left_value, right_value, instruction: Box::new(body) },
                ),
                next,
                errors,
            ),
            Err(e) => give_up(tokens, pos, e),
        },
        _ => give_up(tokens, pos, unexpected_at(tokens, pos + 1)),
    }
}

/// Reads with recovery the two instructions of a `seq`, a `par` or a `xor`
/// that starts at `pos`, and the bracket that closes it; the error is the
/// one for the token that stands where the bracket is needed.
pub fn recover_two(tokens: &Vec<Spanned>, pos: usize) -> (r: Result<
    (Instruction, Instruction, usize, Vec<ParserError>),
    ParserError,
>)
    requires
        pos + 1 < tokens.len(),
    ensures
        ({
            let left = recover_at(tokens_view(tokens@), pos + 2);
            let right = recover_at(tokens_view(tokens@), left.next);
            &&& pos + 2 <= left.next <= tokens.len()
            &&& match r {
                Ok((first, second, next, errors)) => {
                    &&& token_is(
                        tokens_view(tokens@),
                        right.next,
                        TokenView::CloseRoundBracket,
                    )
                    &&& first@ == left.instr
                    &&& second@ == right.instr
                    &&& next == right.next + 1
                    &&& errors@ == left.errors + right.errors
                    &&& pos < next <= tokens.len()
                },
                Err(e) => !token_is(
                    tokens_view(tokens@),
                    right.next,
                    TokenView::CloseRoundBracket,
                ) && e == unexpected(tokens_view(tokens@), right.next),
            }
        }),
    decreases tokens.len() - pos, 0nat,
{
    let (left, middle, mut errors) = recover_instruction(tokens, pos + 2);
    let (right, end, mut more) = recover_instruction(tokens, middle);
    if !is_close_round(tokens, end) {
        return Err(unexpected_at(tokens, end));
    }
    errors.append(&mut more);
    Ok((left, right, end + 1, errors))
}

/// Reads with recovery what follows the keyword of a `match` or a
/// `mismatch` that starts at `pos`: two values, an instruction, and the
/// bracket that closes it.
pub fn recover_matching(tokens: &Vec<Spanned>, pos: usize) -> (r: Result<
    (CallArgValue, CallArgValue, Instruction, usize, Vec<ParserError>),
    ParserError,
>)
    requires
        pos + 1 < tokens.len(),
    ensures
        match value_at(tokens_view(tokens@), pos + 2, ValueKind::Matchable) {
            Err(e) => r == Err::<
                (CallArgValue, CallArgValue, Instruction, usize, Vec<ParserError>),
                ParserError,
            >(e),
            Ok(left_value) => match value_at(tokens_view(tokens@), pos + 3, ValueKind::Matchable) {
                Err(e) => r == Err::<
                    (CallArgValue, CallArgValue, Instruction, usize, Vec<ParserError>),
                    ParserError,
                >(e),
                Ok(right_value) => {
                    let body = recover_at(tokens_view(tokens@), pos + 4);
                    match r {
                        Ok((first, second, instr, next, errors)) => {
                            &&& token_is(
                                tokens_view(tokens@),
                                body.next,
                                TokenView::CloseRoundBracket,
                            )
                            &&& first@ == left_value
                            &&& second@ == right_value
                            &&& instr@ == body.instr
                            &&& next == body.next + 1
                            &&& errors@ == body.errors
                            &&& pos < next <= tokens.len()
                        },
                        Err(e) => !token_is(
                            tokens_view(tokens@),
                            body.next,
                            TokenView::CloseRoundBracket,
                        ) && e == unexpected(tokens_view(tokens@), body.next),
                    }
                },
            },
        },
    decreases tokens.len() - pos, 0nat,
{
    let left_value = parse_value(tokens, pos + 2, ValueKind::Matchable)?;
    let right_value = parse_value(tokens, pos + 3, ValueKind::Matchable)?;
    let (body, end, errors) = recover_instruction(tokens, pos + 4);
    if !is_close_round(tokens, end) {
        return Err(unexpected_at(tokens, end));
    }
    Ok((left_value, right_value, body, end + 1, errors))
}

/// The view of an instruction with the errors that were met, or the error
/// that ended the reading.
pub open spec fn recovery_view(r: Result<(Instruction, Vec<ParserError>), ParserError>) -> Result<
    (InstructionView, Seq<ParserError>),
    ParserError,
> {
    match r {
        Ok((instr, errors)) => Ok((instr@, errors@)),
        Err(e) => Err(e),
    }
}

/// Reads a script with recovery; see [`recover_spec`].
pub fn recover(input: &str) -> (r: Result<(Instruction, Vec<ParserError>), ParserError>)
    ensures
        recovery_view(r) == recover_spec(input@),
{
    let tokens = match lex(input) {
        Ok(tokens) => tokens,
        Err(e) => {
            return Err(ParserError::Lexer(e));
        },
    };
    let (instr, end, errors) = recover_instruction(&tokens, 0);
    if end < tokens.len() {
        return Err(ParserError::ExtraToken { start: tokens[end].start, end: tokens[end].end });
    }
    Ok((instr, errors))
}

/// Reads a script that holds no error; see [`parse_spec`].
pub fn parse(input: &str) -> (r: Result<Instruction, ParserError>)
    ensures
        match r {
            Ok(instr) => parse_spec(input@) == Ok::<InstructionView, ParserError>(instr@),
            Err(e) => parse_spec(input@) == Err::<InstructionView, ParserError>(e),
        },
{
    match recover(input) {
        Err(e) => Err(e),
        Ok((instr, errors)) => {
            if errors.len() == 0 {
                Ok(instr)
            } else {
                Err(errors[0])
            }
        },
    }
}

/// The reader of AIR scripts.
#[derive(Debug, Clone, Copy, PartialEq, Eq)]
pub struct AIRParser {}

impl AIRParser {
    /// A reader of AIR scripts.
    pub fn new() -> (r: AIRParser)
        ensures
            r == (AIRParser {  }),
    {
        AIRParser {  }
    }

    /// Reads a script with recovery; see [`recover_spec`]. Where an
    /// instruction cannot be read, an `Error` stands in its place and the
    /// error is put at the end of `errors`, one for each `Error`; where the
    /// reading ends with an error, `errors` stays as it is. A script whose
    /// tokens fit the grammar is read as the grammar reads it, with no
    /// `Error` in it, and leaves `errors` as it is.
    pub fn parse(&self, input: &str, errors: &mut Vec<ParserError>) -> (r: Result<
        Instruction,
        ParserError,
    >)
        ensures
            match recover_spec(input@) {
                Ok((instr, met)) => r is Ok && r->Ok_0@ == instr && final(errors)@ == old(errors)@
                    + met && met.len() == count_errors(instr),
                Err(e) => r == Err::<Instruction, ParserError>(e) && final(errors)@ == old(
                    errors,
                )@,
            },
            match grammar_spec(input@) {
                Some(instr) => r is Ok && r->Ok_0@ == instr && count_errors(instr) == 0
                    && final(errors)@ == old(errors)@,
                None => true,
            },
    {
        proof {
            lemma_parse_grammar(input@);
        }
        match recover(input) {
            Err(e) => Err(e),
            Ok((instr, mut met)) => {
                proof {
                    lemma_recover_counts(lex_spec(input@)->Ok_0, 0);
                    assert(old(errors)@ + Seq::<ParserError>::empty() =~= old(errors)@);
                }
                errors.append(&mut met);
                Ok(instr)
            },
        }
    }
}

} // verus!
