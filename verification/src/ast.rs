//! The instruction tree of an AIR script.

use crate::lists::views;
use vstd::prelude::*;

verus! {

/// One node of a script.
#[derive(Debug, PartialEq, Eq)]
pub enum Instruction {
    Null(Null),
    Call(Call),
    Sequence(Sequence),
    Par(Par),
    Xor(Xor),
    Fold(Fold),
    Next(Next),
    Match(Match),
    MisMatch(MisMatch),
    Error,
}

/// Where a call runs: a peer, or a peer together with a service id.
#[derive(Debug, PartialEq, Eq)]
pub enum PeerPart {
    PeerPk(CallArgValue),
    PeerPkWithServiceId(CallArgValue, CallArgValue),
}

/// What a call runs: a function, or a service id together with a function.
#[derive(Debug, PartialEq, Eq)]
pub enum FunctionPart {
    FuncName(CallArgValue),
    ServiceIdWithFuncName(CallArgValue, CallArgValue),
}

/// `(call peer_part function_part [args] output)`.
#[derive(Debug, PartialEq, Eq)]
pub struct Call {
    pub peer_part: PeerPart,
    pub function_part: FunctionPart,
    pub args: Vec<CallArgValue>,
    pub output: CallOutput,
}

/// A value written in a script.
#[derive(Debug, PartialEq, Eq)]
pub enum CallArgValue {
    /// `%init_peer_id%`: the peer that started the script.
    InitPeerId,
    /// A text in double quotes.
    Literal(String),
    /// The name of a variable.
    Variable(String),
    /// A variable and a JSON path into its value.
    JsonPath { variable: String, path: String },
}

/// Where the result of a call goes.
#[derive(Debug, PartialEq, Eq)]
pub enum CallOutput {
    /// A variable that is written once.
    Scalar(String),
    /// A list that every call with this output appends to.
    Accumulator(String),
    /// Nowhere.
    Discard,
}

/// `(seq left right)`: `right` runs once `left` is complete.
#[derive(Debug, PartialEq, Eq)]
pub struct Sequence(pub Box<Instruction>, pub Box<Instruction>);

/// `(par left right)`: both sides run, each on its own part of the trace.
#[derive(Debug, PartialEq, Eq)]
pub struct Par(pub Box<Instruction>, pub Box<Instruction>);

/// `(xor left right)`: `right` runs only where a call of `left` failed.
#[derive(Debug, PartialEq, Eq)]
pub struct Xor(pub Box<Instruction>, pub Box<Instruction>);

/// `(fold iterable iterator instruction)`.
#[derive(Debug, PartialEq, Eq)]
pub struct Fold {
    pub iterable: CallArgValue,
    pub iterator: String,
    pub instruction: Box<Instruction>,
}

/// `(next iterator)`: the body of the fold once more, on the next item.
#[derive(Debug, PartialEq, Eq)]
pub struct Next(pub String);

/// `(match left right instruction)`: runs the instruction where the two
/// values are equal.
#[derive(Debug, PartialEq, Eq)]
pub struct Match {
    pub left_value: CallArgValue,
    pub right_value: CallArgValue,
    pub instruction: Box<Instruction>,
}

/// `(mismatch left right instruction)`: runs the instruction where the two
/// values differ.
#[derive(Debug, PartialEq, Eq)]
pub struct MisMatch {
    pub left_value: CallArgValue,
    pub right_value: CallArgValue,
    pub instruction: Box<Instruction>,
}

/// `(null)`: does nothing.
#[derive(Debug, PartialEq, Eq)]
pub struct Null;

/// The mathematical value of a [`CallArgValue`].
pub enum ValueView {
    InitPeerId,
    Literal(Seq<char>),
    Variable(Seq<char>),
    JsonPath { variable: Seq<char>, path: Seq<char> },
}

impl View for CallArgValue {
    type V = ValueView;

    open spec fn view(&self) -> ValueView {
        match self {
            CallArgValue::InitPeerId => ValueView::InitPeerId,
            CallArgValue::Literal(text) => ValueView::Literal(text@),
            CallArgValue::Variable(name) => ValueView::Variable(name@),
            CallArgValue::JsonPath { variable, path } => ValueView::JsonPath {
                variable: variable@,
                path: path@,
            },
        }
    }
}

/// The mathematical value of a [`CallOutput`].
pub enum OutputView {
    Scalar(Seq<char>),
    Accumulator(Seq<char>),
    Discard,
}

impl View for CallOutput {
    type V = OutputView;

    open spec fn view(&self) -> OutputView {
        match self {
            CallOutput::Scalar(name) => OutputView::Scalar(name@),
            CallOutput::Accumulator(name) => OutputView::Accumulator(name@),
            CallOutput::Discard => OutputView::Discard,
        }
    }
}

/// The mathematical value of a [`PeerPart`].
pub enum PeerPartView {
    PeerPk(ValueView),
    PeerPkWithServiceId(ValueView, ValueView),
}

impl View for PeerPart {
    type V = PeerPartView;

    open spec fn view(&self) -> PeerPartView {
        match self {
            PeerPart::PeerPk(peer) => PeerPartView::PeerPk(peer@),
            PeerPart::PeerPkWithServiceId(peer, service) => PeerPartView::PeerPkWithServiceId(
                peer@,
                service@,
            ),
        }
    }
}

/// The mathematical value of a [`FunctionPart`].
pub enum FunctionPartView {
    FuncName(ValueView),
    ServiceIdWithFuncName(ValueView, ValueView),
}

impl View for FunctionPart {
    type V = FunctionPartView;

    open spec fn view(&self) -> FunctionPartView {
        match self {
            FunctionPart::FuncName(name) => FunctionPartView::FuncName(name@),
            FunctionPart::ServiceIdWithFuncName(service, name) => {
                FunctionPartView::ServiceIdWithFuncName(service@, name@)
            },
        }
    }
}

/// The mathematical value of a [`Call`].
pub struct CallView {
    pub peer_part: PeerPartView,
    pub function_part: FunctionPartView,
    pub args: Seq<ValueView>,
    pub output: OutputView,
}

impl View for Call {
    type V = CallView;

    open spec fn view(&self) -> CallView {
        CallView {
            peer_part: self.peer_part@,
            function_part: self.function_part@,
            args: views(self.args@),
            output: self.output@,
        }
    }
}

/// The mathematical value of an [`Instruction`].
pub enum InstructionView {
    Null,
    Call(CallView),
    Sequence(Box<InstructionView>, Box<InstructionView>),
    Par(Box<InstructionView>, Box<InstructionView>),
    Xor(Box<InstructionView>, Box<InstructionView>),
    Fold { iterable: ValueView, iterator: Seq<char>, instruction: Box<InstructionView> },
    Next(Seq<char>),
    Match { left_value: ValueView, right_value: ValueView, instruction: Box<InstructionView> },
    MisMatch { left_value: ValueView, right_value: ValueView, instruction: Box<InstructionView> },
    Error,
}

/// The value of an instruction; [`Instruction`]'s view.
pub open spec fn instruction_view(instr: Instruction) -> InstructionView
    decreases instr,
{
    match instr {
        Instruction::Null(_) => InstructionView::Null,
        Instruction::Call(call) => InstructionView::Call(call@),
        Instruction::Sequence(seq) => InstructionView::Sequence(
            Box::new(instruction_view(*seq.0)),
            Box::new(instruction_view(*seq.1)),
        ),
        Instruction::Par(par) => InstructionView::Par(
            Box::new(instruction_view(*par.0)),
            Box::new(instruction_view(*par.1)),
        ),
        Instruction::Xor(xor) => InstructionView::Xor(
            Box::new(instruction_view(*xor.0)),
            Box::new(instruction_view(*xor.1)),
        ),
        Instruction::Fold(fold) => InstructionView::Fold {
            iterable: fold.iterable@,
            iterator: fold.iterator@,
            instruction: Box::new(instruction_view(*fold.instruction)),
        },
        Instruction::Next(next) => InstructionView::Next(next.0@),
        Instruction::Match(m) => InstructionView::Match {
            left_value: m.left_value@,
            right_value: m.right_value@,
            instruction: Box::new(instruction_view(*m.instruction)),
        },
        Instruction::MisMatch(m) => InstructionView::MisMatch {
            left_value: m.left_value@,
            right_value: m.right_value@,
            instruction: Box::new(instruction_view(*m.instruction)),
        },
        Instruction::Error => InstructionView::Error,
    }
}

impl View for Instruction {
    type V = InstructionView;

    open spec fn view(&self) -> InstructionView {
        instruction_view(*self)
    }
}

} // verus!
