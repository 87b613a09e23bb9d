//! An interpreter for AIR scripts: a small choreography language in which
//! peers of a network call services, join the results and forward the
//! continuation. One run of the interpreter is one hop: it merges the traces
//! it was handed, replays what they already hold, does the calls that belong
//! to this peer and names the peers that have to go on.

pub mod ast;
pub mod binding;
pub mod call;
pub mod codec;
pub mod context;
pub mod engine;
pub mod folds;
pub mod json;
pub mod lexer;
pub mod lists;
pub mod merger;
pub mod numbers;
pub mod outcome;
pub mod parser;
pub mod printer;
pub mod replay;
pub mod replies;
pub mod resolve;
pub mod script;
pub mod text;
pub mod trace;
pub mod variables;

pub use crate::call::CallServiceResult;
pub use crate::outcome::{execute, execute_aqua, StepperOutcome};
pub use crate::parser::parse;
pub use crate::printer::ast;
