//! What holds of the variables of every context that the interpreter
//! reaches: no two of them have one name.

use crate::ast::{CallView, InstructionView, OutputView};
use crate::binding::{bind_spec, with_complete};
use crate::call::{call_spec, Oracle, TraceCtxView};
use crate::context::{cache_names, distinct, iterators, CtxView, FoldStateView, ResolvedView};
use crate::engine::{
    exec_spec, fold_open, matches_spec, moved_on, next_open, par_left_trace, par_open,
    par_right_trace, side_ctx,
};
use crate::folds::{
    free_names, lemma_fold_decreases, lemma_free_names_inside, lemma_next_decreases, remaining,
};
use crate::lists::{index_of, lemma_first_from};
use vstd::prelude::*;

verus! {

/// No two variables of the context have one name.
pub open spec fn names_once(ctx: CtxView) -> bool {
    distinct(cache_names(ctx.data_cache))
}

/// Binding a result to an output leaves every name with one variable: a
/// variable is added under a name that no variable has, or it takes the
/// place of the one of its name.
pub proof fn lemma_bind_names_once(
    ctx: CtxView,
    met_folds: Seq<FoldStateView>,
    output: OutputView,
    resolved: ResolvedView,
)
    requires
        names_once(ctx),
        bind_spec(ctx, met_folds, output, resolved) is Ok,
    ensures
        names_once(bind_spec(ctx, met_folds, output, resolved)->Ok_0),
{
    let names = cache_names(ctx.data_cache);
    let bound = bind_spec(ctx, met_folds, output, resolved)->Ok_0;
    let after = cache_names(bound.data_cache);
    match output {
        OutputView::Discard => {},
        OutputView::Scalar(name) | OutputView::Accumulator(name) => {
            lemma_first_from(names, name, 0);
            match index_of(names, name) {
                None => {
                    assert(after =~= names.push(name));
                },
                Some(i) => {
                    assert(after =~= names);
                },
            }
        },
    }
}

/// A call leaves every name with one variable.
pub proof fn lemma_call_names_once(
    call: CallView,
    met_folds: Seq<FoldStateView>,
    ctx: CtxView,
    trace: TraceCtxView,
    oracle: Oracle,
)
    requires
        names_once(ctx),
    ensures
        names_once(call_spec(call, met_folds, ctx, trace, oracle).ctx),
{
    assert forall|resolved: ResolvedView| #[trigger]
        bind_spec(ctx, met_folds, call.output, resolved) is Ok implies names_once(
        bind_spec(ctx, met_folds, call.output, resolved)->Ok_0,
    ) by {
        lemma_bind_names_once(ctx, met_folds, call.output, resolved);
    }
}

/// Running an instruction leaves every name with one variable, whatever
/// the service replies and however the step ends. The context at the start
/// of a hop has no variable, so that this holds of every context that a
/// hop reaches.
pub proof fn lemma_exec_names_once(
    instr: InstructionView,
    met_folds: Seq<FoldStateView>,
    ctx: CtxView,
    trace: TraceCtxView,
    oracle: Oracle,
)
    requires
        names_once(ctx),
    ensures
        names_once(exec_spec(instr, met_folds, ctx, trace, oracle).ctx),
    decreases free_names(instr, met_folds), remaining(met_folds), instr,
{
    match instr {
        InstructionView::Call(call) => {
            lemma_call_names_once(call, met_folds, ctx, trace, oracle);
        },
        InstructionView::Sequence(first, second) => {
            lemma_free_names_inside(instr, *first, met_folds);
            lemma_free_names_inside(instr, *second, met_folds);
            let start = with_complete(ctx, true);
            lemma_exec_names_once(*first, met_folds, start, trace, oracle);
            let left = exec_spec(*first, met_folds, start, trace, oracle);
            if left.result is Ok && left.ctx.subtree_complete {
                lemma_exec_names_once(*second, met_folds, left.ctx, left.trace, oracle);
            }
        },
        InstructionView::Xor(first, second) => {
            lemma_free_names_inside(instr, *first, met_folds);
            lemma_free_names_inside(instr, *second, met_folds);
            let start = with_complete(ctx, true);
            lemma_exec_names_once(*first, met_folds, start, trace, oracle);
            let left = exec_spec(*first, met_folds, start, trace, oracle);
            if left.result is Err && left.result->Err_0 is LocalServiceError {
                let again = with_complete(left.ctx, true);
                lemma_exec_names_once(*second, met_folds, again, left.trace, oracle);
            }
        },
        InstructionView::Par(first, second) => {
            lemma_free_names_inside(instr, *first, met_folds);
            lemma_free_names_inside(instr, *second, met_folds);
            match par_open(trace) {
                Err(e) => {},
                Ok(frame) => {
                    let left_start = par_left_trace(trace, frame);
                    let left_ctx = side_ctx(ctx, *first);
                    lemma_exec_names_once(*first, met_folds, left_ctx, left_start, oracle);
                    let left = exec_spec(*first, met_folds, left_ctx, left_start, oracle);
                    if left.result is Ok {
                        let right_start = par_right_trace(frame, left);
                        let right_ctx = side_ctx(left.ctx, *second);
                        lemma_exec_names_once(*second, met_folds, right_ctx, right_start, oracle);
                    }
                },
            }
        },
        InstructionView::Fold { iterable, iterator, instruction } => {
            match fold_open(iterable, iterator, *instruction, ctx, met_folds) {
                Ok(Some(opened)) => {
                    lemma_first_from(iterators(met_folds), iterator, 0);
                    lemma_fold_decreases(instr, met_folds, opened);
                    lemma_exec_names_once(
                        *instruction,
                        met_folds.push(opened),
                        ctx,
                        trace,
                        oracle,
                    );
                },
                _ => {},
            }
        },
        InstructionView::Next(iterator) => {
            match next_open(iterator, met_folds) {
                Ok(Some(i)) => {
                    lemma_first_from(iterators(met_folds), iterator, 0);
                    lemma_next_decreases(instr, met_folds, i);
                    lemma_exec_names_once(
                        met_folds[i].instruction,
                        moved_on(met_folds, i),
                        ctx,
                        trace,
                        oracle,
                    );
                },
                _ => {},
            }
        },
        InstructionView::Match { left_value, right_value, instruction } => {
            lemma_free_names_inside(instr, *instruction, met_folds);
            let equal = matches_spec(left_value, right_value, ctx, met_folds);
            if equal is Ok && equal->Ok_0 {
                lemma_exec_names_once(*instruction, met_folds, ctx, trace, oracle);
            }
        },
        InstructionView::MisMatch { left_value, right_value, instruction } => {
            lemma_free_names_inside(instr, *instruction, met_folds);
            let equal = matches_spec(left_value, right_value, ctx, met_folds);
            if equal is Ok && !equal->Ok_0 {
                lemma_exec_names_once(*instruction, met_folds, ctx, trace, oracle);
            }
        },
        _ => {},
    }
}

} // verus!
