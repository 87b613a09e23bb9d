//! What the course of a hop asks of the service: each reply is asked for
//! at a place of the new trace, and a step depends only on the replies at
//! the places it went through.

use crate::ast::{CallView, InstructionView};
use crate::binding::with_complete;
use crate::call::{
    allowed, call_spec, may_reply, mixed, oracle_of, service_reply, CallServiceResult, Oracle, Step,
    TraceCtxView,
};
use crate::context::{iterators, CtxView, FoldStateView};
use crate::engine::{
    exec_spec, fold_open, matches_spec, moved_on, next_open, par_left_trace, par_open,
    par_right_trace, side_ctx,
};
use crate::folds::{
    free_names, lemma_fold_decreases, lemma_free_names_inside, lemma_next_decreases, remaining,
};
use crate::lists::lemma_first_from;
use crate::replay::{lemma_call_written, lemma_exec_appends, went_on};
use vstd::prelude::*;

verus! {

/// The two oracles have the same replies at the places from `from` up to `to`.
pub open spec fn agree(first: Oracle, second: Oracle, from: int, to: int) -> bool {
    forall|at: int, service_id: Seq<char>, function_name: Seq<char>, args: Seq<char>|
        from <= at < to ==> #[trigger] first(at, service_id, function_name, args) == second(
            at,
            service_id,
            function_name,
            args,
        )
}

/// The place up to which a step may have asked for replies: the end of the
/// new trace where the step went on, and one more where it did not.
pub open spec fn asked_up_to(step: Step) -> int {
    if went_on(step) {
        step.trace.new_trace.len() as int
    } else {
        step.trace.new_trace.len() as int + 1
    }
}

/// What [`lemma_replies_local`] says of an instruction and two oracles.
pub open spec fn local_holds(
    instr: InstructionView,
    met_folds: Seq<FoldStateView>,
    ctx: CtxView,
    trace: TraceCtxView,
    first: Oracle,
    second: Oracle,
) -> bool {
    let step = exec_spec(instr, met_folds, ctx, trace, first);
    agree(first, second, trace.new_trace.len() as int, asked_up_to(step)) ==> exec_spec(
        instr,
        met_folds,
        ctx,
        trace,
        second,
    ) == step
}

/// [`lemma_replies_local`] for a `call`, which asks for one reply at most.
proof fn lemma_call_local(
    call: CallView,
    met_folds: Seq<FoldStateView>,
    ctx: CtxView,
    trace: TraceCtxView,
    first: Oracle,
    second: Oracle,
)
    requires
        agree(
            first,
            second,
            trace.new_trace.len() as int,
            asked_up_to(call_spec(call, met_folds, ctx, trace, first)),
        ),
    ensures
        call_spec(call, met_folds, ctx, trace, second) == call_spec(
            call,
            met_folds,
            ctx,
            trace,
            first,
        ),
{
    lemma_call_written(call, met_folds, ctx, trace, first);
}

/// A step depends only on the replies at the places it went through: an
/// oracle that has the same replies there leads to the same step.
pub proof fn lemma_replies_local(
    instr: InstructionView,
    met_folds: Seq<FoldStateView>,
    ctx: CtxView,
    trace: TraceCtxView,
    first: Oracle,
    second: Oracle,
)
    ensures
        local_holds(instr, met_folds, ctx, trace, first, second),
    decreases free_names(instr, met_folds), remaining(met_folds), instr, 1nat,
{
    let step = exec_spec(instr, met_folds, ctx, trace, first);
    if agree(first, second, trace.new_trace.len() as int, asked_up_to(step)) {
        match instr {
            InstructionView::Call(call) => {
                lemma_call_local(call, met_folds, ctx, trace, first, second);
            },
            InstructionView::Sequence(left, right) => {
                lemma_two_local(instr, *left, *right, met_folds, ctx, trace, first, second);
            },
            InstructionView::Xor(left, right) => {
                lemma_two_local(instr, *left, *right, met_folds, ctx, trace, first, second);
            },
            InstructionView::Par(left, right) => {
                lemma_par_local(instr, *left, *right, met_folds, ctx, trace, first, second);
            },
            InstructionView::Fold { iterable, iterator, instruction } => {
                match fold_open(iterable, iterator, *instruction, ctx, met_folds) {
                    Ok(Some(opened)) => {
                        lemma_first_from(iterators(met_folds), iterator, 0);
                        lemma_fold_decreases(instr, met_folds, opened);
                        lemma_replies_local(
                            *instruction,
                            met_folds.push(opened),
                            ctx,
                            trace,
                            first,
                            second,
                        );
                    },
                    _ => {},
                }
            },
            InstructionView::Next(iterator) => {
                match next_open(iterator, met_folds) {
                    Ok(Some(i)) => {
                        lemma_first_from(iterators(met_folds), iterator, 0);
                        lemma_next_decreases(instr, met_folds, i);
                        lemma_replies_local(
                            met_folds[i].instruction,
                            moved_on(met_folds, i),
                            ctx,
                            trace,
                            first,
                            second,
                        );
                    },
                    _ => {},
                }
            },
            InstructionView::Match { left_value, right_value, instruction } => {
                lemma_free_names_inside(instr, *instruction, met_folds);
                let equal = matches_spec(left_value, right_value, ctx, met_folds);
                if equal is Ok && equal->Ok_0 {
                    lemma_replies_local(*instruction, met_folds, ctx, trace, first, second);
                }
            },
            InstructionView::MisMatch { left_value, right_value, instruction } => {
                lemma_free_names_inside(instr, *instruction, met_folds);
                let equal = matches_spec(left_value, right_value, ctx, met_folds);
                if equal is Ok && !equal->Ok_0 {
                    lemma_replies_local(*instruction, met_folds, ctx, trace, first, second);
                }
            },
            _ => {},
        }
    }
}

/// [`lemma_replies_local`] for `seq` and `xor`.
proof fn lemma_two_local(
    instr: InstructionView,
    left_instr: InstructionView,
    right_instr: InstructionView,
    met_folds: Seq<FoldStateView>,
    ctx: CtxView,
    trace: TraceCtxView,
    first: Oracle,
    second: Oracle,
)
    requires
        instr == InstructionView::Sequence(Box::new(left_instr), Box::new(right_instr)) || instr
            == InstructionView::Xor(Box::new(left_instr), Box::new(right_instr)),
    ensures
        local_holds(instr, met_folds, ctx, trace, first, second),
    decreases free_names(instr, met_folds), remaining(met_folds), instr, 0nat,
{
    lemma_free_names_inside(instr, left_instr, met_folds);
    lemma_free_names_inside(instr, right_instr, met_folds);
    let step = exec_spec(instr, met_folds, ctx, trace, first);
    let start = with_complete(ctx, true);
    let left = exec_spec(left_instr, met_folds, start, trace, first);
    lemma_exec_appends(left_instr, met_folds, start, trace, first);
    let goes_right = if instr is Sequence {
        left.result is Ok && left.ctx.subtree_complete
    } else {
        left.result is Err && left.result->Err_0 is LocalServiceError
    };
    let right_ctx = if instr is Sequence {
        left.ctx
    } else {
        with_complete(left.ctx, true)
    };
    if agree(first, second, trace.new_trace.len() as int, asked_up_to(step)) {
        if goes_right {
            lemma_exec_appends(right_instr, met_folds, right_ctx, left.trace, first);
            lemma_replies_local(left_instr, met_folds, start, trace, first, second);
            lemma_replies_local(right_instr, met_folds, right_ctx, left.trace, first, second);
        } else {
            lemma_replies_local(left_instr, met_folds, start, trace, first, second);
        }
    }
}

/// [`lemma_replies_local`] for `par`.
proof fn lemma_par_local(
    instr: InstructionView,
    left_instr: InstructionView,
    right_instr: InstructionView,
    met_folds: Seq<FoldStateView>,
    ctx: CtxView,
    trace: TraceCtxView,
    first: Oracle,
    second: Oracle,
)
    requires
        instr == InstructionView::Par(Box::new(left_instr), Box::new(right_instr)),
    ensures
        local_holds(instr, met_folds, ctx, trace, first, second),
    decreases free_names(instr, met_folds), remaining(met_folds), instr, 0nat,
{
    lemma_free_names_inside(instr, left_instr, met_folds);
    lemma_free_names_inside(instr, right_instr, met_folds);
    let step = exec_spec(instr, met_folds, ctx, trace, first);
    if agree(first, second, trace.new_trace.len() as int, asked_up_to(step)) && par_open(trace)
        is Ok {
        let frame = par_open(trace)->Ok_0;
        let left_ctx = side_ctx(ctx, left_instr);
        let left_start = par_left_trace(trace, frame);
        let left = exec_spec(left_instr, met_folds, left_ctx, left_start, first);
        lemma_exec_appends(left_instr, met_folds, left_ctx, left_start, first);
        if left.result is Err {
            lemma_replies_local(left_instr, met_folds, left_ctx, left_start, first, second);
        } else {
            let right_ctx = side_ctx(left.ctx, right_instr);
            let right_start = par_right_trace(frame, left);
            lemma_exec_appends(right_instr, met_folds, right_ctx, right_start, first);
            lemma_replies_local(left_instr, met_folds, left_ctx, left_start, first, second);
            lemma_replies_local(right_instr, met_folds, right_ctx, right_start, first, second);
        }
    }
}

/// There are replies that `call_service` may have given with which the
/// instruction comes to `step`.
pub open spec fn stepped<F: Fn(String, String, String) -> CallServiceResult>(
    call_service: F,
    instr: InstructionView,
    met_folds: Seq<FoldStateView>,
    ctx: CtxView,
    trace: TraceCtxView,
    step: Step,
) -> bool {
    exists|oracle: Oracle|
        allowed(call_service, oracle) && step == #[trigger] exec_spec(
            instr,
            met_folds,
            ctx,
            trace,
            oracle,
        )
}

/// A step that asks for no reply is come to with every oracle.
pub proof fn lemma_stepped_alone<F: Fn(String, String, String) -> CallServiceResult>(
    call_service: F,
    instr: InstructionView,
    met_folds: Seq<FoldStateView>,
    ctx: CtxView,
    trace: TraceCtxView,
    step: Step,
)
    requires
        step == exec_spec(instr, met_folds, ctx, trace, oracle_of(call_service)),
    ensures
        stepped(call_service, instr, met_folds, ctx, trace, step),
{
    assert(allowed(call_service, oracle_of(call_service)));
}

/// Replies that the service may have given up to a place, and others that
/// it may have given from there on, are replies that it may have given.
proof fn lemma_allowed_mixed<F: Fn(String, String, String) -> CallServiceResult>(
    call_service: F,
    first: Oracle,
    second: Oracle,
    at: int,
)
    requires
        allowed(call_service, first),
        allowed(call_service, second),
    ensures
        allowed(call_service, mixed(first, second, at)),
{
    let both = mixed(first, second, at);
    assert forall|i: int, a: Seq<char>, b: Seq<char>, c: Seq<char>|
        {
            let reply = #[trigger] both(i, a, b, c);
            reply == service_reply(call_service, a, b, c) || may_reply(
                call_service,
                a,
                b,
                c,
                reply,
            )
        } by {
        if i < at {
            assert(both(i, a, b, c) == first(i, a, b, c));
        } else {
            assert(both(i, a, b, c) == second(i, a, b, c));
        }
    }
}

/// Two steps, one behind the other, each with replies that the service may
/// have given, are steps with the same such replies: those of the first
/// step up to where it ended, and those of the second from there on.
pub proof fn lemma_stepped_both<F: Fn(String, String, String) -> CallServiceResult>(
    call_service: F,
    left_instr: InstructionView,
    left_folds: Seq<FoldStateView>,
    left_ctx: CtxView,
    left_trace: TraceCtxView,
    left: Step,
    right_instr: InstructionView,
    right_folds: Seq<FoldStateView>,
    right_ctx: CtxView,
    right_trace: TraceCtxView,
    right: Step,
) -> (oracle: Oracle)
    requires
        stepped(call_service, left_instr, left_folds, left_ctx, left_trace, left),
        stepped(call_service, right_instr, right_folds, right_ctx, right_trace, right),
        went_on(left),
        right_trace.new_trace.len() == left.trace.new_trace.len(),
    ensures
        allowed(call_service, oracle),
        left == exec_spec(left_instr, left_folds, left_ctx, left_trace, oracle),
        right == exec_spec(right_instr, right_folds, right_ctx, right_trace, oracle),
{
    let first = choose|oracle: Oracle|
        allowed(call_service, oracle) && left == #[trigger] exec_spec(
            left_instr,
            left_folds,
            left_ctx,
            left_trace,
            oracle,
        );
    let second = choose|oracle: Oracle|
        allowed(call_service, oracle) && right == #[trigger] exec_spec(
            right_instr,
            right_folds,
            right_ctx,
            right_trace,
            oracle,
        );
    let at = left.trace.new_trace.len() as int;
    let both = mixed(first, second, at);
    lemma_allowed_mixed(call_service, first, second, at);
    lemma_replies_local(left_instr, left_folds, left_ctx, left_trace, first, both);
    lemma_replies_local(right_instr, right_folds, right_ctx, right_trace, second, both);
    both
}

} // verus!
