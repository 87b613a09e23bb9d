//! What holds of every trace that the interpreter writes: it is
//! well-formed; and a hop that runs on its own trace writes that trace
//! again, every record replayed and no service called.

use crate::ast::{CallView, InstructionView, ValueView};
use crate::binding::with_complete;
use crate::call::{args_upto, call_spec, trace_mismatch, Oracle, Step, TraceCtxView};
use crate::context::{iterators, CtxView, ErrorView, FoldStateView};
use crate::engine::{
    exec_spec, fold_open, matches_spec, moved_on, next_open, par_close, par_header, par_left_failed,
    par_left_trace, par_open, par_right_trace, side_ctx,
};
use crate::folds::{
    free_names, lemma_fold_decreases, lemma_free_names_inside, lemma_next_decreases, remaining,
};
use crate::lists::lemma_first_from;
use crate::merger::{lemma_merge_one_empty, merge_spec};
use crate::codec::{decode_spec, encode_spec};
use crate::outcome::{finish_spec, outcome_spec, prepare_spec, run_spec, start_ctx, start_trace};
use crate::trace::{
    extends_well, lemma_extends_call, lemma_extends_par, lemma_extends_same, lemma_extends_twice,
    lemma_well_formed_empty, StateView,
};
use vstd::prelude::*;

verus! {

/// `after` replays the trace that `before` replays, and its new trace
/// starts with that of `before`.
pub open spec fn appends(before: TraceCtxView, after: TraceCtxView) -> bool {
    &&& after.current_trace == before.current_trace
    &&& before.new_trace.len() <= after.new_trace.len()
    &&& after.new_trace.subrange(0, before.new_trace.len() as int) == before.new_trace
}

/// What was written between `before` and `after`.
pub open spec fn written(before: TraceCtxView, after: TraceCtxView) -> Seq<StateView> {
    after.new_trace.subrange(before.new_trace.len() as int, after.new_trace.len() as int)
}

/// A step that went through, or that ended in the failure of a service.
pub open spec fn went_on(step: Step) -> bool {
    step.result is Ok || step.result->Err_0 is LocalServiceError
}

/// A step that ended because the trace did not fit the script.
pub open spec fn mismatched(step: Step) -> bool {
    step.result == Err::<(), ErrorView>(ErrorView::InstructionError(trace_mismatch()))
}

/// What a step that is replayed needs of the trace context it is replayed
/// from: the subtree at hand starts with the records `out` that the step
/// wrote; and it holds no more than these, where the step ended the hop.
pub open spec fn fits(step: Step, out: Seq<StateView>, trace: TraceCtxView) -> bool {
    &&& holds_at(trace, out)
    &&& !mismatched(step)
    &&& went_on(step) || trace.current_subtree_size == out.len()
}

/// The subtree at hand of `trace` lies inside the trace it replays and
/// starts with the records `out`.
pub open spec fn holds_at(trace: TraceCtxView, out: Seq<StateView>) -> bool {
    &&& 0 <= trace.position
    &&& out.len() <= trace.current_subtree_size
    &&& trace.position + trace.current_subtree_size <= trace.current_trace.len()
    &&& trace.current_trace.subrange(trace.position, trace.position + out.len()) == out
}

/// The step `second`, taken from `start`, did what the step `first` did,
/// by taking the records `out` from the trace it replays.
pub open spec fn replayed(first: Step, out: Seq<StateView>, start: TraceCtxView, second: Step) -> bool {
    &&& second.ctx == first.ctx
    &&& second.result == first.result
    &&& second.trace.current_trace == start.current_trace
    &&& second.trace.new_trace == start.new_trace + out
    &&& second.trace.position == start.position + out.len()
    &&& second.trace.current_subtree_size == start.current_subtree_size - out.len()
}

/// No value of the script resolves to the failure of a service.
proof fn lemma_args_not_failed(
    args: Seq<ValueView>,
    n: int,
    ctx: CtxView,
    met_folds: Seq<FoldStateView>,
)
    ensures
        args_upto(args, n, ctx, met_folds) is Err ==> !(args_upto(
            args,
            n,
            ctx,
            met_folds,
        )->Err_0 is LocalServiceError),
    decreases n,
{
    if n > 0 {
        lemma_args_not_failed(args, n - 1, ctx, met_folds);
    }
}

/// A call writes one record, the record of a call, or none; it writes one
/// where it goes on; and it leaves the trace it replays as it is.
pub proof fn lemma_call_written(
    call: CallView,
    met_folds: Seq<FoldStateView>,
    ctx: CtxView,
    trace: TraceCtxView,
    oracle: Oracle,
)
    ensures
        appends(trace, call_spec(call, met_folds, ctx, trace, oracle).trace),
        written(trace, call_spec(call, met_folds, ctx, trace, oracle).trace).len() <= 1,
        extends_well(
            trace.new_trace,
            call_spec(call, met_folds, ctx, trace, oracle).trace.new_trace,
        ),
        went_on(call_spec(call, met_folds, ctx, trace, oracle)) ==> call_spec(
            call,
            met_folds,
            ctx,
            trace,
            oracle,
        ).trace.new_trace.len() == trace.new_trace.len() + 1,
{
    lemma_args_not_failed(call.args, call.args.len() as int, ctx, met_folds);
    assert forall|x: StateView|
        #[trigger] trace.new_trace.push(x).subrange(0, trace.new_trace.len() as int)
            == trace.new_trace by {
        assert(trace.new_trace.push(x).subrange(0, trace.new_trace.len() as int)
            =~= trace.new_trace);
    }
    assert(trace.new_trace.subrange(0, trace.new_trace.len() as int) =~= trace.new_trace);
    let step = call_spec(call, met_folds, ctx, trace, oracle);
    if step.trace.new_trace.len() == trace.new_trace.len() {
        assert(step.trace.new_trace =~= trace.new_trace);
        lemma_extends_same(trace.new_trace);
    } else {
        let record = step.trace.new_trace.last();
        assert(step.trace.new_trace =~= trace.new_trace.push(record));
        lemma_extends_call(trace.new_trace, record);
    }
}

/// What an instruction writes is a well-formed trace: behind the header of
/// every `par` stand as many records as the header says, and each side
/// divides in the same way. This holds whatever the service replies and
/// however the step ends.
pub proof fn lemma_exec_well_formed(
    instr: InstructionView,
    met_folds: Seq<FoldStateView>,
    ctx: CtxView,
    trace: TraceCtxView,
    oracle: Oracle,
)
    ensures
        extends_well(
            trace.new_trace,
            exec_spec(instr, met_folds, ctx, trace, oracle).trace.new_trace,
        ),
    decreases free_names(instr, met_folds), remaining(met_folds), instr,
{
    lemma_extends_same(trace.new_trace);
    match instr {
        InstructionView::Call(call) => {
            lemma_call_written(call, met_folds, ctx, trace, oracle);
        },
        InstructionView::Sequence(first, second) => {
            lemma_free_names_inside(instr, *first, met_folds);
            lemma_free_names_inside(instr, *second, met_folds);
            let start = with_complete(ctx, true);
            lemma_exec_well_formed(*first, met_folds, start, trace, oracle);
            let left = exec_spec(*first, met_folds, start, trace, oracle);
            if left.result is Ok && left.ctx.subtree_complete {
                lemma_exec_well_formed(*second, met_folds, left.ctx, left.trace, oracle);
                let right = exec_spec(*second, met_folds, left.ctx, left.trace, oracle);
                lemma_extends_twice(
                    trace.new_trace,
                    left.trace.new_trace,
                    right.trace.new_trace,
                );
            }
        },
        InstructionView::Xor(first, second) => {
            lemma_free_names_inside(instr, *first, met_folds);
            lemma_free_names_inside(instr, *second, met_folds);
            let start = with_complete(ctx, true);
            lemma_exec_well_formed(*first, met_folds, start, trace, oracle);
            let left = exec_spec(*first, met_folds, start, trace, oracle);
            if left.result is Err && left.result->Err_0 is LocalServiceError {
                let again = with_complete(left.ctx, true);
                lemma_exec_well_formed(*second, met_folds, again, left.trace, oracle);
                let right = exec_spec(*second, met_folds, again, left.trace, oracle);
                lemma_extends_twice(
                    trace.new_trace,
                    left.trace.new_trace,
                    right.trace.new_trace,
                );
            }
        },
        InstructionView::Par(first, second) => {
            lemma_free_names_inside(instr, *first, met_folds);
            lemma_free_names_inside(instr, *second, met_folds);
            match par_open(trace) {
                Err(e) => {},
                Ok(frame) => {
                    let left_start = par_left_trace(trace, frame);
                    let left_ctx = side_ctx(ctx, *first);
                    lemma_exec_well_formed(*first, met_folds, left_ctx, left_start, oracle);
                    let left = exec_spec(*first, met_folds, left_ctx, left_start, oracle);
                    let middle = left.trace.new_trace;
                    if left.result is Err {
                        lemma_extends_same(middle);
                        lemma_extends_par(
                            trace.new_trace,
                            middle,
                            middle,
                            par_header(frame, middle.len() as int, middle.len() as int),
                        );
                    } else {
                        let right_start = par_right_trace(frame, left);
                        let right_ctx = side_ctx(left.ctx, *second);
                        lemma_exec_well_formed(
                            *second,
                            met_folds,
                            right_ctx,
                            right_start,
                            oracle,
                        );
                        let right = exec_spec(*second, met_folds, right_ctx, right_start, oracle);
                        lemma_extends_par(
                            trace.new_trace,
                            middle,
                            right.trace.new_trace,
                            par_header(
                                frame,
                                middle.len() as int,
                                right.trace.new_trace.len() as int,
                            ),
                        );
                    }
                },
            }
        },
        InstructionView::Fold { iterable, iterator, instruction } => {
            match fold_open(iterable, iterator, *instruction, ctx, met_folds) {
                Ok(Some(opened)) => {
                    lemma_first_from(iterators(met_folds), iterator, 0);
                    lemma_fold_decreases(instr, met_folds, opened);
                    lemma_exec_well_formed(
                        *instruction,
                        met_folds.push(opened),
                        ctx,
                        trace,
                        oracle,
                    );
                },
                _ => {},
            }
        },
        InstructionView::Next(iterator) => {
            match next_open(iterator, met_folds) {
                Ok(Some(i)) => {
                    lemma_first_from(iterators(met_folds), iterator, 0);
                    lemma_next_decreases(instr, met_folds, i);
                    lemma_exec_well_formed(
                        met_folds[i].instruction,
                        moved_on(met_folds, i),
                        ctx,
                        trace,
                        oracle,
                    );
                },
                _ => {},
            }
        },
        InstructionView::Match { left_value, right_value, instruction } => {
            lemma_free_names_inside(instr, *instruction, met_folds);
            let equal = matches_spec(left_value, right_value, ctx, met_folds);
            if equal is Ok && equal->Ok_0 {
                lemma_exec_well_formed(*instruction, met_folds, ctx, trace, oracle);
            }
        },
        InstructionView::MisMatch { left_value, right_value, instruction } => {
            lemma_free_names_inside(instr, *instruction, met_folds);
            let equal = matches_spec(left_value, right_value, ctx, met_folds);
            if equal is Ok && !equal->Ok_0 {
                lemma_exec_well_formed(*instruction, met_folds, ctx, trace, oracle);
            }
        },
        _ => {},
    }
}

/// Running an instruction leaves the trace it replays as it is, and only
/// puts records behind those that are written.
pub proof fn lemma_exec_appends(
    instr: InstructionView,
    met_folds: Seq<FoldStateView>,
    ctx: CtxView,
    trace: TraceCtxView,
    oracle: Oracle,
)
    ensures
        appends(trace, exec_spec(instr, met_folds, ctx, trace, oracle).trace),
    decreases free_names(instr, met_folds), remaining(met_folds), instr,
{
    assert(trace.new_trace.subrange(0, trace.new_trace.len() as int) =~= trace.new_trace);
    match instr {
        InstructionView::Call(call) => {
            lemma_call_written(call, met_folds, ctx, trace, oracle);
        },
        InstructionView::Sequence(first, second) => {
            lemma_free_names_inside(instr, *first, met_folds);
            lemma_free_names_inside(instr, *second, met_folds);
            let start = with_complete(ctx, true);
            lemma_exec_appends(*first, met_folds, start, trace, oracle);
            let left = exec_spec(*first, met_folds, start, trace, oracle);
            if left.result is Ok && left.ctx.subtree_complete {
                lemma_exec_appends(*second, met_folds, left.ctx, left.trace, oracle);
                let right = exec_spec(*second, met_folds, left.ctx, left.trace, oracle);
                lemma_appends_twice(trace, left.trace, right.trace);
            }
        },
        InstructionView::Xor(first, second) => {
            lemma_free_names_inside(instr, *first, met_folds);
            lemma_free_names_inside(instr, *second, met_folds);
            let start = with_complete(ctx, true);
            lemma_exec_appends(*first, met_folds, start, trace, oracle);
            let left = exec_spec(*first, met_folds, start, trace, oracle);
            if left.result is Err && left.result->Err_0 is LocalServiceError {
                let again = with_complete(left.ctx, true);
                lemma_exec_appends(*second, met_folds, again, left.trace, oracle);
                let right = exec_spec(*second, met_folds, again, left.trace, oracle);
                lemma_appends_twice(trace, left.trace, right.trace);
            }
        },
        InstructionView::Par(first, second) => {
            lemma_free_names_inside(instr, *first, met_folds);
            lemma_free_names_inside(instr, *second, met_folds);
            match par_open(trace) {
                Err(e) => {},
                Ok(frame) => {
                    let left_start = par_left_trace(trace, frame);
                    lemma_exec_appends(
                        *first,
                        met_folds,
                        side_ctx(ctx, *first),
                        left_start,
                        oracle,
                    );
                    let left = exec_spec(
                        *first,
                        met_folds,
                        side_ctx(ctx, *first),
                        left_start,
                        oracle,
                    );
                    assert(left.trace.new_trace.subrange(0, trace.new_trace.len() as int)
                        =~= left_start.new_trace.subrange(0, trace.new_trace.len() as int));
                    assert(left_start.new_trace.subrange(0, trace.new_trace.len() as int)
                        =~= trace.new_trace);
                    if left.result is Err {
                        assert(par_left_failed(frame, left).trace.new_trace.subrange(
                            0,
                            trace.new_trace.len() as int,
                        ) =~= trace.new_trace);
                    } else {
                        let right_start = par_right_trace(frame, left);
                        lemma_exec_appends(
                            *second,
                            met_folds,
                            side_ctx(left.ctx, *second),
                            right_start,
                            oracle,
                        );
                        let right = exec_spec(
                            *second,
                            met_folds,
                            side_ctx(left.ctx, *second),
                            right_start,
                            oracle,
                        );
                        assert(right.trace.new_trace.subrange(0, trace.new_trace.len() as int)
                            =~= left.trace.new_trace.subrange(0, trace.new_trace.len() as int));
                        assert(par_close(frame, left, right).trace.new_trace.subrange(
                            0,
                            trace.new_trace.len() as int,
                        ) =~= trace.new_trace);
                    }
                },
            }
        },
        InstructionView::Fold { iterable, iterator, instruction } => {
            match fold_open(iterable, iterator, *instruction, ctx, met_folds) {
                Ok(Some(opened)) => {
                    lemma_first_from(iterators(met_folds), iterator, 0);
                    lemma_fold_decreases(instr, met_folds, opened);
                    lemma_exec_appends(*instruction, met_folds.push(opened), ctx, trace, oracle);
                },
                _ => {},
            }
        },
        InstructionView::Next(iterator) => {
            match next_open(iterator, met_folds) {
                Ok(Some(i)) => {
                    lemma_first_from(iterators(met_folds), iterator, 0);
                    lemma_next_decreases(instr, met_folds, i);
                    lemma_exec_appends(
                        met_folds[i].instruction,
                        moved_on(met_folds, i),
                        ctx,
                        trace,
                        oracle,
                    );
                },
                _ => {},
            }
        },
        InstructionView::Match { left_value, right_value, instruction } => {
            lemma_free_names_inside(instr, *instruction, met_folds);
            let equal = matches_spec(left_value, right_value, ctx, met_folds);
            if equal is Ok && equal->Ok_0 {
                lemma_exec_appends(*instruction, met_folds, ctx, trace, oracle);
            }
        },
        InstructionView::MisMatch { left_value, right_value, instruction } => {
            lemma_free_names_inside(instr, *instruction, met_folds);
            let equal = matches_spec(left_value, right_value, ctx, met_folds);
            if equal is Ok && !equal->Ok_0 {
                lemma_exec_appends(*instruction, met_folds, ctx, trace, oracle);
            }
        },
        _ => {},
    }
}

/// What is written in two steps is what the first wrote and then what the
/// second wrote.
proof fn lemma_appends_twice(a: TraceCtxView, b: TraceCtxView, c: TraceCtxView)
    requires
        appends(a, b),
        appends(b, c),
    ensures
        appends(a, c),
        written(a, c) == written(a, b) + written(b, c),
{
    assert(c.new_trace.subrange(0, a.new_trace.len() as int) =~= c.new_trace.subrange(
        0,
        b.new_trace.len() as int,
    ).subrange(0, a.new_trace.len() as int));
    assert(written(a, c) =~= written(a, b) + written(b, c)) by {
        assert forall|k: int| 0 <= k < written(a, b).len() implies written(a, c)[k] == written(
            a,
            b,
        )[k] by {
            assert(c.new_trace.subrange(0, b.new_trace.len() as int)[a.new_trace.len() + k]
                == c.new_trace[a.new_trace.len() + k]);
        }
    }
}

/// Where the subtree at hand starts with `a + b`, it starts with `a`, and
/// behind `a` it starts with `b`.
proof fn lemma_holds_split(
    trace: TraceCtxView,
    after: TraceCtxView,
    a: Seq<StateView>,
    b: Seq<StateView>,
)
    requires
        holds_at(trace, a + b),
        after.current_trace == trace.current_trace,
        after.position == trace.position + a.len(),
        after.current_subtree_size == trace.current_subtree_size - a.len(),
    ensures
        holds_at(trace, a),
        holds_at(after, b),
{
    let whole = trace.current_trace.subrange(
        trace.position,
        trace.position + (a + b).len(),
    );
    assert(trace.current_trace.subrange(trace.position, trace.position + a.len()) =~= a) by {
        assert forall|k: int| 0 <= k < a.len() implies trace.current_trace[trace.position + k]
            == a[k] by {
            assert(whole[k] == (a + b)[k]);
        }
    }
    assert(after.current_trace.subrange(after.position, after.position + b.len()) =~= b) by {
        assert forall|k: int| 0 <= k < b.len() implies after.current_trace[after.position + k]
            == b[k] by {
            assert(whole[a.len() + k] == (a + b)[a.len() + k]);
        }
    }
}

/// A call is replayed from the record it wrote.
proof fn lemma_call_replay(
    call: CallView,
    met_folds: Seq<FoldStateView>,
    ctx: CtxView,
    first: TraceCtxView,
    first_oracle: Oracle,
    second: TraceCtxView,
    second_oracle: Oracle,
)
    requires
        fits(
            call_spec(call, met_folds, ctx, first, first_oracle),
            written(first, call_spec(call, met_folds, ctx, first, first_oracle).trace),
            second,
        ),
    ensures
        replayed(
            call_spec(call, met_folds, ctx, first, first_oracle),
            written(first, call_spec(call, met_folds, ctx, first, first_oracle).trace),
            second,
            call_spec(call, met_folds, ctx, second, second_oracle),
        ),
{
    let one = call_spec(call, met_folds, ctx, first, first_oracle);
    let two = call_spec(call, met_folds, ctx, second, second_oracle);
    let out = written(first, one.trace);
    lemma_call_written(call, met_folds, ctx, first, first_oracle);
    lemma_args_not_failed(call.args, call.args.len() as int, ctx, met_folds);
    if out.len() == 1 {
        let record = one.trace.new_trace.last();
        assert(out =~= seq![record]);
        assert(second.current_trace[second.position] == out[0]) by {
            assert(second.current_trace.subrange(
                second.position,
                second.position + out.len(),
            )[0] == second.current_trace[second.position]);
        }
        assert(second.new_trace.push(record) =~= second.new_trace + out);
    } else {
        assert(out =~= Seq::empty());
        assert(second.new_trace + out =~= second.new_trace);
    }
}

/// What `seq` makes of two steps that were replayed one behind the other.
proof fn lemma_join_replayed(
    start: TraceCtxView,
    left: Step,
    right: Step,
    again: TraceCtxView,
    left_again: Step,
    right_again: Step,
)
    requires
        appends(start, left.trace),
        appends(left.trace, right.trace),
        replayed(left, written(start, left.trace), again, left_again),
        replayed(right, written(left.trace, right.trace), left_again.trace, right_again),
    ensures
        replayed(right, written(start, right.trace), again, right_again),
{
    lemma_appends_twice(start, left.trace, right.trace);
    let a = written(start, left.trace);
    let b = written(left.trace, right.trace);
    assert((again.new_trace + a) + b =~= again.new_trace + (a + b));
}

/// The header that a `par` has written, and what its sides have written
/// behind it.
proof fn lemma_par_written(
    start: TraceCtxView,
    middle: Seq<StateView>,
    end: Seq<StateView>,
    header: StateView,
)
    requires
        start.new_trace.len() + 1 <= middle.len() <= end.len(),
        middle.subrange(0, start.new_trace.len() as int + 1) == start.new_trace.push(
            StateView::Par(0, 0),
        ),
        end.subrange(0, middle.len() as int) == middle,
    ensures
        ({
            let at = start.new_trace.len() as int;
            let closed = end.update(at, header);
            &&& closed.subrange(at, closed.len() as int) == seq![header] + middle.subrange(
                at + 1,
                middle.len() as int,
            ) + end.subrange(middle.len() as int, end.len() as int)
            &&& closed.subrange(0, at) == start.new_trace
        }),
{
    let at = start.new_trace.len() as int;
    let closed = end.update(at, header);
    let left = middle.subrange(at + 1, middle.len() as int);
    let right = end.subrange(middle.len() as int, end.len() as int);
    let whole = end.subrange(0, middle.len() as int);
    let opened = middle.subrange(0, at + 1);
    assert forall|k: int| 0 <= k < left.len() implies closed[at + 1 + k] == left[k] by {
        assert(whole[at + 1 + k] == end[at + 1 + k]);
    }
    assert(closed.subrange(at, closed.len() as int) =~= seq![header] + left + right);
    assert forall|k: int| 0 <= k < at implies closed[k] == start.new_trace[k] by {
        assert(whole[k] == end[k]);
        assert(opened[k] == middle[k]);
    }
    assert(closed.subrange(0, at) =~= start.new_trace);
}

/// What [`lemma_replay`] says of an instruction and two runs of it.
pub open spec fn replay_holds(
    instr: InstructionView,
    met_folds: Seq<FoldStateView>,
    ctx: CtxView,
    first: TraceCtxView,
    first_oracle: Oracle,
    second: TraceCtxView,
    second_oracle: Oracle,
) -> bool {
    let one = exec_spec(instr, met_folds, ctx, first, first_oracle);
    fits(one, written(first, one.trace), second) ==> replayed(
        one,
        written(first, one.trace),
        second,
        exec_spec(instr, met_folds, ctx, second, second_oracle),
    )
}

/// A step is replayed from what it wrote: run once more on a trace that
/// holds what the step wrote, the instruction leaves the same context, ends
/// in the same way and writes the same records, whatever the service would
/// reply; it takes just these records from the trace. This holds of every
/// step but one that ended because the trace did not fit the script.
pub proof fn lemma_replay(
    instr: InstructionView,
    met_folds: Seq<FoldStateView>,
    ctx: CtxView,
    first: TraceCtxView,
    first_oracle: Oracle,
    second: TraceCtxView,
    second_oracle: Oracle,
)
    ensures
        replay_holds(instr, met_folds, ctx, first, first_oracle, second, second_oracle),
    decreases free_names(instr, met_folds), remaining(met_folds), instr, 1nat,
{
    let one = exec_spec(instr, met_folds, ctx, first, first_oracle);
    let out = written(first, one.trace);
    if fits(one, out, second) {
        match instr {
            InstructionView::Null => {
                assert(second.new_trace + out =~= second.new_trace);
            },
            InstructionView::Error => {},
            InstructionView::Call(call) => {
                lemma_call_replay(call, met_folds, ctx, first, first_oracle, second, second_oracle);
            },
            InstructionView::Sequence(left_instr, right_instr) => {
                lemma_two_replay(
                    instr,
                    *left_instr,
                    *right_instr,
                    met_folds,
                    ctx,
                    first,
                    first_oracle,
                    second,
                    second_oracle,
                );
            },
            InstructionView::Xor(left_instr, right_instr) => {
                lemma_two_replay(
                    instr,
                    *left_instr,
                    *right_instr,
                    met_folds,
                    ctx,
                    first,
                    first_oracle,
                    second,
                    second_oracle,
                );
            },
            InstructionView::Par(left_instr, right_instr) => {
                lemma_par_replay(
                    instr,
                    *left_instr,
                    *right_instr,
                    met_folds,
                    ctx,
                    first,
                    first_oracle,
                    second,
                    second_oracle,
                );
            },
            _ => {
                lemma_inner_replay(
                    instr,
                    met_folds,
                    ctx,
                    first,
                    first_oracle,
                    second,
                    second_oracle,
                );
            },
        }
    }
}

/// [`lemma_replay`] for `fold`, `next`, `match` and `mismatch`, which run
/// one instruction or none.
proof fn lemma_inner_replay(
    instr: InstructionView,
    met_folds: Seq<FoldStateView>,
    ctx: CtxView,
    first: TraceCtxView,
    first_oracle: Oracle,
    second: TraceCtxView,
    second_oracle: Oracle,
)
    requires
        instr is Fold || instr is Next || instr is Match || instr is MisMatch,
    ensures
        replay_holds(instr, met_folds, ctx, first, first_oracle, second, second_oracle),
    decreases free_names(instr, met_folds), remaining(met_folds), instr, 0nat,
{
    let one = exec_spec(instr, met_folds, ctx, first, first_oracle);
    let out = written(first, one.trace);
    assert(first.new_trace.subrange(first.new_trace.len() as int, first.new_trace.len() as int)
        =~= Seq::empty());
    assert(second.new_trace + Seq::empty() =~= second.new_trace);
    match instr {
        InstructionView::Fold { iterable, iterator, instruction } => {
            match fold_open(iterable, iterator, *instruction, ctx, met_folds) {
                Ok(Some(opened)) => {
                    lemma_first_from(iterators(met_folds), iterator, 0);
                    lemma_fold_decreases(instr, met_folds, opened);
                    lemma_replay(
                        *instruction,
                        met_folds.push(opened),
                        ctx,
                        first,
                        first_oracle,
                        second,
                        second_oracle,
                    );
                },
                _ => {},
            }
        },
        InstructionView::Next(iterator) => {
            match next_open(iterator, met_folds) {
                Ok(Some(i)) => {
                    lemma_first_from(iterators(met_folds), iterator, 0);
                    lemma_next_decreases(instr, met_folds, i);
                    lemma_replay(
                        met_folds[i].instruction,
                        moved_on(met_folds, i),
                        ctx,
                        first,
                        first_oracle,
                        second,
                        second_oracle,
                    );
                },
                _ => {},
            }
        },
        InstructionView::Match { left_value, right_value, instruction } => {
            lemma_free_names_inside(instr, *instruction, met_folds);
            let equal = matches_spec(left_value, right_value, ctx, met_folds);
            if equal is Ok && equal->Ok_0 {
                lemma_replay(
                    *instruction,
                    met_folds,
                    ctx,
                    first,
                    first_oracle,
                    second,
                    second_oracle,
                );
            }
        },
        InstructionView::MisMatch { left_value, right_value, instruction } => {
            lemma_free_names_inside(instr, *instruction, met_folds);
            let equal = matches_spec(left_value, right_value, ctx, met_folds);
            if equal is Ok && !equal->Ok_0 {
                lemma_replay(
                    *instruction,
                    met_folds,
                    ctx,
                    first,
                    first_oracle,
                    second,
                    second_oracle,
                );
            }
        },
        _ => {},
    }
}

/// [`lemma_replay`] for `seq` and `xor`, which run their sides one behind
/// the other.
proof fn lemma_two_replay(
    instr: InstructionView,
    left_instr: InstructionView,
    right_instr: InstructionView,
    met_folds: Seq<FoldStateView>,
    ctx: CtxView,
    first: TraceCtxView,
    first_oracle: Oracle,
    second: TraceCtxView,
    second_oracle: Oracle,
)
    requires
        instr == InstructionView::Sequence(Box::new(left_instr), Box::new(right_instr)) || instr
            == InstructionView::Xor(Box::new(left_instr), Box::new(right_instr)),
    ensures
        replay_holds(instr, met_folds, ctx, first, first_oracle, second, second_oracle),
    decreases free_names(instr, met_folds), remaining(met_folds), instr, 0nat,
{
    lemma_free_names_inside(instr, left_instr, met_folds);
    lemma_free_names_inside(instr, right_instr, met_folds);
    let one = exec_spec(instr, met_folds, ctx, first, first_oracle);
    let start = with_complete(ctx, true);
    let left = exec_spec(left_instr, met_folds, start, first, first_oracle);
    let left_again = exec_spec(left_instr, met_folds, start, second, second_oracle);
    lemma_exec_appends(left_instr, met_folds, start, first, first_oracle);
    lemma_replay(left_instr, met_folds, start, first, first_oracle, second, second_oracle);
    let goes_right = if instr is Sequence {
        left.result is Ok && left.ctx.subtree_complete
    } else {
        left.result is Err && left.result->Err_0 is LocalServiceError
    };
    let right_ctx = if instr is Sequence {
        left.ctx
    } else {
        with_complete(left.ctx, true)
    };
    if fits(one, written(first, one.trace), second) && goes_right {
        let right = exec_spec(right_instr, met_folds, right_ctx, left.trace, first_oracle);
        lemma_exec_appends(right_instr, met_folds, right_ctx, left.trace, first_oracle);
        lemma_appends_twice(first, left.trace, right.trace);
        let a = written(first, left.trace);
        let b = written(left.trace, right.trace);
        let behind = TraceCtxView {
            position: second.position + a.len(),
            current_subtree_size: second.current_subtree_size - a.len(),
            ..second
        };
        lemma_holds_split(second, behind, a, b);
        lemma_holds_split(second, left_again.trace, a, b);
        lemma_replay(
            right_instr,
            met_folds,
            right_ctx,
            left.trace,
            first_oracle,
            left_again.trace,
            second_oracle,
        );
        let right_again = exec_spec(
            right_instr,
            met_folds,
            right_ctx,
            left_again.trace,
            second_oracle,
        );
        lemma_join_replayed(first, left, right, second, left_again, right_again);
    }
}

/// [`lemma_replay`] for `par`.
proof fn lemma_par_replay(
    instr: InstructionView,
    left_instr: InstructionView,
    right_instr: InstructionView,
    met_folds: Seq<FoldStateView>,
    ctx: CtxView,
    first: TraceCtxView,
    first_oracle: Oracle,
    second: TraceCtxView,
    second_oracle: Oracle,
)
    requires
        instr == InstructionView::Par(Box::new(left_instr), Box::new(right_instr)),
    ensures
        replay_holds(instr, met_folds, ctx, first, first_oracle, second, second_oracle),
    decreases free_names(instr, met_folds), remaining(met_folds), instr, 0nat,
{
    lemma_free_names_inside(instr, left_instr, met_folds);
    lemma_free_names_inside(instr, right_instr, met_folds);
    let one = exec_spec(instr, met_folds, ctx, first, first_oracle);
    let out = written(first, one.trace);
    if fits(one, out, second) {
        let frame = par_open(first)->Ok_0;
        let left_ctx = side_ctx(ctx, left_instr);
        let left_start = par_left_trace(first, frame);
        let left = exec_spec(left_instr, met_folds, left_ctx, left_start, first_oracle);
        lemma_exec_appends(left_instr, met_folds, left_ctx, left_start, first_oracle);
        let a = written(left_start, left.trace);
        let middle = left.trace.new_trace;
        assert(middle.subrange(0, middle.len() as int) =~= middle);
        let head = TraceCtxView {
            position: second.position + 1,
            current_subtree_size: second.current_subtree_size - 1,
            ..second
        };
        if left.result is Err {
            let header = StateView::Par(a.len(), 0);
            lemma_par_written(first, middle, middle, header);
            assert(out =~= seq![header] + a);
            assert(second.current_trace[second.position] == out[0]) by {
                assert(second.current_trace.subrange(
                    second.position,
                    second.position + out.len(),
                )[0] == second.current_trace[second.position]);
            }
            let frame_again = par_open(second)->Ok_0;
            let left_again_start = par_left_trace(second, frame_again);
            lemma_holds_split(second, head, seq![header], a);
            assert(holds_at(left_again_start, a));
            lemma_replay(
                left_instr,
                met_folds,
                left_ctx,
                left_start,
                first_oracle,
                left_again_start,
                second_oracle,
            );
            let left_again = exec_spec(
                left_instr,
                met_folds,
                left_ctx,
                left_again_start,
                second_oracle,
            );
            let two = par_left_failed(frame_again, left_again);
            assert(two.trace.new_trace =~= second.new_trace + out);
        } else {
            let right_ctx = side_ctx(left.ctx, right_instr);
            let right_start = par_right_trace(frame, left);
            let right = exec_spec(right_instr, met_folds, right_ctx, right_start, first_oracle);
            lemma_exec_appends(right_instr, met_folds, right_ctx, right_start, first_oracle);
            let b = written(right_start, right.trace);
            let header = StateView::Par(a.len(), b.len());
            lemma_par_written(first, middle, right.trace.new_trace, header);
            assert(out =~= seq![header] + (a + b));
            assert(second.current_trace[second.position] == out[0]) by {
                assert(second.current_trace.subrange(
                    second.position,
                    second.position + out.len(),
                )[0] == second.current_trace[second.position]);
            }
            let frame_again = par_open(second)->Ok_0;
            let left_again_start = par_left_trace(second, frame_again);
            lemma_holds_split(second, head, seq![header], a + b);
            let behind = TraceCtxView {
                position: head.position + a.len(),
                current_subtree_size: head.current_subtree_size - a.len(),
                ..head
            };
            lemma_holds_split(head, behind, a, b);
            assert(holds_at(left_again_start, a));
            lemma_replay(
                left_instr,
                met_folds,
                left_ctx,
                left_start,
                first_oracle,
                left_again_start,
                second_oracle,
            );
            let left_again = exec_spec(
                left_instr,
                met_folds,
                left_ctx,
                left_again_start,
                second_oracle,
            );
            let right_again_start = par_right_trace(frame_again, left_again);
            assert(holds_at(right_again_start, b));
            lemma_replay(
                right_instr,
                met_folds,
                right_ctx,
                right_start,
                first_oracle,
                right_again_start,
                second_oracle,
            );
            let right_again = exec_spec(
                right_instr,
                met_folds,
                right_ctx,
                right_again_start,
                second_oracle,
            );
            let two = par_close(frame_again, left_again, right_again);
            assert(two.trace.new_trace =~= second.new_trace + out);
        }
    }
}

/// A hop on its own trace gives its own outcome: unless the hop ended
/// because the trace did not fit the script, running the script once more
/// on the trace that was written gives the same trace, the same peers to
/// hand it on to and the same ending, whatever the service would reply now.
pub proof fn lemma_trace_idempotent(
    instr: InstructionView,
    current_peer_id: Seq<char>,
    init_peer_id: Seq<char>,
    merged: Seq<StateView>,
    first_oracle: Oracle,
    second_oracle: Oracle,
)
    ensures
        ({
            let ctx = start_ctx(current_peer_id, init_peer_id);
            let one = exec_spec(instr, Seq::empty(), ctx, start_trace(merged), first_oracle);
            let two = exec_spec(
                instr,
                Seq::empty(),
                ctx,
                start_trace(one.trace.new_trace),
                second_oracle,
            );
            !mismatched(one) ==> finish_spec(two) == finish_spec(one) && two.trace.new_trace
                == one.trace.new_trace
        }),
{
    let ctx = start_ctx(current_peer_id, init_peer_id);
    let first = start_trace(merged);
    let one = exec_spec(instr, Seq::empty(), ctx, first, first_oracle);
    let out = one.trace.new_trace;
    let second = start_trace(out);
    lemma_exec_appends(instr, Seq::empty(), ctx, first, first_oracle);
    assert(written(first, one.trace) =~= out);
    assert(second.current_trace.subrange(0, out.len() as int) =~= out);
    lemma_replay(instr, Seq::empty(), ctx, first, first_oracle, second, second_oracle);
    assert(second.new_trace + out =~= out);
}

/// A hop on its own outcome gives that outcome again: where the two traces
/// of a hop can be merged and the hop did not end because the trace did
/// not fit the script, the hop on the trace that it wrote, and on no other
/// trace beside it, comes to the same outcome, whatever the service would
/// reply now.
pub proof fn lemma_hop_idempotent(
    instr: InstructionView,
    prev: Seq<StateView>,
    current: Seq<StateView>,
    init_peer_id: Seq<char>,
    current_peer_id: Seq<char>,
    first_oracle: Oracle,
    second_oracle: Oracle,
)
    requires
        merge_spec(prev, current) is Ok,
    ensures
        ({
            let one = exec_spec(
                instr,
                Seq::empty(),
                start_ctx(current_peer_id, init_peer_id),
                start_trace(merge_spec(prev, current)->Ok_0),
                first_oracle,
            );
            !mismatched(one) ==> run_spec(
                instr,
                one.trace.new_trace,
                Seq::empty(),
                init_peer_id,
                current_peer_id,
                second_oracle,
            ) == run_spec(instr, prev, current, init_peer_id, current_peer_id, first_oracle)
        }),
{
    let merged = merge_spec(prev, current)->Ok_0;
    let ctx = start_ctx(current_peer_id, init_peer_id);
    let one = exec_spec(instr, Seq::empty(), ctx, start_trace(merged), first_oracle);
    let out = one.trace.new_trace;
    lemma_exec_well_formed(instr, Seq::empty(), ctx, start_trace(merged), first_oracle);
    assert(out.subrange(0, out.len() as int) =~= out);
    lemma_well_formed_empty(Seq::empty());
    lemma_merge_one_empty(out, Seq::empty());
    lemma_trace_idempotent(
        instr,
        current_peer_id,
        init_peer_id,
        merged,
        first_oracle,
        second_oracle,
    );
}

/// The step that the script of a hop ran to, where it ran: where the
/// script was read, the two traces were decoded and their merge succeeded.
pub open spec fn ran_to(
    init_peer_id: Seq<char>,
    aqua: Seq<char>,
    prev_data: Seq<u8>,
    data: Seq<u8>,
    current_peer_id: Seq<char>,
    oracle: Oracle,
) -> Option<Step> {
    match prepare_spec(aqua, prev_data, data) {
        Err(_) => None,
        Ok((instr, prev, current)) => match merge_spec(prev, current) {
            Err(_) => None,
            Ok(merged) => Some(
                exec_spec(
                    instr,
                    Seq::empty(),
                    start_ctx(current_peer_id, init_peer_id),
                    start_trace(merged),
                    oracle,
                ),
            ),
        },
    }
}

/// A hop on the data that it wrote gives its outcome again, byte by byte,
/// where that data is read back as the trace that was written: where the
/// script of a hop ran, and did not end because the trace did not fit the
/// script, the hop on the data of its outcome, and on no other data beside
/// it, comes to the same outcome, whatever the service would reply now.
pub proof fn lemma_data_idempotent(
    init_peer_id: Seq<char>,
    aqua: Seq<char>,
    prev_data: Seq<u8>,
    data: Seq<u8>,
    current_peer_id: Seq<char>,
    first_oracle: Oracle,
    second_oracle: Oracle,
)
    requires
        ({
            let one = ran_to(init_peer_id, aqua, prev_data, data, current_peer_id, first_oracle);
            one is Some && !mismatched(one->Some_0) && decode_spec(
                encode_spec(one->Some_0.trace.new_trace),
            ) == Some(one->Some_0.trace.new_trace)
        }),
    ensures
        ({
            let outcome = outcome_spec(
                init_peer_id,
                aqua,
                prev_data,
                data,
                current_peer_id,
                first_oracle,
            );
            outcome_spec(
                init_peer_id,
                aqua,
                outcome.data,
                Seq::empty(),
                current_peer_id,
                second_oracle,
            ) == outcome
        }),
{
    let (instr, prev, current) = prepare_spec(aqua, prev_data, data)->Ok_0;
    lemma_hop_idempotent(
        instr,
        prev,
        current,
        init_peer_id,
        current_peer_id,
        first_oracle,
        second_oracle,
    );
}

} // verus!
