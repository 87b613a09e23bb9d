//! The interpreter: a walk over the instruction tree that replays the trace
//! of the earlier hops and writes the trace of this one.

use crate::ast::{
    CallArgValue, Fold, Instruction, InstructionView, Match, MisMatch, Next, Par, Sequence,
    ValueView, Xor,
};
use crate::binding::with_complete;
use crate::call::{
    allowed, call_spec, execute_call, fail, lemma_follows_twice, service_is_total, step_of,
    trace_mismatch, CallServiceResult, ExecutionTraceCtx, Oracle, Step, TraceCtxView,
};
use crate::context::{
    cache_names, find_fold, iterators, keeps_peers, lemma_keeps_peers_twice, lemma_keeps_same_peers,
    literal_tetraplet_spec, CtxView, ErrorView, ExecutionCtx, ExecutionError, ExecutionResult,
    FoldItem, FoldItemView, FoldState, FoldStateView, SecurityTetraplet, TetrapletView,
};
use crate::folds::{
    free_names, lemma_fold_decreases, lemma_free_names_inside, lemma_next_decreases, remaining,
};
use crate::json::{json_equal, values_view, JValue, JValueView};
use crate::lists::{index_of, lemma_first_from, lemma_views_push, lemma_views_update, views};
use crate::numbers::normal;
use crate::replies::{lemma_stepped_alone, lemma_stepped_both, stepped};
use crate::resolve::{
    folds_valid, jvaluable_spec, resolve_to_args, resolve_to_args_spec, resolve_to_jvaluable,
    JValuable, JValuableView,
};
use crate::trace::{
    lemma_extends_par, lemma_extends_same, trace_view, ExecutedState, ParResult, StateView,
};
use vstd::prelude::*;
use vstd::string::StringExecFns;

verus! {

/// The message of the error for a script that could not be read.
pub open spec fn script_error() -> Seq<char> {
    "the script holds an error"@
}

/// The items that hold `values`, each with the same tetraplet.
pub open spec fn items_of(values: Seq<JValueView>, tetraplet: TetrapletView) -> Seq<FoldItemView> {
    Seq::new(values.len(), |i: int| FoldItemView { value: values[i], tetraplet })
}

/// The tetraplet of what a JSON path found in a value: the first that the
/// value has for the path, and that of a literal where it has none.
pub open spec fn path_tetraplet(found: JValuableView, path: Seq<char>, init_peer_id: Seq<char>)
    -> TetrapletView {
    let all = found.tetraplets_at(path);
    if all.len() > 0 {
        all[0]
    } else {
        literal_tetraplet_spec(init_peer_id)
    }
}

/// The items that a fold walks over: those of the array that a variable
/// holds, the results in an accumulator, or what a JSON path finds.
pub open spec fn iterable_spec(
    iterable: ValueView,
    ctx: CtxView,
    met_folds: Seq<FoldStateView>,
) -> Result<Seq<FoldItemView>, ErrorView> {
    match iterable {
        ValueView::Variable(name) => match jvaluable_spec(name, ctx, met_folds) {
            Err(e) => Err(e),
            Ok(found) => match found {
                JValuableView::Accumulator(all) => Ok(
                    Seq::new(
                        all.len(),
                        |i: int|
                            FoldItemView {
                                value: all[i].result,
                                tetraplet: TetrapletView {
                                    triplet: all[i].triplet,
                                    json_path: Seq::empty(),
                                },
                            },
                    ),
                ),
                _ => match found.into_jvalue() {
                    JValueView::Array(values) => Ok(items_of(values, found.as_tetraplets()[0])),
                    _ => Err(ErrorView::IterableNotArray(name)),
                },
            },
        },
        ValueView::JsonPath { variable, path } => match jvaluable_spec(
            variable,
            ctx,
            met_folds,
        ) {
            Err(e) => Err(e),
            Ok(found) => match found.apply_json_path(path) {
                Err(e) => Err(e),
                Ok(values) => Ok(
                    items_of(values, path_tetraplet(found, path, ctx.init_peer_id)),
                ),
            },
        },
        ValueView::Literal(text) => Err(ErrorView::IterableNotArray(text)),
        ValueView::InitPeerId => Err(ErrorView::IterableNotArray(ctx.init_peer_id)),
    }
}

/// The view of a list of items or an error.
pub open spec fn items_view(r: ExecutionResult<Vec<FoldItem>>) -> Result<
    Seq<FoldItemView>,
    ErrorView,
> {
    match r {
        Ok(items) => Ok(views(items@)),
        Err(e) => Err(e@),
    }
}

/// The items that hold `values`, each with the same tetraplet; see
/// [`items_of`].
fn items_with(values: Vec<JValue>, tetraplet: &SecurityTetraplet) -> (r: Vec<FoldItem>)
    ensures
        views(r@) == items_of(values_view(values@), tetraplet@),
{
    let mut items: Vec<FoldItem> = Vec::new();
    let mut i: usize = 0;
    while i < values.len()
        invariant
            i <= values.len(),
            items.len() == i,
            forall|k: int|
                0 <= k < i ==> items[k]@ == (FoldItemView {
                    value: values[k]@,
                    tetraplet: tetraplet@,
                }),
        decreases values.len() - i,
    {
        items.push(FoldItem { value: values[i].clone(), tetraplet: tetraplet.clone() });
        i += 1;
    }
    assert(views(items@) =~= items_of(values_view(values@), tetraplet@));
    items
}

/// Finds what a fold is to walk over; see [`iterable_spec`].
pub fn construct_iterable_value(
    iterable: &CallArgValue,
    exec_ctx: &ExecutionCtx,
    met_folds: &Vec<FoldState>,
) -> (r: ExecutionResult<Vec<FoldItem>>)
    requires
        folds_valid(views(met_folds@)),
    ensures
        items_view(r) == iterable_spec(iterable@, exec_ctx@, views(met_folds@)),
{
    match iterable {
        CallArgValue::Variable(name) => {
            let found = resolve_to_jvaluable(name, exec_ctx, met_folds)?;
            match found {
                JValuable::Accumulator(all) => {
                    let mut items: Vec<FoldItem> = Vec::new();
                    let mut i: usize = 0;
                    while i < all.len()
                        invariant
                            i <= all.len(),
                            items.len() == i,
                            forall|k: int|
                                0 <= k < i ==> items[k]@ == (FoldItemView {
                                    value: all[k].result@,
                                    tetraplet: TetrapletView {
                                        triplet: all[k].triplet@,
                                        json_path: Seq::empty(),
                                    },
                                }),
                        decreases all.len() - i,
                    {
                        items.push(
                            FoldItem {
                                value: all[i].result.clone(),
                                tetraplet: SecurityTetraplet::new(
                                    all[i].triplet.clone(),
                                    String::new(),
                                ),
                            },
                        );
                        i += 1;
                    }
                    assert(views(items@) =~= iterable_spec(
                        iterable@,
                        exec_ctx@,
                        views(met_folds@),
                    )->Ok_0);
                    Ok(items)
                },
                JValuable::Scalar(_) | JValuable::FoldItem(_) => {
                    let tetraplets = found.as_tetraplets();
                    assert(found@.as_tetraplets().len() == 1);
                    assert(views(tetraplets@).len() == tetraplets.len());
                    assert(views(tetraplets@)[0] == tetraplets[0]@);
                    match found.into_jvalue() {
                        JValue::Array(values) => Ok(items_with(values, &tetraplets[0])),
                        _ => Err(ExecutionError::IterableNotArray(name.clone())),
                    }
                },
            }
        },
        CallArgValue::JsonPath { variable, path } => {
            let found = resolve_to_jvaluable(variable, exec_ctx, met_folds)?;
            let (values, tetraplets) = found.apply_json_path_with_tetraplets(path)?;
            if tetraplets.len() > 0 {
                assert(views(tetraplets@)[0] == tetraplets[0]@);
                Ok(items_with(values, &tetraplets[0]))
            } else {
                let literal = SecurityTetraplet::literal_tetraplet(exec_ctx.init_peer_id.clone());
                Ok(items_with(values, &literal))
            }
        },
        CallArgValue::Literal(text) => Err(ExecutionError::IterableNotArray(text.clone())),
        CallArgValue::InitPeerId => Err(
            ExecutionError::IterableNotArray(exec_ctx.init_peer_id.clone()),
        ),
    }
}

/// How a `par` divides the subtree at hand: the sizes of its two sides,
/// the place where the left side starts, what is left of the subtree behind
/// the right side, and the place in the new trace where its header stands.
pub struct ParFrame {
    pub left_size: int,
    pub right_size: int,
    pub start: int,
    pub rest: int,
    pub at: int,
}

/// The frame of a `par`. Where the subtree at hand has ended both sides
/// are empty; else its next record has to be a header whose sides fit into
/// what is left.
pub open spec fn par_open(trace: TraceCtxView) -> Result<ParFrame, ErrorView> {
    if trace.current_subtree_size <= 0 {
        Ok(
            ParFrame {
                left_size: 0,
                right_size: 0,
                start: trace.position,
                rest: 0,
                at: trace.new_trace.len() as int,
            },
        )
    } else {
        match trace.current_trace[trace.position] {
            StateView::Par(left, right) => if left + right <= trace.current_subtree_size - 1 {
                Ok(
                    ParFrame {
                        left_size: left as int,
                        right_size: right as int,
                        start: trace.position + 1,
                        rest: trace.current_subtree_size - 1 - left - right,
                        at: trace.new_trace.len() as int,
                    },
                )
            } else {
                Err(ErrorView::InstructionError(trace_mismatch()))
            },
            StateView::Call(_) => Err(ErrorView::InstructionError(trace_mismatch())),
        }
    }
}

/// The context in which a side of a `par` starts: a side counts as
/// complete until it says otherwise, but for a `next`, which says nothing
/// where its fold has ended.
pub open spec fn side_ctx(ctx: CtxView, side: InstructionView) -> CtxView {
    with_complete(ctx, !(side is Next))
}

/// The trace context in which the left side of a `par` starts: the header
/// is put down with empty sides.
pub open spec fn par_left_trace(trace: TraceCtxView, frame: ParFrame) -> TraceCtxView {
    TraceCtxView {
        current_trace: trace.current_trace,
        position: frame.start,
        current_subtree_size: frame.left_size,
        new_trace: trace.new_trace.push(StateView::Par(0, 0)),
    }
}

/// The trace context in which the right side of a `par` starts.
pub open spec fn par_right_trace(frame: ParFrame, left: Step) -> TraceCtxView {
    TraceCtxView {
        position: frame.start + frame.left_size,
        current_subtree_size: frame.right_size,
        ..left.trace
    }
}

/// The header of a `par` once the new trace has the lengths `middle` after
/// the left side and `end` after the right side.
pub open spec fn par_header(frame: ParFrame, middle: int, end: int) -> StateView {
    StateView::Par((middle - frame.at - 1) as nat, (end - middle) as nat)
}

/// The trace context behind a `par`: the subtree at hand goes on behind
/// the right side, whatever the sides have taken.
pub open spec fn par_end_trace(
    frame: ParFrame,
    current_trace: Seq<StateView>,
    new_trace: Seq<StateView>,
) -> TraceCtxView {
    TraceCtxView {
        current_trace,
        position: frame.start + frame.left_size + frame.right_size,
        current_subtree_size: frame.rest,
        new_trace,
    }
}

/// The end of a `par` whose left side failed: the header gets the length
/// of what the left side wrote, and the failure goes up.
pub open spec fn par_left_failed(frame: ParFrame, left: Step) -> Step {
    let middle = left.trace.new_trace.len() as int;
    Step {
        ctx: left.ctx,
        trace: par_end_trace(
            frame,
            left.trace.current_trace,
            left.trace.new_trace.update(frame.at, par_header(frame, middle, middle)),
        ),
        result: left.result,
    }
}

/// The end of a `par` whose left side ran through: the header gets the
/// lengths of what the two sides wrote. A failure of the right side goes
/// up; else the `par` is complete if one of its sides is.
pub open spec fn par_close(frame: ParFrame, left: Step, right: Step) -> Step {
    let closed = right.trace.new_trace.update(
        frame.at,
        par_header(frame, left.trace.new_trace.len() as int, right.trace.new_trace.len() as int),
    );
    Step {
        ctx: if right.result is Err {
            right.ctx
        } else {
            with_complete(right.ctx, left.ctx.subtree_complete || right.ctx.subtree_complete)
        },
        trace: par_end_trace(frame, right.trace.current_trace, closed),
        result: right.result,
    }
}

/// The fold that a `fold` opens: none where there is nothing to walk over.
/// The name of its iterator must be that of no open fold and of no variable.
pub open spec fn fold_open(
    iterable: ValueView,
    iterator: Seq<char>,
    instruction: InstructionView,
    ctx: CtxView,
    met_folds: Seq<FoldStateView>,
) -> Result<Option<FoldStateView>, ErrorView> {
    match iterable_spec(iterable, ctx, met_folds) {
        Err(e) => Err(e),
        Ok(items) => if items.len() == 0 {
            Ok(None)
        } else if index_of(iterators(met_folds), iterator) is Some || index_of(
            cache_names(ctx.data_cache),
            iterator,
        ) is Some {
            Err(ErrorView::MultipleVariablesFound(iterator))
        } else {
            Ok(Some(FoldStateView { iterator, items, position: 0, instruction }))
        },
    }
}

/// The open fold that a `next` moves on: none where the fold is at its
/// last item.
pub open spec fn next_open(name: Seq<char>, met_folds: Seq<FoldStateView>) -> Result<
    Option<int>,
    ErrorView,
> {
    match index_of(iterators(met_folds), name) {
        None => Err(ErrorView::FoldStateNotFound(name)),
        Some(i) => if met_folds[i].position + 1 < met_folds[i].items.len() {
            Ok(Some(i))
        } else {
            Ok(None)
        },
    }
}

/// The open folds with the one at `i` moved to its next item.
pub open spec fn moved_on(met_folds: Seq<FoldStateView>, i: int) -> Seq<FoldStateView> {
    met_folds.update(i, FoldStateView { position: met_folds[i].position + 1, ..met_folds[i] })
}

/// Whether two values of the script stand for equal JSON values, each
/// number taken in its normal form; see [`normal`] and [`json_equal`].
pub open spec fn matches_spec(
    left: ValueView,
    right: ValueView,
    ctx: CtxView,
    met_folds: Seq<FoldStateView>,
) -> Result<bool, ErrorView> {
    match resolve_to_args_spec(left, ctx, met_folds) {
        Err(e) => Err(e),
        Ok((left_value, _)) => match resolve_to_args_spec(right, ctx, met_folds) {
            Err(e) => Err(e),
            Ok((right_value, _)) => Ok(json_equal(normal(left_value), normal(right_value))),
        },
    }
}

/// A step that does nothing and reports a complete subtree.
pub open spec fn skip(ctx: CtxView, trace: TraceCtxView) -> Step {
    Step { ctx: with_complete(ctx, true), trace, result: Ok(()) }
}

/// What running an instruction comes to: the context and the trace after
/// it, and whether it ended in an error.
///
/// `null` does nothing. `seq` runs its right side where the left side is
/// complete. `xor` runs its right side where a call of the left side
/// failed. `par` runs both sides, each on its own part of the trace, and
/// writes a header with the lengths of what they wrote. `fold` opens a fold
/// and runs its instruction on the first item; `next` runs the instruction
/// of its fold on the next item. `match` and `mismatch` run their
/// instruction where the two values are equal, or differ.
pub open spec fn exec_spec(
    instr: InstructionView,
    met_folds: Seq<FoldStateView>,
    ctx: CtxView,
    trace: TraceCtxView,
    oracle: Oracle,
) -> Step
    decreases free_names(instr, met_folds), remaining(met_folds), instr,
{
    match instr {
        InstructionView::Null => skip(ctx, trace),
        InstructionView::Error => fail(ctx, trace, ErrorView::InstructionError(script_error())),
        InstructionView::Call(call) => call_spec(call, met_folds, ctx, trace, oracle),
        InstructionView::Sequence(first, second) => {
            proof {
                lemma_free_names_inside(instr, *first, met_folds);
                lemma_free_names_inside(instr, *second, met_folds);
            }
            let left = exec_spec(*first, met_folds, with_complete(ctx, true), trace, oracle);
            if left.result is Ok && left.ctx.subtree_complete {
                exec_spec(*second, met_folds, left.ctx, left.trace, oracle)
            } else {
                left
            }
        },
        InstructionView::Xor(first, second) => {
            proof {
                lemma_free_names_inside(instr, *first, met_folds);
                lemma_free_names_inside(instr, *second, met_folds);
            }
            let left = exec_spec(*first, met_folds, with_complete(ctx, true), trace, oracle);
            if left.result is Err && left.result->Err_0 is LocalServiceError {
                exec_spec(*second, met_folds, with_complete(left.ctx, true), left.trace, oracle)
            } else {
                left
            }
        },
        InstructionView::Par(first, second) => {
            proof {
                lemma_free_names_inside(instr, *first, met_folds);
                lemma_free_names_inside(instr, *second, met_folds);
            }
            match par_open(trace) {
                Err(e) => fail(ctx, trace, e),
                Ok(frame) => {
                    let left = exec_spec(
                        *first,
                        met_folds,
                        side_ctx(ctx, *first),
                        par_left_trace(trace, frame),
                        oracle,
                    );
                    if left.result is Err {
                        par_left_failed(frame, left)
                    } else {
                        let right = exec_spec(
                            *second,
                            met_folds,
                            side_ctx(left.ctx, *second),
                            par_right_trace(frame, left),
                            oracle,
                        );
                        par_close(frame, left, right)
                    }
                },
            }
        },
        InstructionView::Fold { iterable, iterator, instruction } => match fold_open(
            iterable,
            iterator,
            *instruction,
            ctx,
            met_folds,
        ) {
            Err(e) => fail(ctx, trace, e),
            Ok(None) => skip(ctx, trace),
            Ok(Some(opened)) => {
                proof {
                    lemma_first_from(iterators(met_folds), iterator, 0);
                    lemma_fold_decreases(instr, met_folds, opened);
                }
                exec_spec(*instruction, met_folds.push(opened), ctx, trace, oracle)
            },
        },
        InstructionView::Next(iterator) => match next_open(iterator, met_folds) {
            Err(e) => fail(ctx, trace, e),
            Ok(None) => Step { ctx, trace, result: Ok(()) },
            Ok(Some(i)) => {
                proof {
                    lemma_first_from(iterators(met_folds), iterator, 0);
                    lemma_next_decreases(instr, met_folds, i);
                }
                exec_spec(met_folds[i].instruction, moved_on(met_folds, i), ctx, trace, oracle)
            },
        },
        InstructionView::Match { left_value, right_value, instruction } => {
            proof {
                lemma_free_names_inside(instr, *instruction, met_folds);
            }
            match matches_spec(left_value, right_value, ctx, met_folds) {
                Err(e) => fail(ctx, trace, e),
                Ok(equal) => if equal {
                    exec_spec(*instruction, met_folds, ctx, trace, oracle)
                } else {
                    skip(ctx, trace)
                },
            }
        },
        InstructionView::MisMatch { left_value, right_value, instruction } => {
            proof {
                lemma_free_names_inside(instr, *instruction, met_folds);
            }
            match matches_spec(left_value, right_value, ctx, met_folds) {
                Err(e) => fail(ctx, trace, e),
                Ok(equal) => if equal {
                    skip(ctx, trace)
                } else {
                    exec_spec(*instruction, met_folds, ctx, trace, oracle)
                },
            }
        },
    }
}

/// What holds after an instruction has run: the trace context follows the
/// one before, the peers named before are kept, and context, trace and
/// result are those of [`exec_spec`] with replies that the service may have
/// given.
pub open spec fn ran<F: Fn(String, String, String) -> CallServiceResult>(
    call_service: F,
    instr: InstructionView,
    met_folds: Seq<FoldStateView>,
    ctx_before: ExecutionCtx,
    trace_before: ExecutionTraceCtx,
    ctx_after: ExecutionCtx,
    trace_after: ExecutionTraceCtx,
    r: ExecutionResult<()>,
) -> bool {
    &&& trace_after.follows(&trace_before)
    &&& keeps_peers(ctx_before@.next_peer_pks, ctx_after@.next_peer_pks)
    &&& stepped(
        call_service,
        instr,
        met_folds,
        ctx_before@,
        trace_before@,
        step_of(ctx_after, trace_after, r),
    )
}

/// Whether an instruction is a `next`.
pub fn is_next(instr: &Instruction) -> (r: bool)
    ensures
        r == (instr@ is Next),
{
    match instr {
        Instruction::Next(_) => true,
        _ => false,
    }
}

/// A copy of the list of open folds.
pub fn copy_folds<'a, 'b>(met_folds: &Vec<FoldState<'a>>) -> (r: Vec<FoldState<'b>>) where 'a: 'b
    ensures
        views(r@) == views(met_folds@),
        r.len() == met_folds.len(),
{
    let mut copy: Vec<FoldState<'b>> = Vec::new();
    let mut i: usize = 0;
    while i < met_folds.len()
        invariant
            i <= met_folds.len(),
            copy.len() == i,
            forall|k: int| 0 <= k < i ==> copy[k]@ == met_folds[k]@,
        decreases met_folds.len() - i,
    {
        let fold = met_folds[i];
        copy.push(fold);
        i += 1;
    }
    assert(views(copy@) =~= views(met_folds@));
    copy
}

/// The view of a trace with one record replaced.
proof fn lemma_trace_view_update(trace: Seq<ExecutedState>, i: int, state: ExecutedState)
    requires
        0 <= i < trace.len(),
    ensures
        trace_view(trace.update(i, state)) == trace_view(trace).update(i, state@),
{
    assert(trace_view(trace.update(i, state)) =~= trace_view(trace).update(i, state@));
}

/// The view of a trace with one more record.
proof fn lemma_trace_view_push(trace: Seq<ExecutedState>, state: ExecutedState)
    ensures
        trace_view(trace.push(state)) == trace_view(trace).push(state@),
{
    assert(trace_view(trace.push(state)) =~= trace_view(trace).push(state@));
}

/// Takes the header of a `par` from the trace; see [`par_open`]. Gives the
/// sizes of the two sides and of what is left behind them.
pub fn extract_subtree_sizes(trace_ctx: &mut ExecutionTraceCtx) -> (r: ExecutionResult<
    (usize, usize, usize),
>)
    requires
        old(trace_ctx).in_bounds(),
    ensures
        final(trace_ctx).current_trace == old(trace_ctx).current_trace,
        final(trace_ctx).new_trace == old(trace_ctx).new_trace,
        match r {
            Err(e) => par_open(old(trace_ctx)@) == Err::<ParFrame, ErrorView>(e@) && *final(trace_ctx) == *old(trace_ctx),
            Ok((left_size, right_size, rest)) => par_open(old(trace_ctx)@) == Ok::<
                ParFrame,
                ErrorView,
            >(
                ParFrame {
                    left_size: left_size as int,
                    right_size: right_size as int,
                    start: final(trace_ctx).position as int,
                    rest: rest as int,
                    at: old(trace_ctx).new_trace.len() as int,
                },
            ) && final(trace_ctx).position + left_size + right_size + rest <= final(trace_ctx).current_trace.len(),
        },
{
    if trace_ctx.current_subtree_size == 0 {
        return Ok((0, 0, 0));
    }
    match &trace_ctx.current_trace[trace_ctx.position] {
        ExecutedState::Par(par) => {
            let left_size = par.0;
            let right_size = par.1;
            let left_over = trace_ctx.current_subtree_size - 1;
            if left_size > left_over || right_size > left_over - left_size {
                return Err(
                    ExecutionError::InstructionError(
                        String::from_str("the trace does not fit the script"),
                    ),
                );
            }
            trace_ctx.position = trace_ctx.position + 1;
            trace_ctx.current_subtree_size = left_over;
            Ok((left_size, right_size, left_over - left_size - right_size))
        },
        ExecutedState::Call(_) => Err(
            ExecutionError::InstructionError(String::from_str("the trace does not fit the script")),
        ),
    }
}

/// Runs an instruction; see [`exec_spec`] and [`ran`].
pub fn execute_instruction<'a, F: Fn(String, String, String) -> CallServiceResult>(
    instr: &'a Instruction,
    met_folds: &Vec<FoldState<'a>>,
    exec_ctx: &mut ExecutionCtx,
    trace_ctx: &mut ExecutionTraceCtx,
    call_service: &F,
) -> (r: ExecutionResult<()>)
    requires
        folds_valid(views(met_folds@)),
        old(trace_ctx).in_bounds(),
        service_is_total(*call_service),
    ensures
        ran(
            *call_service,
            instr@,
            views(met_folds@),
            *old(exec_ctx),
            *old(trace_ctx),
            *final(exec_ctx),
            *final(trace_ctx),
            r,
        ),
    decreases free_names(instr@, views(met_folds@)), remaining(views(met_folds@)), *instr, 1nat,
{
    proof {
        lemma_keeps_same_peers(exec_ctx@.next_peer_pks);
    }
    proof {
        lemma_extends_same(trace_view(trace_ctx.new_trace@));
    }
    match instr {
        Instruction::Null(_) => {
            exec_ctx.subtree_complete = true;
            proof {
                lemma_stepped_alone(
                    *call_service,
                    instr@,
                    views(met_folds@),
                    old(exec_ctx)@,
                    old(trace_ctx)@,
                    step_of(*exec_ctx, *trace_ctx, Ok(())),
                );
            }
            Ok(())
        },
        Instruction::Error => {
            let e = ExecutionError::InstructionError(String::from_str("the script holds an error"));
            proof {
                lemma_stepped_alone(
                    *call_service,
                    instr@,
                    views(met_folds@),
                    old(exec_ctx)@,
                    old(trace_ctx)@,
                    step_of(*exec_ctx, *trace_ctx, Err(e)),
                );
            }
            Err(e)
        },
        Instruction::Call(call) => {
            let r = execute_call(call, met_folds, exec_ctx, trace_ctx, call_service);
            proof {
                let step = step_of(*exec_ctx, *trace_ctx, r);
                let oracle = choose|oracle: Oracle|
                    allowed(*call_service, oracle) && step == #[trigger] call_spec(
                        call@,
                        views(met_folds@),
                        old(exec_ctx)@,
                        old(trace_ctx)@,
                        oracle,
                    );
                assert(step == exec_spec(
                    instr@,
                    views(met_folds@),
                    old(exec_ctx)@,
                    old(trace_ctx)@,
                    oracle,
                ));
            }
            r
        },
        Instruction::Sequence(seq) => execute_seq(
            seq,
            met_folds,
            exec_ctx,
            trace_ctx,
            call_service,
        ),
        Instruction::Xor(xor) => execute_xor(xor, met_folds, exec_ctx, trace_ctx, call_service),
        Instruction::Par(par) => execute_par(par, met_folds, exec_ctx, trace_ctx, call_service),
        Instruction::Fold(fold) => execute_fold(
            fold,
            met_folds,
            exec_ctx,
            trace_ctx,
            call_service,
        ),
        Instruction::Next(next) => execute_next(
            next,
            met_folds,
            exec_ctx,
            trace_ctx,
            call_service,
        ),
        Instruction::Match(m) => execute_match(m, met_folds, exec_ctx, trace_ctx, call_service),
        Instruction::MisMatch(m) => execute_mismatch(
            m,
            met_folds,
            exec_ctx,
            trace_ctx,
            call_service,
        ),
    }
}

/// Runs a `seq`: the right side where the left side is complete.
pub fn execute_seq<'a, F: Fn(String, String, String) -> CallServiceResult>(
    seq: &'a Sequence,
    met_folds: &Vec<FoldState<'a>>,
    exec_ctx: &mut ExecutionCtx,
    trace_ctx: &mut ExecutionTraceCtx,
    call_service: &F,
) -> (r: ExecutionResult<()>)
    requires
        folds_valid(views(met_folds@)),
        old(trace_ctx).in_bounds(),
        service_is_total(*call_service),
    ensures
        ran(
            *call_service,
            (Instruction::Sequence(*seq))@,
            views(met_folds@),
            *old(exec_ctx),
            *old(trace_ctx),
            *final(exec_ctx),
            *final(trace_ctx),
            r,
        ),
    decreases
            free_names((Instruction::Sequence(*seq))@, views(met_folds@)),
            remaining(views(met_folds@)),
            Instruction::Sequence(*seq),
            0nat,
{
    proof {
        lemma_keeps_same_peers(exec_ctx@.next_peer_pks);
    }
    proof {
        lemma_free_names_inside((Instruction::Sequence(*seq))@, (*seq.0)@, views(met_folds@));
        lemma_free_names_inside((Instruction::Sequence(*seq))@, (*seq.1)@, views(met_folds@));
    }
    let ghost whole = (Instruction::Sequence(*seq))@;
    let ghost folds = views(met_folds@);
    exec_ctx.subtree_complete = true;
    let ghost start = exec_ctx@;
    let left_result = execute_instruction(&seq.0, met_folds, exec_ctx, trace_ctx, call_service);
    let ghost left = step_of(*exec_ctx, *trace_ctx, left_result);
    if left_result.is_err() || !exec_ctx.subtree_complete {
        proof {
            let oracle = choose|oracle: Oracle|
                allowed(*call_service, oracle) && left == #[trigger] exec_spec(
                    (*seq.0)@,
                    folds,
                    start,
                    old(trace_ctx)@,
                    oracle,
                );
            assert(left == exec_spec(whole, folds, old(exec_ctx)@, old(trace_ctx)@, oracle));
        }
        return left_result;
    }
    let ghost middle = *trace_ctx;
    let ghost middle_peers = exec_ctx@.next_peer_pks;
    let r = execute_instruction(&seq.1, met_folds, exec_ctx, trace_ctx, call_service);
    proof {
        lemma_follows_twice(old(trace_ctx), &middle, trace_ctx);
        lemma_keeps_peers_twice(
            old(exec_ctx)@.next_peer_pks,
            middle_peers,
            exec_ctx@.next_peer_pks,
        );
        let right = step_of(*exec_ctx, *trace_ctx, r);
        let oracle = lemma_stepped_both(
            *call_service,
            (*seq.0)@,
            folds,
            start,
            old(trace_ctx)@,
            left,
            (*seq.1)@,
            folds,
            left.ctx,
            left.trace,
            right,
        );
        assert(right == exec_spec(whole, folds, old(exec_ctx)@, old(trace_ctx)@, oracle));
    }
    r
}

/// Runs a `xor`: the right side where a call of the left side failed.
pub fn execute_xor<'a, F: Fn(String, String, String) -> CallServiceResult>(
    xor: &'a Xor,
    met_folds: &Vec<FoldState<'a>>,
    exec_ctx: &mut ExecutionCtx,
    trace_ctx: &mut ExecutionTraceCtx,
    call_service: &F,
) -> (r: ExecutionResult<()>)
    requires
        folds_valid(views(met_folds@)),
        old(trace_ctx).in_bounds(),
        service_is_total(*call_service),
    ensures
        ran(
            *call_service,
            (Instruction::Xor(*xor))@,
            views(met_folds@),
            *old(exec_ctx),
            *old(trace_ctx),
            *final(exec_ctx),
            *final(trace_ctx),
            r,
        ),
    decreases
            free_names((Instruction::Xor(*xor))@, views(met_folds@)),
            remaining(views(met_folds@)),
            Instruction::Xor(*xor),
            0nat,
{
    proof {
        lemma_keeps_same_peers(exec_ctx@.next_peer_pks);
    }
    proof {
        lemma_free_names_inside((Instruction::Xor(*xor))@, (*xor.0)@, views(met_folds@));
        lemma_free_names_inside((Instruction::Xor(*xor))@, (*xor.1)@, views(met_folds@));
    }
    let ghost whole = (Instruction::Xor(*xor))@;
    let ghost folds = views(met_folds@);
    exec_ctx.subtree_complete = true;
    let ghost start = exec_ctx@;
    let left_result = execute_instruction(&xor.0, met_folds, exec_ctx, trace_ctx, call_service);
    let ghost left = step_of(*exec_ctx, *trace_ctx, left_result);
    match left_result {
        Err(ExecutionError::LocalServiceError(_)) => {
            let ghost middle = *trace_ctx;
            let ghost middle_peers = exec_ctx@.next_peer_pks;
            exec_ctx.subtree_complete = true;
            let ghost retry = exec_ctx@;
            let r = execute_instruction(&xor.1, met_folds, exec_ctx, trace_ctx, call_service);
            proof {
                lemma_follows_twice(old(trace_ctx), &middle, trace_ctx);
                lemma_keeps_peers_twice(
                    old(exec_ctx)@.next_peer_pks,
                    middle_peers,
                    exec_ctx@.next_peer_pks,
                );
                let right = step_of(*exec_ctx, *trace_ctx, r);
                let oracle = lemma_stepped_both(
                    *call_service,
                    (*xor.0)@,
                    folds,
                    start,
                    old(trace_ctx)@,
                    left,
                    (*xor.1)@,
                    folds,
                    retry,
                    left.trace,
                    right,
                );
                assert(right == exec_spec(whole, folds, old(exec_ctx)@, old(trace_ctx)@, oracle));
            }
            r
        },
        res => {
            proof {
                let oracle = choose|oracle: Oracle|
                    allowed(*call_service, oracle) && left == #[trigger] exec_spec(
                        (*xor.0)@,
                        folds,
                        start,
                        old(trace_ctx)@,
                        oracle,
                    );
                assert(left == exec_spec(whole, folds, old(exec_ctx)@, old(trace_ctx)@, oracle));
            }
            res
        },
    }
}

/// Runs a `par`: both sides, each on its own part of the trace, with a
/// header before them that holds the lengths of what they wrote.
pub fn execute_par<'a, F: Fn(String, String, String) -> CallServiceResult>(
    par: &'a Par,
    met_folds: &Vec<FoldState<'a>>,
    exec_ctx: &mut ExecutionCtx,
    trace_ctx: &mut ExecutionTraceCtx,
    call_service: &F,
) -> (r: ExecutionResult<()>)
    requires
        folds_valid(views(met_folds@)),
        old(trace_ctx).in_bounds(),
        service_is_total(*call_service),
    ensures
        ran(
            *call_service,
            (Instruction::Par(*par))@,
            views(met_folds@),
            *old(exec_ctx),
            *old(trace_ctx),
            *final(exec_ctx),
            *final(trace_ctx),
            r,
        ),
    decreases
            free_names((Instruction::Par(*par))@, views(met_folds@)),
            remaining(views(met_folds@)),
            Instruction::Par(*par),
            0nat,
{
    proof {
        lemma_keeps_same_peers(exec_ctx@.next_peer_pks);
    }
    proof {
        lemma_free_names_inside((Instruction::Par(*par))@, (*par.0)@, views(met_folds@));
        lemma_free_names_inside((Instruction::Par(*par))@, (*par.1)@, views(met_folds@));
        lemma_extends_same(trace_view(trace_ctx.new_trace@));
    }
    let ghost whole = (Instruction::Par(*par))@;
    let ghost folds = views(met_folds@);
    let (left_size, right_size, rest) = match extract_subtree_sizes(trace_ctx) {
        Ok(sizes) => sizes,
        Err(e) => {
            proof {
                lemma_stepped_alone(
                    *call_service,
                    whole,
                    folds,
                    old(exec_ctx)@,
                    old(trace_ctx)@,
                    step_of(*exec_ctx, *trace_ctx, Err(e)),
                );
            }
            return Err(e);
        },
    };
    let ghost frame = par_open(old(trace_ctx)@)->Ok_0;
    let ghost start_view = trace_view(trace_ctx.new_trace@);
    let at = trace_ctx.new_trace.len();
    let start = trace_ctx.position;
    // the header is put down first and filled in at the end
    let placeholder = ExecutedState::Par(ParResult(0, 0));
    proof {
        lemma_trace_view_push(trace_ctx.new_trace@, placeholder);
    }
    trace_ctx.new_trace.push(placeholder);
    trace_ctx.current_subtree_size = left_size;
    exec_ctx.subtree_complete = !is_next(&par.0);
    let ghost left_ctx = exec_ctx@;
    let ghost left_start = trace_ctx@;

    let left_result = execute_instruction(&par.0, met_folds, exec_ctx, trace_ctx, call_service);
    let ghost left = step_of(*exec_ctx, *trace_ctx, left_result);
    let ghost middle_view = trace_view(trace_ctx.new_trace@);
    assert(middle_view.len() == trace_ctx.new_trace.len());
    let middle = trace_ctx.new_trace.len();
    if let Err(e) = left_result {
        let header = ExecutedState::Par(ParResult(middle - at - 1, 0));
        proof {
            lemma_trace_view_update(trace_ctx.new_trace@, at as int, header);
            lemma_extends_same(middle_view);
            lemma_extends_par(start_view, middle_view, middle_view, header@);
        }
        trace_ctx.new_trace.set(at, header);
        trace_ctx.position = start + left_size + right_size;
        trace_ctx.current_subtree_size = rest;
        proof {
            let oracle = choose|oracle: Oracle|
                allowed(*call_service, oracle) && left == #[trigger] exec_spec(
                    (*par.0)@,
                    folds,
                    left_ctx,
                    left_start,
                    oracle,
                );
            assert(step_of(*exec_ctx, *trace_ctx, Err(e)) == par_left_failed(frame, left));
            assert(par_left_failed(frame, left) == exec_spec(
                whole,
                folds,
                old(exec_ctx)@,
                old(trace_ctx)@,
                oracle,
            ));
        }
        return Err(e);
    }
    let left_complete = exec_ctx.subtree_complete;
    let ghost middle_peers = exec_ctx@.next_peer_pks;
    trace_ctx.position = start + left_size;
    trace_ctx.current_subtree_size = right_size;
    exec_ctx.subtree_complete = !is_next(&par.1);
    let ghost right_ctx = exec_ctx@;
    let ghost right_start = trace_ctx@;

    let right_result = execute_instruction(&par.1, met_folds, exec_ctx, trace_ctx, call_service);
    let ghost right = step_of(*exec_ctx, *trace_ctx, right_result);
    let ghost end_view = trace_view(trace_ctx.new_trace@);
    assert(end_view.len() == trace_ctx.new_trace.len());
    let end = trace_ctx.new_trace.len();
    let header = ExecutedState::Par(ParResult(middle - at - 1, end - middle));
    proof {
        lemma_trace_view_update(trace_ctx.new_trace@, at as int, header);
        lemma_extends_par(start_view, middle_view, end_view, header@);
        lemma_keeps_peers_twice(
            old(exec_ctx)@.next_peer_pks,
            middle_peers,
            exec_ctx@.next_peer_pks,
        );
    }
    trace_ctx.new_trace.set(at, header);
    trace_ctx.position = start + left_size + right_size;
    trace_ctx.current_subtree_size = rest;
    let r = match right_result {
        Err(e) => Err(e),
        Ok(()) => {
            exec_ctx.subtree_complete = left_complete || exec_ctx.subtree_complete;
            Ok(())
        },
    };
    proof {
        let oracle = lemma_stepped_both(
            *call_service,
            (*par.0)@,
            folds,
            left_ctx,
            left_start,
            left,
            (*par.1)@,
            folds,
            right_ctx,
            right_start,
            right,
        );
        assert(step_of(*exec_ctx, *trace_ctx, r) == par_close(frame, left, right));
        assert(par_close(frame, left, right) == exec_spec(
            whole,
            folds,
            old(exec_ctx)@,
            old(trace_ctx)@,
            oracle,
        ));
    }
    r
}

/// Runs a `fold`: opens the fold and runs its instruction on the first item.
pub fn execute_fold<'a, F: Fn(String, String, String) -> CallServiceResult>(
    fold: &'a Fold,
    met_folds: &Vec<FoldState<'a>>,
    exec_ctx: &mut ExecutionCtx,
    trace_ctx: &mut ExecutionTraceCtx,
    call_service: &F,
) -> (r: ExecutionResult<()>)
    requires
        folds_valid(views(met_folds@)),
        old(trace_ctx).in_bounds(),
        service_is_total(*call_service),
    ensures
        ran(
            *call_service,
            (Instruction::Fold(*fold))@,
            views(met_folds@),
            *old(exec_ctx),
            *old(trace_ctx),
            *final(exec_ctx),
            *final(trace_ctx),
            r,
        ),
    decreases
            free_names((Instruction::Fold(*fold))@, views(met_folds@)),
            remaining(views(met_folds@)),
            Instruction::Fold(*fold),
            0nat,
{
    proof {
        lemma_keeps_same_peers(exec_ctx@.next_peer_pks);
    }
    proof {
        lemma_extends_same(trace_view(trace_ctx.new_trace@));
    }
    let ghost whole = (Instruction::Fold(*fold))@;
    let ghost folds = views(met_folds@);
    let items = match construct_iterable_value(&fold.iterable, exec_ctx, met_folds) {
        Ok(items) => items,
        Err(e) => {
            proof {
                lemma_stepped_alone(
                    *call_service,
                    whole,
                    folds,
                    old(exec_ctx)@,
                    old(trace_ctx)@,
                    step_of(*exec_ctx, *trace_ctx, Err(e)),
                );
            }
            return Err(e);
        },
    };
    if items.len() == 0 {
        exec_ctx.subtree_complete = true;
        proof {
            lemma_stepped_alone(
                *call_service,
                whole,
                folds,
                old(exec_ctx)@,
                old(trace_ctx)@,
                step_of(*exec_ctx, *trace_ctx, Ok(())),
            );
        }
        return Ok(());
    }
    if find_fold(met_folds, &fold.iterator).is_some() || exec_ctx.find_variable(
        &fold.iterator,
    ).is_some() {
        let e = ExecutionError::MultipleVariablesFound(fold.iterator.clone());
        proof {
            lemma_stepped_alone(
                *call_service,
                whole,
                folds,
                old(exec_ctx)@,
                old(trace_ctx)@,
                step_of(*exec_ctx, *trace_ctx, Err(e)),
            );
        }
        return Err(e);
    }
    let mut opened_folds: Vec<FoldState> = copy_folds(met_folds);
    let opened = FoldState {
        iterator: &fold.iterator,
        items: &items,
        position: 0,
        instruction: &fold.instruction,
    };
    proof {
        lemma_views_push(opened_folds@, opened);
        lemma_first_from(iterators(views(met_folds@)), fold.iterator@, 0);
        lemma_fold_decreases((Instruction::Fold(*fold))@, views(met_folds@), opened@);
    }
    opened_folds.push(opened);
    let r = execute_instruction(
        &fold.instruction,
        &opened_folds,
        exec_ctx,
        trace_ctx,
        call_service,
    );
    proof {
        let step = step_of(*exec_ctx, *trace_ctx, r);
        let oracle = choose|oracle: Oracle|
            allowed(*call_service, oracle) && step == #[trigger] exec_spec(
                (*fold.instruction)@,
                views(opened_folds@),
                old(exec_ctx)@,
                old(trace_ctx)@,
                oracle,
            );
        assert(step == exec_spec(whole, folds, old(exec_ctx)@, old(trace_ctx)@, oracle));
    }
    r
}

/// Runs a `next`: the instruction of its fold once more, on the next item.
pub fn execute_next<'a, F: Fn(String, String, String) -> CallServiceResult>(
    next: &'a Next,
    met_folds: &Vec<FoldState<'a>>,
    exec_ctx: &mut ExecutionCtx,
    trace_ctx: &mut ExecutionTraceCtx,
    call_service: &F,
) -> (r: ExecutionResult<()>)
    requires
        folds_valid(views(met_folds@)),
        old(trace_ctx).in_bounds(),
        service_is_total(*call_service),
    ensures
        ran(
            *call_service,
            (Instruction::Next(*next))@,
            views(met_folds@),
            *old(exec_ctx),
            *old(trace_ctx),
            *final(exec_ctx),
            *final(trace_ctx),
            r,
        ),
    decreases
            free_names((Instruction::Next(*next))@, views(met_folds@)),
            remaining(views(met_folds@)),
            Instruction::Next(*next),
            0nat,
{
    proof {
        lemma_keeps_same_peers(exec_ctx@.next_peer_pks);
    }
    proof {
        lemma_extends_same(trace_view(trace_ctx.new_trace@));
    }
    let ghost whole = (Instruction::Next(*next))@;
    let ghost folds = views(met_folds@);
    let i = match find_fold(met_folds, &next.0) {
        Some(i) => i,
        None => {
            let e = ExecutionError::FoldStateNotFound(next.0.clone());
            proof {
                lemma_stepped_alone(
                    *call_service,
                    whole,
                    folds,
                    old(exec_ctx)@,
                    old(trace_ctx)@,
                    step_of(*exec_ctx, *trace_ctx, Err(e)),
                );
            }
            return Err(e);
        },
    };
    let fold = met_folds[i];
    assert(views(met_folds@)[i as int] == fold@);
    assert(fold@.position < fold@.items.len());
    assert(fold@.items.len() == fold.items.len());
    if fold.position >= fold.items.len() - 1 {
        // the fold is at its last item: there is nothing to go on with
        proof {
            lemma_stepped_alone(
                *call_service,
                whole,
                folds,
                old(exec_ctx)@,
                old(trace_ctx)@,
                step_of(*exec_ctx, *trace_ctx, Ok(())),
            );
        }
        return Ok(());
    }
    let mut moved_folds: Vec<FoldState> = copy_folds(met_folds);
    let moved = FoldState { position: fold.position + 1, ..fold };
    proof {
        lemma_views_update(moved_folds@, i as int, moved);
        lemma_next_decreases((Instruction::Next(*next))@, views(met_folds@), i as int);
        assert(moved@ == (FoldStateView { position: fold@.position + 1, ..fold@ }));
    }
    moved_folds.set(i, moved);
    let r = execute_instruction(fold.instruction, &moved_folds, exec_ctx, trace_ctx, call_service);
    proof {
        let step = step_of(*exec_ctx, *trace_ctx, r);
        let oracle = choose|oracle: Oracle|
            allowed(*call_service, oracle) && step == #[trigger] exec_spec(
                (*fold.instruction)@,
                views(moved_folds@),
                old(exec_ctx)@,
                old(trace_ctx)@,
                oracle,
            );
        assert(step == exec_spec(whole, folds, old(exec_ctx)@, old(trace_ctx)@, oracle));
    }
    r
}

/// Whether two values of the script stand for equal JSON values; see
/// [`matches_spec`].
pub fn are_matchable_equal(
    left: &CallArgValue,
    right: &CallArgValue,
    exec_ctx: &ExecutionCtx,
    met_folds: &Vec<FoldState>,
) -> (r: ExecutionResult<bool>)
    requires
        folds_valid(views(met_folds@)),
    ensures
        match r {
            Ok(equal) => matches_spec(left@, right@, exec_ctx@, views(met_folds@)) == Ok::<
                bool,
                ErrorView,
            >(equal),
            Err(e) => matches_spec(left@, right@, exec_ctx@, views(met_folds@)) == Err::<
                bool,
                ErrorView,
            >(e@),
        },
{
    let (left_value, _) = resolve_to_args(left, exec_ctx, met_folds)?;
    let (right_value, _) = resolve_to_args(right, exec_ctx, met_folds)?;
    Ok(left_value.normalized().equals(&right_value.normalized()))
}

/// Runs a `match`: its instruction where the two values are equal.
pub fn execute_match<'a, F: Fn(String, String, String) -> CallServiceResult>(
    m: &'a Match,
    met_folds: &Vec<FoldState<'a>>,
    exec_ctx: &mut ExecutionCtx,
    trace_ctx: &mut ExecutionTraceCtx,
    call_service: &F,
) -> (r: ExecutionResult<()>)
    requires
        folds_valid(views(met_folds@)),
        old(trace_ctx).in_bounds(),
        service_is_total(*call_service),
    ensures
        ran(
            *call_service,
            (Instruction::Match(*m))@,
            views(met_folds@),
            *old(exec_ctx),
            *old(trace_ctx),
            *final(exec_ctx),
            *final(trace_ctx),
            r,
        ),
    decreases
            free_names((Instruction::Match(*m))@, views(met_folds@)),
            remaining(views(met_folds@)),
            Instruction::Match(*m),
            0nat,
{
    proof {
        lemma_keeps_same_peers(exec_ctx@.next_peer_pks);
    }
    proof {
        lemma_extends_same(trace_view(trace_ctx.new_trace@));
        lemma_free_names_inside(
            (Instruction::Match(*m))@,
            (*m.instruction)@,
            views(met_folds@),
        );
    }
    let ghost whole = (Instruction::Match(*m))@;
    let ghost folds = views(met_folds@);
    let equal = match are_matchable_equal(&m.left_value, &m.right_value, exec_ctx, met_folds) {
        Ok(equal) => equal,
        Err(e) => {
            proof {
                lemma_stepped_alone(
                    *call_service,
                    whole,
                    folds,
                    old(exec_ctx)@,
                    old(trace_ctx)@,
                    step_of(*exec_ctx, *trace_ctx, Err(e)),
                );
            }
            return Err(e);
        },
    };
    if equal {
        let r = execute_instruction(&m.instruction, met_folds, exec_ctx, trace_ctx, call_service);
        proof {
            let step = step_of(*exec_ctx, *trace_ctx, r);
            let oracle = choose|oracle: Oracle|
                allowed(*call_service, oracle) && step == #[trigger] exec_spec(
                    (*m.instruction)@,
                    folds,
                    old(exec_ctx)@,
                    old(trace_ctx)@,
                    oracle,
                );
            assert(step == exec_spec(whole, folds, old(exec_ctx)@, old(trace_ctx)@, oracle));
        }
        r
    } else {
        exec_ctx.subtree_complete = true;
        proof {
            lemma_stepped_alone(
                *call_service,
                whole,
                folds,
                old(exec_ctx)@,
                old(trace_ctx)@,
                step_of(*exec_ctx, *trace_ctx, Ok(())),
            );
        }
        Ok(())
    }
}

/// Runs a `mismatch`: its instruction where the two values differ.
pub fn execute_mismatch<'a, F: Fn(String, String, String) -> CallServiceResult>(
    m: &'a MisMatch,
    met_folds: &Vec<FoldState<'a>>,
    exec_ctx: &mut ExecutionCtx,
    trace_ctx: &mut ExecutionTraceCtx,
    call_service: &F,
) -> (r: ExecutionResult<()>)
    requires
        folds_valid(views(met_folds@)),
        old(trace_ctx).in_bounds(),
        service_is_total(*call_service),
    ensures
        ran(
            *call_service,
            (Instruction::MisMatch(*m))@,
            views(met_folds@),
            *old(exec_ctx),
            *old(trace_ctx),
            *final(exec_ctx),
            *final(trace_ctx),
            r,
        ),
    decreases
            free_names((Instruction::MisMatch(*m))@, views(met_folds@)),
            remaining(views(met_folds@)),
            Instruction::MisMatch(*m),
            0nat,
{
    proof {
        lemma_keeps_same_peers(exec_ctx@.next_peer_pks);
    }
    proof {
        lemma_extends_same(trace_view(trace_ctx.new_trace@));
        lemma_free_names_inside(
            (Instruction::MisMatch(*m))@,
            (*m.instruction)@,
            views(met_folds@),
        );
    }
    let ghost whole = (Instruction::MisMatch(*m))@;
    let ghost folds = views(met_folds@);
    let equal = match are_matchable_equal(&m.left_value, &m.right_value, exec_ctx, met_folds) {
        Ok(equal) => equal,
        Err(e) => {
            proof {
                lemma_stepped_alone(
                    *call_service,
                    whole,
                    folds,
                    old(exec_ctx)@,
                    old(trace_ctx)@,
                    step_of(*exec_ctx, *trace_ctx, Err(e)),
                );
            }
            return Err(e);
        },
    };
    if equal {
        exec_ctx.subtree_complete = true;
        proof {
            lemma_stepped_alone(
                *call_service,
                whole,
                folds,
                old(exec_ctx)@,
                old(trace_ctx)@,
                step_of(*exec_ctx, *trace_ctx, Ok(())),
            );
        }
        Ok(())
    } else {
        let r = execute_instruction(&m.instruction, met_folds, exec_ctx, trace_ctx, call_service);
        proof {
            let step = step_of(*exec_ctx, *trace_ctx, r);
            let oracle = choose|oracle: Oracle|
                allowed(*call_service, oracle) && step == #[trigger] exec_spec(
                    (*m.instruction)@,
                    folds,
                    old(exec_ctx)@,
                    old(trace_ctx)@,
                    oracle,
                );
            assert(step == exec_spec(whole, folds, old(exec_ctx)@, old(trace_ctx)@, oracle));
        }
        r
    }
}

} // verus!
