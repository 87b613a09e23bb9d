//! The merge of two traces of one script: at every place the record that
//! knows more, with the sides of each `par` merged on their own.

use crate::ast::Instruction;
use crate::json::json_equal;
use crate::trace::{
    flatten, forest_of, lemma_flatten_forest_of, lemma_forest_of_flatten, lemma_well_formed_step,
    trace_view, well_formed, window, CallResult, CallResultView, ExecutedState, ExecutionTrace,
    Forest, ParResult, StateView,
};
use vstd::prelude::*;

verus! {

/// Why two traces cannot be merged.
#[derive(Debug, PartialEq, Eq)]
pub enum DataMergingError {
    /// At one place the one trace holds a call and the other a `par`.
    IncompatibleExecutedStates(ExecutedState, ExecutedState),
    /// At one place the two traces hold call results that contradict each other.
    IncompatibleCallResults(CallResult, CallResult),
}

/// The mathematical value of a [`DataMergingError`].
pub enum MergeErrorView {
    IncompatibleExecutedStates(StateView, StateView),
    IncompatibleCallResults(CallResultView, CallResultView),
}

impl View for DataMergingError {
    type V = MergeErrorView;

    open spec fn view(&self) -> MergeErrorView {
        match self {
            DataMergingError::IncompatibleExecutedStates(prev, current) => {
                MergeErrorView::IncompatibleExecutedStates(prev@, current@)
            },
            DataMergingError::IncompatibleCallResults(prev, current) => {
                MergeErrorView::IncompatibleCallResults(prev@, current@)
            },
        }
    }
}

/// What a step of the merge gives: a value, or the contradiction that ends
/// it.
pub type MergeResult<T> = Result<T, DataMergingError>;

/// The merge of two results of one call: a request gives way to a result;
/// two requests or two failures must be the same, and two values equal as
/// JSON values; the first of two that agree is kept.
pub open spec fn merge_call_spec(prev: CallResultView, current: CallResultView) -> Result<
    CallResultView,
    MergeErrorView,
> {
    match (prev, current) {
        (CallResultView::RequestSentBy(_), CallResultView::Executed(_)) => Ok(current),
        (CallResultView::RequestSentBy(_), CallResultView::CallServiceFailed(_)) => Ok(current),
        (CallResultView::Executed(_), CallResultView::RequestSentBy(_)) => Ok(prev),
        (CallResultView::CallServiceFailed(_), CallResultView::RequestSentBy(_)) => Ok(prev),
        (CallResultView::Executed(value), CallResultView::Executed(other)) => if json_equal(
            value,
            other,
        ) {
            Ok(prev)
        } else {
            Err(MergeErrorView::IncompatibleCallResults(prev, current))
        },
        _ => if prev == current {
            Ok(prev)
        } else {
            Err(MergeErrorView::IncompatibleCallResults(prev, current))
        },
    }
}

/// The first record of the writing of a forest that is not empty.
pub open spec fn head(f: Forest) -> StateView {
    match f {
        Forest::Nil => StateView::Par(0, 0),
        Forest::Call(call, _) => StateView::Call(call),
        Forest::Par(left, right, _) => StateView::Par(
            flatten(*left).len(),
            flatten(*right).len(),
        ),
    }
}

/// The merge of two forests. Where one has ended the rest of the other is
/// taken; two calls are merged by [`merge_call_spec`]; two `par`s side by
/// side; a call against a `par` is an error. The first error in the order of
/// the trace is the one returned.
pub open spec fn merge_forest(prev: Forest, current: Forest) -> Result<Forest, MergeErrorView>
    decreases prev,
{
    match (prev, current) {
        (Forest::Nil, _) => Ok(current),
        (_, Forest::Nil) => Ok(prev),
        (Forest::Call(p, prev_rest), Forest::Call(c, current_rest)) => {
            match merge_call_spec(p, c) {
                Err(e) => Err(e),
                Ok(call) => match merge_forest(*prev_rest, *current_rest) {
                    Err(e) => Err(e),
                    Ok(rest) => Ok(Forest::Call(call, Box::new(rest))),
                },
            }
        },
        (
            Forest::Par(prev_left, prev_right, prev_rest),
            Forest::Par(current_left, current_right, current_rest),
        ) => {
            match merge_forest(*prev_left, *current_left) {
                Err(e) => Err(e),
                Ok(left) => match merge_forest(*prev_right, *current_right) {
                    Err(e) => Err(e),
                    Ok(right) => match merge_forest(*prev_rest, *current_rest) {
                        Err(e) => Err(e),
                        Ok(rest) => Ok(
                            Forest::Par(Box::new(left), Box::new(right), Box::new(rest)),
                        ),
                    },
                },
            }
        },
        _ => Err(MergeErrorView::IncompatibleExecutedStates(head(prev), head(current))),
    }
}

/// The merge of two well-formed traces: the writing of the merge of the
/// forests they stand for.
#[verifier::opaque]
pub open spec fn merge_spec(prev: Seq<StateView>, current: Seq<StateView>) -> Result<
    Seq<StateView>,
    MergeErrorView,
> {
    match merge_forest(forest_of(prev), forest_of(current)) {
        Ok(f) => Ok(flatten(f)),
        Err(e) => Err(e),
    }
}

/// `r` with `front` put before it, where `r` is a trace.
pub open spec fn prefixed(front: Seq<StateView>, r: Result<Seq<StateView>, MergeErrorView>)
    -> Result<Seq<StateView>, MergeErrorView> {
    match r {
        Ok(s) => Ok(front + s),
        Err(e) => Err(e),
    }
}

/// The part of a trace behind its first `n` records.
pub open spec fn tail(s: Seq<StateView>, n: int) -> Seq<StateView> {
    s.subrange(n, s.len() as int)
}

/// Where one of two well-formed traces is empty, their merge is the other.
pub proof fn lemma_merge_one_empty(prev: Seq<StateView>, current: Seq<StateView>)
    requires
        well_formed(prev),
        well_formed(current),
        prev.len() == 0 || current.len() == 0,
    ensures
        merge_spec(prev, current) == if prev.len() == 0 {
            Ok::<Seq<StateView>, MergeErrorView>(current)
        } else {
            Ok(prev)
        },
{
    reveal(merge_spec);
    lemma_flatten_forest_of(prev);
    lemma_flatten_forest_of(current);
}

/// The merge of two traces that start with a call.
proof fn lemma_merge_calls(prev: Seq<StateView>, current: Seq<StateView>)
    requires
        well_formed(prev),
        well_formed(current),
        prev.len() > 0,
        current.len() > 0,
        prev[0] is Call,
        current[0] is Call,
    ensures
        merge_spec(prev, current) == match merge_call_spec(prev[0]->Call_0, current[0]->Call_0) {
            Err(e) => Err(e),
            Ok(call) => prefixed(
                seq![StateView::Call(call)],
                merge_spec(tail(prev, 1), tail(current, 1)),
            ),
        },
{
    reveal(merge_spec);
}

/// The merge of two traces of which one starts with a call and the other
/// with a `par`.
proof fn lemma_merge_mixed(prev: Seq<StateView>, current: Seq<StateView>)
    requires
        well_formed(prev),
        well_formed(current),
        prev.len() > 0,
        current.len() > 0,
        (prev[0] is Call) != (current[0] is Call),
    ensures
        merge_spec(prev, current) == Err::<Seq<StateView>, MergeErrorView>(
            MergeErrorView::IncompatibleExecutedStates(prev[0], current[0]),
        ),
{
    reveal(merge_spec);
    lemma_head(prev);
    lemma_head(current);
}

/// The forest of a well-formed trace starts with the first record of the
/// trace.
proof fn lemma_head(s: Seq<StateView>)
    requires
        well_formed(s),
        s.len() > 0,
    ensures
        head(forest_of(s)) == s[0],
{
    lemma_well_formed_step(s);
    match s[0] {
        StateView::Call(_) => {},
        StateView::Par(left, right) => {
            let a = left as int;
            let b = right as int;
            lemma_flatten_forest_of(s.subrange(1, 1 + a));
            lemma_flatten_forest_of(s.subrange(1 + a, 1 + a + b));
        },
    }
}

/// The merge of two traces that start with a `par`.
proof fn lemma_merge_pars(prev: Seq<StateView>, current: Seq<StateView>)
    requires
        well_formed(prev),
        well_formed(current),
        prev.len() > 0,
        current.len() > 0,
        prev[0] is Par,
        current[0] is Par,
    ensures
        ({
            let pa = prev[0]->Par_0 as int;
            let pb = prev[0]->Par_1 as int;
            let ca = current[0]->Par_0 as int;
            let cb = current[0]->Par_1 as int;
            merge_spec(prev, current) == match merge_spec(
                prev.subrange(1, 1 + pa),
                current.subrange(1, 1 + ca),
            ) {
                Err(e) => Err(e),
                Ok(left) => match merge_spec(
                    prev.subrange(1 + pa, 1 + pa + pb),
                    current.subrange(1 + ca, 1 + ca + cb),
                ) {
                    Err(e) => Err(e),
                    Ok(right) => prefixed(
                        seq![StateView::Par(left.len(), right.len())] + left + right,
                        merge_spec(tail(prev, 1 + pa + pb), tail(current, 1 + ca + cb)),
                    ),
                },
            }
        }),
{
    reveal(merge_spec);
    lemma_well_formed_step(prev);
    lemma_well_formed_step(current);
    let pa = prev[0]->Par_0 as int;
    let pb = prev[0]->Par_1 as int;
    let ca = current[0]->Par_0 as int;
    let cb = current[0]->Par_1 as int;
    let left = merge_spec(prev.subrange(1, 1 + pa), current.subrange(1, 1 + ca));
    let right = merge_spec(
        prev.subrange(1 + pa, 1 + pa + pb),
        current.subrange(1 + ca, 1 + ca + cb),
    );
    let rest = merge_spec(tail(prev, 1 + pa + pb), tail(current, 1 + ca + cb));
    if left is Ok && right is Ok && rest is Ok {
        assert(merge_spec(prev, current)->Ok_0 =~= seq![
            StateView::Par(left->Ok_0.len(), right->Ok_0.len()),
        ] + left->Ok_0 + right->Ok_0 + rest->Ok_0);
    }
}

/// Merges the results of one call; see [`merge_call_spec`].
pub fn merge_call(prev_call_result: CallResult, current_call_result: CallResult) -> (r:
    MergeResult<CallResult>)
    ensures
        match r {
            Ok(call) => merge_call_spec(prev_call_result@, current_call_result@) == Ok::<
                CallResultView,
                MergeErrorView,
            >(call@),
            Err(e) => merge_call_spec(prev_call_result@, current_call_result@) == Err::<
                CallResultView,
                MergeErrorView,
            >(e@),
        },
{
    let keep_current = match (&prev_call_result, &current_call_result) {
        (CallResult::CallServiceFailed(prev_err_msg), CallResult::CallServiceFailed(err_msg)) => {
            if *prev_err_msg != *err_msg {
                return Err(
                    DataMergingError::IncompatibleCallResults(
                        prev_call_result,
                        current_call_result,
                    ),
                );
            }
            false
        },
        (CallResult::RequestSentBy(_), CallResult::CallServiceFailed(_)) => true,
        (CallResult::CallServiceFailed(_), CallResult::RequestSentBy(_)) => false,
        (CallResult::RequestSentBy(prev_sender), CallResult::RequestSentBy(sender)) => {
            if *prev_sender != *sender {
                return Err(
                    DataMergingError::IncompatibleCallResults(
                        prev_call_result,
                        current_call_result,
                    ),
                );
            }
            false
        },
        (CallResult::RequestSentBy(_), CallResult::Executed(_)) => true,
        (CallResult::Executed(_), CallResult::RequestSentBy(_)) => false,
        (CallResult::Executed(prev_result), CallResult::Executed(result)) => {
            if !prev_result.equals(result) {
                return Err(
                    DataMergingError::IncompatibleCallResults(
                        prev_call_result,
                        current_call_result,
                    ),
                );
            }
            false
        },
        (CallResult::CallServiceFailed(_), CallResult::Executed(_)) => {
            return Err(
                DataMergingError::IncompatibleCallResults(prev_call_result, current_call_result),
            );
        },
        (CallResult::Executed(_), CallResult::CallServiceFailed(_)) => {
            return Err(
                DataMergingError::IncompatibleCallResults(prev_call_result, current_call_result),
            );
        },
    };
    if keep_current {
        Ok(current_call_result)
    } else {
        Ok(prev_call_result)
    }
}

/// Putting two traces before a result, one after the other, is putting both
/// before it.
proof fn lemma_prefixed_twice(
    a: Seq<StateView>,
    b: Seq<StateView>,
    r: Result<Seq<StateView>, MergeErrorView>,
)
    ensures
        prefixed(a, prefixed(b, r)) == prefixed(a + b, r),
{
    if r is Ok {
        assert(a + (b + r->Ok_0) =~= (a + b) + r->Ok_0);
    }
}

/// Behind the header of a `par` at the front of a well-formed subtree lie
/// its left side, its right side and the rest, each well-formed.
proof fn lemma_par_windows(ctx: MergeCtx, par: ParResult)
    requires
        ctx.in_bounds(),
        ctx.subtree_size > 0,
        well_formed(ctx.subtree()),
        ctx.subtree()[0] == StateView::Par(par.0 as nat, par.1 as nat),
    ensures
        par.0 + par.1 <= ctx.subtree_size - 1,
        ctx.subtree().subrange(1, 1 + par.0) == window(
            ctx.trace@,
            ctx.position + 1,
            ctx.position + 1 + par.0,
        ),
        ctx.subtree().subrange(1 + par.0, 1 + par.0 + par.1) == window(
            ctx.trace@,
            ctx.position + 1 + par.0,
            ctx.position + 1 + par.0 + par.1,
        ),
        tail(ctx.subtree(), 1 + par.0 + par.1) == window(
            ctx.trace@,
            ctx.position + 1 + par.0 + par.1,
            ctx.position + ctx.subtree_size,
        ),
        well_formed(ctx.subtree().subrange(1, 1 + par.0)),
        well_formed(ctx.subtree().subrange(1 + par.0, 1 + par.0 + par.1)),
        well_formed(tail(ctx.subtree(), 1 + par.0 + par.1)),
{
    let s = ctx.subtree();
    lemma_well_formed_step(s);
    let p = ctx.position as int;
    let a = par.0 as int;
    let b = par.1 as int;
    assert(s.subrange(1, 1 + a) =~= window(ctx.trace@, p + 1, p + 1 + a));
    assert(s.subrange(1 + a, 1 + a + b) =~= window(ctx.trace@, p + 1 + a, p + 1 + a + b));
    assert(tail(s, 1 + a + b) =~= window(ctx.trace@, p + 1 + a + b, p + ctx.subtree_size));
}

/// The view of a trace with one more record.
proof fn lemma_trace_view_push(trace: Seq<ExecutedState>, state: ExecutedState)
    ensures
        trace_view(trace.push(state)) == trace_view(trace).push(state@),
{
    assert(trace_view(trace.push(state)) =~= trace_view(trace).push(state@));
}

/// The records of `before` stand at the front of `after`, as they were.
pub open spec fn keeps_front(before: Seq<ExecutedState>, after: Seq<ExecutedState>) -> bool {
    &&& before.len() <= after.len()
    &&& after.subrange(0, before.len() as int) == before
}

/// A trace with one more record keeps the front of the trace.
proof fn lemma_keeps_front_push(trace: Seq<ExecutedState>, state: ExecutedState)
    ensures
        keeps_front(trace, trace.push(state)),
{
    assert(trace.push(state).subrange(0, trace.len() as int) =~= trace);
}

/// What keeps the front of a trace that keeps the front of another keeps
/// the front of that one.
proof fn lemma_keeps_front_twice(
    a: Seq<ExecutedState>,
    b: Seq<ExecutedState>,
    c: Seq<ExecutedState>,
)
    requires
        keeps_front(a, b),
        keeps_front(b, c),
    ensures
        keeps_front(a, c),
{
    assert(c.subrange(0, a.len() as int) =~= c.subrange(0, b.len() as int).subrange(
        0,
        a.len() as int,
    ));
}

/// One of the two traces being merged, with the place reached in it and the
/// number of records left in the subtree at hand.
#[derive(Debug, PartialEq, Eq)]
pub struct MergeCtx {
    pub trace: ExecutionTrace,
    pub position: usize,
    pub subtree_size: usize,
}

impl MergeCtx {
    /// The subtree at hand lies inside the trace.
    pub open spec fn in_bounds(&self) -> bool {
        self.position + self.subtree_size <= self.trace.len()
    }

    /// The records left in the subtree at hand.
    pub open spec fn subtree(&self) -> Seq<StateView> {
        window(self.trace@, self.position as int, self.position + self.subtree_size)
    }

    /// Starts at the first record, with the whole trace as the subtree.
    pub fn new(trace: ExecutionTrace) -> (r: MergeCtx)
        ensures
            r.trace == trace,
            r.position == 0,
            r.subtree_size == trace.len(),
            r.in_bounds(),
            r.subtree() == trace_view(trace@),
    {
        let subtree_size = trace.len();
        let r = MergeCtx { trace, position: 0, subtree_size };
        assert(r.subtree() =~= trace_view(trace@));
        r
    }

    /// The next record of the subtree, if one is left.
    pub fn next_subtree_state(&mut self) -> (r: Option<ExecutedState>)
        requires
            old(self).in_bounds(),
        ensures
            final(self).trace == old(self).trace,
            final(self).in_bounds(),
            match r {
                None => old(self).subtree_size == 0 && *final(self) == *old(self),
                Some(state) => old(self).subtree_size > 0 && state@ == old(self).subtree()[0]
                    && final(self).position == old(self).position + 1
                    && final(self).subtree_size == old(self).subtree_size - 1
                    && final(self).subtree() == tail(old(self).subtree(), 1),
            },
    {
        if self.subtree_size == 0 {
            return None;
        }
        let state = self.trace[self.position].clone();
        self.position = self.position + 1;
        self.subtree_size = self.subtree_size - 1;
        assert(self.subtree() =~= tail(old(self).subtree(), 1));
        Some(state)
    }

    /// Moves the rest of the subtree to the end of `out`.
    pub fn drain_subtree_states(&mut self, out: &mut ExecutionTrace)
        requires
            old(self).in_bounds(),
        ensures
            final(self).trace == old(self).trace,
            final(self).position == old(self).position + old(self).subtree_size,
            final(self).subtree_size == 0,
            trace_view(final(out)@) == trace_view(old(out)@) + old(self).subtree(),
            keeps_front(old(out)@, final(out)@),
    {
        let ghost start = trace_view(out@);
        assert(out@.subrange(0, out@.len() as int) =~= out@);
        let ghost whole = self.subtree();
        while self.subtree_size > 0
            invariant
                self.in_bounds(),
                self.trace == old(self).trace,
                self.position + self.subtree_size == old(self).position + old(self).subtree_size,
                self.position >= old(self).position,
                whole == old(self).subtree(),
                trace_view(out@) + self.subtree() == start + whole,
                keeps_front(old(out)@, out@),
            decreases self.subtree_size,
        {
            let ghost before = trace_view(out@);
            let ghost records = out@;
            let ghost left = self.subtree();
            let state = self.trace[self.position].clone();
            proof {
                lemma_trace_view_push(out@, state);
            }
            out.push(state);
            self.position = self.position + 1;
            self.subtree_size = self.subtree_size - 1;
            assert(before.push(left[0]) + self.subtree() =~= before + left);
            assert(out@.subrange(0, old(out)@.len() as int) =~= records.subrange(
                0,
                old(out)@.len() as int,
            ));
        }
        assert(trace_view(out@) =~= start + whole);
    }

    /// The number of records left in the subtree at hand.
    pub fn subtree_size(&self) -> (r: usize)
        ensures
            r == self.subtree_size,
    {
        self.subtree_size
    }

    /// Takes the next `new_size` records as the subtree at hand.
    pub fn set_subtree_size(&mut self, new_size: usize)
        ensures
            final(self).trace == old(self).trace,
            final(self).position == old(self).position,
            final(self).subtree_size == new_size,
    {
        self.subtree_size = new_size;
    }
}

/// Merges the trace that came from the previous hop with the trace that
/// this peer had; the script is kept at hand for diagnostics.
#[derive(Debug, PartialEq, Eq)]
pub struct TraceMerger<'i> {
    pub prev_ctx: MergeCtx,
    pub current_ctx: MergeCtx,
    pub result_trace: ExecutionTrace,
    pub aqua: &'i Instruction,
}

impl<'i> TraceMerger<'i> {
    /// Both subtrees at hand lie inside their traces and are well-formed.
    pub open spec fn ready(&self) -> bool {
        &&& self.prev_ctx.in_bounds()
        &&& self.current_ctx.in_bounds()
        &&& well_formed(self.prev_ctx.subtree())
        &&& well_formed(self.current_ctx.subtree())
    }

    /// Across a step both traces are the same, `prev` has gone `prev_used`
    /// records on and `current` `current_used`.
    pub open spec fn advanced(&self, before: &Self, prev_used: int, current_used: int) -> bool {
        &&& self.aqua == before.aqua
        &&& self.prev_ctx.trace == before.prev_ctx.trace
        &&& self.current_ctx.trace == before.current_ctx.trace
        &&& self.prev_ctx.position == before.prev_ctx.position + prev_used
        &&& self.current_ctx.position == before.current_ctx.position + current_used
        &&& self.prev_ctx.subtree_size == before.prev_ctx.subtree_size - prev_used
        &&& self.current_ctx.subtree_size == before.current_ctx.subtree_size - current_used
    }

    /// The merger of two well-formed traces.
    pub fn new(prev_trace: ExecutionTrace, current_trace: ExecutionTrace, aqua: &'i Instruction)
        -> (r: Self)
        requires
            well_formed(trace_view(prev_trace@)),
            well_formed(trace_view(current_trace@)),
        ensures
            r.ready(),
            r.prev_ctx.subtree() == trace_view(prev_trace@),
            r.current_ctx.subtree() == trace_view(current_trace@),
            r.result_trace@.len() == 0,
            r.aqua == aqua,
    {
        let prev_ctx = MergeCtx::new(prev_trace);
        let current_ctx = MergeCtx::new(current_trace);
        TraceMerger { prev_ctx, current_ctx, result_trace: Vec::new(), aqua }
    }

    /// The merged trace, or the first contradiction between the two; see
    /// [`merge_spec`].
    pub fn merge(self) -> (r: MergeResult<ExecutionTrace>)
        requires
            self.ready(),
            self.result_trace@.len() == 0,
        ensures
            match r {
                Ok(trace) => merge_spec(self.prev_ctx.subtree(), self.current_ctx.subtree())
                    == Ok::<Seq<StateView>, MergeErrorView>(trace_view(trace@)),
                Err(e) => merge_spec(self.prev_ctx.subtree(), self.current_ctx.subtree())
                    == Err::<Seq<StateView>, MergeErrorView>(e@),
            },
    {
        let mut merger = self;
        assert(trace_view(merger.result_trace@) =~= Seq::empty());
        match merger.merge_subtree() {
            Ok(()) => {
                assert(trace_view(merger.result_trace@) =~= merge_spec(
                    self.prev_ctx.subtree(),
                    self.current_ctx.subtree(),
                )->Ok_0);
                Ok(merger.result_trace)
            },
            Err(e) => Err(e),
        }
    }

    /// Merges the two subtrees at hand to the end of the result. Whether
    /// the merge succeeds or not, the records that the result held before
    /// stay at its front.
    pub fn merge_subtree(&mut self) -> (r: MergeResult<()>)
        requires
            old(self).ready(),
        ensures
            keeps_front(old(self).result_trace@, final(self).result_trace@),
            match r {
                Ok(()) => {
                    let merged = merge_spec(
                        old(self).prev_ctx.subtree(),
                        old(self).current_ctx.subtree(),
                    );
                    &&& merged is Ok
                    &&& trace_view(final(self).result_trace@) == trace_view(
                        old(self).result_trace@,
                    ) + merged->Ok_0
                    &&& final(self).advanced(
                        old(self),
                        old(self).prev_ctx.subtree_size as int,
                        old(self).current_ctx.subtree_size as int,
                    )
                },
                Err(e) => merge_spec(old(self).prev_ctx.subtree(), old(self).current_ctx.subtree())
                    == Err::<Seq<StateView>, MergeErrorView>(e@),
            },
        decreases old(self).prev_ctx.subtree_size + old(self).current_ctx.subtree_size, 0nat,
    {
        let ghost goal = merge_spec(self.prev_ctx.subtree(), self.current_ctx.subtree());
        let ghost base = trace_view(self.result_trace@);
        let ghost mut done: Seq<StateView> = Seq::empty();
        assert(base + done =~= base);
        assert(self.result_trace@.subrange(0, self.result_trace@.len() as int)
            =~= self.result_trace@);
        loop
            invariant
                self.ready(),
                keeps_front(old(self).result_trace@, self.result_trace@),
                base == trace_view(old(self).result_trace@),
                goal == merge_spec(old(self).prev_ctx.subtree(), old(self).current_ctx.subtree()),
                self.prev_ctx.subtree_size <= old(self).prev_ctx.subtree_size,
                self.current_ctx.subtree_size <= old(self).current_ctx.subtree_size,
                self.advanced(
                    old(self),
                    old(self).prev_ctx.subtree_size - self.prev_ctx.subtree_size,
                    old(self).current_ctx.subtree_size - self.current_ctx.subtree_size,
                ),
                trace_view(self.result_trace@) == base + done,
                goal == prefixed(
                    done,
                    merge_spec(self.prev_ctx.subtree(), self.current_ctx.subtree()),
                ),
            decreases self.prev_ctx.subtree_size + self.current_ctx.subtree_size,
        {
            let ghost prev = self.prev_ctx.subtree();
            let ghost current = self.current_ctx.subtree();
            let ghost prev_ctx = self.prev_ctx;
            let ghost current_ctx = self.current_ctx;
            let prev_state = self.prev_ctx.next_subtree_state();
            let current_state = self.current_ctx.next_subtree_state();
            match (prev_state, current_state) {
                (Some(ExecutedState::Call(prev_call)), Some(ExecutedState::Call(call))) => {
                    proof {
                        lemma_merge_calls(prev, current);
                        lemma_well_formed_step(prev);
                        lemma_well_formed_step(current);
                    }
                    let resulted_call = merge_call(prev_call, call)?;
                    let state = ExecutedState::Call(resulted_call);
                    proof {
                        lemma_trace_view_push(self.result_trace@, state);
                        lemma_prefixed_twice(
                            done,
                            seq![state@],
                            merge_spec(tail(prev, 1), tail(current, 1)),
                        );
                        assert((base + done).push(state@) =~= base + (done + seq![state@]));
                        done = done + seq![state@];
                    }
                    let ghost before = self.result_trace@;
                    self.result_trace.push(state);
                    proof {
                        lemma_keeps_front_push(before, state);
                        lemma_keeps_front_twice(
                            old(self).result_trace@,
                            before,
                            self.result_trace@,
                        );
                    }
                },
                (Some(ExecutedState::Par(prev_par)), Some(ExecutedState::Par(current_par))) => {
                    proof {
                        lemma_merge_pars(prev, current);
                        lemma_par_windows(prev_ctx, prev_par);
                        lemma_par_windows(current_ctx, current_par);
                    }
                    let ghost mid = *self;
                    let par_result = self.merge_par(prev_par, current_par);
                    proof {
                        lemma_keeps_front_twice(
                            old(self).result_trace@,
                            mid.result_trace@,
                            self.result_trace@,
                        );
                    }
                    if let Err(e) = par_result {
                        return Err(e);
                    }
                    proof {
                        let left = merge_spec(
                            mid.prev_left(prev_par),
                            mid.current_left(current_par),
                        )->Ok_0;
                        let right = merge_spec(
                            mid.prev_right(prev_par),
                            mid.current_right(current_par),
                        )->Ok_0;
                        let added = seq![StateView::Par(left.len(), right.len())] + left + right;
                        lemma_prefixed_twice(
                            done,
                            added,
                            merge_spec(
                                tail(prev, 1 + prev_par.0 + prev_par.1),
                                tail(current, 1 + current_par.0 + current_par.1),
                            ),
                        );
                        assert((base + done) + added =~= base + (done + added));
                        done = done + added;
                    }
                },
                (None, Some(s)) => {
                    proof {
                        lemma_merge_one_empty(prev, current);
                        lemma_trace_view_push(self.result_trace@, s);
                    }
                    let ghost before = self.result_trace@;
                    self.result_trace.push(s);
                    let ghost pushed = self.result_trace@;
                    self.current_ctx.drain_subtree_states(&mut self.result_trace);
                    proof {
                        lemma_keeps_front_push(before, s);
                        lemma_keeps_front_twice(old(self).result_trace@, before, pushed);
                        lemma_keeps_front_twice(
                            old(self).result_trace@,
                            pushed,
                            self.result_trace@,
                        );
                    }
                    assert(current =~= seq![s@] + tail(current, 1));
                    assert(trace_view(self.result_trace@) =~= base + (done + current));
                    return Ok(());
                },
                (Some(s), None) => {
                    proof {
                        lemma_merge_one_empty(prev, current);
                        lemma_trace_view_push(self.result_trace@, s);
                    }
                    let ghost before = self.result_trace@;
                    self.result_trace.push(s);
                    let ghost pushed = self.result_trace@;
                    self.prev_ctx.drain_subtree_states(&mut self.result_trace);
                    proof {
                        lemma_keeps_front_push(before, s);
                        lemma_keeps_front_twice(old(self).result_trace@, before, pushed);
                        lemma_keeps_front_twice(
                            old(self).result_trace@,
                            pushed,
                            self.result_trace@,
                        );
                    }
                    assert(prev =~= seq![s@] + tail(prev, 1));
                    assert(trace_view(self.result_trace@) =~= base + (done + prev));
                    return Ok(());
                },
                (None, None) => {
                    proof {
                        lemma_merge_one_empty(prev, current);
                    }
                    assert(done + current =~= done);
                    return Ok(());
                },
                (Some(prev_state), Some(current_state)) => {
                    proof {
                        lemma_merge_mixed(prev, current);
                    }
                    return Err(
                        DataMergingError::IncompatibleExecutedStates(prev_state, current_state),
                    );
                },
            }
        }
    }

    /// Merges the two sides of a `par` whose headers were just taken: a
    /// header is put down, the left sides are merged behind it, then the
    /// right sides, and the header is given the lengths that came out.
    /// Whether the merge succeeds or not, the records that the result held
    /// before stay at its front.
    pub fn merge_par(&mut self, prev_par: ParResult, current_par: ParResult) -> (r: MergeResult<
        (),
    >)
        requires
            old(self).prev_ctx.in_bounds(),
            old(self).current_ctx.in_bounds(),
            prev_par.0 + prev_par.1 <= old(self).prev_ctx.subtree_size,
            current_par.0 + current_par.1 <= old(self).current_ctx.subtree_size,
            well_formed(old(self).prev_left(prev_par)),
            well_formed(old(self).prev_right(prev_par)),
            well_formed(old(self).prev_rest(prev_par)),
            well_formed(old(self).current_left(current_par)),
            well_formed(old(self).current_right(current_par)),
            well_formed(old(self).current_rest(current_par)),
        ensures
            keeps_front(old(self).result_trace@, final(self).result_trace@),
            match r {
                Ok(()) => {
                    let left = merge_spec(
                        old(self).prev_left(prev_par),
                        old(self).current_left(current_par),
                    );
                    let right = merge_spec(
                        old(self).prev_right(prev_par),
                        old(self).current_right(current_par),
                    );
                    &&& left is Ok
                    &&& right is Ok
                    &&& trace_view(final(self).result_trace@) == trace_view(
                        old(self).result_trace@,
                    ) + (seq![StateView::Par(left->Ok_0.len(), right->Ok_0.len())] + left->Ok_0
                        + right->Ok_0)
                    &&& final(self).advanced(
                        old(self),
                        prev_par.0 + prev_par.1,
                        current_par.0 + current_par.1,
                    )
                    &&& final(self).ready()
                },
                Err(e) => {
                    let left = merge_spec(
                        old(self).prev_left(prev_par),
                        old(self).current_left(current_par),
                    );
                    let right = merge_spec(
                        old(self).prev_right(prev_par),
                        old(self).current_right(current_par),
                    );
                    left == Err::<Seq<StateView>, MergeErrorView>(e@) || (left is Ok && right
                        == Err::<Seq<StateView>, MergeErrorView>(e@))
                },
            },
        decreases prev_par.0 + prev_par.1 + current_par.0 + current_par.1, 1nat,
    {
        let prev_subtree_size = self.prev_ctx.subtree_size();
        let current_subtree_size = self.current_ctx.subtree_size();
        let ghost base = trace_view(self.result_trace@);

        let par_position = self.result_trace.len();
        // the header is put down first and filled in at the end
        let placeholder = ExecutedState::Par(ParResult(0, 0));
        proof {
            lemma_trace_view_push(self.result_trace@, placeholder);
        }
        self.result_trace.push(placeholder);
        let len_before_merge = self.result_trace.len();
        let ghost opened = self.result_trace@;
        assert(opened.subrange(0, old(self).result_trace@.len() as int)
            =~= old(self).result_trace@);

        self.prev_ctx.set_subtree_size(prev_par.0);
        self.current_ctx.set_subtree_size(current_par.0);
        let left_result = self.merge_subtree();
        proof {
            lemma_keeps_front_twice(old(self).result_trace@, opened, self.result_trace@);
        }
        if let Err(e) = left_result {
            return Err(e);
        }
        assert(trace_view(self.result_trace@).len() == self.result_trace@.len());
        let left_par_size = self.result_trace.len() - len_before_merge;
        let ghost left = merge_spec(
            old(self).prev_left(prev_par),
            old(self).current_left(current_par),
        )->Ok_0;
        assert(trace_view(self.result_trace@) == base.push(placeholder@) + left);

        self.prev_ctx.set_subtree_size(prev_par.1);
        self.current_ctx.set_subtree_size(current_par.1);
        let ghost middle = self.result_trace@;
        let right_result = self.merge_subtree();
        proof {
            lemma_keeps_front_twice(old(self).result_trace@, middle, self.result_trace@);
        }
        if let Err(e) = right_result {
            return Err(e);
        }
        assert(trace_view(self.result_trace@).len() == self.result_trace@.len());
        let right_par_size = self.result_trace.len() - left_par_size - len_before_merge;
        let ghost right = merge_spec(
            old(self).prev_right(prev_par),
            old(self).current_right(current_par),
        )->Ok_0;
        let ghost filled = trace_view(self.result_trace@);
        assert(filled == base.push(placeholder@) + left + right);

        let header = ExecutedState::Par(ParResult(left_par_size, right_par_size));
        let ghost records = self.result_trace@;
        self.result_trace.set(par_position, header);
        assert(self.result_trace@.subrange(0, old(self).result_trace@.len() as int)
            =~= records.subrange(0, old(self).result_trace@.len() as int));

        self.prev_ctx.set_subtree_size(prev_subtree_size - prev_par.0 - prev_par.1);
        self.current_ctx.set_subtree_size(current_subtree_size - current_par.0 - current_par.1);
        proof {
            let now = trace_view(self.result_trace@);
            assert(now =~= filled.update(base.len() as int, header@));
            assert(now =~= base + (seq![header@] + left + right));
        }
        Ok(())
    }

    /// The left side of `prev`'s `par`, whose header was just taken.
    pub open spec fn prev_left(&self, par: ParResult) -> Seq<StateView> {
        window(self.prev_ctx.trace@, self.prev_ctx.position as int, self.prev_ctx.position + par.0)
    }

    /// The right side of `prev`'s `par`.
    pub open spec fn prev_right(&self, par: ParResult) -> Seq<StateView> {
        window(
            self.prev_ctx.trace@,
            self.prev_ctx.position + par.0,
            self.prev_ctx.position + par.0 + par.1,
        )
    }

    /// What follows `prev`'s `par` in the subtree at hand.
    pub open spec fn prev_rest(&self, par: ParResult) -> Seq<StateView> {
        window(
            self.prev_ctx.trace@,
            self.prev_ctx.position + par.0 + par.1,
            self.prev_ctx.position + self.prev_ctx.subtree_size,
        )
    }

    /// The left side of `current`'s `par`, whose header was just taken.
    pub open spec fn current_left(&self, par: ParResult) -> Seq<StateView> {
        window(
            self.current_ctx.trace@,
            self.current_ctx.position as int,
            self.current_ctx.position + par.0,
        )
    }

    /// The right side of `current`'s `par`.
    pub open spec fn current_right(&self, par: ParResult) -> Seq<StateView> {
        window(
            self.current_ctx.trace@,
            self.current_ctx.position + par.0,
            self.current_ctx.position + par.0 + par.1,
        )
    }

    /// What follows `current`'s `par` in the subtree at hand.
    pub open spec fn current_rest(&self, par: ParResult) -> Seq<StateView> {
        window(
            self.current_ctx.trace@,
            self.current_ctx.position + par.0 + par.1,
            self.current_ctx.position + self.current_ctx.subtree_size,
        )
    }
}

/// A forest merged with itself is that forest.
proof fn lemma_merge_forest_same(f: Forest)
    ensures
        merge_forest(f, f) == Ok::<Forest, MergeErrorView>(f),
    decreases f,
{
    match f {
        Forest::Nil => {},
        Forest::Call(_, rest) => {
            lemma_merge_forest_same(*rest);
        },
        Forest::Par(left, right, rest) => {
            lemma_merge_forest_same(*left);
            lemma_merge_forest_same(*right);
            lemma_merge_forest_same(*rest);
        },
    }
}

/// Two results of a call are equal: the same request or the same failure,
/// or two values that are equal as JSON values.
pub open spec fn call_equal(a: CallResultView, b: CallResultView) -> bool {
    match (a, b) {
        (CallResultView::Executed(value), CallResultView::Executed(other)) => json_equal(
            value,
            other,
        ),
        _ => a == b,
    }
}

/// Two records are equal: the same header, or equal results of a call.
pub open spec fn state_equal(a: StateView, b: StateView) -> bool {
    match (a, b) {
        (StateView::Call(first), StateView::Call(second)) => call_equal(first, second),
        _ => a == b,
    }
}

/// Two traces are equal: they have the same length and equal records at
/// every place.
pub open spec fn trace_equal(a: Seq<StateView>, b: Seq<StateView>) -> bool {
    &&& a.len() == b.len()
    &&& forall|i: int| 0 <= i < a.len() ==> state_equal(#[trigger] a[i], b[i])
}

/// Two forests are equal: they have the same shape and equal results at
/// every call.
pub open spec fn forest_equal(a: Forest, b: Forest) -> bool
    decreases a,
{
    match (a, b) {
        (Forest::Nil, Forest::Nil) => true,
        (Forest::Call(first, a_rest), Forest::Call(second, b_rest)) => call_equal(first, second)
            && forest_equal(*a_rest, *b_rest),
        (Forest::Par(a_left, a_right, a_rest), Forest::Par(b_left, b_right, b_rest)) => {
            forest_equal(*a_left, *b_left) && forest_equal(*a_right, *b_right) && forest_equal(
                *a_rest,
                *b_rest,
            )
        },
        _ => false,
    }
}

/// A forest is equal to itself.
proof fn lemma_forest_equal_same(f: Forest)
    ensures
        forest_equal(f, f),
    decreases f,
{
    match f {
        Forest::Nil => {},
        Forest::Call(_, rest) => {
            lemma_forest_equal_same(*rest);
        },
        Forest::Par(left, right, rest) => {
            lemma_forest_equal_same(*left);
            lemma_forest_equal_same(*right);
            lemma_forest_equal_same(*rest);
        },
    }
}

/// Equal forests are written as equal traces.
proof fn lemma_forest_equal_flatten(a: Forest, b: Forest)
    requires
        forest_equal(a, b),
    ensures
        trace_equal(flatten(a), flatten(b)),
    decreases a,
{
    match (a, b) {
        (Forest::Call(_, a_rest), Forest::Call(_, b_rest)) => {
            lemma_forest_equal_flatten(*a_rest, *b_rest);
        },
        (Forest::Par(a_left, a_right, a_rest), Forest::Par(b_left, b_right, b_rest)) => {
            lemma_forest_equal_flatten(*a_left, *b_left);
            lemma_forest_equal_flatten(*a_right, *b_right);
            lemma_forest_equal_flatten(*a_rest, *b_rest);
        },
        _ => {},
    }
}

/// Where the merge of two forests succeeds, the merge the other way round
/// succeeds with an equal forest.
proof fn lemma_merge_forest_swap(a: Forest, b: Forest)
    requires
        merge_forest(a, b) is Ok,
    ensures
        merge_forest(b, a) is Ok,
        forest_equal(merge_forest(b, a)->Ok_0, merge_forest(a, b)->Ok_0),
    decreases a,
{
    match (a, b) {
        (Forest::Call(_, a_rest), Forest::Call(_, b_rest)) => {
            lemma_merge_forest_swap(*a_rest, *b_rest);
        },
        (Forest::Par(a_left, a_right, a_rest), Forest::Par(b_left, b_right, b_rest)) => {
            lemma_merge_forest_swap(*a_left, *b_left);
            lemma_merge_forest_swap(*a_right, *b_right);
            lemma_merge_forest_swap(*a_rest, *b_rest);
        },
        _ => {
            lemma_forest_equal_same(a);
            lemma_forest_equal_same(b);
        },
    }
}

/// Where all four merges succeed, three forests merged from the left are the
/// three merged from the right.
proof fn lemma_merge_forest_regroup(a: Forest, b: Forest, c: Forest)
    requires
        merge_forest(a, b) is Ok,
        merge_forest(b, c) is Ok,
        merge_forest(merge_forest(a, b)->Ok_0, c) is Ok,
        merge_forest(a, merge_forest(b, c)->Ok_0) is Ok,
    ensures
        merge_forest(merge_forest(a, b)->Ok_0, c) == merge_forest(a, merge_forest(b, c)->Ok_0),
    decreases a,
{
    match (a, b, c) {
        (Forest::Call(_, a_rest), Forest::Call(_, b_rest), Forest::Call(_, c_rest)) => {
            lemma_merge_forest_regroup(*a_rest, *b_rest, *c_rest);
        },
        (
            Forest::Par(a_left, a_right, a_rest),
            Forest::Par(b_left, b_right, b_rest),
            Forest::Par(c_left, c_right, c_rest),
        ) => {
            lemma_merge_forest_regroup(*a_left, *b_left, *c_left);
            lemma_merge_forest_regroup(*a_right, *b_right, *c_right);
            lemma_merge_forest_regroup(*a_rest, *b_rest, *c_rest);
        },
        _ => {},
    }
}

/// A merge that succeeds gives a well-formed trace: behind the header of
/// every `par` in it stand as many records as the header says, the left
/// side first, and each side divides in the same way.
pub proof fn lemma_merge_well_formed(prev: Seq<StateView>, current: Seq<StateView>)
    requires
        merge_spec(prev, current) is Ok,
    ensures
        well_formed(merge_spec(prev, current)->Ok_0),
{
    reveal(merge_spec);
    lemma_forest_of_flatten(merge_forest(forest_of(prev), forest_of(current))->Ok_0);
}

/// A well-formed trace merged with itself is that trace.
pub proof fn lemma_merge_idempotent(trace: Seq<StateView>)
    requires
        well_formed(trace),
    ensures
        merge_spec(trace, trace) == Ok::<Seq<StateView>, MergeErrorView>(trace),
{
    reveal(merge_spec);
    lemma_merge_forest_same(forest_of(trace));
    lemma_flatten_forest_of(trace);
}

/// Where the merge of two traces succeeds, the merge the other way round
/// succeeds with an equal trace: the same headers, requests and failures,
/// and values that are equal as JSON values.
pub proof fn lemma_merge_commutative(x: Seq<StateView>, y: Seq<StateView>)
    requires
        merge_spec(x, y) is Ok,
    ensures
        merge_spec(y, x) is Ok,
        trace_equal(merge_spec(y, x)->Ok_0, merge_spec(x, y)->Ok_0),
{
    reveal(merge_spec);
    lemma_merge_forest_swap(forest_of(x), forest_of(y));
    lemma_forest_equal_flatten(
        merge_forest(forest_of(y), forest_of(x))->Ok_0,
        merge_forest(forest_of(x), forest_of(y))->Ok_0,
    );
}

/// Where all four merges succeed, merging three traces from the left gives
/// what merging them from the right gives.
pub proof fn lemma_merge_associative(x: Seq<StateView>, y: Seq<StateView>, z: Seq<StateView>)
    requires
        merge_spec(x, y) is Ok,
        merge_spec(y, z) is Ok,
        merge_spec(merge_spec(x, y)->Ok_0, z) is Ok,
        merge_spec(x, merge_spec(y, z)->Ok_0) is Ok,
    ensures
        merge_spec(merge_spec(x, y)->Ok_0, z) == merge_spec(x, merge_spec(y, z)->Ok_0),
{
    reveal(merge_spec);
    let xy = merge_forest(forest_of(x), forest_of(y))->Ok_0;
    let yz = merge_forest(forest_of(y), forest_of(z))->Ok_0;
    lemma_forest_of_flatten(xy);
    lemma_forest_of_flatten(yz);
    lemma_merge_forest_regroup(forest_of(x), forest_of(y), forest_of(z));
}

/// One result of a call holds what another holds: the two are equal, or
/// the other is a request and this one is the result that came for it.
pub open spec fn call_covers(merged: CallResultView, given: CallResultView) -> bool {
    call_equal(merged, given) || (given is RequestSentBy && !(merged is RequestSentBy))
}

/// One forest holds what another holds: wherever the other has a record,
/// this one has a record at the same place, the same header for a header
/// and for a call a result that holds what the other's holds.
pub open spec fn forest_covers(merged: Forest, given: Forest) -> bool
    decreases given,
{
    match (merged, given) {
        (_, Forest::Nil) => true,
        (Forest::Call(first, m_rest), Forest::Call(second, g_rest)) => call_covers(first, second)
            && forest_covers(*m_rest, *g_rest),
        (Forest::Par(m_left, m_right, m_rest), Forest::Par(g_left, g_right, g_rest)) => {
            forest_covers(*m_left, *g_left) && forest_covers(*m_right, *g_right) && forest_covers(
                *m_rest,
                *g_rest,
            )
        },
        _ => false,
    }
}

/// One trace holds what another holds; see [`forest_covers`].
pub open spec fn trace_covers(merged: Seq<StateView>, given: Seq<StateView>) -> bool {
    forest_covers(forest_of(merged), forest_of(given))
}

/// A forest holds what it holds.
proof fn lemma_forest_covers_same(f: Forest)
    ensures
        forest_covers(f, f),
    decreases f,
{
    match f {
        Forest::Nil => {},
        Forest::Call(_, rest) => {
            lemma_forest_covers_same(*rest);
        },
        Forest::Par(left, right, rest) => {
            lemma_forest_covers_same(*left);
            lemma_forest_covers_same(*right);
            lemma_forest_covers_same(*rest);
        },
    }
}

/// A forest that holds what another holds is written with at least as many
/// records.
proof fn lemma_forest_covers_length(merged: Forest, given: Forest)
    requires
        forest_covers(merged, given),
    ensures
        flatten(given).len() <= flatten(merged).len(),
    decreases given,
{
    match (merged, given) {
        (Forest::Call(_, m_rest), Forest::Call(_, g_rest)) => {
            lemma_forest_covers_length(*m_rest, *g_rest);
        },
        (Forest::Par(m_left, m_right, m_rest), Forest::Par(g_left, g_right, g_rest)) => {
            lemma_forest_covers_length(*m_left, *g_left);
            lemma_forest_covers_length(*m_right, *g_right);
            lemma_forest_covers_length(*m_rest, *g_rest);
        },
        _ => {},
    }
}

/// The merge of two forests holds what each of them holds.
proof fn lemma_merge_forest_covers(a: Forest, b: Forest)
    requires
        merge_forest(a, b) is Ok,
    ensures
        forest_covers(merge_forest(a, b)->Ok_0, a),
        forest_covers(merge_forest(a, b)->Ok_0, b),
    decreases a,
{
    match (a, b) {
        (Forest::Call(_, a_rest), Forest::Call(_, b_rest)) => {
            lemma_merge_forest_covers(*a_rest, *b_rest);
        },
        (Forest::Par(a_left, a_right, a_rest), Forest::Par(b_left, b_right, b_rest)) => {
            lemma_merge_forest_covers(*a_left, *b_left);
            lemma_merge_forest_covers(*a_right, *b_right);
            lemma_merge_forest_covers(*a_rest, *b_rest);
        },
        _ => {
            lemma_forest_covers_same(a);
            lemma_forest_covers_same(b);
        },
    }
}

/// A merge drops nothing and takes nothing back: where the merge of two
/// well-formed traces succeeds, the merged trace is at least as long as
/// each of the two, and it holds what each of them holds: at the place of
/// each of their records it has the same header, or the same result of the
/// call, or the result that came for a request.
pub proof fn lemma_merge_covers(x: Seq<StateView>, y: Seq<StateView>)
    requires
        well_formed(x),
        well_formed(y),
        merge_spec(x, y) is Ok,
    ensures
        x.len() <= merge_spec(x, y)->Ok_0.len(),
        y.len() <= merge_spec(x, y)->Ok_0.len(),
        trace_covers(merge_spec(x, y)->Ok_0, x),
        trace_covers(merge_spec(x, y)->Ok_0, y),
{
    reveal(merge_spec);
    let merged = merge_forest(forest_of(x), forest_of(y))->Ok_0;
    lemma_merge_forest_covers(forest_of(x), forest_of(y));
    lemma_forest_covers_length(merged, forest_of(x));
    lemma_forest_covers_length(merged, forest_of(y));
    lemma_flatten_forest_of(x);
    lemma_flatten_forest_of(y);
    lemma_forest_of_flatten(merged);
}

} // verus!
