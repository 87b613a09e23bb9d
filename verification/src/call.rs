//! The execution of one `call`: replayed from the trace where the trace
//! holds its result, made where it belongs to this peer, and sent on
//! otherwise. What the service replies is not known before it is called: an
//! oracle stands for the replies in the course of a hop.

use crate::ast::{Call, CallArgValue, CallView, ValueView};
use crate::binding::{bind_spec, set_local_call_result, with_complete};
use crate::context::{
    keeps_peers, lemma_keeps_same_peers, lemma_keeps_with_peer, with_peer, CtxView, ErrorView,
    ExecutionCtx, ExecutionError, ExecutionResult, FoldState, FoldStateView, ResolvedCallResult,
    ResolvedTriplet, ResolvedView, TripletView,
};
use crate::json::{json_parse, json_text, values_view, JValue, JValueView};
use crate::lists::views;
use crate::resolve::{
    folds_valid, resolve_to_args, resolve_to_args_spec, resolve_triplet_spec, triplet_spec, Triplet,
};
use crate::trace::{
    extends_well, lemma_extends_call, lemma_extends_same, lemma_extends_twice, trace_view,
    CallResult, CallResultView, ExecutedState, ExecutionTrace, StateView,
};
use vstd::prelude::*;
use vstd::string::StringExecFns;

verus! {

/// The return code of a service that did what it was called for.
pub const CALL_SERVICE_SUCCESS: i32 = 0;

/// What the call of a service gave: a return code, and a text that is the
/// result as JSON where the code is [`CALL_SERVICE_SUCCESS`], else a message.
#[derive(Debug, PartialEq, Eq)]
pub struct CallServiceResult {
    pub ret_code: i32,
    pub result: String,
}

/// The mathematical value of a [`CallServiceResult`].
pub struct ReplyView {
    pub ret_code: i32,
    pub result: Seq<char>,
}

impl View for CallServiceResult {
    type V = ReplyView;

    open spec fn view(&self) -> ReplyView {
        ReplyView { ret_code: self.ret_code, result: self.result@ }
    }
}

/// What a service replies in the course of one hop: the reply to the call
/// that is made when the new trace holds so many records, with a service
/// id, a function name and the JSON text of the arguments.
pub type Oracle = spec_fn(int, Seq<char>, Seq<char>, Seq<char>) -> ReplyView;

/// Whether `call_service` may give `reply` when called with these texts.
pub open spec fn may_reply<F: Fn(String, String, String) -> CallServiceResult>(
    call_service: F,
    service_id: Seq<char>,
    function_name: Seq<char>,
    args: Seq<char>,
    reply: ReplyView,
) -> bool {
    exists|a: String, b: String, c: String, r: CallServiceResult|
        a@ == service_id && b@ == function_name && c@ == args && #[trigger] call_ensures(
            call_service,
            (a, b, c),
            r,
        ) && r@ == reply
}

/// A reply that `call_service` may give to these texts.
pub open spec fn service_reply<F: Fn(String, String, String) -> CallServiceResult>(
    call_service: F,
    service_id: Seq<char>,
    function_name: Seq<char>,
    args: Seq<char>,
) -> ReplyView {
    choose|reply: ReplyView| may_reply(call_service, service_id, function_name, args, reply)
}

/// `call_service` as a function from what it is called with to a reply it
/// may give, the same at every place of the trace.
pub open spec fn oracle_of<F: Fn(String, String, String) -> CallServiceResult>(
    call_service: F,
) -> Oracle {
    |at: int, service_id: Seq<char>, function_name: Seq<char>, args: Seq<char>|
        service_reply(call_service, service_id, function_name, args)
}

/// Every reply of `oracle` is one that `call_service` may give to the call,
/// or the one that [`oracle_of`] has for it.
pub open spec fn allowed<F: Fn(String, String, String) -> CallServiceResult>(
    call_service: F,
    oracle: Oracle,
) -> bool {
    forall|at: int, service_id: Seq<char>, function_name: Seq<char>, args: Seq<char>|
        {
            let reply = #[trigger] oracle(at, service_id, function_name, args);
            reply == service_reply(call_service, service_id, function_name, args) || may_reply(
                call_service,
                service_id,
                function_name,
                args,
                reply,
            )
        }
}

/// [`oracle_of`] with one reply put in: `reply` to the call with these
/// texts that is made when the new trace holds `at` records.
pub open spec fn answered<F: Fn(String, String, String) -> CallServiceResult>(
    call_service: F,
    at: int,
    service_id: Seq<char>,
    function_name: Seq<char>,
    args: Seq<char>,
    reply: ReplyView,
) -> Oracle {
    |i: int, a: Seq<char>, b: Seq<char>, c: Seq<char>|
        if i == at && a == service_id && b == function_name && c == args {
            reply
        } else {
            service_reply(call_service, a, b, c)
        }
}

/// The replies of `first` up to the place `at` of the trace, and those of
/// `second` from there on.
pub open spec fn mixed(first: Oracle, second: Oracle, at: int) -> Oracle {
    |i: int, a: Seq<char>, b: Seq<char>, c: Seq<char>|
        if i < at {
            first(i, a, b, c)
        } else {
            second(i, a, b, c)
        }
}

/// The replies of a deterministic service are those of [`oracle_of`].
pub proof fn lemma_function_oracle<F: Fn(String, String, String) -> CallServiceResult>(
    call_service: F,
    oracle: Oracle,
)
    requires
        service_is_function(call_service),
        allowed(call_service, oracle),
    ensures
        oracle == oracle_of(call_service),
{
    assert forall|at: int, service_id: Seq<char>, function_name: Seq<char>, args: Seq<char>|
        #[trigger] oracle(at, service_id, function_name, args) == service_reply(
            call_service,
            service_id,
            function_name,
            args,
        ) by {
        let reply = oracle(at, service_id, function_name, args);
        if may_reply(call_service, service_id, function_name, args, reply) {
            let other = service_reply(call_service, service_id, function_name, args);
            assert(may_reply(call_service, service_id, function_name, args, other));
        }
    }
    assert(oracle =~= oracle_of(call_service));
}

/// `call_service` can be called with any three texts.
pub open spec fn service_is_total<F: Fn(String, String, String) -> CallServiceResult>(
    call_service: F,
) -> bool {
    forall|a: String, b: String, c: String| #[trigger] call_requires(call_service, (a, b, c))
}

/// `call_service` is deterministic: called with the same texts it gives the
/// same reply.
pub open spec fn service_is_function<F: Fn(String, String, String) -> CallServiceResult>(
    call_service: F,
) -> bool {
    forall|a: String, b: String, c: String, r: CallServiceResult, a2: String, b2: String, c2: String, r2: CallServiceResult|
        #[trigger] call_ensures(call_service, (a, b, c), r) && #[trigger] call_ensures(
            call_service,
            (a2, b2, c2),
            r2,
        ) && a@ == a2@ && b@ == b2@ && c@ == c2@ ==> r@ == r2@
}

/// The trace that the hop started from, the place reached in it, and the
/// trace that the hop writes.
#[derive(Debug, PartialEq, Eq)]
pub struct ExecutionTraceCtx {
    /// The merged trace of the earlier hops.
    pub current_trace: ExecutionTrace,
    /// The place of the next record to replay.
    pub position: usize,
    /// How many records are left for the subtree at hand.
    pub current_subtree_size: usize,
    /// The trace of this hop.
    pub new_trace: ExecutionTrace,
}

/// The mathematical value of an [`ExecutionTraceCtx`].
pub struct TraceCtxView {
    pub current_trace: Seq<StateView>,
    pub position: int,
    pub current_subtree_size: int,
    pub new_trace: Seq<StateView>,
}

impl View for ExecutionTraceCtx {
    type V = TraceCtxView;

    open spec fn view(&self) -> TraceCtxView {
        TraceCtxView {
            current_trace: trace_view(self.current_trace@),
            position: self.position as int,
            current_subtree_size: self.current_subtree_size as int,
            new_trace: trace_view(self.new_trace@),
        }
    }
}

/// The trace context with a record put at the end of the new trace.
pub open spec fn pushed(trace: TraceCtxView, state: StateView) -> TraceCtxView {
    TraceCtxView { new_trace: trace.new_trace.push(state), ..trace }
}

/// The trace context with the next record of the subtree at hand taken.
pub open spec fn taken(trace: TraceCtxView) -> TraceCtxView {
    TraceCtxView {
        position: trace.position + 1,
        current_subtree_size: trace.current_subtree_size - 1,
        ..trace
    }
}

impl ExecutionTraceCtx {
    /// The subtree at hand lies inside the trace.
    pub open spec fn in_bounds(&self) -> bool {
        self.position + self.current_subtree_size <= self.current_trace.len()
    }

    /// What holds after every step of the interpreter: the trace it replays
    /// is untouched, and the new trace has grown by a well-formed piece.
    pub open spec fn follows(&self, before: &Self) -> bool {
        &&& self.current_trace == before.current_trace
        &&& self.in_bounds()
        &&& extends_well(trace_view(before.new_trace@), trace_view(self.new_trace@))
    }

    /// Starts at the first record of `current_trace`, with all of it as the
    /// subtree at hand and nothing written.
    pub fn new(current_trace: ExecutionTrace) -> (r: ExecutionTraceCtx)
        ensures
            r.in_bounds(),
            r@ == (TraceCtxView {
                current_trace: trace_view(current_trace@),
                position: 0,
                current_subtree_size: current_trace.len() as int,
                new_trace: Seq::empty(),
            }),
    {
        let current_subtree_size = current_trace.len();
        let r = ExecutionTraceCtx {
            current_trace,
            position: 0,
            current_subtree_size,
            new_trace: Vec::new(),
        };
        assert(r@.new_trace =~= Seq::empty());
        r
    }

    /// Takes the next record of the subtree at hand, if one is left.
    pub fn next_state(&mut self) -> (r: Option<ExecutedState>)
        requires
            old(self).in_bounds(),
        ensures
            final(self).follows(old(self)),
            match r {
                None => old(self).current_subtree_size == 0 && *final(self) == *old(self),
                Some(state) => old(self).current_subtree_size > 0 && state@
                    == old(self)@.current_trace[old(self).position as int] && final(self)@
                    == taken(old(self)@),
            },
    {
        proof {
            lemma_extends_same(trace_view(self.new_trace@));
        }
        if self.current_subtree_size == 0 {
            return None;
        }
        let state = self.current_trace[self.position].clone();
        self.position = self.position + 1;
        self.current_subtree_size = self.current_subtree_size - 1;
        Some(state)
    }

    /// Puts the record of a call at the end of the new trace.
    pub fn push_call(&mut self, call: CallResult)
        requires
            old(self).in_bounds(),
        ensures
            final(self).follows(old(self)),
            final(self)@ == pushed(old(self)@, StateView::Call(call@)),
    {
        let state = ExecutedState::Call(call);
        proof {
            lemma_extends_call(trace_view(self.new_trace@), state@);
            assert(trace_view(self.new_trace@.push(state)) =~= trace_view(self.new_trace@).push(
                state@,
            ));
        }
        self.new_trace.push(state);
    }
}

/// Where the interpreter stands after a step, and how the step ended.
pub struct Step {
    pub ctx: CtxView,
    pub trace: TraceCtxView,
    pub result: Result<(), ErrorView>,
}

/// The step that an executable function took.
pub open spec fn step_of(ctx: ExecutionCtx, trace: ExecutionTraceCtx, r: ExecutionResult<()>) -> Step {
    Step {
        ctx: ctx@,
        trace: trace@,
        result: match r {
            Ok(()) => Ok(()),
            Err(e) => Err(e@),
        },
    }
}

/// A step that ends in an error and changes nothing.
pub open spec fn fail(ctx: CtxView, trace: TraceCtxView, error: ErrorView) -> Step {
    Step { ctx, trace, result: Err(error) }
}

/// The message of the error for a trace that holds a `par` where the
/// script has a call, a call where it has a `par`, or a `par` whose sides
/// are longer than what is left of the subtree.
pub open spec fn trace_mismatch() -> Seq<char> {
    "the trace does not fit the script"@
}

/// The context with `peer` among the peers to hand the script on to.
pub open spec fn with_next_peer(ctx: CtxView, peer: Seq<char>) -> CtxView {
    CtxView { next_peer_pks: with_peer(ctx.next_peer_pks, peer), ..ctx }
}

/// The values of the first `n` arguments of a call; the first argument
/// that cannot be resolved gives the error.
pub open spec fn args_upto(
    args: Seq<ValueView>,
    n: int,
    ctx: CtxView,
    met_folds: Seq<FoldStateView>,
) -> Result<Seq<JValueView>, ErrorView>
    decreases n,
{
    if n <= 0 {
        Ok(Seq::empty())
    } else {
        match args_upto(args, n - 1, ctx, met_folds) {
            Err(e) => Err(e),
            Ok(values) => match resolve_to_args_spec(args[n - 1], ctx, met_folds) {
                Err(e) => Err(e),
                Ok((value, _)) => Ok(values.push(value)),
            },
        }
    }
}

/// The values of the arguments of a call.
pub open spec fn args_spec(args: Seq<ValueView>, ctx: CtxView, met_folds: Seq<FoldStateView>)
    -> Result<Seq<JValueView>, ErrorView> {
    args_upto(args, args.len() as int, ctx, met_folds)
}

/// A call whose result is `value`: the record is written, the value is
/// bound to the output of the call, and the subtree is complete. Where the
/// value cannot be bound the record stays written, and the error ends the
/// hop.
pub open spec fn executed_spec(
    call: CallView,
    triplet: TripletView,
    value: JValueView,
    met_folds: Seq<FoldStateView>,
    ctx: CtxView,
    trace: TraceCtxView,
) -> Step {
    let written = pushed(trace, StateView::Call(CallResultView::Executed(value)));
    match bind_spec(ctx, met_folds, call.output, ResolvedView { result: value, triplet }) {
        Err(e) => fail(ctx, written, e),
        Ok(bound) => Step { ctx: with_complete(bound, true), trace: written, result: Ok(()) },
    }
}

/// A call that failed with `message`: the record is written, the subtree
/// is not complete, and the failure goes up to the nearest `xor`.
pub open spec fn failed_spec(message: Seq<char>, ctx: CtxView, trace: TraceCtxView) -> Step {
    Step {
        ctx: with_complete(ctx, false),
        trace: pushed(trace, StateView::Call(CallResultView::CallServiceFailed(message))),
        result: Err(ErrorView::LocalServiceError(message)),
    }
}

/// A call that belongs to another peer: the record `state` is written, the
/// peer is named as one to hand the script on to, and the subtree is not
/// complete.
pub open spec fn remote_spec(
    triplet: TripletView,
    state: CallResultView,
    ctx: CtxView,
    trace: TraceCtxView,
) -> Step {
    Step {
        ctx: with_next_peer(with_complete(ctx, false), triplet.peer_pk),
        trace: pushed(trace, StateView::Call(state)),
        result: Ok(()),
    }
}

/// What the reply of a service makes of a call: a result where the return
/// code is [`CALL_SERVICE_SUCCESS`] and the text is JSON, else a failure
/// with the text as its message.
pub open spec fn service_result_spec(
    call: CallView,
    triplet: TripletView,
    reply: ReplyView,
    met_folds: Seq<FoldStateView>,
    ctx: CtxView,
    trace: TraceCtxView,
) -> Step {
    if reply.ret_code == CALL_SERVICE_SUCCESS {
        match json_parse(reply.result) {
            Some(value) => executed_spec(call, triplet, value, met_folds, ctx, trace),
            None => failed_spec(reply.result, ctx, trace),
        }
    } else {
        failed_spec(reply.result, ctx, trace)
    }
}

/// A call that this peer makes: the arguments are resolved, the service is
/// called with the JSON array of them, and its reply decides.
pub open spec fn invoke_spec(
    call: CallView,
    triplet: TripletView,
    met_folds: Seq<FoldStateView>,
    ctx: CtxView,
    trace: TraceCtxView,
    oracle: Oracle,
) -> Step {
    match args_spec(call.args, ctx, met_folds) {
        Err(e) => fail(ctx, trace, e),
        Ok(args) => service_result_spec(
            call,
            triplet,
            oracle(
                trace.new_trace.len() as int,
                triplet.service_id,
                triplet.function_name,
                json_text(JValueView::Array(args)),
            ),
            met_folds,
            ctx,
            trace,
        ),
    }
}

/// A call for which the trace holds the record `state`, which was taken.
pub open spec fn prev_state_spec(
    call: CallView,
    triplet: TripletView,
    state: StateView,
    met_folds: Seq<FoldStateView>,
    ctx: CtxView,
    trace: TraceCtxView,
    oracle: Oracle,
) -> Step {
    match state {
        StateView::Call(CallResultView::Executed(value)) => executed_spec(
            call,
            triplet,
            value,
            met_folds,
            ctx,
            trace,
        ),
        StateView::Call(CallResultView::CallServiceFailed(message)) => failed_spec(
            message,
            ctx,
            trace,
        ),
        StateView::Call(CallResultView::RequestSentBy(sender)) => {
            if triplet.peer_pk == ctx.current_peer_id {
                invoke_spec(call, triplet, met_folds, ctx, trace, oracle)
            } else {
                remote_spec(triplet, CallResultView::RequestSentBy(sender), ctx, trace)
            }
        },
        StateView::Par(_, _) => fail(ctx, trace, ErrorView::InstructionError(trace_mismatch())),
    }
}

/// A call whose peer, service and function are known.
pub open spec fn resolved_call_spec(
    call: CallView,
    triplet: TripletView,
    met_folds: Seq<FoldStateView>,
    ctx: CtxView,
    trace: TraceCtxView,
    oracle: Oracle,
) -> Step {
    if trace.current_subtree_size > 0 {
        prev_state_spec(
            call,
            triplet,
            trace.current_trace[trace.position],
            met_folds,
            ctx,
            taken(trace),
            oracle,
        )
    } else if triplet.peer_pk == ctx.current_peer_id {
        invoke_spec(call, triplet, met_folds, ctx, trace, oracle)
    } else {
        remote_spec(triplet, CallResultView::RequestSentBy(ctx.current_peer_id), ctx, trace)
    }
}

/// The execution of a `call`.
///
/// The peer, the service and the function are resolved first. Where the
/// trace holds a result or a failure at this place, it is replayed. Where
/// it holds nothing, or a request that another peer sent on, the call is
/// made if it belongs to this peer, and sent on otherwise.
pub open spec fn call_spec(
    call: CallView,
    met_folds: Seq<FoldStateView>,
    ctx: CtxView,
    trace: TraceCtxView,
    oracle: Oracle,
) -> Step {
    match triplet_spec(call.peer_part, call.function_part) {
        Err(e) => fail(ctx, trace, e),
        Ok(parts) => match resolve_triplet_spec(parts, ctx, met_folds) {
            Err(e) => fail(ctx, trace, e),
            Ok(triplet) => resolved_call_spec(call, triplet, met_folds, ctx, trace, oracle),
        },
    }
}

/// There are replies that `call_service` may have given with which a call
/// that this peer makes comes to `step`.
pub open spec fn invoked<F: Fn(String, String, String) -> CallServiceResult>(
    call_service: F,
    call: CallView,
    triplet: TripletView,
    met_folds: Seq<FoldStateView>,
    ctx: CtxView,
    trace: TraceCtxView,
    step: Step,
) -> bool {
    exists|oracle: Oracle|
        allowed(call_service, oracle) && step == #[trigger] invoke_spec(
            call,
            triplet,
            met_folds,
            ctx,
            trace,
            oracle,
        )
}

/// There are replies that `call_service` may have given with which the
/// execution of a `call` comes to `step`.
pub open spec fn called<F: Fn(String, String, String) -> CallServiceResult>(
    call_service: F,
    call: CallView,
    met_folds: Seq<FoldStateView>,
    ctx: CtxView,
    trace: TraceCtxView,
    step: Step,
) -> bool {
    exists|oracle: Oracle|
        allowed(call_service, oracle) && step == #[trigger] call_spec(
            call,
            met_folds,
            ctx,
            trace,
            oracle,
        )
}

/// The peer, the service and the function of a call, resolved.
pub open spec fn resolved_triplet(call: CallView, ctx: CtxView, met_folds: Seq<FoldStateView>)
    -> Result<TripletView, ErrorView> {
    match triplet_spec(call.peer_part, call.function_part) {
        Err(e) => Err(e),
        Ok(parts) => resolve_triplet_spec(parts, ctx, met_folds),
    }
}

/// The result that the reply of a service is written down as.
pub open spec fn reply_record(reply: ReplyView) -> CallResultView {
    if reply.ret_code == CALL_SERVICE_SUCCESS && json_parse(reply.result) is Some {
        CallResultView::Executed(json_parse(reply.result)->Some_0)
    } else {
        CallResultView::CallServiceFailed(reply.result)
    }
}

/// A call that belongs to this peer, and of which the trace holds no result
/// but nothing at all or a request that was sent on, is made in this hop:
/// where its arguments can be resolved, the service is called and what it
/// replies is written down as the result of the call; no request is written
/// for it, and no peer is named to hand the script on to.
pub proof fn lemma_forward_progress(
    call: CallView,
    met_folds: Seq<FoldStateView>,
    ctx: CtxView,
    trace: TraceCtxView,
    oracle: Oracle,
)
    requires
        resolved_triplet(call, ctx, met_folds) is Ok,
        resolved_triplet(call, ctx, met_folds)->Ok_0.peer_pk == ctx.current_peer_id,
        trace.current_subtree_size <= 0 || (trace.current_trace[trace.position] is Call
            && trace.current_trace[trace.position]->Call_0 is RequestSentBy),
    ensures
        ({
            let step = call_spec(call, met_folds, ctx, trace, oracle);
            let triplet = resolved_triplet(call, ctx, met_folds)->Ok_0;
            match args_spec(call.args, ctx, met_folds) {
                Err(e) => step.result == Err::<(), ErrorView>(e) && step.trace.new_trace
                    == trace.new_trace,
                Ok(args) => {
                    let reply = oracle(
                        trace.new_trace.len() as int,
                        triplet.service_id,
                        triplet.function_name,
                        json_text(JValueView::Array(args)),
                    );
                    &&& step.trace.new_trace == trace.new_trace.push(
                        StateView::Call(reply_record(reply)),
                    )
                    &&& step.ctx.next_peer_pks == ctx.next_peer_pks
                },
            }
        }),
{
}

/// The view of a list of values or an error.
pub open spec fn values_result_view(r: ExecutionResult<Vec<JValue>>) -> Result<
    Seq<JValueView>,
    ErrorView,
> {
    match r {
        Ok(values) => Ok(values_view(values@)),
        Err(e) => Err(e@),
    }
}

/// Resolves the arguments of a call; see [`args_spec`].
pub fn resolve_args(args: &Vec<CallArgValue>, ctx: &ExecutionCtx, met_folds: &Vec<FoldState>) -> (r:
    ExecutionResult<Vec<JValue>>)
    requires
        folds_valid(views(met_folds@)),
    ensures
        values_result_view(r) == args_spec(views(args@), ctx@, views(met_folds@)),
{
    let mut values: Vec<JValue> = Vec::new();
    let mut i: usize = 0;
    assert(values_view(values@) =~= Seq::empty());
    while i < args.len()
        invariant
            i <= args.len(),
            folds_valid(views(met_folds@)),
            args_upto(views(args@), i as int, ctx@, views(met_folds@)) == Ok::<
                Seq<JValueView>,
                ErrorView,
            >(values_view(values@)),
        decreases args.len() - i,
    {
        let ghost before = values_view(values@);
        match resolve_to_args(&args[i], ctx, met_folds) {
            Err(e) => {
                proof {
                    lemma_args_error(
                        views(args@),
                        i as int + 1,
                        args.len() as int,
                        ctx@,
                        views(met_folds@),
                    );
                }
                return Err(e);
            },
            Ok((value, _tetraplets)) => {
                values.push(value);
                assert(values_view(values@) =~= before.push(value@));
            },
        }
        i += 1;
    }
    Ok(values)
}

/// An error among the first arguments is the error of all of them.
proof fn lemma_args_error(
    args: Seq<ValueView>,
    n: int,
    m: int,
    ctx: CtxView,
    met_folds: Seq<FoldStateView>,
)
    requires
        0 <= n <= m,
        args_upto(args, n, ctx, met_folds) is Err,
    ensures
        args_upto(args, m, ctx, met_folds) == args_upto(args, n, ctx, met_folds),
    decreases m - n,
{
    if n < m {
        lemma_args_error(args, n, m - 1, ctx, met_folds);
    }
}

/// Writes down a call that another peer has to make; see [`remote_spec`].
pub fn set_remote_call_result(
    peer_pk: String,
    state: CallResult,
    exec_ctx: &mut ExecutionCtx,
    trace_ctx: &mut ExecutionTraceCtx,
)
    requires
        old(trace_ctx).in_bounds(),
    ensures
        final(trace_ctx).follows(old(trace_ctx)),
        keeps_peers(old(exec_ctx)@.next_peer_pks, final(exec_ctx)@.next_peer_pks),
        final(exec_ctx)@ == with_next_peer(with_complete(old(exec_ctx)@, false), peer_pk@),
        final(trace_ctx)@ == pushed(old(trace_ctx)@, StateView::Call(state@)),
{
    exec_ctx.add_next_peer(peer_pk);
    exec_ctx.subtree_complete = false;
    trace_ctx.push_call(state);
    proof {
        lemma_keeps_with_peer(old(exec_ctx)@.next_peer_pks, peer_pk@);
    }
}

/// Writes down a call that failed; see [`failed_spec`].
pub fn set_failed_call_result(
    message: String,
    exec_ctx: &mut ExecutionCtx,
    trace_ctx: &mut ExecutionTraceCtx,
) -> (r: ExecutionResult<()>)
    requires
        old(trace_ctx).in_bounds(),
    ensures
        final(trace_ctx).follows(old(trace_ctx)),
        keeps_peers(old(exec_ctx)@.next_peer_pks, final(exec_ctx)@.next_peer_pks),
        step_of(*final(exec_ctx), *final(trace_ctx), r) == failed_spec(
            message@,
            old(exec_ctx)@,
            old(trace_ctx)@,
        ),
{
    exec_ctx.subtree_complete = false;
    trace_ctx.push_call(CallResult::CallServiceFailed(message.clone()));
    proof {
        lemma_keeps_same_peers(exec_ctx@.next_peer_pks);
    }
    Err(ExecutionError::LocalServiceError(message))
}

/// Writes down and binds the result of a call; see [`executed_spec`].
pub fn set_executed_call_result(
    call: &Call,
    triplet: ResolvedTriplet,
    value: JValue,
    met_folds: &Vec<FoldState>,
    exec_ctx: &mut ExecutionCtx,
    trace_ctx: &mut ExecutionTraceCtx,
) -> (r: ExecutionResult<()>)
    requires
        old(trace_ctx).in_bounds(),
    ensures
        final(trace_ctx).follows(old(trace_ctx)),
        keeps_peers(old(exec_ctx)@.next_peer_pks, final(exec_ctx)@.next_peer_pks),
        step_of(*final(exec_ctx), *final(trace_ctx), r) == executed_spec(
            call@,
            triplet@,
            value@,
            views(met_folds@),
            old(exec_ctx)@,
            old(trace_ctx)@,
        ),
{
    trace_ctx.push_call(CallResult::Executed(value.clone()));
    let executed_result = ResolvedCallResult { result: value, triplet };
    let r = match set_local_call_result(executed_result, &call.output, exec_ctx, met_folds) {
        Err(e) => Err(e),
        Ok(()) => {
            exec_ctx.subtree_complete = true;
            Ok(())
        },
    };
    proof {
        lemma_keeps_same_peers(exec_ctx@.next_peer_pks);
    }
    r
}

/// Takes the reply of a service as the outcome of a call; see
/// [`service_result_spec`].
pub fn handle_service_result(
    call: &Call,
    triplet: ResolvedTriplet,
    service_result: CallServiceResult,
    met_folds: &Vec<FoldState>,
    exec_ctx: &mut ExecutionCtx,
    trace_ctx: &mut ExecutionTraceCtx,
) -> (r: ExecutionResult<()>)
    requires
        old(trace_ctx).in_bounds(),
    ensures
        final(trace_ctx).follows(old(trace_ctx)),
        keeps_peers(old(exec_ctx)@.next_peer_pks, final(exec_ctx)@.next_peer_pks),
        step_of(*final(exec_ctx), *final(trace_ctx), r) == service_result_spec(
            call@,
            triplet@,
            service_result@,
            views(met_folds@),
            old(exec_ctx)@,
            old(trace_ctx)@,
        ),
{
    if service_result.ret_code != CALL_SERVICE_SUCCESS {
        return set_failed_call_result(service_result.result, exec_ctx, trace_ctx);
    }
    match JValue::parse(service_result.result.as_str()) {
        Some(value) => set_executed_call_result(call, triplet, value, met_folds, exec_ctx, trace_ctx),
        None => set_failed_call_result(service_result.result, exec_ctx, trace_ctx),
    }
}

/// Makes a call that belongs to this peer; see [`invoke_spec`].
pub fn call_local_service<F: Fn(String, String, String) -> CallServiceResult>(
    call: &Call,
    triplet: ResolvedTriplet,
    met_folds: &Vec<FoldState>,
    exec_ctx: &mut ExecutionCtx,
    trace_ctx: &mut ExecutionTraceCtx,
    call_service: &F,
) -> (r: ExecutionResult<()>)
    requires
        folds_valid(views(met_folds@)),
        old(trace_ctx).in_bounds(),
        service_is_total(*call_service),
    ensures
        final(trace_ctx).follows(old(trace_ctx)),
        keeps_peers(old(exec_ctx)@.next_peer_pks, final(exec_ctx)@.next_peer_pks),
        invoked(
            *call_service,
            call@,
            triplet@,
            views(met_folds@),
            old(exec_ctx)@,
            old(trace_ctx)@,
            step_of(*final(exec_ctx), *final(trace_ctx), r),
        ),
{
    proof {
        lemma_extends_same(trace_view(trace_ctx.new_trace@));
        lemma_keeps_same_peers(exec_ctx@.next_peer_pks);
    }
    let args = match resolve_args(&call.args, exec_ctx, met_folds) {
        Ok(args) => args,
        Err(e) => {
            proof {
                assert(step_of(*exec_ctx, *trace_ctx, Err(e)) == invoke_spec(
                    call@,
                    triplet@,
                    views(met_folds@),
                    old(exec_ctx)@,
                    old(trace_ctx)@,
                    oracle_of(*call_service),
                ));
            }
            return Err(e);
        },
    };
    let args_json = JValue::Array(args).to_text();
    let service_id = triplet.service_id.clone();
    let function_name = triplet.function_name.clone();
    let service_result = call_service(service_id, function_name, args_json);
    let ghost replies = answered(
        *call_service,
        old(trace_ctx)@.new_trace.len() as int,
        service_id@,
        function_name@,
        args_json@,
        service_result@,
    );
    proof {
        assert(call_ensures(*call_service, (service_id, function_name, args_json), service_result));
        assert(may_reply(
            *call_service,
            service_id@,
            function_name@,
            args_json@,
            service_result@,
        ));
        assert(allowed(*call_service, replies));
    }
    let r = handle_service_result(call, triplet, service_result, met_folds, exec_ctx, trace_ctx);
    proof {
        assert(step_of(*exec_ctx, *trace_ctx, r) == invoke_spec(
            call@,
            triplet@,
            views(met_folds@),
            old(exec_ctx)@,
            old(trace_ctx)@,
            replies,
        ));
    }
    r
}

/// Executes a `call`; see [`call_spec`].
pub fn execute_call<F: Fn(String, String, String) -> CallServiceResult>(
    call: &Call,
    met_folds: &Vec<FoldState>,
    exec_ctx: &mut ExecutionCtx,
    trace_ctx: &mut ExecutionTraceCtx,
    call_service: &F,
) -> (r: ExecutionResult<()>)
    requires
        folds_valid(views(met_folds@)),
        old(trace_ctx).in_bounds(),
        service_is_total(*call_service),
    ensures
        final(trace_ctx).follows(old(trace_ctx)),
        keeps_peers(old(exec_ctx)@.next_peer_pks, final(exec_ctx)@.next_peer_pks),
        called(
            *call_service,
            call@,
            views(met_folds@),
            old(exec_ctx)@,
            old(trace_ctx)@,
            step_of(*final(exec_ctx), *final(trace_ctx), r),
        ),
{
    proof {
        lemma_extends_same(trace_view(trace_ctx.new_trace@));
        lemma_keeps_same_peers(exec_ctx@.next_peer_pks);
    }
    let ghost any = oracle_of(*call_service);
    let triplet = match Triplet::try_from(&call.peer_part, &call.function_part) {
        Ok(triplet) => triplet,
        Err(e) => {
            assert(step_of(*exec_ctx, *trace_ctx, Err(e)) == call_spec(
                call@,
                views(met_folds@),
                old(exec_ctx)@,
                old(trace_ctx)@,
                any,
            ));
            return Err(e);
        },
    };
    let triplet = match triplet.resolve(exec_ctx, met_folds) {
        Ok(triplet) => triplet,
        Err(e) => {
            assert(step_of(*exec_ctx, *trace_ctx, Err(e)) == call_spec(
                call@,
                views(met_folds@),
                old(exec_ctx)@,
                old(trace_ctx)@,
                any,
            ));
            return Err(e);
        },
    };
    let ghost resolved = triplet@;
    let is_current_peer = triplet.peer_pk == exec_ctx.current_peer_id;
    match trace_ctx.next_state() {
        None => {
            if is_current_peer {
                let r = call_local_service(
                    call,
                    triplet,
                    met_folds,
                    exec_ctx,
                    trace_ctx,
                    call_service,
                );
                proof {
                    let reply = choose|oracle: Oracle|
                        allowed(*call_service, oracle) && step_of(*exec_ctx, *trace_ctx, r)
                            == #[trigger] invoke_spec(
                            call@,
                            resolved,
                            views(met_folds@),
                            old(exec_ctx)@,
                            old(trace_ctx)@,
                            oracle,
                        );
                    assert(step_of(*exec_ctx, *trace_ctx, r) == call_spec(
                call@,
                views(met_folds@),
                old(exec_ctx)@,
                old(trace_ctx)@,
                reply,
            ));
                }
                r
            } else {
                let sender = CallResult::RequestSentBy(exec_ctx.current_peer_id.clone());
                set_remote_call_result(triplet.peer_pk, sender, exec_ctx, trace_ctx);
                assert(step_of(*exec_ctx, *trace_ctx, Ok(())) == call_spec(
                call@,
                views(met_folds@),
                old(exec_ctx)@,
                old(trace_ctx)@,
                any,
            ));
                Ok(())
            }
        },
        Some(ExecutedState::Call(CallResult::Executed(value))) => {
            let ghost taken_ctx = *trace_ctx;
            let r = set_executed_call_result(call, triplet, value, met_folds, exec_ctx, trace_ctx);
            proof {
                lemma_follows_twice(old(trace_ctx), &taken_ctx, trace_ctx);
                assert(step_of(*exec_ctx, *trace_ctx, r) == call_spec(
                call@,
                views(met_folds@),
                old(exec_ctx)@,
                old(trace_ctx)@,
                any,
            ));
            }
            r
        },
        Some(ExecutedState::Call(CallResult::CallServiceFailed(message))) => {
            let ghost taken_ctx = *trace_ctx;
            let r = set_failed_call_result(message, exec_ctx, trace_ctx);
            proof {
                lemma_follows_twice(old(trace_ctx), &taken_ctx, trace_ctx);
                assert(step_of(*exec_ctx, *trace_ctx, r) == call_spec(
                call@,
                views(met_folds@),
                old(exec_ctx)@,
                old(trace_ctx)@,
                any,
            ));
            }
            r
        },
        Some(ExecutedState::Call(CallResult::RequestSentBy(sender))) => {
            let ghost taken_ctx = *trace_ctx;
            if is_current_peer {
                let r = call_local_service(
                    call,
                    triplet,
                    met_folds,
                    exec_ctx,
                    trace_ctx,
                    call_service,
                );
                proof {
                    lemma_follows_twice(old(trace_ctx), &taken_ctx, trace_ctx);
                    let reply = choose|oracle: Oracle|
                        allowed(*call_service, oracle) && step_of(*exec_ctx, *trace_ctx, r)
                            == #[trigger] invoke_spec(
                            call@,
                            resolved,
                            views(met_folds@),
                            old(exec_ctx)@,
                            taken_ctx@,
                            oracle,
                        );
                    assert(step_of(*exec_ctx, *trace_ctx, r) == call_spec(
                call@,
                views(met_folds@),
                old(exec_ctx)@,
                old(trace_ctx)@,
                reply,
            ));
                }
                r
            } else {
                set_remote_call_result(
                    triplet.peer_pk,
                    CallResult::RequestSentBy(sender),
                    exec_ctx,
                    trace_ctx,
                );
                proof {
                    lemma_follows_twice(old(trace_ctx), &taken_ctx, trace_ctx);
                    assert(step_of(*exec_ctx, *trace_ctx, Ok(())) == call_spec(
                call@,
                views(met_folds@),
                old(exec_ctx)@,
                old(trace_ctx)@,
                any,
            ));
                }
                Ok(())
            }
        },
        Some(ExecutedState::Par(_)) => {
            let e = ExecutionError::InstructionError(
                String::from_str("the trace does not fit the script"),
            );
            assert(step_of(*exec_ctx, *trace_ctx, Err(e)) == call_spec(
                call@,
                views(met_folds@),
                old(exec_ctx)@,
                old(trace_ctx)@,
                any,
            ));
            Err(e)
        },
    }
}

/// What follows a step that follows another follows that one.
pub proof fn lemma_follows_twice(
    a: &ExecutionTraceCtx,
    b: &ExecutionTraceCtx,
    c: &ExecutionTraceCtx,
)
    requires
        b.follows(a),
        c.follows(b),
    ensures
        c.follows(a),
{
    lemma_extends_twice(
        trace_view(a.new_trace@),
        trace_view(b.new_trace@),
        trace_view(c.new_trace@),
    );
}

} // verus!
