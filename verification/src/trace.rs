//! The execution trace: the ordered record of what the calls of a script
//! came to and of how the sides of each `par` divide what follows.

use crate::json::{JValue, JValueView};
use vstd::prelude::*;

verus! {

/// What a call came to.
#[derive(Debug, PartialEq, Eq)]
pub enum CallResult {
    /// The call belongs to another peer; the peer named here sent it on.
    RequestSentBy(String),
    /// The call was made and gave this value.
    Executed(JValue),
    /// The call was made and the service failed with this message.
    CallServiceFailed(String),
}

/// The header of a `par`: how many trace records its left and its right side take.
#[derive(Debug, PartialEq, Eq, Clone, Copy)]
pub struct ParResult(pub usize, pub usize);

/// One record of a trace.
#[derive(Debug, PartialEq, Eq)]
pub enum ExecutedState {
    Call(CallResult),
    Par(ParResult),
}

/// A trace, in the order of execution.
pub type ExecutionTrace = Vec<ExecutedState>;

/// The mathematical value of a [`CallResult`].
pub enum CallResultView {
    RequestSentBy(Seq<char>),
    Executed(JValueView),
    CallServiceFailed(Seq<char>),
}

/// The mathematical value of an [`ExecutedState`].
pub enum StateView {
    Call(CallResultView),
    Par(nat, nat),
}

impl View for CallResult {
    type V = CallResultView;

    open spec fn view(&self) -> CallResultView {
        match self {
            CallResult::RequestSentBy(peer) => CallResultView::RequestSentBy(peer@),
            CallResult::Executed(value) => CallResultView::Executed(value@),
            CallResult::CallServiceFailed(message) => CallResultView::CallServiceFailed(message@),
        }
    }
}

impl View for ExecutedState {
    type V = StateView;

    open spec fn view(&self) -> StateView {
        match self {
            ExecutedState::Call(call) => StateView::Call(call@),
            ExecutedState::Par(par) => StateView::Par(par.0 as nat, par.1 as nat),
        }
    }
}

/// The values of the records of a trace, in order.
pub open spec fn trace_view(trace: Seq<ExecutedState>) -> Seq<StateView> {
    Seq::new(trace.len(), |i: int| trace[i]@)
}

impl Clone for CallResult {
    fn clone(&self) -> (r: CallResult)
        ensures
            r@ == self@,
    {
        match self {
            CallResult::RequestSentBy(peer) => CallResult::RequestSentBy(peer.clone()),
            CallResult::Executed(value) => CallResult::Executed(value.clone()),
            CallResult::CallServiceFailed(message) => CallResult::CallServiceFailed(
                message.clone(),
            ),
        }
    }
}

impl Clone for ExecutedState {
    fn clone(&self) -> (r: ExecutedState)
        ensures
            r@ == self@,
    {
        match self {
            ExecutedState::Call(call) => ExecutedState::Call(call.clone()),
            ExecutedState::Par(par) => ExecutedState::Par(ParResult(par.0, par.1)),
        }
    }
}

/// Whether a trace divides into records and `par` blocks: each `Par(a, b)`
/// is followed by `a` records that divide in the same way, and then by `b`
/// such records.
#[verifier::opaque]
pub open spec fn well_formed(s: Seq<StateView>) -> bool
    decreases s.len(),
{
    if s.len() == 0 {
        true
    } else {
        match s[0] {
            StateView::Call(_) => well_formed(s.subrange(1, s.len() as int)),
            StateView::Par(left, right) => {
                let a = left as int;
                let b = right as int;
                if a + b <= s.len() - 1 {
                    well_formed(s.subrange(1, 1 + a)) && well_formed(s.subrange(1 + a, 1 + a + b))
                        && well_formed(s.subrange(1 + a + b, s.len() as int))
                } else {
                    false
                }
            },
        }
    }
}

/// A trace as the tree it stands for: nothing; a call and what follows it;
/// or a `par` with its left side, its right side and what follows it.
pub enum Forest {
    Nil,
    Call(CallResultView, Box<Forest>),
    Par(Box<Forest>, Box<Forest>, Box<Forest>),
}

/// The trace that writes a forest down: each `par` as a header that holds
/// the lengths of its two sides, then the sides.
pub open spec fn flatten(f: Forest) -> Seq<StateView>
    decreases f,
{
    match f {
        Forest::Nil => Seq::empty(),
        Forest::Call(call, rest) => seq![StateView::Call(call)] + flatten(*rest),
        Forest::Par(left, right, rest) => seq![
            StateView::Par(flatten(*left).len(), flatten(*right).len()),
        ] + flatten(*left) + flatten(*right) + flatten(*rest),
    }
}

/// The forest that a well-formed trace stands for.
pub open spec fn forest_of(s: Seq<StateView>) -> Forest
    decreases s.len(),
{
    if s.len() == 0 {
        Forest::Nil
    } else {
        match s[0] {
            StateView::Call(call) => Forest::Call(
                call,
                Box::new(forest_of(s.subrange(1, s.len() as int))),
            ),
            StateView::Par(left, right) => {
                let a = left as int;
                let b = right as int;
                if a + b <= s.len() - 1 {
                    Forest::Par(
                        Box::new(forest_of(s.subrange(1, 1 + a))),
                        Box::new(forest_of(s.subrange(1 + a, 1 + a + b))),
                        Box::new(forest_of(s.subrange(1 + a + b, s.len() as int))),
                    )
                } else {
                    Forest::Nil
                }
            },
        }
    }
}

/// A well-formed trace is the writing of the forest it stands for.
pub proof fn lemma_flatten_forest_of(s: Seq<StateView>)
    requires
        well_formed(s),
    ensures
        flatten(forest_of(s)) == s,
    decreases s.len(),
{
    reveal(well_formed);
    if s.len() > 0 {
        match s[0] {
            StateView::Call(_) => {
                lemma_flatten_forest_of(s.subrange(1, s.len() as int));
                assert(flatten(forest_of(s)) =~= s);
            },
            StateView::Par(left, right) => {
                let a = left as int;
                let b = right as int;
                lemma_flatten_forest_of(s.subrange(1, 1 + a));
                lemma_flatten_forest_of(s.subrange(1 + a, 1 + a + b));
                lemma_flatten_forest_of(s.subrange(1 + a + b, s.len() as int));
                assert(flatten(forest_of(s)) =~= s);
            },
        }
    } else {
        assert(flatten(forest_of(s)) =~= s);
    }
}

/// The writing of a forest is well-formed and stands for that forest.
pub proof fn lemma_forest_of_flatten(f: Forest)
    ensures
        well_formed(flatten(f)),
        forest_of(flatten(f)) == f,
    decreases f,
{
    reveal(well_formed);
    let s = flatten(f);
    match f {
        Forest::Nil => {},
        Forest::Call(call, rest) => {
            lemma_forest_of_flatten(*rest);
            assert(s.subrange(1, s.len() as int) =~= flatten(*rest));
        },
        Forest::Par(left, right, rest) => {
            lemma_forest_of_flatten(*left);
            lemma_forest_of_flatten(*right);
            lemma_forest_of_flatten(*rest);
            let a = flatten(*left).len() as int;
            let b = flatten(*right).len() as int;
            assert(s[0] == StateView::Par(a as nat, b as nat));
            assert(s.subrange(1, 1 + a) =~= flatten(*left));
            assert(s.subrange(1 + a, 1 + a + b) =~= flatten(*right));
            assert(s.subrange(1 + a + b, s.len() as int) =~= flatten(*rest));
        },
    }
}

/// What being well-formed says of a trace that is not empty.
pub proof fn lemma_well_formed_step(s: Seq<StateView>)
    requires
        s.len() > 0,
    ensures
        well_formed(s) == match s[0] {
            StateView::Call(_) => well_formed(s.subrange(1, s.len() as int)),
            StateView::Par(left, right) => {
                let a = left as int;
                let b = right as int;
                &&& a + b <= s.len() - 1
                &&& well_formed(s.subrange(1, 1 + a))
                &&& well_formed(s.subrange(1 + a, 1 + a + b))
                &&& well_formed(s.subrange(1 + a + b, s.len() as int))
            },
        },
{
    reveal(well_formed);
}

/// The empty trace is well-formed.
pub proof fn lemma_well_formed_empty(s: Seq<StateView>)
    requires
        s.len() == 0,
    ensures
        well_formed(s),
{
    reveal(well_formed);
}

/// The part of a trace from `start` up to `end`.
pub open spec fn window(trace: Seq<ExecutedState>, start: int, end: int) -> Seq<StateView> {
    trace_view(trace).subrange(start, end)
}

/// Tests whether the records from `start` up to `end` are a well-formed trace.
pub fn check_window(trace: &Vec<ExecutedState>, start: usize, end: usize) -> (r: bool)
    requires
        start <= end <= trace.len(),
    ensures
        r == well_formed(window(trace@, start as int, end as int)),
    decreases end - start,
{
    let mut pos = start;
    while pos < end
        invariant
            start <= pos <= end <= trace.len(),
            well_formed(window(trace@, start as int, end as int)) == well_formed(
                window(trace@, pos as int, end as int),
            ),
        decreases end - pos,
    {
        let ghost w = window(trace@, pos as int, end as int);
        assert(w[0] == trace[pos as int]@);
        proof {
            reveal(well_formed);
        }
        match &trace[pos] {
            ExecutedState::Call(_) => {
                assert(w.subrange(1, w.len() as int) =~= window(
                    trace@,
                    pos + 1,
                    end as int,
                ));
                pos += 1;
            },
            ExecutedState::Par(par) => {
                let a = par.0;
                let b = par.1;
                let rest = end - pos - 1;
                if a > rest || b > rest - a {
                    return false;
                }
                assert(w.subrange(1, 1 + a) =~= window(trace@, pos + 1, pos + 1 + a));
                assert(w.subrange(1 + a, 1 + a + b) =~= window(
                    trace@,
                    pos + 1 + a,
                    pos + 1 + a + b,
                ));
                assert(w.subrange(1 + a + b, w.len() as int) =~= window(
                    trace@,
                    pos + 1 + a + b,
                    end as int,
                ));
                if !check_window(trace, pos + 1, pos + 1 + a) {
                    return false;
                }
                if !check_window(trace, pos + 1 + a, pos + 1 + a + b) {
                    return false;
                }
                pos = pos + 1 + a + b;
            },
        }
    }
    proof {
        reveal(well_formed);
    }
    true
}

/// Tests whether a trace is well-formed.
pub fn is_well_formed(trace: &Vec<ExecutedState>) -> (r: bool)
    ensures
        r == well_formed(trace_view(trace@)),
{
    assert(window(trace@, 0, trace.len() as int) =~= trace_view(trace@));
    check_window(trace, 0, trace.len())
}

/// Two well-formed traces, one behind the other, are a well-formed trace.
pub proof fn lemma_well_formed_concat(x: Seq<StateView>, y: Seq<StateView>)
    requires
        well_formed(x),
        well_formed(y),
    ensures
        well_formed(x + y),
    decreases x.len(),
{
    let s = x + y;
    if x.len() == 0 {
        assert(s =~= y);
    } else {
        lemma_well_formed_step(x);
        lemma_well_formed_step(s);
        match x[0] {
            StateView::Call(_) => {
                lemma_well_formed_concat(x.subrange(1, x.len() as int), y);
                assert(s.subrange(1, s.len() as int) =~= x.subrange(1, x.len() as int) + y);
            },
            StateView::Par(left, right) => {
                let a = left as int;
                let b = right as int;
                lemma_well_formed_concat(x.subrange(1 + a + b, x.len() as int), y);
                assert(s.subrange(1, 1 + a) =~= x.subrange(1, 1 + a));
                assert(s.subrange(1 + a, 1 + a + b) =~= x.subrange(1 + a, 1 + a + b));
                assert(s.subrange(1 + a + b, s.len() as int) =~= x.subrange(
                    1 + a + b,
                    x.len() as int,
                ) + y);
            },
        }
    }
}

/// `after` is `before` with a well-formed trace put behind it.
pub open spec fn extends_well(before: Seq<StateView>, after: Seq<StateView>) -> bool {
    &&& before.len() <= after.len()
    &&& after.subrange(0, before.len() as int) == before
    &&& well_formed(after.subrange(before.len() as int, after.len() as int))
}

/// Every trace extends itself.
pub proof fn lemma_extends_same(trace: Seq<StateView>)
    ensures
        extends_well(trace, trace),
{
    assert(trace.subrange(0, trace.len() as int) =~= trace);
    lemma_well_formed_empty(trace.subrange(trace.len() as int, trace.len() as int));
}

/// A trace with the record of a call put behind it extends the trace.
pub proof fn lemma_extends_call(trace: Seq<StateView>, state: StateView)
    requires
        state is Call,
    ensures
        extends_well(trace, trace.push(state)),
{
    let after = trace.push(state);
    let added = after.subrange(trace.len() as int, after.len() as int);
    assert(after.subrange(0, trace.len() as int) =~= trace);
    lemma_well_formed_step(added);
    lemma_well_formed_empty(added.subrange(1, added.len() as int));
}

/// What extends an extension of a trace extends the trace.
pub proof fn lemma_extends_twice(a: Seq<StateView>, b: Seq<StateView>, c: Seq<StateView>)
    requires
        extends_well(a, b),
        extends_well(b, c),
    ensures
        extends_well(a, c),
{
    let first = b.subrange(a.len() as int, b.len() as int);
    let second = c.subrange(b.len() as int, c.len() as int);
    lemma_well_formed_concat(first, second);
    assert(c.subrange(a.len() as int, c.len() as int) =~= first + second);
    assert(c.subrange(0, a.len() as int) =~= c.subrange(0, b.len() as int).subrange(
        0,
        a.len() as int,
    ));
}

/// A `par` written to the end of a trace extends it: the header was put
/// down at the end of `start`, the left side took the trace to `middle`,
/// the right side to `end`, and the header then got the two lengths.
pub proof fn lemma_extends_par(
    start: Seq<StateView>,
    middle: Seq<StateView>,
    end: Seq<StateView>,
    header: StateView,
)
    requires
        extends_well(start.push(StateView::Par(0, 0)), middle),
        extends_well(middle, end),
        header == StateView::Par(
            (middle.len() - start.len() - 1) as nat,
            (end.len() - middle.len()) as nat,
        ),
    ensures
        extends_well(start, end.update(start.len() as int, header)),
{
    let at = start.len() as int;
    let closed = end.update(at, header);
    let added = closed.subrange(at, closed.len() as int);
    let a = middle.len() - at - 1;
    let b = end.len() - middle.len();
    assert(end.subrange(0, at + 1) =~= end.subrange(0, middle.len() as int).subrange(0, at + 1));
    assert(closed.subrange(0, at) =~= start.push(StateView::Par(0, 0)).subrange(0, at));
    assert(closed.subrange(0, at) =~= start);
    lemma_well_formed_step(added);
    let left = added.subrange(1, 1 + a);
    let whole = end.subrange(0, middle.len() as int);
    assert forall|k: int| 0 <= k < a implies #[trigger] left[k] == middle.subrange(
        at + 1,
        middle.len() as int,
    )[k] by {
        assert(whole[at + 1 + k] == end[at + 1 + k]);
    }
    assert(left =~= middle.subrange(at + 1, middle.len() as int));
    assert(added.subrange(1 + a, 1 + a + b) =~= end.subrange(
        middle.len() as int,
        end.len() as int,
    ));
    lemma_well_formed_empty(added.subrange(1 + a + b, added.len() as int));
}

} // verus!
