//! What one hop knows while it runs: the variables set so far, the peers to
//! hand the script on to, and the folds that are open.

use crate::ast::{Instruction, InstructionView};
use crate::json::{JValue, JValueView};
use crate::lists::{first_from, index_of, lemma_first_from, lemma_views_push, views};
use vstd::prelude::*;

verus! {

/// Where a piece of code runs: a peer, a service on it and a function of
/// the service.
#[derive(Debug, PartialEq, Eq)]
pub struct ResolvedTriplet {
    pub peer_pk: String,
    pub service_id: String,
    pub function_name: String,
}

/// The mathematical value of a [`ResolvedTriplet`].
pub struct TripletView {
    pub peer_pk: Seq<char>,
    pub service_id: Seq<char>,
    pub function_name: Seq<char>,
}

impl View for ResolvedTriplet {
    type V = TripletView;

    open spec fn view(&self) -> TripletView {
        TripletView {
            peer_pk: self.peer_pk@,
            service_id: self.service_id@,
            function_name: self.function_name@,
        }
    }
}

impl Clone for ResolvedTriplet {
    fn clone(&self) -> (r: ResolvedTriplet)
        ensures
            r@ == self@,
    {
        ResolvedTriplet {
            peer_pk: self.peer_pk.clone(),
            service_id: self.service_id.clone(),
            function_name: self.function_name.clone(),
        }
    }
}

/// Where a value came from: the call that gave it, and the JSON path that
/// was taken into the call's result.
#[derive(Debug, PartialEq, Eq)]
pub struct SecurityTetraplet {
    pub triplet: ResolvedTriplet,
    pub json_path: String,
}

/// The mathematical value of a [`SecurityTetraplet`].
pub struct TetrapletView {
    pub triplet: TripletView,
    pub json_path: Seq<char>,
}

impl View for SecurityTetraplet {
    type V = TetrapletView;

    open spec fn view(&self) -> TetrapletView {
        TetrapletView { triplet: self.triplet@, json_path: self.json_path@ }
    }
}

impl Clone for SecurityTetraplet {
    fn clone(&self) -> (r: SecurityTetraplet)
        ensures
            r@ == self@,
    {
        SecurityTetraplet { triplet: self.triplet.clone(), json_path: self.json_path.clone() }
    }
}

/// The tetraplet of a value that the script itself wrote down: it came from
/// the peer that started the script, from no service and no function.
pub open spec fn literal_tetraplet_spec(init_peer_id: Seq<char>) -> TetrapletView {
    TetrapletView {
        triplet: TripletView {
            peer_pk: init_peer_id,
            service_id: Seq::empty(),
            function_name: Seq::empty(),
        },
        json_path: Seq::empty(),
    }
}

impl SecurityTetraplet {
    /// The tetraplet of a call's whole result.
    pub fn new(triplet: ResolvedTriplet, json_path: String) -> (r: SecurityTetraplet)
        ensures
            r@ == (TetrapletView { triplet: triplet@, json_path: json_path@ }),
    {
        SecurityTetraplet { triplet, json_path }
    }

    /// See [`literal_tetraplet_spec`].
    pub fn literal_tetraplet(init_peer_id: String) -> (r: SecurityTetraplet)
        ensures
            r@ == literal_tetraplet_spec(init_peer_id@),
    {
        SecurityTetraplet {
            triplet: ResolvedTriplet {
                peer_pk: init_peer_id,
                service_id: String::new(),
                function_name: String::new(),
            },
            json_path: String::new(),
        }
    }
}

/// The result of a call together with the call that gave it.
#[derive(Debug, PartialEq, Eq)]
pub struct ResolvedCallResult {
    pub result: JValue,
    pub triplet: ResolvedTriplet,
}

/// The mathematical value of a [`ResolvedCallResult`].
pub struct ResolvedView {
    pub result: JValueView,
    pub triplet: TripletView,
}

impl View for ResolvedCallResult {
    type V = ResolvedView;

    open spec fn view(&self) -> ResolvedView {
        ResolvedView { result: self.result@, triplet: self.triplet@ }
    }
}

impl Clone for ResolvedCallResult {
    fn clone(&self) -> (r: ResolvedCallResult)
        ensures
            r@ == self@,
    {
        ResolvedCallResult { result: self.result.clone(), triplet: self.triplet.clone() }
    }
}

/// What a variable holds.
#[derive(Debug, PartialEq, Eq)]
pub enum AValue {
    /// The result of one call.
    JValueRef(ResolvedCallResult),
    /// The results of all the calls that appended to it, in the order of
    /// the calls.
    JValueAccumulatorRef(Vec<ResolvedCallResult>),
}

/// The mathematical value of an [`AValue`].
pub enum AValueView {
    JValueRef(ResolvedView),
    JValueAccumulatorRef(Seq<ResolvedView>),
}

impl View for AValue {
    type V = AValueView;

    open spec fn view(&self) -> AValueView {
        match self {
            AValue::JValueRef(resolved) => AValueView::JValueRef(resolved@),
            AValue::JValueAccumulatorRef(all) => AValueView::JValueAccumulatorRef(views(all@)),
        }
    }
}

/// One item that a fold walks over, with where it came from.
#[derive(Debug, PartialEq, Eq)]
pub struct FoldItem {
    pub value: JValue,
    pub tetraplet: SecurityTetraplet,
}

/// The mathematical value of a [`FoldItem`].
pub struct FoldItemView {
    pub value: JValueView,
    pub tetraplet: TetrapletView,
}

impl View for FoldItem {
    type V = FoldItemView;

    open spec fn view(&self) -> FoldItemView {
        FoldItemView { value: self.value@, tetraplet: self.tetraplet@ }
    }
}

/// An open fold: the name of its iterator, the items it walks over, the
/// place of the item at hand and the instruction it repeats.
#[derive(Debug, Clone, Copy)]
pub struct FoldState<'a> {
    pub iterator: &'a String,
    pub items: &'a Vec<FoldItem>,
    pub position: usize,
    pub instruction: &'a Instruction,
}

/// The mathematical value of a [`FoldState`].
pub struct FoldStateView {
    pub iterator: Seq<char>,
    pub items: Seq<FoldItemView>,
    pub position: nat,
    pub instruction: InstructionView,
}

impl<'a> View for FoldState<'a> {
    type V = FoldStateView;

    open spec fn view(&self) -> FoldStateView {
        FoldStateView {
            iterator: self.iterator@,
            items: views(self.items@),
            position: self.position as nat,
            instruction: (*self.instruction)@,
        }
    }
}

/// The names of the iterators of the open folds, the outermost first.
pub open spec fn iterators(met_folds: Seq<FoldStateView>) -> Seq<Seq<char>> {
    Seq::new(met_folds.len(), |i: int| met_folds[i].iterator)
}

/// All the state that the execution of a script needs on one peer.
#[derive(Debug, PartialEq, Eq)]
pub struct ExecutionCtx {
    /// The variables set so far, in the order in which they were first set.
    pub data_cache: Vec<(String, AValue)>,
    /// The peers that have to receive the trace of this hop; none twice, in
    /// the order in which they were first met.
    pub next_peer_pks: Vec<String>,
    /// The peer that runs this hop.
    pub current_peer_id: String,
    /// The peer that started the script.
    pub init_peer_id: String,
    /// Whether the subtree that ran last is complete.
    pub subtree_complete: bool,
}

/// The mathematical value of an [`ExecutionCtx`].
pub struct CtxView {
    pub data_cache: Seq<(Seq<char>, AValueView)>,
    pub next_peer_pks: Seq<Seq<char>>,
    pub current_peer_id: Seq<char>,
    pub init_peer_id: Seq<char>,
    pub subtree_complete: bool,
}

/// The names and values of the variables, in order.
pub open spec fn cache_view(cache: Seq<(String, AValue)>) -> Seq<(Seq<char>, AValueView)> {
    Seq::new(cache.len(), |i: int| (cache[i].0@, cache[i].1@))
}

/// The names of the variables, in order.
pub open spec fn cache_names(cache: Seq<(Seq<char>, AValueView)>) -> Seq<Seq<char>> {
    Seq::new(cache.len(), |i: int| cache[i].0)
}

impl View for ExecutionCtx {
    type V = CtxView;

    open spec fn view(&self) -> CtxView {
        CtxView {
            data_cache: cache_view(self.data_cache@),
            next_peer_pks: views(self.next_peer_pks@),
            current_peer_id: self.current_peer_id@,
            init_peer_id: self.init_peer_id@,
            subtree_complete: self.subtree_complete,
        }
    }
}

/// Why a script cannot go on.
#[derive(Debug, PartialEq, Eq)]
pub enum ExecutionError {
    /// No variable of this name is set; or, where a JSON path was applied
    /// to find a single value, the path, which found none.
    VariableNotFound(String),
    /// A variable of this name is set already.
    MultipleVariablesFound(String),
    /// The value is not of the JSON type named.
    IncompatibleJValueType(JValue, String),
    /// The JSON path found more than one value where one was needed.
    MultipleValuesInJsonPath(String),
    /// The instruction cannot be run as it is written.
    InstructionError(String),
    /// The JSON path could not be applied to the value; the last text says why.
    JValueJsonPathError(JValue, String, String),
    /// `next` names an iterator that no open fold has.
    FoldStateNotFound(String),
    /// What a fold is to walk over is no array.
    IterableNotArray(String),
    /// A call of a service failed with this message; only a `xor` goes on
    /// after it.
    LocalServiceError(String),
}

/// The mathematical value of an [`ExecutionError`].
pub enum ErrorView {
    VariableNotFound(Seq<char>),
    MultipleVariablesFound(Seq<char>),
    IncompatibleJValueType(JValueView, Seq<char>),
    MultipleValuesInJsonPath(Seq<char>),
    InstructionError(Seq<char>),
    JValueJsonPathError(JValueView, Seq<char>, Seq<char>),
    FoldStateNotFound(Seq<char>),
    IterableNotArray(Seq<char>),
    LocalServiceError(Seq<char>),
}

impl View for ExecutionError {
    type V = ErrorView;

    open spec fn view(&self) -> ErrorView {
        match self {
            ExecutionError::VariableNotFound(name) => ErrorView::VariableNotFound(name@),
            ExecutionError::MultipleVariablesFound(name) => ErrorView::MultipleVariablesFound(
                name@,
            ),
            ExecutionError::IncompatibleJValueType(value, expected) => {
                ErrorView::IncompatibleJValueType(value@, expected@)
            },
            ExecutionError::MultipleValuesInJsonPath(path) => ErrorView::MultipleValuesInJsonPath(
                path@,
            ),
            ExecutionError::InstructionError(message) => ErrorView::InstructionError(message@),
            ExecutionError::JValueJsonPathError(value, path, message) => {
                ErrorView::JValueJsonPathError(value@, path@, message@)
            },
            ExecutionError::FoldStateNotFound(name) => ErrorView::FoldStateNotFound(name@),
            ExecutionError::IterableNotArray(name) => ErrorView::IterableNotArray(name@),
            ExecutionError::LocalServiceError(message) => ErrorView::LocalServiceError(message@),
        }
    }
}

/// What a step of the execution gives: a value, or the error that ends it.
pub type ExecutionResult<T> = Result<T, ExecutionError>;

/// The list of peers with `peer` added at the end, unless it holds it already.
pub open spec fn with_peer(peers: Seq<Seq<char>>, peer: Seq<char>) -> Seq<Seq<char>> {
    if index_of(peers, peer) is Some {
        peers
    } else {
        peers.push(peer)
    }
}

/// No name stands twice in the list.
pub open spec fn distinct(names: Seq<Seq<char>>) -> bool {
    forall|i: int, j: int| 0 <= i < j < names.len() ==> names[i] != names[j]
}

/// The list `after` is the list `before`, and maybe more names behind it;
/// and no name stands twice in it, if none did in `before`.
#[verifier::opaque]
pub open spec fn keeps_peers(before: Seq<Seq<char>>, after: Seq<Seq<char>>) -> bool {
    &&& before.len() <= after.len()
    &&& after.subrange(0, before.len() as int) == before
    &&& distinct(before) ==> distinct(after)
}

/// A list keeps itself.
pub proof fn lemma_keeps_same_peers(peers: Seq<Seq<char>>)
    ensures
        keeps_peers(peers, peers),
{
    reveal(keeps_peers);
    assert(peers.subrange(0, peers.len() as int) =~= peers);
}

/// Naming one more peer keeps the list.
pub proof fn lemma_keeps_with_peer(peers: Seq<Seq<char>>, peer: Seq<char>)
    ensures
        keeps_peers(peers, with_peer(peers, peer)),
{
    reveal(keeps_peers);
    lemma_first_from(peers, peer, 0);
    assert(with_peer(peers, peer).subrange(0, peers.len() as int) =~= peers);
}

/// What keeps a list that keeps another keeps that one.
pub proof fn lemma_keeps_peers_twice(a: Seq<Seq<char>>, b: Seq<Seq<char>>, c: Seq<Seq<char>>)
    requires
        keeps_peers(a, b),
        keeps_peers(b, c),
    ensures
        keeps_peers(a, c),
{
    reveal(keeps_peers);
    assert(c.subrange(0, a.len() as int) =~= c.subrange(0, b.len() as int).subrange(
        0,
        a.len() as int,
    ));
}

/// The place of the open fold whose iterator has this name.
pub fn find_fold(met_folds: &Vec<FoldState>, name: &String) -> (r: Option<usize>)
    ensures
        match r {
            Some(i) => index_of(iterators(views(met_folds@)), name@) == Some(i as int) && i
                < met_folds.len(),
            None => index_of(iterators(views(met_folds@)), name@) is None,
        },
{
    let ghost keys = iterators(views(met_folds@));
    let mut i: usize = 0;
    while i < met_folds.len()
        invariant
            i <= met_folds.len(),
            keys == iterators(views(met_folds@)),
            index_of(keys, name@) == first_from(keys, name@, i as int),
        decreases met_folds.len() - i,
    {
        if *met_folds[i].iterator == *name {
            return Some(i);
        }
        i += 1;
    }
    None
}

impl ExecutionCtx {
    /// The state at the start of a hop: no variable is set, no peer is
    /// named, and the empty subtree counts as complete.
    pub fn new(current_peer_id: String, init_peer_id: String) -> (r: ExecutionCtx)
        ensures
            r@ == (CtxView {
                data_cache: Seq::empty(),
                next_peer_pks: Seq::empty(),
                current_peer_id: current_peer_id@,
                init_peer_id: init_peer_id@,
                subtree_complete: true,
            }),
    {
        let r = ExecutionCtx {
            data_cache: Vec::new(),
            next_peer_pks: Vec::new(),
            current_peer_id,
            init_peer_id,
            subtree_complete: true,
        };
        assert(r@.data_cache =~= Seq::empty());
        assert(r@.next_peer_pks =~= Seq::empty());
        r
    }

    /// The place of the variable of this name.
    pub fn find_variable(&self, name: &String) -> (r: Option<usize>)
        ensures
            match r {
                Some(i) => index_of(cache_names(self@.data_cache), name@) == Some(i as int) && i
                    < self.data_cache.len(),
                None => index_of(cache_names(self@.data_cache), name@) is None,
            },
    {
        let ghost keys = cache_names(self@.data_cache);
        let mut i: usize = 0;
        while i < self.data_cache.len()
            invariant
                i <= self.data_cache.len(),
                keys == cache_names(self@.data_cache),
                index_of(keys, name@) == first_from(keys, name@, i as int),
            decreases self.data_cache.len() - i,
        {
            if self.data_cache[i].0 == *name {
                return Some(i);
            }
            i += 1;
        }
        None
    }

    /// Names a peer that has to receive the trace; see [`with_peer`].
    pub fn add_next_peer(&mut self, peer: String)
        ensures
            final(self)@ == (CtxView {
                next_peer_pks: with_peer(old(self)@.next_peer_pks, peer@),
                ..old(self)@
            }),
    {
        let ghost keys = views(self.next_peer_pks@);
        let mut i: usize = 0;
        while i < self.next_peer_pks.len()
            invariant
                i <= self.next_peer_pks.len(),
                *self == *old(self),
                keys == views(self.next_peer_pks@),
                index_of(keys, peer@) == first_from(keys, peer@, i as int),
            decreases self.next_peer_pks.len() - i,
        {
            if self.next_peer_pks[i] == peer {
                return ;
            }
            i += 1;
        }
        proof {
            lemma_views_push(self.next_peer_pks@, peer);
        }
        self.next_peer_pks.push(peer);
    }
}

} // verus!
