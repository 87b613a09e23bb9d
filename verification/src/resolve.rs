//! How the values written in a script become the strings and JSON values
//! that a call needs.

use crate::ast::{CallArgValue, FunctionPart, FunctionPartView, PeerPart, PeerPartView, ValueView};
use crate::context::{
    cache_names, find_fold, iterators, literal_tetraplet_spec, AValue, AValueView, CtxView,
    ErrorView, ExecutionCtx, ExecutionError, ExecutionResult, FoldItem, FoldItemView, FoldState,
    FoldStateView, ResolvedCallResult, ResolvedTriplet, ResolvedView, SecurityTetraplet,
    TetrapletView, TripletView,
};
use crate::json::{json_select, plain_path, values_view, JValue, JValueView};
use crate::lists::{index_of, views};
use vstd::prelude::*;
use vstd::string::StringExecFns;

verus! {

/// Every open fold has an item at hand.
pub open spec fn folds_valid(met_folds: Seq<FoldStateView>) -> bool {
    forall|i: int|
        0 <= i < met_folds.len() ==> (#[trigger] met_folds[i]).position < met_folds[i].items.len()
}

/// Something a script's value can stand for: the result of one call, a
/// list that calls append to, or the item that a fold has at hand.
#[derive(Debug, Clone, Copy)]
pub enum JValuable<'a> {
    Scalar(&'a ResolvedCallResult),
    Accumulator(&'a Vec<ResolvedCallResult>),
    FoldItem(&'a FoldItem),
}

/// The mathematical value of a [`JValuable`].
pub enum JValuableView {
    Scalar(ResolvedView),
    Accumulator(Seq<ResolvedView>),
    FoldItem(FoldItemView),
}

impl<'a> View for JValuable<'a> {
    type V = JValuableView;

    open spec fn view(&self) -> JValuableView {
        match self {
            JValuable::Scalar(resolved) => JValuableView::Scalar(resolved@),
            JValuable::Accumulator(all) => JValuableView::Accumulator(views(all@)),
            JValuable::FoldItem(item) => JValuableView::FoldItem(item@),
        }
    }
}

/// The message of the error for a JSON path that is not plain.
pub open spec fn path_not_plain() -> Seq<char> {
    "a json path may hold only $ . [ ] * _ - letters and digits"@
}

impl JValuableView {
    /// The JSON value: the result, the array of all results, or the item.
    pub open spec fn into_jvalue(self) -> JValueView {
        match self {
            JValuableView::Scalar(resolved) => resolved.result,
            JValuableView::Accumulator(all) => JValueView::Array(
                Seq::new(all.len(), |i: int| all[i].result),
            ),
            JValuableView::FoldItem(item) => item.value,
        }
    }

    /// Where the value came from, with `json_path` as the path taken into
    /// a call's result; an item of a fold keeps the tetraplet it has.
    pub open spec fn tetraplets_at(self, json_path: Seq<char>) -> Seq<TetrapletView> {
        match self {
            JValuableView::Scalar(resolved) => seq![
                TetrapletView { triplet: resolved.triplet, json_path },
            ],
            JValuableView::Accumulator(all) => Seq::new(
                all.len(),
                |i: int| TetrapletView { triplet: all[i].triplet, json_path },
            ),
            JValuableView::FoldItem(item) => seq![item.tetraplet],
        }
    }

    /// Where the whole value came from.
    pub open spec fn as_tetraplets(self) -> Seq<TetrapletView> {
        self.tetraplets_at(Seq::empty())
    }

    /// What a JSON path finds in the value. A path that is not plain, or
    /// that the path engine rejects, is an error.
    pub open spec fn apply_json_path(self, json_path: Seq<char>) -> Result<
        Seq<JValueView>,
        ErrorView,
    > {
        if !plain_path(json_path) {
            Err(ErrorView::JValueJsonPathError(self.into_jvalue(), json_path, path_not_plain()))
        } else {
            match json_select(self.into_jvalue(), json_path) {
                Ok(found) => Ok(found),
                Err(message) => Err(
                    ErrorView::JValueJsonPathError(self.into_jvalue(), json_path, message),
                ),
            }
        }
    }
}

/// The view of a list of values or an error.
pub open spec fn found_view(r: ExecutionResult<Vec<JValue>>) -> Result<Seq<JValueView>, ErrorView> {
    match r {
        Ok(found) => Ok(values_view(found@)),
        Err(e) => Err(e@),
    }
}

impl<'a> JValuable<'a> {
    /// See [`JValuableView::into_jvalue`].
    pub fn into_jvalue(&self) -> (r: JValue)
        ensures
            r@ == self@.into_jvalue(),
    {
        match self {
            JValuable::Scalar(resolved) => resolved.result.clone(),
            JValuable::Accumulator(all) => {
                let mut items: Vec<JValue> = Vec::new();
                let mut i: usize = 0;
                while i < all.len()
                    invariant
                        i <= all.len(),
                        items.len() == i,
                        forall|k: int| 0 <= k < i ==> items[k]@ == all[k].result@,
                    decreases all.len() - i,
                {
                    items.push(all[i].result.clone());
                    i += 1;
                }
                let r = JValue::Array(items);
                assert(r@->Array_0 =~= self@.into_jvalue()->Array_0);
                r
            },
            JValuable::FoldItem(item) => item.value.clone(),
        }
    }

    /// See [`JValuableView::tetraplets_at`].
    pub fn tetraplets_at(&self, json_path: &String) -> (r: Vec<SecurityTetraplet>)
        ensures
            views(r@) == self@.tetraplets_at(json_path@),
    {
        match self {
            JValuable::Scalar(resolved) => {
                let mut r: Vec<SecurityTetraplet> = Vec::new();
                r.push(SecurityTetraplet::new(resolved.triplet.clone(), json_path.clone()));
                assert(views(r@) =~= self@.tetraplets_at(json_path@));
                r
            },
            JValuable::Accumulator(all) => {
                let mut r: Vec<SecurityTetraplet> = Vec::new();
                let mut i: usize = 0;
                while i < all.len()
                    invariant
                        i <= all.len(),
                        r.len() == i,
                        forall|k: int|
                            0 <= k < i ==> r[k]@ == (TetrapletView {
                                triplet: all[k].triplet@,
                                json_path: json_path@,
                            }),
                    decreases all.len() - i,
                {
                    r.push(SecurityTetraplet::new(all[i].triplet.clone(), json_path.clone()));
                    i += 1;
                }
                assert(views(r@) =~= self@.tetraplets_at(json_path@));
                r
            },
            JValuable::FoldItem(item) => {
                let mut r: Vec<SecurityTetraplet> = Vec::new();
                r.push(item.tetraplet.clone());
                assert(views(r@) =~= self@.tetraplets_at(json_path@));
                r
            },
        }
    }

    /// See [`JValuableView::as_tetraplets`].
    pub fn as_tetraplets(&self) -> (r: Vec<SecurityTetraplet>)
        ensures
            views(r@) == self@.as_tetraplets(),
    {
        let whole = String::new();
        self.tetraplets_at(&whole)
    }

    /// See [`JValuableView::apply_json_path`].
    pub fn apply_json_path(&self, json_path: &String) -> (r: ExecutionResult<Vec<JValue>>)
        ensures
            found_view(r) == self@.apply_json_path(json_path@),
    {
        let value = self.into_jvalue();
        match value.select(json_path.as_str()) {
            None => Err(
                ExecutionError::JValueJsonPathError(
                    value,
                    json_path.clone(),
                    String::from_str("a json path may hold only $ . [ ] * _ - letters and digits"),
                ),
            ),
            Some(Ok(found)) => Ok(found),
            Some(Err(message)) => Err(
                ExecutionError::JValueJsonPathError(value, json_path.clone(), message),
            ),
        }
    }

    /// What a JSON path finds in the value, with where that came from.
    pub fn apply_json_path_with_tetraplets(&self, json_path: &String) -> (r: ExecutionResult<
        (Vec<JValue>, Vec<SecurityTetraplet>),
    >)
        ensures
            match r {
                Ok((found, tetraplets)) => self@.apply_json_path(json_path@) == Ok::<
                    Seq<JValueView>,
                    ErrorView,
                >(values_view(found@)) && views(tetraplets@) == self@.tetraplets_at(json_path@),
                Err(e) => self@.apply_json_path(json_path@) == Err::<Seq<JValueView>, ErrorView>(
                    e@,
                ),
            },
    {
        let found = self.apply_json_path(json_path)?;
        let tetraplets = self.tetraplets_at(json_path);
        Ok((found, tetraplets))
    }
}

/// What a name stands for: the item at hand of the fold whose iterator it
/// is, else the variable of that name.
pub open spec fn jvaluable_spec(name: Seq<char>, ctx: CtxView, met_folds: Seq<FoldStateView>)
    -> Result<JValuableView, ErrorView> {
    match index_of(iterators(met_folds), name) {
        Some(i) => Ok(JValuableView::FoldItem(met_folds[i].items[met_folds[i].position as int])),
        None => match index_of(cache_names(ctx.data_cache), name) {
            Some(i) => match ctx.data_cache[i].1 {
                AValueView::JValueRef(resolved) => Ok(JValuableView::Scalar(resolved)),
                AValueView::JValueAccumulatorRef(all) => Ok(JValuableView::Accumulator(all)),
            },
            None => Err(ErrorView::VariableNotFound(name)),
        },
    }
}

/// See [`jvaluable_spec`].
pub fn resolve_to_jvaluable<'a>(
    name: &String,
    ctx: &'a ExecutionCtx,
    met_folds: &Vec<FoldState<'a>>,
) -> (r: ExecutionResult<JValuable<'a>>)
    requires
        folds_valid(views(met_folds@)),
    ensures
        match r {
            Ok(found) => jvaluable_spec(name@, ctx@, views(met_folds@)) == Ok::<
                JValuableView,
                ErrorView,
            >(found@),
            Err(e) => jvaluable_spec(name@, ctx@, views(met_folds@)) == Err::<
                JValuableView,
                ErrorView,
            >(e@),
        },
{
    match find_fold(met_folds, name) {
        Some(i) => {
            let fold = &met_folds[i];
            assert(views(met_folds@)[i as int] == fold@);
            Ok(JValuable::FoldItem(&fold.items[fold.position]))
        },
        None => match ctx.find_variable(name) {
            Some(i) => match &ctx.data_cache[i].1 {
                AValue::JValueRef(resolved) => Ok(JValuable::Scalar(resolved)),
                AValue::JValueAccumulatorRef(all) => Ok(JValuable::Accumulator(all)),
            },
            None => Err(ExecutionError::VariableNotFound(name.clone())),
        },
    }
}

/// The string that a JSON value is, where it is one.
pub open spec fn jvalue_to_string_spec(value: JValueView) -> Result<Seq<char>, ErrorView> {
    match value {
        JValueView::String(s) => Ok(s),
        _ => Err(ErrorView::IncompatibleJValueType(value, "string"@)),
    }
}

/// The view of a string or an error.
pub open spec fn string_view(r: ExecutionResult<String>) -> Result<Seq<char>, ErrorView> {
    match r {
        Ok(s) => Ok(s@),
        Err(e) => Err(e@),
    }
}

/// See [`jvalue_to_string_spec`].
pub fn jvalue_to_string(jvalue: JValue) -> (r: ExecutionResult<String>)
    ensures
        string_view(r) == jvalue_to_string_spec(jvalue@),
{
    match jvalue {
        JValue::String(s) => Ok(s),
        _ => Err(ExecutionError::IncompatibleJValueType(jvalue, String::from_str("string"))),
    }
}

/// The one string that a JSON path found: an error where it found none,
/// more than one, or something that is no string.
pub open spec fn vec_to_string_spec(values: Seq<JValueView>, json_path: Seq<char>) -> Result<
    Seq<char>,
    ErrorView,
> {
    if values.len() == 0 {
        Err(ErrorView::VariableNotFound(json_path))
    } else if values.len() != 1 {
        Err(ErrorView::MultipleValuesInJsonPath(json_path))
    } else {
        jvalue_to_string_spec(values[0])
    }
}

/// See [`vec_to_string_spec`].
pub fn vec_to_string(values: Vec<JValue>, json_path: &String) -> (r: ExecutionResult<String>)
    ensures
        string_view(r) == vec_to_string_spec(values_view(values@), json_path@),
{
    if values.len() == 0 {
        return Err(ExecutionError::VariableNotFound(json_path.clone()));
    }
    if values.len() != 1 {
        return Err(ExecutionError::MultipleValuesInJsonPath(json_path.clone()));
    }
    jvalue_to_string(values[0].clone())
}

/// The string that a value of the script stands for, as the peer, the
/// service or the function of a call.
pub open spec fn resolve_to_string_spec(
    value: ValueView,
    ctx: CtxView,
    met_folds: Seq<FoldStateView>,
) -> Result<Seq<char>, ErrorView> {
    match value {
        ValueView::InitPeerId => Ok(ctx.init_peer_id),
        ValueView::Literal(text) => Ok(text),
        ValueView::Variable(name) => match jvaluable_spec(name, ctx, met_folds) {
            Err(e) => Err(e),
            Ok(found) => jvalue_to_string_spec(found.into_jvalue()),
        },
        ValueView::JsonPath { variable, path } => match jvaluable_spec(
            variable,
            ctx,
            met_folds,
        ) {
            Err(e) => Err(e),
            Ok(found) => match found.apply_json_path(path) {
                Err(e) => Err(e),
                Ok(values) => vec_to_string_spec(values, path),
            },
        },
    }
}

/// See [`resolve_to_string_spec`].
pub fn resolve_to_string(value: &CallArgValue, ctx: &ExecutionCtx, met_folds: &Vec<FoldState>) -> (r:
    ExecutionResult<String>)
    requires
        folds_valid(views(met_folds@)),
    ensures
        string_view(r) == resolve_to_string_spec(value@, ctx@, views(met_folds@)),
{
    match value {
        CallArgValue::InitPeerId => Ok(ctx.init_peer_id.clone()),
        CallArgValue::Literal(text) => Ok(text.clone()),
        CallArgValue::Variable(name) => {
            let resolved = resolve_to_jvaluable(name, ctx, met_folds)?;
            let jvalue = resolved.into_jvalue();
            jvalue_to_string(jvalue)
        },
        CallArgValue::JsonPath { variable, path } => {
            let resolved = resolve_to_jvaluable(variable, ctx, met_folds)?;
            let found = resolved.apply_json_path(path)?;
            vec_to_string(found, path)
        },
    }
}

/// The JSON value that a value of the script stands for as the argument of
/// a call, with where it came from. A JSON path gives the array of all that
/// it finds.
pub open spec fn resolve_to_args_spec(
    value: ValueView,
    ctx: CtxView,
    met_folds: Seq<FoldStateView>,
) -> Result<(JValueView, Seq<TetrapletView>), ErrorView> {
    match value {
        ValueView::InitPeerId => Ok(
            (JValueView::String(ctx.init_peer_id), seq![literal_tetraplet_spec(ctx.init_peer_id)]),
        ),
        ValueView::Literal(text) => Ok(
            (JValueView::String(text), seq![literal_tetraplet_spec(ctx.init_peer_id)]),
        ),
        ValueView::Variable(name) => match jvaluable_spec(name, ctx, met_folds) {
            Err(e) => Err(e),
            Ok(found) => Ok((found.into_jvalue(), found.as_tetraplets())),
        },
        ValueView::JsonPath { variable, path } => match jvaluable_spec(
            variable,
            ctx,
            met_folds,
        ) {
            Err(e) => Err(e),
            Ok(found) => match found.apply_json_path(path) {
                Err(e) => Err(e),
                Ok(values) => Ok((JValueView::Array(values), found.tetraplets_at(path))),
            },
        },
    }
}

/// The view of a resolved argument or an error.
pub open spec fn args_view(r: ExecutionResult<(JValue, Vec<SecurityTetraplet>)>) -> Result<
    (JValueView, Seq<TetrapletView>),
    ErrorView,
> {
    match r {
        Ok((value, tetraplets)) => Ok((value@, views(tetraplets@))),
        Err(e) => Err(e@),
    }
}

/// A text as the argument of a call: a JSON string that the script itself
/// wrote down.
fn handle_string_arg(arg: &String, ctx: &ExecutionCtx) -> (r: (JValue, Vec<SecurityTetraplet>))
    ensures
        r.0@ == JValueView::String(arg@),
        views(r.1@) == seq![literal_tetraplet_spec(ctx@.init_peer_id)],
{
    let jvalue = JValue::String(arg.clone());
    let tetraplet = SecurityTetraplet::literal_tetraplet(ctx.init_peer_id.clone());
    let mut tetraplets: Vec<SecurityTetraplet> = Vec::new();
    tetraplets.push(tetraplet);
    assert(views(tetraplets@) =~= seq![literal_tetraplet_spec(ctx@.init_peer_id)]);
    (jvalue, tetraplets)
}

/// See [`resolve_to_args_spec`].
pub fn resolve_to_args(value: &CallArgValue, ctx: &ExecutionCtx, met_folds: &Vec<FoldState>) -> (r:
    ExecutionResult<(JValue, Vec<SecurityTetraplet>)>)
    requires
        folds_valid(views(met_folds@)),
    ensures
        args_view(r) == resolve_to_args_spec(value@, ctx@, views(met_folds@)),
{
    match value {
        CallArgValue::InitPeerId => Ok(handle_string_arg(&ctx.init_peer_id, ctx)),
        CallArgValue::Literal(text) => Ok(handle_string_arg(text, ctx)),
        CallArgValue::Variable(name) => {
            let resolved = resolve_to_jvaluable(name, ctx, met_folds)?;
            let tetraplets = resolved.as_tetraplets();
            let jvalue = resolved.into_jvalue();
            Ok((jvalue, tetraplets))
        },
        CallArgValue::JsonPath { variable, path } => {
            let resolved = resolve_to_jvaluable(variable, ctx, met_folds)?;
            let (found, tetraplets) = resolved.apply_json_path_with_tetraplets(path)?;
            let jvalue = JValue::Array(found);
            Ok((jvalue, tetraplets))
        },
    }
}

/// Where a call is to run, as the script writes it: three values that are
/// yet to be resolved.
#[derive(Debug, Clone, Copy)]
pub struct Triplet<'a> {
    pub peer_pk: &'a CallArgValue,
    pub service_id: &'a CallArgValue,
    pub function_name: &'a CallArgValue,
}

/// The message of the error for a call that names no service.
pub open spec fn no_service_id() -> Seq<char> {
    "call should have service id specified by peer part or function part"@
}

/// The three values of a call. The service id is the one that stands with
/// the function where there is one, else the one that stands with the peer;
/// a call with neither is an error.
pub open spec fn triplet_spec(peer: PeerPartView, f: FunctionPartView) -> Result<
    (ValueView, ValueView, ValueView),
    ErrorView,
> {
    match (peer, f) {
        (PeerPartView::PeerPkWithServiceId(peer_pk, _), FunctionPartView::ServiceIdWithFuncName(id, name)) => {
            Ok((peer_pk, id, name))
        },
        (PeerPartView::PeerPkWithServiceId(peer_pk, id), FunctionPartView::FuncName(name)) => Ok(
            (peer_pk, id, name),
        ),
        (PeerPartView::PeerPk(peer_pk), FunctionPartView::ServiceIdWithFuncName(id, name)) => Ok(
            (peer_pk, id, name),
        ),
        (PeerPartView::PeerPk(_), FunctionPartView::FuncName(_)) => Err(
            ErrorView::InstructionError(no_service_id()),
        ),
    }
}

/// The three strings of a call: each value of the triplet resolved, the
/// peer first; the first error is the one returned.
pub open spec fn resolve_triplet_spec(
    triplet: (ValueView, ValueView, ValueView),
    ctx: CtxView,
    met_folds: Seq<FoldStateView>,
) -> Result<TripletView, ErrorView> {
    match resolve_to_string_spec(triplet.0, ctx, met_folds) {
        Err(e) => Err(e),
        Ok(peer_pk) => match resolve_to_string_spec(triplet.1, ctx, met_folds) {
            Err(e) => Err(e),
            Ok(service_id) => match resolve_to_string_spec(triplet.2, ctx, met_folds) {
                Err(e) => Err(e),
                Ok(function_name) => Ok(TripletView { peer_pk, service_id, function_name }),
            },
        },
    }
}

impl<'a> Triplet<'a> {
    /// The three values as the spec functions take them.
    pub open spec fn parts(&self) -> (ValueView, ValueView, ValueView) {
        (self.peer_pk@, self.service_id@, self.function_name@)
    }

    /// See [`triplet_spec`].
    pub fn try_from(peer: &'a PeerPart, f: &'a FunctionPart) -> (r: ExecutionResult<Triplet<'a>>)
        ensures
            match r {
                Ok(triplet) => triplet_spec(peer@, f@) == Ok::<
                    (ValueView, ValueView, ValueView),
                    ErrorView,
                >(triplet.parts()),
                Err(e) => triplet_spec(peer@, f@) == Err::<
                    (ValueView, ValueView, ValueView),
                    ErrorView,
                >(e@),
            },
    {
        let (peer_pk, service_id, function_name) = match (peer, f) {
            (
                PeerPart::PeerPkWithServiceId(peer_pk, _peer_service_id),
                FunctionPart::ServiceIdWithFuncName(service_id, func_name),
            ) => (peer_pk, service_id, func_name),
            (PeerPart::PeerPkWithServiceId(peer_pk, peer_service_id), FunctionPart::FuncName(func_name)) => {
                (peer_pk, peer_service_id, func_name)
            },
            (PeerPart::PeerPk(peer_pk), FunctionPart::ServiceIdWithFuncName(service_id, func_name)) => {
                (peer_pk, service_id, func_name)
            },
            (PeerPart::PeerPk(_), FunctionPart::FuncName(_)) => {
                return Err(
                    ExecutionError::InstructionError(
                        String::from_str(
                            "call should have service id specified by peer part or function part",
                        ),
                    ),
                );
            },
        };
        Ok(Triplet { peer_pk, service_id, function_name })
    }

    /// See [`resolve_triplet_spec`].
    pub fn resolve(self, ctx: &ExecutionCtx, met_folds: &Vec<FoldState>) -> (r: ExecutionResult<
        ResolvedTriplet,
    >)
        requires
            folds_valid(views(met_folds@)),
        ensures
            match r {
                Ok(resolved) => resolve_triplet_spec(self.parts(), ctx@, views(met_folds@)) == Ok::<
                    TripletView,
                    ErrorView,
                >(resolved@),
                Err(e) => resolve_triplet_spec(self.parts(), ctx@, views(met_folds@)) == Err::<
                    TripletView,
                    ErrorView,
                >(e@),
            },
    {
        let peer_pk = resolve_to_string(self.peer_pk, ctx, met_folds)?;
        let service_id = resolve_to_string(self.service_id, ctx, met_folds)?;
        let function_name = resolve_to_string(self.function_name, ctx, met_folds)?;
        Ok(ResolvedTriplet { peer_pk, service_id, function_name })
    }
}

} // verus!
