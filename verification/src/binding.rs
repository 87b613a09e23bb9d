//! How the result of a call is bound to the output that the call names.

use crate::ast::{CallOutput, OutputView};
use crate::context::{
    cache_names, cache_view, find_fold, iterators, AValue, AValueView, CtxView, ErrorView,
    ExecutionCtx, ExecutionError, ExecutionResult, FoldState, FoldStateView, ResolvedCallResult,
    ResolvedView,
};
use crate::lists::{index_of, lemma_first_from, lemma_views_push, views};
use vstd::prelude::*;
use vstd::string::StringExecFns;

verus! {

/// The context with another report on the subtree that ran last.
pub open spec fn with_complete(ctx: CtxView, subtree_complete: bool) -> CtxView {
    CtxView { subtree_complete, ..ctx }
}

/// The context with other variables.
pub open spec fn with_cache(ctx: CtxView, data_cache: Seq<(Seq<char>, AValueView)>) -> CtxView {
    CtxView { data_cache, ..ctx }
}

/// The context after a result was bound to an output.
///
/// A scalar is set where no variable and no open fold has its name. Inside
/// a fold it may also take the place of a scalar of the same name. An
/// accumulator is started, or the result is put at the end of the one that
/// is there. Every other meeting of names is an error.
pub open spec fn bind_spec(
    ctx: CtxView,
    met_folds: Seq<FoldStateView>,
    output: OutputView,
    resolved: ResolvedView,
) -> Result<CtxView, ErrorView> {
    match output {
        OutputView::Discard => Ok(ctx),
        OutputView::Scalar(name) => {
            if index_of(iterators(met_folds), name) is Some {
                Err(ErrorView::MultipleVariablesFound(name))
            } else {
                match index_of(cache_names(ctx.data_cache), name) {
                    None => Ok(
                        with_cache(
                            ctx,
                            ctx.data_cache.push((name, AValueView::JValueRef(resolved))),
                        ),
                    ),
                    Some(i) => if met_folds.len() > 0 && ctx.data_cache[i].1 is JValueRef {
                        Ok(
                            with_cache(
                                ctx,
                                ctx.data_cache.update(i, (name, AValueView::JValueRef(resolved))),
                            ),
                        )
                    } else {
                        Err(ErrorView::MultipleVariablesFound(name))
                    },
                }
            }
        },
        OutputView::Accumulator(name) => {
            if index_of(iterators(met_folds), name) is Some {
                Err(ErrorView::MultipleVariablesFound(name))
            } else {
                match index_of(cache_names(ctx.data_cache), name) {
                    None => Ok(
                        with_cache(
                            ctx,
                            ctx.data_cache.push(
                                (name, AValueView::JValueAccumulatorRef(seq![resolved])),
                            ),
                        ),
                    ),
                    Some(i) => match ctx.data_cache[i].1 {
                        AValueView::JValueAccumulatorRef(all) => Ok(
                            with_cache(
                                ctx,
                                ctx.data_cache.update(
                                    i,
                                    (name, AValueView::JValueAccumulatorRef(all.push(resolved))),
                                ),
                            ),
                        ),
                        AValueView::JValueRef(scalar) => Err(
                            ErrorView::IncompatibleJValueType(scalar.result, "array"@),
                        ),
                    },
                }
            }
        },
    }
}

/// The view of a list of variables with one more variable.
proof fn lemma_cache_view_push(cache: Seq<(String, AValue)>, entry: (String, AValue))
    ensures
        cache_view(cache.push(entry)) == cache_view(cache).push((entry.0@, entry.1@)),
{
    assert(cache_view(cache.push(entry)) =~= cache_view(cache).push((entry.0@, entry.1@)));
}

/// The view of a list of variables with one variable replaced.
proof fn lemma_cache_view_update(cache: Seq<(String, AValue)>, i: int, entry: (String, AValue))
    requires
        0 <= i < cache.len(),
    ensures
        cache_view(cache.update(i, entry)) == cache_view(cache).update(i, (entry.0@, entry.1@)),
{
    assert(cache_view(cache.update(i, entry)) =~= cache_view(cache).update(
        i,
        (entry.0@, entry.1@),
    ));
}

/// Binds the result of a call to the call's output; see [`bind_spec`].
pub fn set_local_call_result(
    executed_result: ResolvedCallResult,
    output: &CallOutput,
    exec_ctx: &mut ExecutionCtx,
    met_folds: &Vec<FoldState>,
) -> (r: ExecutionResult<()>)
    ensures
        match r {
            Ok(()) => bind_spec(old(exec_ctx)@, views(met_folds@), output@, executed_result@)
                == Ok::<CtxView, ErrorView>(final(exec_ctx)@),
            Err(e) => bind_spec(old(exec_ctx)@, views(met_folds@), output@, executed_result@)
                == Err::<CtxView, ErrorView>(e@) && *final(exec_ctx) == *old(exec_ctx),
        },
{
    match output {
        CallOutput::Discard => Ok(()),
        CallOutput::Scalar(name) => {
            if find_fold(met_folds, name).is_some() {
                return Err(ExecutionError::MultipleVariablesFound(name.clone()));
            }
            match exec_ctx.find_variable(name) {
                None => {
                    let entry = (name.clone(), AValue::JValueRef(executed_result));
                    proof {
                        lemma_cache_view_push(exec_ctx.data_cache@, entry);
                    }
                    exec_ctx.data_cache.push(entry);
                    Ok(())
                },
                Some(i) => {
                    // a scalar gives way to another one only inside a fold
                    let shadows = match &exec_ctx.data_cache[i].1 {
                        AValue::JValueRef(_) => met_folds.len() > 0,
                        AValue::JValueAccumulatorRef(_) => false,
                    };
                    if !shadows {
                        return Err(ExecutionError::MultipleVariablesFound(name.clone()));
                    }
                    let entry = (name.clone(), AValue::JValueRef(executed_result));
                    proof {
                        lemma_cache_view_update(exec_ctx.data_cache@, i as int, entry);
                    }
                    exec_ctx.data_cache.set(i, entry);
                    Ok(())
                },
            }
        },
        CallOutput::Accumulator(name) => {
            if find_fold(met_folds, name).is_some() {
                return Err(ExecutionError::MultipleVariablesFound(name.clone()));
            }
            match exec_ctx.find_variable(name) {
                None => {
                    let mut all: Vec<ResolvedCallResult> = Vec::new();
                    all.push(executed_result);
                    assert(views(all@) =~= seq![executed_result@]);
                    let entry = (name.clone(), AValue::JValueAccumulatorRef(all));
                    proof {
                        lemma_cache_view_push(exec_ctx.data_cache@, entry);
                    }
                    exec_ctx.data_cache.push(entry);
                    Ok(())
                },
                Some(i) => {
                    if let AValue::JValueRef(scalar) = &exec_ctx.data_cache[i].1 {
                        return Err(
                            ExecutionError::IncompatibleJValueType(
                                scalar.result.clone(),
                                String::from_str("array"),
                            ),
                        );
                    }
                    let ghost before = exec_ctx.data_cache@;
                    let (key, value) = exec_ctx.data_cache.remove(i);
                    let mut all = match value {
                        AValue::JValueAccumulatorRef(all) => all,
                        AValue::JValueRef(_) => Vec::new(),
                    };
                    proof {
                        lemma_views_push(all@, executed_result);
                    }
                    all.push(executed_result);
                    let entry = (key, AValue::JValueAccumulatorRef(all));
                    exec_ctx.data_cache.insert(i, entry);
                    proof {
                        lemma_first_from(cache_names(old(exec_ctx)@.data_cache), name@, 0);
                        assert(exec_ctx.data_cache@ =~= before.update(i as int, entry));
                        lemma_cache_view_update(before, i as int, entry);
                    }
                    Ok(())
                },
            }
        },
    }
}

} // verus!
