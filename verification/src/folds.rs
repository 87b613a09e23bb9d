//! Why running a script comes to an end: a measure on an instruction and
//! the folds open around it that every step of the interpreter makes smaller.

use crate::ast::InstructionView;
use crate::context::{iterators, FoldStateView};
use vstd::prelude::*;
use vstd::set_lib::lemma_len_subset;

verus! {

/// The names of the iterators of the folds inside an instruction.
pub open spec fn fold_names(instr: InstructionView) -> Set<Seq<char>>
    decreases instr,
{
    match instr {
        InstructionView::Sequence(left, right) => fold_names(*left).union(fold_names(*right)),
        InstructionView::Par(left, right) => fold_names(*left).union(fold_names(*right)),
        InstructionView::Xor(left, right) => fold_names(*left).union(fold_names(*right)),
        InstructionView::Fold { iterator, instruction, .. } => fold_names(*instruction).insert(
            iterator,
        ),
        InstructionView::Match { instruction, .. } => fold_names(*instruction),
        InstructionView::MisMatch { instruction, .. } => fold_names(*instruction),
        _ => Set::empty(),
    }
}

/// The names of the iterators of the folds inside the instructions that
/// the open folds repeat.
pub open spec fn body_names(met_folds: Seq<FoldStateView>) -> Set<Seq<char>>
    decreases met_folds.len(),
{
    if met_folds.len() == 0 {
        Set::empty()
    } else {
        body_names(met_folds.drop_last()).union(fold_names(met_folds.last().instruction))
    }
}

/// The names that a fold could still take: those of the folds that the
/// instruction or an open fold holds, without those of the open folds.
pub open spec fn free_set(instr: InstructionView, met_folds: Seq<FoldStateView>) -> Set<Seq<char>> {
    fold_names(instr).union(body_names(met_folds)).difference(iterators(met_folds).to_set())
}

/// How many names a fold could still take.
pub open spec fn free_names(instr: InstructionView, met_folds: Seq<FoldStateView>) -> nat {
    free_set(instr, met_folds).len()
}

/// How many items the open folds have yet to go over, the ones at hand
/// counted in.
pub open spec fn remaining(met_folds: Seq<FoldStateView>) -> nat
    decreases met_folds.len(),
{
    if met_folds.len() == 0 {
        0
    } else {
        remaining(met_folds.drop_last()) + (met_folds.last().items.len()
            - met_folds.last().position) as nat
    }
}

/// An instruction holds finitely many folds.
pub proof fn lemma_fold_names_finite(instr: InstructionView)
    ensures
        fold_names(instr).finite(),
    decreases instr,
{
    match instr {
        InstructionView::Sequence(left, right) => {
            lemma_fold_names_finite(*left);
            lemma_fold_names_finite(*right);
        },
        InstructionView::Par(left, right) => {
            lemma_fold_names_finite(*left);
            lemma_fold_names_finite(*right);
        },
        InstructionView::Xor(left, right) => {
            lemma_fold_names_finite(*left);
            lemma_fold_names_finite(*right);
        },
        InstructionView::Fold { instruction, .. } => {
            lemma_fold_names_finite(*instruction);
        },
        InstructionView::Match { instruction, .. } => {
            lemma_fold_names_finite(*instruction);
        },
        InstructionView::MisMatch { instruction, .. } => {
            lemma_fold_names_finite(*instruction);
        },
        _ => {},
    }
}

/// The open folds hold finitely many folds.
pub proof fn lemma_body_names_finite(met_folds: Seq<FoldStateView>)
    ensures
        body_names(met_folds).finite(),
    decreases met_folds.len(),
{
    if met_folds.len() > 0 {
        lemma_body_names_finite(met_folds.drop_last());
        lemma_fold_names_finite(met_folds.last().instruction);
    }
}

/// Finitely many names are free.
pub proof fn lemma_free_set_finite(instr: InstructionView, met_folds: Seq<FoldStateView>)
    ensures
        free_set(instr, met_folds).finite(),
{
    lemma_fold_names_finite(instr);
    lemma_body_names_finite(met_folds);
}

/// An instruction that holds no more folds than another leaves no more
/// names free.
pub proof fn lemma_free_names_inside(
    outer: InstructionView,
    inner: InstructionView,
    met_folds: Seq<FoldStateView>,
)
    requires
        fold_names(inner).subset_of(fold_names(outer)),
    ensures
        free_names(inner, met_folds) <= free_names(outer, met_folds),
{
    lemma_free_set_finite(outer, met_folds);
    lemma_len_subset(free_set(inner, met_folds), free_set(outer, met_folds));
}

/// What an open fold repeats holds no fold that the open folds do not hold.
pub proof fn lemma_body_names_hold(met_folds: Seq<FoldStateView>, i: int)
    requires
        0 <= i < met_folds.len(),
    ensures
        fold_names(met_folds[i].instruction).subset_of(body_names(met_folds)),
    decreases met_folds.len(),
{
    if i < met_folds.len() - 1 {
        lemma_body_names_hold(met_folds.drop_last(), i);
    }
}

/// An open fold that moves to another item leaves the names as they are.
pub proof fn lemma_moved(met_folds: Seq<FoldStateView>, i: int, position: nat)
    requires
        0 <= i < met_folds.len(),
    ensures
        ({
            let moved = met_folds.update(i, FoldStateView { position, ..met_folds[i] });
            &&& body_names(moved) == body_names(met_folds)
            &&& iterators(moved) == iterators(met_folds)
            &&& remaining(moved) + (met_folds[i].items.len() - met_folds[i].position) as nat
                == remaining(met_folds) + (met_folds[i].items.len() - position) as nat
        }),
    decreases met_folds.len(),
{
    let moved = met_folds.update(i, FoldStateView { position, ..met_folds[i] });
    assert(iterators(moved) =~= iterators(met_folds));
    if i < met_folds.len() - 1 {
        lemma_moved(met_folds.drop_last(), i, position);
        assert(moved.drop_last() =~= met_folds.drop_last().update(
            i,
            FoldStateView { position, ..met_folds[i] },
        ));
    } else {
        assert(moved.drop_last() =~= met_folds.drop_last());
    }
}

/// Going once more through what the open fold at `i` repeats, on its next
/// item, is a smaller task than the `next` that asks for it.
pub proof fn lemma_next_decreases(instr: InstructionView, met_folds: Seq<FoldStateView>, i: int)
    requires
        0 <= i < met_folds.len(),
        met_folds[i].position + 1 < met_folds[i].items.len(),
    ensures
        ({
            let moved = met_folds.update(
                i,
                FoldStateView { position: met_folds[i].position + 1, ..met_folds[i] },
            );
            &&& free_names(met_folds[i].instruction, moved) <= free_names(instr, met_folds)
            &&& remaining(moved) < remaining(met_folds)
        }),
{
    let moved = met_folds.update(
        i,
        FoldStateView { position: met_folds[i].position + 1, ..met_folds[i] },
    );
    lemma_moved(met_folds, i, met_folds[i].position + 1);
    lemma_body_names_hold(met_folds, i);
    lemma_free_set_finite(instr, met_folds);
    lemma_len_subset(free_set(met_folds[i].instruction, moved), free_set(instr, met_folds));
}

/// Opening a fold whose name no open fold has leaves fewer names free.
pub proof fn lemma_fold_decreases(
    instr: InstructionView,
    met_folds: Seq<FoldStateView>,
    opened: FoldStateView,
)
    requires
        match instr {
            InstructionView::Fold { iterator, instruction, .. } => opened.iterator == iterator
                && opened.instruction == *instruction,
            _ => false,
        },
        !iterators(met_folds).contains(opened.iterator),
    ensures
        free_names(opened.instruction, met_folds.push(opened)) < free_names(instr, met_folds),
{
    let inner = free_set(opened.instruction, met_folds.push(opened));
    let outer = free_set(instr, met_folds);
    lemma_free_set_finite(instr, met_folds);
    assert(met_folds.push(opened).drop_last() =~= met_folds);
    assert(iterators(met_folds.push(opened)) =~= iterators(met_folds).push(opened.iterator));
    assert(iterators(met_folds.push(opened)).last() == opened.iterator);
    assert(iterators(met_folds.push(opened)).contains(opened.iterator));
    assert forall|name: Seq<char>| inner.contains(name) implies outer.contains(name) by {
        if iterators(met_folds).contains(name) {
            let k = choose|k: int| 0 <= k < iterators(met_folds).len() && iterators(met_folds)[k] == name;
            assert(iterators(met_folds.push(opened))[k] == name);
        }
    }
    inner.lemma_subset_not_in_lt(outer, opened.iterator);
}

} // verus!
