//! Lists of things that have a value, and lists of names.

use vstd::prelude::*;

verus! {

/// The values of the items of a list, in order.
pub open spec fn views<T: View>(items: Seq<T>) -> Seq<T::V> {
    Seq::new(items.len(), |i: int| items[i]@)
}

/// The values of a list with one more item are those of the list, and the
/// value of the item.
pub proof fn lemma_views_push<T: View>(items: Seq<T>, item: T)
    ensures
        views(items.push(item)) == views(items).push(item@),
{
    assert(views(items.push(item)) =~= views(items).push(item@));
}

/// The values of a list with one item replaced.
pub proof fn lemma_views_update<T: View>(items: Seq<T>, i: int, item: T)
    requires
        0 <= i < items.len(),
    ensures
        views(items.update(i, item)) == views(items).update(i, item@),
{
    assert(views(items.update(i, item)) =~= views(items).update(i, item@));
}

/// The first place from `from` on at which `keys` holds `key`.
pub open spec fn first_from(keys: Seq<Seq<char>>, key: Seq<char>, from: int) -> Option<int>
    decreases keys.len() - from,
{
    if from < 0 || from >= keys.len() {
        None
    } else if keys[from] == key {
        Some(from)
    } else {
        first_from(keys, key, from + 1)
    }
}

/// The first place at which `keys` holds `key`.
pub open spec fn index_of(keys: Seq<Seq<char>>, key: Seq<char>) -> Option<int> {
    first_from(keys, key, 0)
}

/// What [`first_from`] finds is a place of `key`, and there is none before it.
pub proof fn lemma_first_from(keys: Seq<Seq<char>>, key: Seq<char>, from: int)
    requires
        0 <= from,
    ensures
        match first_from(keys, key, from) {
            Some(i) => from <= i < keys.len() && keys[i] == key && forall|k: int|
                from <= k < i ==> keys[k] != key,
            None => forall|k: int| from <= k < keys.len() ==> keys[k] != key,
        },
    decreases keys.len() - from,
{
    if from < keys.len() && keys[from] != key {
        lemma_first_from(keys, key, from + 1);
    }
}

} // verus!
