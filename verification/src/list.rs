//! Lists, taken item by item as mathematical values.

use vstd::prelude::*;

verus! {

/// An empty list.
pub fn empty<T: DeepView>() -> (res: Vec<T>)
    ensures
        res.deep_view() == Seq::<T::V>::empty(),
{
    let res: Vec<T> = Vec::new();
    assert(res.deep_view() =~= Seq::<T::V>::empty());
    res
}

/// Appends `item`.
pub fn push<T: DeepView>(list: &mut Vec<T>, item: T)
    ensures
        final(list).deep_view() == old(list).deep_view().push(item.deep_view()),
{
    let ghost before = list.deep_view();
    list.push(item);
    assert(list.deep_view() =~= before.push(item.deep_view()));
}

/// Appends every item of `items`.
pub fn append<T: DeepView>(list: &mut Vec<T>, items: Vec<T>)
    ensures
        final(list).deep_view() == old(list).deep_view() + items.deep_view(),
{
    let ghost before = list.deep_view();
    let mut items: Vec<T> = items;
    let ghost added = items.deep_view();
    list.append(&mut items);
    assert(list.deep_view() =~= before + added);
}

} // verus!
