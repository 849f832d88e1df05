//! Sorted vectors of integers, as the `sorted_vec` crate provides them.
//!
//! Nothing in this file is proved: each contract states what the crate's
//! source shows of the function that it names.

use vstd::prelude::*;
use sorted_vec::SortedVec;

verus! {

/// `sorted_vec::SortedVec`: a vector that keeps its items sorted from the
/// least to the greatest, and may hold an item several times.
#[verifier::external_type_specification]
#[verifier::external_body]
#[verifier::reject_recursive_types(T)]
pub struct ExSortedVec<T: Ord>(SortedVec<T>);

/// The items that a sorted vector holds, in the order in which it holds them.
pub uninterp spec fn sorted_items(v: SortedVec<i128>) -> Seq<i128>;

/// Whether no item of `s` is greater than a later one.
pub open spec fn ascending(s: Seq<i128>) -> bool {
    forall|i: int, j: int| 0 <= i <= j < s.len() ==> s[i] <= s[j]
}

/// `SortedVec::new`: a sorted vector without items.
#[verifier::external_body]
pub(crate) fn sorted_new() -> (r: SortedVec<i128>)
    ensures
        sorted_items(r) == Seq::<i128>::empty(),
{
    SortedVec::new()
}

/// `SortedVec::push`: puts `item` at a place that keeps the items sorted and
/// returns that place; the other items stay, in their order.
#[verifier::external_body]
pub(crate) fn sorted_push(v: &mut SortedVec<i128>, item: i128) -> (r: usize)
    ensures
        r <= sorted_items(*old(v)).len(),
        sorted_items(*final(v)) == sorted_items(*old(v)).insert(r as int, item),
        ascending(sorted_items(*final(v))),
{
    v.push(item)
}

/// `SortedVec::remove_item`: takes out one item equal to `item` and returns
/// it, where the vector holds one; the other items stay, in their order.
/// Where it holds none, nothing changes and the result is `None`.
#[verifier::external_body]
pub(crate) fn sorted_remove_item(v: &mut SortedVec<i128>, item: i128) -> (r: Option<i128>)
    ensures
        match r {
            Some(taken) => taken == item && exists|i: int|
                0 <= i < sorted_items(*old(v)).len() && #[trigger] sorted_items(*old(v))[i] == item
                    && sorted_items(*final(v)) == sorted_items(*old(v)).remove(i),
            None => !sorted_items(*old(v)).contains(item) && sorted_items(*final(v))
                == sorted_items(*old(v)),
        },
        ascending(sorted_items(*final(v))),
{
    v.remove_item(&item)
}

/// `<SortedVec as Deref>::deref`: the items as a vector, sorted from the
/// least to the greatest.
#[verifier::external_body]
pub(crate) fn sorted_as_vec(v: &SortedVec<i128>) -> (r: &Vec<i128>)
    ensures
        r@ == sorted_items(*v),
        ascending(r@),
{
    std::ops::Deref::deref(v)
}

} // verus!
