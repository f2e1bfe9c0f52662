//! The hashed index of keys that large maps are built on.

use vstd::prelude::*;
use indexmap::IndexSet;
use crate::collections::hash::Hashed;
use crate::collections::idhasher::BuildIdHasher;

verus! {

/// The largest capacity that is asked of a set in advance. More than this
/// is not worth reserving, since the set grows by itself; and a capacity
/// near the size of the address space cannot be had at all.
pub const RESERVE_LIMIT: usize = 0x1_0000;

/// `indexmap::IndexSet`: a hash set that keeps its items in the order of
/// their insertion. Nothing inside it is seen from here.
#[verifier::external_type_specification]
#[verifier::external_body]
#[verifier::reject_recursive_types(T)]
#[verifier::reject_recursive_types(S)]
pub struct ExIndexSet<T, S>(IndexSet<T, S>);

/// The items of a set of hashed strings, in the order of their insertion,
/// each as its hash and its characters.
pub uninterp spec fn index_set_items(s: IndexSet<Hashed<String>, BuildIdHasher>) -> Seq<
    (u32, Seq<char>),
>;

/// `IndexSet`'s `clone`: a set of the same items in the same order.
#[verifier::external_body]
pub(crate) fn index_set_clone(s: &IndexSet<Hashed<String>, BuildIdHasher>) -> (r: IndexSet<
    Hashed<String>,
    BuildIdHasher,
>)
    ensures
        index_set_items(r) == index_set_items(*s),
{
    s.clone()
}

/// `IndexSet::with_capacity_and_hasher`: a set without items. A capacity
/// that overflows makes it panic, so only small ones are asked for.
#[verifier::external_body]
pub(crate) fn index_set_with_capacity(n: usize) -> (r: IndexSet<Hashed<String>, BuildIdHasher>)
    requires
        n <= RESERVE_LIMIT,
    ensures
        index_set_items(r) == Seq::<(u32, Seq<char>)>::empty(),
{
    IndexSet::with_capacity_and_hasher(n, BuildIdHasher::new())
}

/// `IndexSet::len`: the number of items.
#[verifier::external_body]
pub(crate) fn index_set_len(s: &IndexSet<Hashed<String>, BuildIdHasher>) -> (r: usize)
    ensures
        r == index_set_items(*s).len(),
{
    s.len()
}

/// `IndexSet::insert_full`: where an equal item is in the set, the set stays
/// as it is and the result is that item's index and `false`; else the item
/// goes in last and the result is its index and `true`.
#[verifier::external_body]
pub(crate) fn index_set_insert_full(
    s: &mut IndexSet<Hashed<String>, BuildIdHasher>,
    item: Hashed<String>,
) -> (r: (usize, bool))
    ensures
        r.1 == !index_set_items(*old(s)).contains(item.model()),
        r.1 ==> index_set_items(*final(s)) == index_set_items(*old(s)).push(item.model()) && r.0
            == index_set_items(*old(s)).len(),
        !r.1 ==> index_set_items(*final(s)) == index_set_items(*old(s)) && 0 <= r.0
            < index_set_items(*old(s)).len() && index_set_items(*old(s))[r.0 as int]
            == item.model(),
{
    s.insert_full(item)
}

/// `IndexSet::get_index_of`: the index of an item equal to `item`, if the
/// set has one.
#[verifier::external_body]
pub(crate) fn index_set_get_index_of(
    s: &IndexSet<Hashed<String>, BuildIdHasher>,
    item: &Hashed<String>,
) -> (r: Option<usize>)
    ensures
        r is None <==> !index_set_items(*s).contains(item.model()),
        r matches Some(i) ==> 0 <= i < index_set_items(*s).len() && index_set_items(*s)[i as int]
            == item.model(),
{
    s.get_index_of(item)
}

/// `IndexSet::get_index`: the item at an index, if the index is within the
/// set.
#[verifier::external_body]
pub(crate) fn index_set_get_index(s: &IndexSet<Hashed<String>, BuildIdHasher>, index: usize) -> (r:
    Option<&Hashed<String>>)
    ensures
        r is Some <==> index < index_set_items(*s).len(),
        r matches Some(item) ==> item.model() == index_set_items(*s)[index as int],
{
    s.get_index(index)
}

/// `IndexSet::shift_remove_full`: where an item equal to `item` is in the
/// set, it leaves, the items behind it move up by one, and the result is its
/// index and the item; else the set stays as it is.
#[verifier::external_body]
pub(crate) fn index_set_shift_remove_full(
    s: &mut IndexSet<Hashed<String>, BuildIdHasher>,
    item: &Hashed<String>,
) -> (r: Option<(usize, Hashed<String>)>)
    ensures
        r is None <==> !index_set_items(*old(s)).contains(item.model()),
        r is None ==> index_set_items(*final(s)) == index_set_items(*old(s)),
        r matches Some(found) ==> 0 <= found.0 < index_set_items(*old(s)).len()
            && index_set_items(*old(s))[found.0 as int] == item.model() && found.1.model()
            == item.model() && index_set_items(*final(s)) == index_set_items(*old(s)).remove(
            found.0 as int,
        ),
{
    s.shift_remove_full(item)
}

/// `IndexSet::into_iter`, collected: the items in the order of their
/// insertion.
#[verifier::external_body]
pub(crate) fn index_set_into_vec(s: IndexSet<Hashed<String>, BuildIdHasher>) -> (r: Vec<
    Hashed<String>,
>)
    ensures
        r@.len() == index_set_items(s).len(),
        forall|i: int| 0 <= i < r@.len() ==> (#[trigger] r@[i]).model() == index_set_items(s)[i],
{
    s.into_iter().collect()
}

} // verus!
