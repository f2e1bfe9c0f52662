//! Equality and hashing of maps, neither of which looks at the order of the
//! entries.

use vstd::prelude::*;
use vstd::std_specs::cmp::PartialEqSpec;
use core::hash::{Hash, Hasher};
use std::collections::hash_map::DefaultHasher;
use vstd::std_specs::hash::DefaultHasherAdditionalSpecFns;
use crate::collections::entries::{
    distinct_keys, has_key, index_of, inserted_all, key_at, law_insertion_order_is_index_order,
    lemma_index_of, maps_equal, KeyModel,
};
use crate::collections::hash::{text_writes, BorrowHashed, HashInto};
use crate::collections::small_map::SmallMap;

verus! {

impl<V: PartialEq> PartialEq for SmallMap<V> {
    fn eq(&self, other: &Self) -> (r: bool) {
        if self.len() != other.len() {
            return false;
        }
        let entries = self.iter_hashed();
        let mut i: usize = 0;
        while i < entries.len()
            invariant
                i <= entries@.len(),
                entries@.len() == self@.len(),
                self@.len() == other@.len(),
                forall|j: int|
                    0 <= j < entries@.len() ==> (#[trigger] entries@[j]).0.model() == self@[j].0
                        && *entries@[j].1 == self@[j].1,
                V::obeys_eq_spec() ==> forall|j: int|
                    0 <= j < i ==> has_key(other@, (#[trigger] self@[j]).0) && self@[j].1.eq_spec(
                        &other@[index_of(other@, self@[j].0)].1,
                    ),
            decreases entries@.len() - i,
        {
            let key = BorrowHashed::new_unchecked(entries[i].0.hash(), entries[i].0.key());
            let ghost k = self@[i as int].0;
            assert(key.model() == k);
            match other.get_hashed(key) {
                Some(theirs) => {
                    let ours = entries[i].1;
                    if !ours.eq(theirs) {
                        assert(V::obeys_eq_spec() ==> !self@[i as int].1.eq_spec(
                            &other@[index_of(other@, self@[i as int].0)].1,
                        ));
                        return false;
                    }
                },
                None => {
                    assert(!has_key(other@, self@[i as int].0));
                    return false;
                },
            }
            i += 1;
        }
        true
    }
}

impl<V: PartialEq> vstd::std_specs::cmp::PartialEqSpecImpl for SmallMap<V> {
    open spec fn obeys_eq_spec() -> bool {
        V::obeys_eq_spec()
    }

    open spec fn eq_spec(&self, other: &Self) -> bool {
        maps_equal(self@, other@)
    }
}

impl<V: Eq> Eq for SmallMap<V> {

}

/// The sum of a list of hashes, as a number.
pub open spec fn int_sum(s: Seq<u64>) -> int
    decreases s.len(),
{
    if s.len() == 0 {
        0
    } else {
        int_sum(s.drop_last()) + s.last()
    }
}

/// The sum of a list of hashes modulo 2^64.
pub open spec fn sum_mod(s: Seq<u64>) -> u64 {
    (int_sum(s) % 0x1_0000_0000_0000_0000) as u64
}

/// Adds hashes up modulo 2^64.
pub fn combine_hashes(hashes: &Vec<u64>) -> (r: u64)
    ensures
        r == sum_mod(hashes@),
{
    let mut total: u64 = 0;
    let mut i: usize = 0;
    assert(hashes@.take(0) =~= Seq::<u64>::empty());
    while i < hashes.len()
        invariant
            i <= hashes@.len(),
            total == sum_mod(hashes@.take(i as int)),
        decreases hashes@.len() - i,
    {
        let x = hashes[i];
        proof {
            let m = 0x1_0000_0000_0000_0000int;
            let now = hashes@.take(i + 1);
            assert(now.drop_last() =~= hashes@.take(i as int));
            assert(now.last() == x);
            let a = int_sum(hashes@.take(i as int));
            vstd::arithmetic::div_mod::lemma_add_mod_noop(a, x as int, m);
            vstd::arithmetic::div_mod::lemma_small_mod(x as nat, m as nat);
            let t = total + x;
            assert(t % m == if t >= m {
                t - m
            } else {
                t
            }) by {
                if t >= m {
                    vstd::arithmetic::div_mod::lemma_mod_add_multiples_vanish(t - m, m);
                    vstd::arithmetic::div_mod::lemma_small_mod((t - m) as nat, m as nat);
                } else {
                    vstd::arithmetic::div_mod::lemma_small_mod(t as nat, m as nat);
                }
            }
        }
        total = total.wrapping_add(x);
        i += 1;
    }
    assert(hashes@.take(i as int) =~= hashes@);
    total
}

/// Taking one hash out of a list lowers the sum by that hash.
pub proof fn lemma_int_sum_remove(s: Seq<u64>, j: int)
    requires
        0 <= j < s.len(),
    ensures
        int_sum(s) == int_sum(s.remove(j)) + s[j],
    decreases s.len(),
{
    if j == s.len() - 1 {
        assert(s.remove(j) =~= s.drop_last());
    } else {
        lemma_int_sum_remove(s.drop_last(), j);
        assert(s.remove(j).drop_last() =~= s.drop_last().remove(j));
        assert(s.remove(j).last() == s.last());
    }
}

/// The sum of hashes does not depend on their order: two lists that hold the
/// same hashes, each as often in one as in the other, combine to the same
/// hash.
pub proof fn law_combined_hash_ignores_order(a: Seq<u64>, b: Seq<u64>)
    requires
        a.to_multiset() == b.to_multiset(),
    ensures
        int_sum(a) == int_sum(b),
        sum_mod(a) == sum_mod(b),
    decreases a.len(),
{
    a.to_multiset_ensures();
    b.to_multiset_ensures();
    if a.len() > 0 {
        let x = a.last();
        assert(a.contains(x)) by {
            assert(a[a.len() - 1] == x);
        }
        assert(b.to_multiset().count(x) > 0);
        assert(b.contains(x));
        let j = choose|j: int| 0 <= j < b.len() && b[j] == x;
        assert(a.drop_last() =~= a.remove(a.len() - 1));
        assert(a.drop_last().to_multiset() =~= a.to_multiset().remove(x));
        assert(b.remove(j).to_multiset() =~= b.to_multiset().remove(x));
        law_combined_hash_ignores_order(a.drop_last(), b.remove(j));
        lemma_int_sum_remove(b, j);
    } else {
        assert(b.len() == 0);
    }
}

/// Whatever the hash of an entry is, as long as it depends on the entry
/// alone: two runs of the same entries, each as often in one as in the
/// other, have the same combined hash. So the hash of a map does not depend
/// on the order in which the map was filled.
pub proof fn law_map_hash_ignores_order<E>(a: Seq<E>, b: Seq<E>, entry_hash: spec_fn(E) -> u64)
    requires
        a.to_multiset() == b.to_multiset(),
    ensures
        sum_mod(a.map_values(entry_hash)) == sum_mod(b.map_values(entry_hash)),
    decreases a.len(),
{
    a.to_multiset_ensures();
    b.to_multiset_ensures();
    if a.len() > 0 {
        let x = a.last();
        assert(a.contains(x)) by {
            assert(a[a.len() - 1] == x);
        }
        assert(b.to_multiset().count(x) > 0);
        assert(b.contains(x));
        let j = choose|j: int| 0 <= j < b.len() && b[j] == x;
        assert(a.drop_last() =~= a.remove(a.len() - 1));
        assert(a.drop_last().to_multiset() =~= a.to_multiset().remove(x));
        assert(b.remove(j).to_multiset() =~= b.to_multiset().remove(x));
        law_map_hash_ignores_order(a.drop_last(), b.remove(j), entry_hash);
        assert(a.map_values(entry_hash).drop_last() =~= a.drop_last().map_values(entry_hash));
        assert(b.map_values(entry_hash).remove(j) =~= b.remove(j).map_values(entry_hash));
        lemma_int_sum_remove(b.map_values(entry_hash), j);
    } else {
        assert(b.len() == 0);
        assert(a.map_values(entry_hash) =~= b.map_values(entry_hash));
    }
}

/// What hashing an entry writes to a hasher: what its key writes, then what
/// its value writes. This is how a pair of the two is hashed.
pub open spec fn entry_writes<V: HashInto>(e: (KeyModel, V)) -> Seq<Seq<u8>> {
    text_writes(e.0.1) + e.1.writes()
}

/// The hash of an entry: what a fresh standard hasher finishes with once
/// the entry was hashed into it.
pub open spec fn entry_hash<V: HashInto>(e: (KeyModel, V)) -> u64 {
    DefaultHasher::spec_finish(Seq::<Seq<u8>>::empty() + entry_writes(e))
}

/// The hash of a map with these entries: the hashes of the entries, added
/// up modulo 2^64.
pub open spec fn map_hash<V: HashInto>(entries: Seq<(KeyModel, V)>) -> u64 {
    sum_mod(entries.map_values(|e: (KeyModel, V)| entry_hash(e)))
}

/// Two maps that are equal as maps hold the same entries, each as often in
/// one as in the other, where values that compare equal are the same.
pub proof fn lemma_equal_maps_same_entries<V: PartialEq>(
    a: Seq<(KeyModel, V)>,
    b: Seq<(KeyModel, V)>,
)
    requires
        distinct_keys(a),
        distinct_keys(b),
        maps_equal(a, b),
        forall|x: V, y: V| #[trigger] x.eq_spec(&y) ==> x == y,
    ensures
        a.to_multiset() == b.to_multiset(),
    decreases a.len(),
{
    a.to_multiset_ensures();
    b.to_multiset_ensures();
    if a.len() == 0 {
        assert(a =~= b);
    } else {
        let x = a.last();
        assert(has_key(b, a[a.len() - 1].0));
        let j = index_of(b, x.0);
        assert(key_at(b, j, x.0));
        assert(a[a.len() - 1].1.eq_spec(&b[j].1));
        assert(b[j] == x);
        let rest = a.drop_last();
        let others = b.remove(j);
        assert forall|i: int| 0 <= i < rest.len() implies has_key(others, (#[trigger] rest[i]).0)
            && rest[i].1.eq_spec(&others[index_of(others, rest[i].0)].1) by {
            assert(rest[i] == a[i]);
            assert(has_key(b, a[i].0));
            let c = index_of(b, a[i].0);
            assert(key_at(b, c, a[i].0));
            assert(a[i].0 != a[a.len() - 1].0);
            let c2 = if c < j {
                c
            } else {
                c - 1
            };
            assert(others[c2] == b[c]);
            assert(key_at(others, c2, a[i].0));
            lemma_index_of(others, c2, a[i].0);
        }
        assert(distinct_keys(others)) by {
            assert forall|p: int, q: int| 0 <= p < q < others.len() implies others[p].0
                != others[q].0 by {
                let first = if p < j {
                    p
                } else {
                    p + 1
                };
                let second = if q < j {
                    q
                } else {
                    q + 1
                };
                assert(others[p] == b[first] && others[q] == b[second]);
            }
        }
        lemma_equal_maps_same_entries(rest, others);
        assert(a.contains(x)) by {
            assert(a[a.len() - 1] == x);
        }
        assert(b.contains(x)) by {
            assert(b[j] == x);
        }
        assert(rest =~= a.remove(a.len() - 1));
        assert(rest.to_multiset() =~= a.to_multiset().remove(x));
        assert(others.to_multiset() =~= b.to_multiset().remove(x));
        assert(a.to_multiset() =~= b.to_multiset()) by {
            assert forall|y: (KeyModel, V)| a.to_multiset().count(y) == b.to_multiset().count(
                y,
            ) by {
                assert(a.to_multiset().remove(x).count(y) == b.to_multiset().remove(x).count(y));
                assert(a.to_multiset().count(x) > 0);
                assert(b.to_multiset().count(x) > 0);
            }
        }
    }
}

/// Equal maps hash equally: two maps that are equal as maps have the same
/// hash, wherever each holds its entries. This is for values that are the
/// same where they compare equal.
pub proof fn law_equal_maps_hash_equally<V: PartialEq + HashInto>(
    a: Seq<(KeyModel, V)>,
    b: Seq<(KeyModel, V)>,
)
    requires
        distinct_keys(a),
        distinct_keys(b),
        maps_equal(a, b),
        forall|x: V, y: V| #[trigger] x.eq_spec(&y) ==> x == y,
    ensures
        map_hash(a) == map_hash(b),
{
    lemma_equal_maps_same_entries(a, b);
    law_map_hash_ignores_order(a, b, |e: (KeyModel, V)| entry_hash(e));
}

/// The hash of a map does not depend on the order in which the map was
/// filled: two maps that were filled with the same entries, each under a
/// key of its own, have the same hash.
pub proof fn law_hash_ignores_insertion_order<V: HashInto>(
    a: Seq<(KeyModel, V)>,
    b: Seq<(KeyModel, V)>,
)
    requires
        distinct_keys(a),
        distinct_keys(b),
        a.to_multiset() == b.to_multiset(),
    ensures
        map_hash(inserted_all(Seq::<(KeyModel, V)>::empty(), a)) == map_hash(
            inserted_all(Seq::<(KeyModel, V)>::empty(), b),
        ),
{
    law_insertion_order_is_index_order(a);
    law_insertion_order_is_index_order(b);
    law_map_hash_ignores_order(a, b, |e: (KeyModel, V)| entry_hash(e));
}

/// `Hasher::write_u64`: feeds the hasher one number. Nothing is claimed of
/// what the hasher holds after.
#[verifier::external_body]
fn feed_u64<H: Hasher>(state: &mut H, x: u64) {
    state.write_u64(x)
}

impl<V: HashInto> SmallMap<V> {
    /// The hash of the map: the hashes of its entries, each taken with a
    /// standard hasher of its own, added up modulo 2^64.
    pub fn hash_value(&self) -> (r: u64)
        ensures
            r == map_hash(self@),
    {
        let entries = self.iter();
        let mut hashes: Vec<u64> = Vec::with_capacity(entries.len());
        let mut i: usize = 0;
        let ghost all = self@.map_values(|e: (KeyModel, V)| entry_hash(e));
        while i < entries.len()
            invariant
                i <= entries@.len(),
                entries@.len() == self@.len(),
                forall|j: int|
                    0 <= j < entries@.len() ==> (#[trigger] entries@[j]).0@ == self@[j].0.1
                        && *entries@[j].1 == self@[j].1,
                all == self@.map_values(|e: (KeyModel, V)| entry_hash(e)),
                hashes@ == all.take(i as int),
            decreases entries@.len() - i,
        {
            let mut hasher = DefaultHasher::new();
            entries[i].0.hash_into(&mut hasher);
            entries[i].1.hash_into(&mut hasher);
            let h = hasher.finish();
            proof {
                let e = self@[i as int];
                assert(hasher@ =~= Seq::<Seq<u8>>::empty() + entry_writes(e));
                assert(all[i as int] == entry_hash(e));
                assert(all.take(i + 1) =~= all.take(i as int).push(h));
            }
            hashes.push(h);
            i += 1;
        }
        assert(all.take(i as int) =~= all);
        combine_hashes(&hashes)
    }
}

impl<V: HashInto> Hash for SmallMap<V> {
    /// Feeds the hasher the hash of the map, and nothing else.
    fn hash<H: Hasher>(&self, state: &mut H) {
        let h = self.hash_value();
        feed_u64(state, h);
    }
}

} // verus!
