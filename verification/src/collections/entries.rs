//! The mathematics of an ordered map: a sequence of entries in which no key
//! occurs twice. A key is a hash together with the characters of a string.

use vstd::prelude::*;
use vstd::std_specs::cmp::PartialEqSpec;

verus! {

/// A key as the contracts see it: the hash it carries and its characters.
pub type KeyModel = (u32, Seq<char>);

/// Entry `i` exists and has the key `k`.
pub open spec fn key_at<V>(s: Seq<(KeyModel, V)>, i: int, k: KeyModel) -> bool {
    0 <= i < s.len() && s[i].0 == k
}

/// The keys of the entries, in their order.
pub open spec fn keys_of<V>(s: Seq<(KeyModel, V)>) -> Seq<KeyModel> {
    s.map_values(|e: (KeyModel, V)| e.0)
}

/// No key occurs twice.
pub open spec fn distinct_keys<V>(s: Seq<(KeyModel, V)>) -> bool {
    forall|i: int, j: int| 0 <= i < j < s.len() ==> s[i].0 != s[j].0
}

/// Some entry has the key `k`.
pub open spec fn has_key<V>(s: Seq<(KeyModel, V)>, k: KeyModel) -> bool {
    exists|i: int| key_at(s, i, k)
}

/// The index of an entry with the key `k`, where there is one.
pub open spec fn index_of<V>(s: Seq<(KeyModel, V)>, k: KeyModel) -> int {
    choose|i: int| key_at(s, i, k)
}

/// The value under the key `k`, if the key is there.
pub open spec fn value_of<V>(s: Seq<(KeyModel, V)>, k: KeyModel) -> Option<V> {
    if has_key(s, k) {
        Some(s[index_of(s, k)].1)
    } else {
        None
    }
}

/// The entries after `v` was put under `k`: in place where the key is
/// there, at the end where it is not.
pub open spec fn inserted<V>(s: Seq<(KeyModel, V)>, k: KeyModel, v: V) -> Seq<(KeyModel, V)> {
    if has_key(s, k) {
        s.update(index_of(s, k), (k, v))
    } else {
        s.push((k, v))
    }
}

/// The entries after the key `k` was taken out: those behind it move up.
pub open spec fn removed<V>(s: Seq<(KeyModel, V)>, k: KeyModel) -> Seq<(KeyModel, V)> {
    if has_key(s, k) {
        s.remove(index_of(s, k))
    } else {
        s
    }
}

/// The entries after each of `more` was inserted, first to last.
pub open spec fn inserted_all<V>(s: Seq<(KeyModel, V)>, more: Seq<(KeyModel, V)>) -> Seq<
    (KeyModel, V),
>
    decreases more.len(),
{
    if more.len() == 0 {
        s
    } else {
        inserted(inserted_all(s, more.drop_last()), more.last().0, more.last().1)
    }
}

/// Where keys are distinct, the entry that has a key is the one `index_of`
/// names.
pub proof fn lemma_index_of<V>(s: Seq<(KeyModel, V)>, i: int, k: KeyModel)
    requires
        distinct_keys(s),
        key_at(s, i, k),
    ensures
        has_key(s, k),
        index_of(s, k) == i,
{
    let c = index_of(s, k);
    assert(key_at(s, c, k));
    if c < i {
        assert(s[c].0 != s[i].0);
    }
    if i < c {
        assert(s[i].0 != s[c].0);
    }
}

/// Inserting keeps keys distinct.
pub proof fn lemma_inserted_distinct<V>(s: Seq<(KeyModel, V)>, k: KeyModel, v: V)
    requires
        distinct_keys(s),
    ensures
        distinct_keys(inserted(s, k, v)),
        has_key(inserted(s, k, v), k),
        value_of(inserted(s, k, v), k) == Some(v),
        inserted(s, k, v).len() == if has_key(s, k) {
            s.len()
        } else {
            s.len() + 1
        },
{
    let t = inserted(s, k, v);
    if has_key(s, k) {
        let c = index_of(s, k);
        assert(key_at(s, c, k));
        assert forall|i: int, j: int| 0 <= i < j < t.len() implies t[i].0 != t[j].0 by {
            assert(t[i].0 == s[i].0);
            assert(t[j].0 == s[j].0);
        }
        assert(key_at(t, c, k));
        lemma_index_of(t, c, k);
    } else {
        assert forall|i: int, j: int| 0 <= i < j < t.len() implies t[i].0 != t[j].0 by {
            if j == s.len() {
                assert(!key_at(s, i, k));
            }
        }
        assert(key_at(t, s.len() as int, k));
        lemma_index_of(t, s.len() as int, k);
    }
}

/// Removing a key keeps the keys distinct, and the key is gone.
pub proof fn law_removed_key_is_gone<V>(s: Seq<(KeyModel, V)>, k: KeyModel)
    requires
        distinct_keys(s),
    ensures
        distinct_keys(removed(s, k)),
        !has_key(removed(s, k), k),
{
    let t = removed(s, k);
    if has_key(s, k) {
        let c = index_of(s, k);
        assert(key_at(s, c, k));
        assert forall|i: int, j: int| 0 <= i < j < t.len() implies t[i].0 != t[j].0 by {
            let i0 = if i < c { i } else { i + 1 };
            let j0 = if j < c { j } else { j + 1 };
            assert(t[i] == s[i0]);
            assert(t[j] == s[j0]);
        }
        if has_key(t, k) {
            let d = index_of(t, k);
            assert(key_at(t, d, k));
            let d0 = if d < c { d } else { d + 1 };
            assert(t[d] == s[d0]);
            if d0 < c {
                assert(s[d0].0 != s[c].0);
            } else {
                assert(s[c].0 != s[d0].0);
            }
        }
    } else {
        if has_key(t, k) {
        }
    }
}

/// An insertion touches no other key: each is in the map after if it was
/// before, with the value it had.
pub proof fn law_insertion_touches_no_other_key<V>(s: Seq<(KeyModel, V)>, k: KeyModel, v: V, other: KeyModel)
    requires
        distinct_keys(s),
        other != k,
    ensures
        has_key(inserted(s, k, v), other) == has_key(s, other),
        value_of(inserted(s, k, v), other) == value_of(s, other),
{
    let t = inserted(s, k, v);
    lemma_inserted_distinct(s, k, v);
    if has_key(s, other) {
        let c = index_of(s, other);
        assert(key_at(s, c, other));
        assert(key_at(t, c, other));
        lemma_index_of(t, c, other);
    }
    if has_key(t, other) {
        let c = index_of(t, other);
        assert(key_at(t, c, other));
        assert(key_at(s, c, other));
        lemma_index_of(s, c, other);
    }
}

/// Two maps are equal: they have the same number of entries, and every key
/// of the first is in the second with an equal value. The order of the
/// entries does not count.
pub open spec fn maps_equal<V: PartialEq>(a: Seq<(KeyModel, V)>, b: Seq<(KeyModel, V)>) -> bool {
    &&& a.len() == b.len()
    &&& forall|i: int|
        0 <= i < a.len() ==> has_key(b, (#[trigger] a[i]).0) && a[i].1.eq_spec(
            &b[index_of(b, a[i].0)].1,
        )
}

/// Entries with distinct keys, inserted one by one into an empty map, lie in
/// the map in the order of their insertion: the entry at index `i` is the
/// `i`-th that was inserted, however many there are.
pub proof fn law_insertion_order_is_index_order<V>(entries: Seq<(KeyModel, V)>)
    requires
        distinct_keys(entries),
    ensures
        inserted_all(Seq::<(KeyModel, V)>::empty(), entries) == entries,
    decreases entries.len(),
{
    let start = Seq::<(KeyModel, V)>::empty();
    if entries.len() > 0 {
        let rest = entries.drop_last();
        law_insertion_order_is_index_order(rest);
        let e = entries.last();
        if has_key(rest, e.0) {
            let c = index_of(rest, e.0);
            assert(key_at(rest, c, e.0));
            assert(entries[c].0 != entries[entries.len() - 1].0);
        }
        assert(rest.push((e.0, e.1)) =~= entries);
    } else {
        assert(inserted_all(start, entries) =~= entries);
    }
}

/// Putting a value under a key that is in the map changes neither the keys
/// nor their order, and hands back the value that was there.
pub proof fn law_replace_keeps_order<V>(s: Seq<(KeyModel, V)>, k: KeyModel, v: V)
    requires
        distinct_keys(s),
        has_key(s, k),
    ensures
        keys_of(inserted(s, k, v)) == keys_of(s),
        value_of(s, k) == Some(s[index_of(s, k)].1),
        forall|i: int|
            0 <= i < s.len() && i != index_of(s, k) ==> (#[trigger] inserted(s, k, v)[i]) == s[i],
        inserted(s, k, v)[index_of(s, k)] == (k, v),
{
    let c = index_of(s, k);
    assert(key_at(s, c, k));
    assert(keys_of(inserted(s, k, v)) =~= keys_of(s));
}

/// Two maps that were filled with the same entries, each key once, are equal
/// whatever the order in which either was filled (where every value equals
/// itself).
pub proof fn law_equal_in_any_order<V: PartialEq>(a: Seq<(KeyModel, V)>, b: Seq<(KeyModel, V)>)
    requires
        distinct_keys(a),
        distinct_keys(b),
        a.to_multiset() == b.to_multiset(),
        forall|v: V| #[trigger] v.eq_spec(&v),
    ensures
        maps_equal(
            inserted_all(Seq::<(KeyModel, V)>::empty(), a),
            inserted_all(Seq::<(KeyModel, V)>::empty(), b),
        ),
{
    law_insertion_order_is_index_order(a);
    law_insertion_order_is_index_order(b);
    a.to_multiset_ensures();
    b.to_multiset_ensures();
    assert forall|i: int| 0 <= i < a.len() implies has_key(b, (#[trigger] a[i]).0)
        && a[i].1.eq_spec(&b[index_of(b, a[i].0)].1) by {
        assert(a.contains(a[i]));
        assert(b.to_multiset().count(a[i]) > 0);
        assert(b.contains(a[i]));
        let j = choose|j: int| 0 <= j < b.len() && b[j] == a[i];
        assert(key_at(b, j, a[i].0));
        lemma_index_of(b, j, a[i].0);
    }
}

} // verus!
