//! A map with deterministic iteration order that fits its storage to the
//! number of its entries: nothing while it is empty, a vector of keys while
//! they are few, a hashed index of keys once they are many. The values lie
//! in a vector beside the keys, in the same order.

use vstd::prelude::*;
use indexmap::IndexSet;
use crate::collections::entries::{
    distinct_keys, has_key, index_of, inserted, key_at, lemma_index_of, removed, value_of, KeyModel,
};
use crate::collections::hash::{BorrowHashed, Hashed, text_hash};
use crate::collections::idhasher::BuildIdHasher;
use crate::collections::index_set::{
    index_set_clone, index_set_get_index, index_set_get_index_of, index_set_insert_full,
    index_set_into_vec, index_set_items, index_set_len, index_set_shift_remove_full,
    index_set_with_capacity, RESERVE_LIMIT,
};
use crate::text::same_text;

verus! {

/// The number of entries from which on a map keeps a hashed index.
pub const THRESHOLD: usize = 12;

/// How a map stores its keys.
#[derive(Debug, Clone, Copy, PartialEq, Eq, Structural)]
pub enum Shape {
    /// No storage at all.
    Empty,
    /// A vector that is searched from the front.
    Vector,
    /// A hashed index.
    Indexed,
}

/// The shape a map has after an insertion, from the shape and the length it
/// had before: an empty one takes a vector, a vector that would reach the
/// threshold becomes an index, and an index stays one.
pub open spec fn shape_after_insert(shape: Shape, len: nat) -> Shape {
    match shape {
        Shape::Empty => Shape::Vector,
        Shape::Vector => if len + 1 < THRESHOLD {
            Shape::Vector
        } else {
            Shape::Indexed
        },
        Shape::Indexed => Shape::Indexed,
    }
}

/// The shape a map has after room for `additional` more entries was
/// reserved.
pub open spec fn shape_after_reserve(shape: Shape, len: nat, additional: nat) -> Shape {
    if additional == 0 {
        shape
    } else {
        match shape {
            Shape::Empty => if additional < THRESHOLD {
                Shape::Vector
            } else {
                Shape::Indexed
            },
            Shape::Vector => if additional + len > THRESHOLD {
                Shape::Indexed
            } else {
                Shape::Vector
            },
            Shape::Indexed => Shape::Indexed,
        }
    }
}

/// Once a map keeps a hashed index, it keeps one: neither an insertion nor
/// a reservation takes it back to a vector.
pub proof fn law_promotion_is_one_way(len: nat, additional: nat)
    ensures
        shape_after_insert(Shape::Indexed, len) == Shape::Indexed,
        shape_after_reserve(Shape::Indexed, len, additional) == Shape::Indexed,
        shape_after_insert(Shape::Vector, len) != Shape::Empty,
        shape_after_reserve(Shape::Vector, len, additional) != Shape::Empty,
{
}

/// The keys of a map, in one of the three shapes.
#[derive(Debug)]
enum MapHolder {
    Empty,
    Vector(Vec<Hashed<String>>),
    Index(IndexSet<Hashed<String>, BuildIdHasher>),
}

/// The keys of a vector of hashed strings.
spec fn vec_items(v: Seq<Hashed<String>>) -> Seq<KeyModel> {
    v.map_values(|h: Hashed<String>| h.model())
}

/// The position of a key in a vector of keys: the hashes are compared
/// first, the strings only where the hashes agree.
fn find_in_vec(v: &Vec<Hashed<String>>, hash: u32, key: &str) -> (r: Option<usize>)
    ensures
        r is None <==> !vec_items(v@).contains((hash, key@)),
        r matches Some(i) ==> 0 <= i < v@.len() && vec_items(v@)[i as int] == (hash, key@),
{
    let mut i: usize = 0;
    while i < v.len()
        invariant
            i <= v@.len(),
            forall|j: int| 0 <= j < i ==> vec_items(v@)[j] != (hash, key@),
        decreases v@.len() - i,
    {
        if v[i].hash() == hash && same_text(v[i].key().as_str(), key) {
            assert(vec_items(v@)[i as int] == v@[i as int].model());
            assert(vec_items(v@).contains((hash, key@)));
            return Some(i);
        }
        assert(vec_items(v@)[i as int] == v@[i as int].model());
        i += 1;
    }
    None
}

/// Moves the keys of a vector into a hashed index, in their order.
fn promote(v: Vec<Hashed<String>>, capacity: usize) -> (r: IndexSet<Hashed<String>, BuildIdHasher>)
    requires
        vec_items(v@).no_duplicates(),
    ensures
        index_set_items(r) == vec_items(v@),
{
    let cap = if capacity > RESERVE_LIMIT {
        RESERVE_LIMIT
    } else {
        capacity
    };
    let mut m = index_set_with_capacity(cap);
    let mut rest = v;
    let ghost all = vec_items(v@);
    assert(index_set_items(m) + vec_items(rest@) =~= all);
    while rest.len() > 0
        invariant
            all.no_duplicates(),
            index_set_items(m) + vec_items(rest@) == all,
        decreases rest@.len(),
    {
        let ghost before = index_set_items(m);
        let ghost pending = vec_items(rest@);
        let key = rest.remove(0);
        proof {
            assert(key.model() == pending[0]);
            assert(vec_items(rest@) =~= pending.subrange(1, pending.len() as int));
            assert(all[before.len() as int] == pending[0]);
            if before.contains(key.model()) {
                let j = choose|j: int| 0 <= j < before.len() && before[j] == key.model();
                assert(all[j] == before[j]);
            }
        }
        let _ = index_set_insert_full(&mut m, key);
        assert(index_set_items(m) + vec_items(rest@) =~= all);
    }
    assert(index_set_items(m) =~= all);
    m
}

impl MapHolder {
    /// The keys, in their order.
    spec fn items(&self) -> Seq<KeyModel> {
        match self {
            MapHolder::Empty => Seq::empty(),
            MapHolder::Vector(v) => vec_items(v@),
            MapHolder::Index(m) => index_set_items(*m),
        }
    }

    /// The shape.
    spec fn shape(&self) -> Shape {
        match self {
            MapHolder::Empty => Shape::Empty,
            MapHolder::Vector(_) => Shape::Vector,
            MapHolder::Index(_) => Shape::Indexed,
        }
    }

    /// No key occurs twice, and a vector stays below the threshold.
    spec fn wf(&self) -> bool {
        &&& self.items().no_duplicates()
        &&& self.shape() == Shape::Vector ==> self.items().len() < THRESHOLD
    }

    /// Storage for `n` keys.
    fn with_capacity(n: usize) -> (r: Self)
        ensures
            r.wf(),
            r.items() == Seq::<KeyModel>::empty(),
            r.shape() == if n < THRESHOLD {
                Shape::Vector
            } else {
                Shape::Indexed
            },
    {
        if n < THRESHOLD {
            let r = MapHolder::Vector(Vec::with_capacity(n));
            assert(r.items() =~= Seq::<KeyModel>::empty());
            r
        } else {
            let cap = if n > RESERVE_LIMIT {
                RESERVE_LIMIT
            } else {
                n
            };
            MapHolder::Index(index_set_with_capacity(cap))
        }
    }

    /// A copy with the same keys in the same shape.
    fn duplicate(&self) -> (r: Self)
        ensures
            r.items() == self.items(),
            r.shape() == self.shape(),
    {
        match self {
            MapHolder::Empty => MapHolder::Empty,
            MapHolder::Vector(v) => {
                let mut copy: Vec<Hashed<String>> = Vec::with_capacity(v.len());
                let mut i: usize = 0;
                while i < v.len()
                    invariant
                        i <= v@.len(),
                        vec_items(copy@) == vec_items(v@).take(i as int),
                    decreases v@.len() - i,
                {
                    let ghost before = vec_items(copy@);
                    copy.push(Hashed::new_unchecked(v[i].hash(), v[i].key().clone()));
                    assert(vec_items(copy@) =~= before.push(v@[i as int].model()));
                    assert(vec_items(v@).take(i + 1) =~= vec_items(v@).take(i as int).push(
                        v@[i as int].model(),
                    ));
                    i += 1;
                }
                assert(vec_items(v@).take(i as int) =~= vec_items(v@));
                MapHolder::Vector(copy)
            },
            MapHolder::Index(m) => MapHolder::Index(index_set_clone(m)),
        }
    }

    /// The keys themselves, in their order.
    fn into_vec(self) -> (r: Vec<Hashed<String>>)
        ensures
            vec_items(r@) == self.items(),
    {
        match self {
            MapHolder::Empty => {
                let r: Vec<Hashed<String>> = Vec::new();
                assert(vec_items(r@) =~= self.items());
                r
            },
            MapHolder::Vector(v) => v,
            MapHolder::Index(m) => {
                let r = index_set_into_vec(m);
                assert(vec_items(r@) =~= self.items());
                r
            },
        }
    }

    fn len(&self) -> (r: usize)
        ensures
            r == self.items().len(),
    {
        match self {
            MapHolder::Empty => 0,
            MapHolder::Vector(v) => v.len(),
            MapHolder::Index(m) => index_set_len(m),
        }
    }

    /// The index of a key.
    fn find(&self, hash: u32, key: &str) -> (r: Option<usize>)
        ensures
            r is None <==> !self.items().contains((hash, key@)),
            r matches Some(i) ==> 0 <= i < self.items().len() && self.items()[i as int] == (
                hash,
                key@,
            ),
    {
        match self {
            MapHolder::Empty => None,
            MapHolder::Vector(v) => find_in_vec(v, hash, key),
            MapHolder::Index(m) => {
                let owned = Hashed::new_unchecked(hash, key.to_owned());
                index_set_get_index_of(m, &owned)
            },
        }
    }

    /// The key at an index.
    fn get(&self, index: usize) -> (r: &Hashed<String>)
        requires
            index < self.items().len(),
        ensures
            r.model() == self.items()[index as int],
    {
        match self {
            MapHolder::Empty => {
                proof {
                    assert(false);
                }
                vstd::pervasive::unreached()
            },
            MapHolder::Vector(v) => &v[index],
            MapHolder::Index(m) => index_set_get_index(m, index).unwrap(),
        }
    }

    /// Becomes a hashed index, if it is a vector.
    fn upgrade_vec_to_map(&mut self, capacity: usize)
        requires
            old(self).wf(),
            old(self).shape() == Shape::Vector,
        ensures
            final(self).wf(),
            final(self).items() == old(self).items(),
            final(self).shape() == Shape::Indexed,
    {
        let mut holder = MapHolder::Empty;
        core::mem::swap(self, &mut holder);
        match holder {
            MapHolder::Vector(v) => {
                *self = MapHolder::Index(promote(v, capacity));
            },
            _ => {},
        }
    }

    /// Puts a key in: see `index_set_insert_full`, whose contract this
    /// shares whatever the shape.
    fn insert_full(&mut self, key: Hashed<String>) -> (r: (usize, bool))
        requires
            old(self).wf(),
        ensures
            final(self).wf(),
            final(self).shape() == shape_after_insert(old(self).shape(), old(self).items().len()),
            r.1 == !old(self).items().contains(key.model()),
            r.1 ==> final(self).items() == old(self).items().push(key.model()) && r.0 == old(self).items().len(),
            !r.1 ==> final(self).items() == old(self).items() && 0 <= r.0 < old(self).items().len()
                && old(self).items()[r.0 as int] == key.model(),
    {
        let ghost before = self.items();
        let mut holder = MapHolder::Empty;
        core::mem::swap(self, &mut holder);
        match holder {
            MapHolder::Empty => {
                let mut v = Vec::new();
                v.push(key);
                *self = MapHolder::Vector(v);
                assert(self.items() =~= before.push(key.model()));
                (0, true)
            },
            MapHolder::Vector(mut v) => {
                let want = v.len() + 1;
                if want < THRESHOLD {
                    match find_in_vec(&v, key.hash(), key.key().as_str()) {
                        Some(i) => {
                            *self = MapHolder::Vector(v);
                            (i, false)
                        },
                        None => {
                            let n = v.len();
                            v.push(key);
                            *self = MapHolder::Vector(v);
                            proof {
                                assert(self.items() =~= before.push(key.model()));
                                lemma_push_no_duplicates(before, key.model());
                            }
                            (n, true)
                        },
                    }
                } else {
                    let mut m = promote(v, want);
                    let r = index_set_insert_full(&mut m, key);
                    *self = MapHolder::Index(m);
                    proof {
                        if r.1 {
                            lemma_push_no_duplicates(before, key.model());
                        }
                    }
                    r
                }
            },
            MapHolder::Index(mut m) => {
                let r = index_set_insert_full(&mut m, key);
                *self = MapHolder::Index(m);
                proof {
                    if r.1 {
                        lemma_push_no_duplicates(before, key.model());
                    }
                }
                r
            },
        }
    }

    /// Takes a key out, if it is there: the keys behind it move up. The
    /// result is the index that the key had.
    fn remove_key(&mut self, hash: u32, key: &str) -> (r: Option<usize>)
        requires
            old(self).wf(),
        ensures
            final(self).wf(),
            final(self).shape() == old(self).shape(),
            r is None <==> !old(self).items().contains((hash, key@)),
            r is None ==> final(self).items() == old(self).items(),
            r matches Some(i) ==> 0 <= i < old(self).items().len() && old(self).items()[i as int]
                == (hash, key@) && final(self).items() == old(self).items().remove(i as int),
    {
        let ghost before = self.items();
        let mut holder = MapHolder::Empty;
        core::mem::swap(self, &mut holder);
        match holder {
            MapHolder::Empty => None,
            MapHolder::Vector(mut v) => {
                let r = find_in_vec(&v, hash, key);
                if let Some(i) = r {
                    v.remove(i);
                    proof {
                        lemma_remove_no_duplicates(before, i as int);
                    }
                }
                *self = MapHolder::Vector(v);
                proof {
                    if let Some(i) = r {
                        assert(self.items() =~= before.remove(i as int));
                    }
                }
                r
            },
            MapHolder::Index(mut m) => {
                let owned = Hashed::new_unchecked(hash, key.to_owned());
                let r = index_set_shift_remove_full(&mut m, &owned);
                *self = MapHolder::Index(m);
                match r {
                    Some(found) => {
                        proof {
                            lemma_remove_no_duplicates(before, found.0 as int);
                        }
                        Some(found.0)
                    },
                    None => None,
                }
            },
        }
    }
}

/// A new last item that is not among the others keeps them free of
/// duplicates.
proof fn lemma_push_no_duplicates(s: Seq<KeyModel>, k: KeyModel)
    requires
        s.no_duplicates(),
        !s.contains(k),
    ensures
        s.push(k).no_duplicates(),
{
    let t = s.push(k);
    assert forall|i: int, j: int| 0 <= i < t.len() && 0 <= j < t.len() && i != j implies t[i]
        != t[j] by {
        if i == s.len() {
            assert(s[j] == t[j]);
            assert(s.contains(t[j]));
        } else if j == s.len() {
            assert(s[i] == t[i]);
            assert(s.contains(t[i]));
        } else {
            assert(s[i] != s[j]);
        }
    }
}

/// Taking one item out keeps the others free of duplicates.
proof fn lemma_remove_no_duplicates(s: Seq<KeyModel>, at: int)
    requires
        s.no_duplicates(),
        0 <= at < s.len(),
    ensures
        s.remove(at).no_duplicates(),
{
    let t = s.remove(at);
    assert forall|i: int, j: int| 0 <= i < t.len() && 0 <= j < t.len() && i != j implies t[i]
        != t[j] by {
        let i0 = if i < at { i } else { i + 1 };
        let j0 = if j < at { j } else { j + 1 };
        assert(t[i] == s[i0]);
        assert(t[j] == s[j0]);
    }
}

/// An ordered map from strings to values of type `V`. Each key carries a
/// 32-bit hash, and two keys are the same key if their hashes and their
/// characters agree.
#[derive(Debug)]
pub struct SmallMap<V> {
    state: MapHolder,
    values: Vec<V>,
}

impl<V> View for SmallMap<V> {
    type V = Seq<(KeyModel, V)>;

    /// The entries in the order of their insertion.
    closed spec fn view(&self) -> Seq<(KeyModel, V)> {
        Seq::new(self.values@.len(), |i: int| (self.state.items()[i], self.values@[i]))
    }
}

/// The key that a string is found under when it is hashed the standard way.
pub open spec fn text_key(s: Seq<char>) -> KeyModel {
    (text_hash(s), s)
}

/// `Vec::as_mut_slice`: the elements of the vector, to be changed in place.
/// The vector is as long after as it was, and holds what the slice holds
/// in the end. The call does not panic.
#[verifier::external_body]
fn whole_mut<V>(values: &mut Vec<V>) -> (r: &mut [V])
    ensures
        r@ == old(values)@,
        final(r)@ == final(values)@,
        final(r)@.len() == r@.len(),
    no_unwind
{
    values.as_mut_slice()
}

impl<V> SmallMap<V> {
    /// The map is well formed: no key occurs twice, and every key has its
    /// value. Every map that a program holds is.
    #[verifier::type_invariant]
    pub closed spec fn wf(&self) -> bool {
        &&& self.state.wf()
        &&& self.state.items().len() == self.values@.len()
    }

    /// How the keys are stored.
    pub closed spec fn shape(&self) -> Shape {
        self.state.shape()
    }

    /// In a well-formed map the keys of the entries are distinct, and a
    /// vector holds fewer entries than the threshold.
    pub proof fn lemma_wf(&self)
        requires
            self.wf(),
        ensures
            distinct_keys(self@),
            self.shape() == Shape::Vector ==> self@.len() < THRESHOLD,
            self.shape() == Shape::Empty ==> self@.len() == 0,
    {
        assert forall|i: int, j: int| 0 <= i < j < self@.len() implies self@[i].0 != self@[j].0 by {
            assert(self.state.items()[i] != self.state.items()[j]);
        }
    }

    proof fn lemma_keys(&self, k: KeyModel)
        requires
            self.wf(),
        ensures
            has_key(self@, k) <==> self.state.items().contains(k),
            forall|i: int|
                0 <= i < self@.len() && self.state.items()[i] == k ==> key_at(self@, i, k)
                    && index_of(self@, k) == i,
    {
        self.lemma_wf();
        if has_key(self@, k) {
            let i = index_of(self@, k);
            assert(key_at(self@, i, k));
            assert(self.state.items()[i] == k);
        }
        if self.state.items().contains(k) {
            let i = choose|i: int| 0 <= i < self.state.items().len() && self.state.items()[i] == k;
            assert(key_at(self@, i, k));
        }
        assert forall|i: int| 0 <= i < self@.len() && self.state.items()[i] == k implies key_at(
            self@,
            i,
            k,
        ) && index_of(self@, k) == i by {
            assert(key_at(self@, i, k));
            lemma_index_of(self@, i, k);
        }
    }

    /// A map without entries, which holds no storage.
    pub fn new() -> (r: Self)
        ensures
            r.wf(),
            r@ == Seq::<(KeyModel, V)>::empty(),
            r.shape() == Shape::Empty,
    {
        let r = SmallMap { state: MapHolder::Empty, values: Vec::new() };
        assert(r@ =~= Seq::<(KeyModel, V)>::empty());
        r
    }

    /// A map without entries, with storage for `n` of them: a vector below
    /// the threshold, a hashed index from there on.
    pub fn with_capacity(n: usize) -> (r: Self)
        ensures
            r.wf(),
            r@ == Seq::<(KeyModel, V)>::empty(),
            r.shape() == if n < THRESHOLD {
                Shape::Vector
            } else {
                Shape::Indexed
            },
    {
        let cap = if n > RESERVE_LIMIT {
            RESERVE_LIMIT
        } else {
            n
        };
        let r = SmallMap { state: MapHolder::with_capacity(n), values: Vec::with_capacity(cap) };
        assert(r@ =~= Seq::<(KeyModel, V)>::empty());
        r
    }

    /// The index of a key.
    fn lookup(&self, hash: u32, key: &str) -> (r: Option<usize>)
        ensures
            r is None <==> !has_key(self@, (hash, key@)),
            r matches Some(i) ==> i == index_of(self@, (hash, key@)) && key_at(
                self@,
                i as int,
                (hash, key@),
            ),
    {
        proof {
            use_type_invariant(self);
            self.lemma_keys((hash, key@));
        }
        self.state.find(hash, key)
    }

    /// The value under a key that brings its hash.
    pub fn get_hashed(&self, key: BorrowHashed<str>) -> (r: Option<&V>)
        ensures
            match r {
                Some(v) => value_of(self@, key.model()) == Some(*v),
                None => value_of(self@, key.model()) is None,
            },
    {
        proof {
            use_type_invariant(self);
        }
        match self.lookup(key.hash(), key.key()) {
            Some(i) => Some(&self.values[i]),
            None => None,
        }
    }

    /// The value under a key.
    pub fn get(&self, key: &str) -> (r: Option<&V>)
        ensures
            match r {
                Some(v) => value_of(self@, text_key(key@)) == Some(*v),
                None => value_of(self@, text_key(key@)) is None,
            },
    {
        self.get_hashed(BorrowHashed::new(key))
    }

    /// The index, the key and the value of the entry under a key.
    pub fn get_full(&self, key: &str) -> (r: Option<(usize, &String, &V)>)
        ensures
            r is Some <==> has_key(self@, text_key(key@)),
            r matches Some(e) ==> e.0 == index_of(self@, text_key(key@)) && e.1@ == key@ && *e.2
                == self@[e.0 as int].1 && key_at(self@, e.0 as int, text_key(key@)),
    {
        proof {
            use_type_invariant(self);
        }
        let hashed = BorrowHashed::new(key);
        match self.lookup(hashed.hash(), key) {
            Some(i) => Some((i, self.state.get(i).key(), &self.values[i])),
            None => None,
        }
    }

    /// The index of the entry under a key that brings its hash.
    pub fn get_index_of_hashed(&self, key: BorrowHashed<str>) -> (r: Option<usize>)
        ensures
            r is Some <==> has_key(self@, key.model()),
            r matches Some(i) ==> i == index_of(self@, key.model()) && key_at(
                self@,
                i as int,
                key.model(),
            ),
    {
        self.lookup(key.hash(), key.key())
    }

    /// The key and the value of the entry at an index.
    pub fn get_index(&self, index: usize) -> (r: Option<(&String, &V)>)
        ensures
            r is Some <==> index < self@.len(),
            r matches Some(e) ==> e.0@ == self@[index as int].0.1 && *e.1 == self@[index as int].1,
    {
        proof {
            use_type_invariant(self);
        }
        if index < self.values.len() {
            Some((self.state.get(index).key(), &self.values[index]))
        } else {
            None
        }
    }

    /// The index of the entry under a key.
    pub fn get_index_of(&self, key: &str) -> (r: Option<usize>)
        ensures
            r is Some <==> has_key(self@, text_key(key@)),
            r matches Some(i) ==> i == index_of(self@, text_key(key@)) && key_at(
                self@,
                i as int,
                text_key(key@),
            ),
    {
        self.get_index_of_hashed(BorrowHashed::new(key))
    }

    /// The value under a key that brings its hash, to be changed in place.
    pub fn get_mut_hashed(&mut self, key: BorrowHashed<str>) -> (r: Option<&mut V>)
        ensures
            match r {
                Some(v) => has_key(old(self)@, key.model()) && *v == old(self)@[index_of(
                    old(self)@,
                    key.model(),
                )].1 && final(self)@ == old(self)@.update(
                    index_of(old(self)@, key.model()),
                    (key.model(), *final(v)),
                ),
                None => !has_key(old(self)@, key.model()) && final(self)@ == old(self)@,
            },
    {
        proof {
            use_type_invariant(&*self);
        }
        match self.lookup(key.hash(), key.key()) {
            Some(i) => Some(&mut self.values[i]),
            None => None,
        }
    }

    /// The value under a key, to be changed in place.
    pub fn get_mut(&mut self, key: &str) -> (r: Option<&mut V>)
        ensures
            match r {
                Some(v) => has_key(old(self)@, text_key(key@)) && *v == old(self)@[index_of(
                    old(self)@,
                    text_key(key@),
                )].1 && final(self)@ == old(self)@.update(
                    index_of(old(self)@, text_key(key@)),
                    (text_key(key@), *final(v)),
                ),
                None => !has_key(old(self)@, text_key(key@)) && final(self)@ == old(self)@,
            },
    {
        self.get_mut_hashed(BorrowHashed::new(key))
    }

    /// Whether a key that brings its hash is in the map.
    pub fn contains_key_hashed(&self, key: BorrowHashed<str>) -> (r: bool)
        ensures
            r == has_key(self@, key.model()),
    {
        self.lookup(key.hash(), key.key()).is_some()
    }

    /// Whether a key is in the map.
    pub fn contains_key(&self, key: &str) -> (r: bool)
        ensures
            r == has_key(self@, text_key(key@)),
    {
        self.contains_key_hashed(BorrowHashed::new(key))
    }

    /// Makes room for `additional` more entries. The entries stay as they
    /// are; the storage changes shape as [`shape_after_reserve`] says.
    pub fn reserve(&mut self, additional: usize)
        requires
            old(self)@.len() + additional <= usize::MAX,
        ensures
            final(self).wf(),
            final(self)@ == old(self)@,
            final(self).shape() == shape_after_reserve(
                old(self).shape(),
                old(self)@.len(),
                additional as nat,
            ),
    {
        proof {
            use_type_invariant(&*self);
        }
        if additional == 0 {
            return ;
        }
        let mut me = SmallMap::new();
        core::mem::swap(self, &mut me);
        proof {
            use_type_invariant(&me);
        }
        let ghost before = me@;
        let SmallMap { state, values } = me;
        let mut values = values;
        let state = match state {
            MapHolder::Empty => MapHolder::with_capacity(additional),
            MapHolder::Vector(mut x) => {
                let want = additional + x.len();
                if want > THRESHOLD {
                    let mut holder = MapHolder::Vector(x);
                    holder.upgrade_vec_to_map(want);
                    holder
                } else {
                    x.reserve(additional);
                    values.reserve(additional);
                    MapHolder::Vector(x)
                }
            },
            MapHolder::Index(m) => MapHolder::Index(m),
        };
        *self = SmallMap { state, values };
        assert(self@ =~= before);
    }

    /// Puts `val` under a key that brings its hash. Where the key is in the
    /// map, the entry keeps its place and the value it had is returned;
    /// else the entry goes in last.
    pub fn insert_hashed(&mut self, key: Hashed<String>, val: V) -> (r: Option<V>)
        ensures
            final(self).wf(),
            final(self)@ == inserted(old(self)@, key.model(), val),
            r == value_of(old(self)@, key.model()),
            final(self).shape() == shape_after_insert(old(self).shape(), old(self)@.len()),
    {
        let mut me = SmallMap::new();
        core::mem::swap(self, &mut me);
        proof {
            use_type_invariant(&me);
            me.lemma_keys(key.model());
        }
        let ghost before = me@;
        let SmallMap { state, values } = me;
        let mut state = state;
        let mut values = values;
        let (i, fresh) = state.insert_full(key);
        values.push(val);
        if fresh {
            *self = SmallMap { state, values };
            assert(self@ =~= inserted(before, key.model(), val));
            None
        } else {
            let prior = values.swap_remove(i);
            *self = SmallMap { state, values };
            assert(self@ =~= inserted(before, key.model(), val));
            Some(prior)
        }
    }

    /// Puts `val` under a key: see [`SmallMap::insert_hashed`].
    pub fn insert(&mut self, key: String, val: V) -> (r: Option<V>)
        ensures
            final(self).wf(),
            final(self)@ == inserted(old(self)@, text_key(key@), val),
            r == value_of(old(self)@, text_key(key@)),
            final(self).shape() == shape_after_insert(old(self).shape(), old(self)@.len()),
    {
        self.insert_hashed(Hashed::new(key), val)
    }

    /// Takes the entry under a key that brings its hash out of the map, and
    /// returns its value. The entries behind it move up by one.
    pub fn remove_hashed(&mut self, key: BorrowHashed<str>) -> (r: Option<V>)
        ensures
            final(self).wf(),
            final(self)@ == removed(old(self)@, key.model()),
            r == value_of(old(self)@, key.model()),
            final(self).shape() == old(self).shape(),
    {
        let mut me = SmallMap::new();
        core::mem::swap(self, &mut me);
        proof {
            use_type_invariant(&me);
            me.lemma_keys(key.model());
        }
        let ghost before = me@;
        let SmallMap { state, values } = me;
        let mut state = state;
        let mut values = values;
        match state.remove_key(key.hash(), key.key()) {
            Some(i) => {
                let prior = values.remove(i);
                *self = SmallMap { state, values };
                assert(self@ =~= removed(before, key.model()));
                Some(prior)
            },
            None => {
                *self = SmallMap { state, values };
                assert(self@ =~= removed(before, key.model()));
                None
            },
        }
    }

    /// Takes the entry under a key out of the map: see
    /// [`SmallMap::remove_hashed`].
    pub fn remove(&mut self, key: &str) -> (r: Option<V>)
        ensures
            final(self).wf(),
            final(self)@ == removed(old(self)@, text_key(key@)),
            r == value_of(old(self)@, text_key(key@)),
            final(self).shape() == old(self).shape(),
    {
        self.remove_hashed(BorrowHashed::new(key))
    }

    /// Whether the map has no entry.
    pub fn is_empty(&self) -> (r: bool)
        ensures
            r == (self@.len() == 0),
    {
        self.values.len() == 0
    }

    /// The number of entries.
    pub fn len(&self) -> (r: usize)
        ensures
            r == self@.len(),
    {
        self.values.len()
    }

    /// Drops every entry and the storage with them.
    pub fn clear(&mut self)
        ensures
            final(self).wf(),
            final(self)@ == Seq::<(KeyModel, V)>::empty(),
            final(self).shape() == Shape::Empty,
    {
        *self = SmallMap::new();
    }

    /// The map of the given entries, inserted first to last into a map
    /// with storage for as many.
    pub fn from_hashed_entries(entries: Vec<(Hashed<String>, V)>) -> (r: Self)
        ensures
            r@ == crate::collections::entries::inserted_all(
                Seq::<(KeyModel, V)>::empty(),
                entries@.map_values(|e: (Hashed<String>, V)| (e.0.model(), e.1)),
            ),
    {
        let ghost all = entries@.map_values(|e: (Hashed<String>, V)| (e.0.model(), e.1));
        let mut mp = Self::with_capacity(entries.len());
        let mut rest = entries;
        let n = rest.len();
        let mut rev: Vec<(Hashed<String>, V)> = Vec::with_capacity(n);
        while rest.len() > 0
            invariant
                entries@.len() == n,
                rev@.len() + rest@.len() == n,
                rest@ == entries@.take(rest@.len() as int),
                forall|j: int| 0 <= j < rev@.len() ==> (#[trigger] rev@[j]) == entries@[n - 1 - j],
            decreases rest@.len(),
        {
            let e = rest.pop().unwrap();
            rev.push(e);
        }
        let ghost rev0 = rev@;
        assert(all.take(0) =~= Seq::<(KeyModel, V)>::empty());
        while rev.len() > 0
            invariant
                rev0.len() == n,
                all.len() == n,
                rev@.len() <= n,
                all == entries@.map_values(|e: (Hashed<String>, V)| (e.0.model(), e.1)),
                rev@ == rev0.take(rev@.len() as int),
                forall|j: int| 0 <= j < n ==> (#[trigger] rev0[j]) == entries@[n - 1 - j],
                mp@ == crate::collections::entries::inserted_all(
                    Seq::<(KeyModel, V)>::empty(),
                    all.take(n - rev@.len()),
                ),
            decreases rev@.len(),
        {
            let ghost done = n - rev@.len();
            let (k, v) = rev.pop().unwrap();
            proof {
                let now = all.take(done + 1);
                assert(now.drop_last() =~= all.take(done));
                assert(rev0[n - 1 - done] == entries@[done]);
                assert(now.last() == (k.model(), v));
            }
            mp.insert_hashed(k, v);
        }
        assert(all.take(n as int) =~= all);
        mp
    }

    /// The map of the given entries, inserted first to last into a map
    /// with storage for as many.
    pub fn from_entries(entries: Vec<(String, V)>) -> (r: Self)
        ensures
            r@ == crate::collections::entries::inserted_all(
                Seq::<(KeyModel, V)>::empty(),
                entries@.map_values(|e: (String, V)| (text_key(e.0@), e.1)),
            ),
    {
        let hashed = crate::collections::hash::hash_entries(entries);
        assert(hashed@.map_values(|e: (Hashed<String>, V)| (e.0.model(), e.1))
            =~= entries@.map_values(|e: (String, V)| (text_key(e.0@), e.1)));
        Self::from_hashed_entries(hashed)
    }

    /// The keys, in the order of their insertion.
    pub fn keys(&self) -> (r: Vec<&String>)
        ensures
            r@.len() == self@.len(),
            forall|i: int| 0 <= i < r@.len() ==> (#[trigger] r@[i])@ == self@[i].0.1,
    {
        proof {
            use_type_invariant(self);
        }
        let mut out: Vec<&String> = Vec::with_capacity(self.values.len());
        let mut i: usize = 0;
        while i < self.values.len()
            invariant
                self.wf(),
                i <= self@.len(),
                out@.len() == i,
                forall|j: int| 0 <= j < i ==> (#[trigger] out@[j])@ == self@[j].0.1,
            decreases self@.len() - i,
        {
            out.push(self.state.get(i).key());
            i += 1;
        }
        out
    }

    /// The values, in the order of their insertion.
    pub fn values(&self) -> (r: Vec<&V>)
        ensures
            r@.len() == self@.len(),
            forall|i: int| 0 <= i < r@.len() ==> *(#[trigger] r@[i]) == self@[i].1,
    {
        let mut out: Vec<&V> = Vec::with_capacity(self.values.len());
        let mut i: usize = 0;
        while i < self.values.len()
            invariant
                i <= self@.len(),
                out@.len() == i,
                forall|j: int| 0 <= j < i ==> *(#[trigger] out@[j]) == self@[j].1,
            decreases self@.len() - i,
        {
            out.push(&self.values[i]);
            i += 1;
        }
        out
    }

    /// The values, in the order of their insertion, to be changed in place.
    pub fn values_mut(&mut self) -> (r: &mut [V])
        ensures
            r@.len() == old(self)@.len(),
            forall|i: int| 0 <= i < r@.len() ==> (#[trigger] r@[i]) == old(self)@[i].1,
            final(r)@.len() == r@.len(),
            final(self)@.len() == old(self)@.len(),
            forall|i: int|
                0 <= i < old(self)@.len() ==> (#[trigger] final(self)@[i]) == (
                    old(self)@[i].0,
                    final(r)@[i],
                ),
    {
        proof {
            use_type_invariant(&*self);
        }
        whole_mut(&mut self.values)
    }

    /// The entries, in the order of their insertion, with the values to be
    /// changed in place: the keys, and the values in the same order.
    pub fn iter_mut(&mut self) -> (r: (Vec<&String>, &mut [V]))
        ensures
            r.0@.len() == old(self)@.len(),
            r.1@.len() == old(self)@.len(),
            forall|i: int|
                0 <= i < old(self)@.len() ==> (#[trigger] r.0@[i])@ == old(self)@[i].0.1 && r.1@[i]
                    == old(self)@[i].1,
            final(r.1)@.len() == r.1@.len(),
            final(self)@.len() == old(self)@.len(),
            forall|i: int|
                0 <= i < old(self)@.len() ==> (#[trigger] final(self)@[i]) == (
                    old(self)@[i].0,
                    final(r.1)@[i],
                ),
    {
        proof {
            use_type_invariant(&*self);
        }
        let n = self.values.len();
        let mut keys: Vec<&String> = Vec::with_capacity(n);
        let mut i: usize = 0;
        while i < n
            invariant
                self.wf(),
                *self == *old(self),
                n == self@.len(),
                i <= n,
                keys@.len() == i,
                forall|j: int| 0 <= j < i ==> (#[trigger] keys@[j])@ == self@[j].0.1,
            decreases n - i,
        {
            keys.push(self.state.get(i).key());
            i += 1;
        }
        (keys, whole_mut(&mut self.values))
    }

    /// The entries, in the order of their insertion.
    pub fn iter(&self) -> (r: Vec<(&String, &V)>)
        ensures
            r@.len() == self@.len(),
            forall|i: int|
                0 <= i < r@.len() ==> (#[trigger] r@[i]).0@ == self@[i].0.1 && *r@[i].1
                    == self@[i].1,
    {
        proof {
            use_type_invariant(self);
        }
        let mut out: Vec<(&String, &V)> = Vec::with_capacity(self.values.len());
        let mut i: usize = 0;
        while i < self.values.len()
            invariant
                self.wf(),
                i <= self@.len(),
                out@.len() == i,
                forall|j: int|
                    0 <= j < i ==> (#[trigger] out@[j]).0@ == self@[j].0.1 && *out@[j].1
                        == self@[j].1,
            decreases self@.len() - i,
        {
            out.push((self.state.get(i).key(), &self.values[i]));
            i += 1;
        }
        out
    }

    /// The entries, each key with its hash, in the order of their
    /// insertion.
    pub fn iter_hashed(&self) -> (r: Vec<(BorrowHashed<'_, str>, &V)>)
        ensures
            r@.len() == self@.len(),
            forall|i: int|
                0 <= i < r@.len() ==> (#[trigger] r@[i]).0.model() == self@[i].0 && *r@[i].1
                    == self@[i].1,
    {
        proof {
            use_type_invariant(self);
        }
        let mut out: Vec<(BorrowHashed<'_, str>, &V)> = Vec::with_capacity(self.values.len());
        let mut i: usize = 0;
        while i < self.values.len()
            invariant
                self.wf(),
                i <= self@.len(),
                out@.len() == i,
                forall|j: int|
                    0 <= j < i ==> (#[trigger] out@[j]).0.model() == self@[j].0 && *out@[j].1
                        == self@[j].1,
            decreases self@.len() - i,
        {
            let key = self.state.get(i);
            out.push((BorrowHashed::new_unchecked(key.hash(), key.key().as_str()), &self.values[i]));
            i += 1;
        }
        out
    }

    /// The entries themselves, each key with its hash, in the order of
    /// their insertion.
    pub fn into_iter_hashed(self) -> (r: Vec<(Hashed<String>, V)>)
        ensures
            r@.len() == self@.len(),
            forall|i: int|
                0 <= i < r@.len() ==> (#[trigger] r@[i]).0.model() == self@[i].0 && r@[i].1
                    == self@[i].1,
    {
        proof {
            use_type_invariant(&self);
        }
        let SmallMap { state, values } = self;
        let mut values = values;
        let mut keys = state.into_vec();
        let ghost keys0 = keys@;
        let ghost values0 = values@;
        let n = values.len();
        let mut rev: Vec<(Hashed<String>, V)> = Vec::with_capacity(n);
        while values.len() > 0
            invariant
                keys0.len() == n,
                values0.len() == n,
                keys@.len() == values@.len(),
                rev@.len() + values@.len() == n,
                keys@ == keys0.take(keys@.len() as int),
                values@ == values0.take(values@.len() as int),
                forall|j: int|
                    0 <= j < rev@.len() ==> (#[trigger] rev@[j]) == (
                        keys0[n - 1 - j],
                        values0[n - 1 - j],
                    ),
            decreases values@.len(),
        {
            let k = keys.pop().unwrap();
            let v = values.pop().unwrap();
            rev.push((k, v));
        }
        let ghost rev0 = rev@;
        let mut out: Vec<(Hashed<String>, V)> = Vec::with_capacity(n);
        while rev.len() > 0
            invariant
                rev0.len() == n,
                out@.len() + rev@.len() == n,
                rev@ == rev0.take(rev@.len() as int),
                forall|j: int| 0 <= j < out@.len() ==> (#[trigger] out@[j]) == rev0[n - 1 - j],
            decreases rev@.len(),
        {
            let e = rev.pop().unwrap();
            out.push(e);
        }
        proof {
            assert forall|i: int| 0 <= i < out@.len() implies (#[trigger] out@[i]).0.model()
                == self@[i].0 && out@[i].1 == self@[i].1 by {
                assert(out@[i] == rev0[n - 1 - i]);
                assert(rev0[n - 1 - i] == (keys0[i], values0[i]));
                assert(vec_items(keys0)[i] == keys0[i].model());
            }
        }
        out
    }

    /// The entries themselves, in the order of their insertion.
    pub fn into_iter(self) -> (r: Vec<(String, V)>)
        ensures
            r@.len() == self@.len(),
            forall|i: int|
                0 <= i < r@.len() ==> (#[trigger] r@[i]).0@ == self@[i].0.1 && r@[i].1
                    == self@[i].1,
    {
        let mut hashed = self.into_iter_hashed();
        let ghost hashed0 = hashed@;
        let n = hashed.len();
        let mut rev: Vec<(String, V)> = Vec::with_capacity(n);
        while hashed.len() > 0
            invariant
                hashed0.len() == n,
                rev@.len() + hashed@.len() == n,
                hashed@ == hashed0.take(hashed@.len() as int),
                forall|j: int|
                    0 <= j < rev@.len() ==> (#[trigger] rev@[j]).0@ == hashed0[n - 1 - j].0.model().1
                        && rev@[j].1 == hashed0[n - 1 - j].1,
            decreases hashed@.len(),
        {
            let (k, v) = hashed.pop().unwrap();
            rev.push((k.into_key(), v));
        }
        let ghost rev0 = rev@;
        let mut out: Vec<(String, V)> = Vec::with_capacity(n);
        while rev.len() > 0
            invariant
                rev0.len() == n,
                out@.len() + rev@.len() == n,
                rev@ == rev0.take(rev@.len() as int),
                forall|j: int| 0 <= j < out@.len() ==> (#[trigger] out@[j]) == rev0[n - 1 - j],
            decreases rev@.len(),
        {
            let e = rev.pop().unwrap();
            out.push(e);
        }
        proof {
            assert forall|i: int| 0 <= i < out@.len() implies (#[trigger] out@[i]).0@
                == self@[i].0.1 && out@[i].1 == self@[i].1 by {
                assert(out@[i] == rev0[n - 1 - i]);
            }
        }
        out
    }
}

impl<V: Clone> Clone for SmallMap<V> {
    /// A map of the same keys in the same order, each with a clone of its
    /// value.
    fn clone(&self) -> (r: Self)
        ensures
            r.wf(),
            r.shape() == self.shape(),
            r@.len() == self@.len(),
            forall|i: int|
                0 <= i < self@.len() ==> (#[trigger] r@[i]).0 == self@[i].0 && cloned(
                    self@[i].1,
                    r@[i].1,
                ),
    {
        proof {
            use_type_invariant(self);
        }
        let state = self.state.duplicate();
        let values = self.values.clone();
        SmallMap { state, values }
    }
}

} // verus!
