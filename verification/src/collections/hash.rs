//! Keys that carry their hash with them.

use vstd::prelude::*;
use vstd::std_specs::cmp::PartialEqSpec;
use vstd::std_specs::hash::DefaultHasherAdditionalSpecFns;
use core::hash::{Hash, Hasher};
use std::collections::hash_map::DefaultHasher;

verus! {

/// The hash that a key carries.
pub type SmallHashResult = u32;

/// What hashing a string writes to a hasher: a run of byte strings that
/// depends on the characters alone.
pub uninterp spec fn text_writes(s: Seq<char>) -> Seq<Seq<u8>>;

/// `<str as Hash>::hash` on std's `DefaultHasher`: it feeds the hasher the
/// writes of the string, after those the hasher has seen.
#[verifier::external_body]
fn write_text(hasher: &mut DefaultHasher, s: &str)
    ensures
        final(hasher)@ == old(hasher)@ + text_writes(s@),
{
    s.hash(hasher)
}

/// A value that can be hashed into a standard hasher, and says what it
/// writes there.
pub trait HashInto {
    /// What hashing the value writes to a hasher: a run of byte strings
    /// that depends on the value alone.
    spec fn writes(&self) -> Seq<Seq<u8>>;

    /// Hashes the value into `hasher`, after what the hasher has seen.
    fn hash_into(&self, hasher: &mut DefaultHasher)
        ensures
            final(hasher)@ == old(hasher)@ + self.writes(),
    ;
}

impl HashInto for String {
    open spec fn writes(&self) -> Seq<Seq<u8>> {
        text_writes(self@)
    }

    fn hash_into(&self, hasher: &mut DefaultHasher) {
        write_text(hasher, self.as_str())
    }
}

impl<A: HashInto, B: HashInto> HashInto for (A, B) {
    open spec fn writes(&self) -> Seq<Seq<u8>> {
        self.0.writes() + self.1.writes()
    }

    fn hash_into(&self, hasher: &mut DefaultHasher) {
        self.0.hash_into(hasher);
        self.1.hash_into(hasher);
        assert(hasher@ =~= old(hasher)@ + self.writes());
    }
}

/// The hash of a string: the low 32 bits of what a fresh standard hasher
/// finishes with once the string was hashed into it.
pub open spec fn text_hash(s: Seq<char>) -> u32 {
    (DefaultHasher::spec_finish(Seq::<Seq<u8>>::empty() + text_writes(s)) & 0xffff_ffff) as u32
}

/// Computes [`text_hash`].
pub fn hash_text(s: &str) -> (r: u32)
    ensures
        r == text_hash(s@),
{
    let mut hasher = DefaultHasher::new();
    write_text(&mut hasher, s);
    let full = hasher.finish();
    let low = full & 0xffff_ffff;
    assert(low <= 0xffff_ffff) by (bit_vector)
        requires
            low == full & 0xffff_ffff,
    ;
    low as u32
}

/// A key together with its hash.
#[derive(Debug, Clone, Copy)]
pub struct Hashed<K> {
    hash: u32,
    key: K,
}

impl<K> Hashed<K> {
    /// The hash that is carried.
    pub closed spec fn spec_hash(&self) -> u32 {
        self.hash
    }

    /// The key that is carried.
    pub closed spec fn spec_key(&self) -> K {
        self.key
    }

    /// Pairs a key with a hash that the caller vouches for.
    pub fn new_unchecked(hash: u32, key: K) -> (r: Self)
        ensures
            r.spec_hash() == hash,
            r.spec_key() == key,
    {
        Hashed { hash, key }
    }

    /// The key.
    pub fn key(&self) -> (r: &K)
        ensures
            *r == self.spec_key(),
    {
        &self.key
    }

    /// The key, by value.
    pub fn into_key(self) -> (r: K)
        ensures
            r == self.spec_key(),
    {
        self.key
    }

    /// The hash.
    pub fn hash(&self) -> (r: u32)
        ensures
            r == self.spec_hash(),
    {
        self.hash
    }

    /// The same hash with a borrow of the key.
    pub fn borrow(&self) -> (r: BorrowHashed<'_, K>)
        ensures
            r.spec_hash() == self.spec_hash(),
            *r.spec_key() == self.spec_key(),
    {
        BorrowHashed { hash: self.hash, key: &self.key }
    }
}

impl Hashed<String> {
    /// Pairs a string with its hash.
    pub fn new(key: String) -> (r: Self)
        ensures
            r.spec_hash() == text_hash(key@),
            r.spec_key() == key,
    {
        let hash = hash_text(key.as_str());
        Hashed { hash, key }
    }

    /// The hash and the characters of the key.
    pub open spec fn model(&self) -> (u32, Seq<char>) {
        (self.spec_hash(), self.spec_key()@)
    }
}

/// The entries with each key hashed: see [`Hashed::new`].
pub fn hash_entries<V>(entries: Vec<(String, V)>) -> (r: Vec<(Hashed<String>, V)>)
    ensures
        r@.len() == entries@.len(),
        forall|i: int|
            0 <= i < r@.len() ==> (#[trigger] r@[i]).0.model() == (
                text_hash(entries@[i].0@),
                entries@[i].0@,
            ) && r@[i].1 == entries@[i].1,
{
    let mut rest = entries;
    let n = rest.len();
    let mut rev: Vec<(Hashed<String>, V)> = Vec::with_capacity(n);
    while rest.len() > 0
        invariant
            entries@.len() == n,
            rev@.len() + rest@.len() == n,
            rest@ == entries@.take(rest@.len() as int),
            forall|j: int|
                0 <= j < rev@.len() ==> (#[trigger] rev@[j]).0.model() == (
                    text_hash(entries@[n - 1 - j].0@),
                    entries@[n - 1 - j].0@,
                ) && rev@[j].1 == entries@[n - 1 - j].1,
        decreases rest@.len(),
    {
        let (k, v) = rest.pop().unwrap();
        rev.push((Hashed::new(k), v));
    }
    let ghost rev0 = rev@;
    let mut out: Vec<(Hashed<String>, V)> = Vec::with_capacity(n);
    while rev.len() > 0
        invariant
            rev0.len() == n,
            out@.len() + rev@.len() == n,
            rev@ == rev0.take(rev@.len() as int),
            forall|j: int| 0 <= j < out@.len() ==> (#[trigger] out@[j]) == rev0[n - 1 - j],
        decreases rev@.len(),
    {
        let e = rev.pop().unwrap();
        out.push(e);
    }
    proof {
        assert forall|i: int| 0 <= i < out@.len() implies (#[trigger] out@[i]).0.model() == (
            text_hash(entries@[i].0@),
            entries@[i].0@,
        ) && out@[i].1 == entries@[i].1 by {
            assert(out@[i] == rev0[n - 1 - i]);
        }
    }
    out
}

impl<K: PartialEq> PartialEq for Hashed<K> {
    fn eq(&self, other: &Self) -> (r: bool) {
        self.hash == other.hash && self.key == other.key
    }
}

impl<K: PartialEq> vstd::std_specs::cmp::PartialEqSpecImpl for Hashed<K> {
    open spec fn obeys_eq_spec() -> bool {
        K::obeys_eq_spec()
    }

    open spec fn eq_spec(&self, other: &Self) -> bool {
        self.spec_hash() == other.spec_hash() && self.spec_key().eq_spec(&other.spec_key())
    }
}

impl<K: Eq> Eq for Hashed<K> {

}

impl<K> Hash for Hashed<K> {
    /// Feeds the hasher the carried hash, and nothing of the key.
    #[verifier::external_body]
    fn hash<H: Hasher>(&self, state: &mut H) {
        state.write_u32(self.hash)
    }
}

/// A borrowed key together with its hash.
#[derive(Debug)]
pub struct BorrowHashed<'a, Q: ?Sized> {
    hash: u32,
    key: &'a Q,
}

impl<'a, Q: ?Sized> BorrowHashed<'a, Q> {
    /// The hash that is carried.
    pub closed spec fn spec_hash(&self) -> u32 {
        self.hash
    }

    /// The key that is borrowed.
    pub closed spec fn spec_key(&self) -> &'a Q {
        self.key
    }

    /// Pairs a borrowed key with a hash that the caller vouches for.
    pub fn new_unchecked(hash: u32, key: &'a Q) -> (r: Self)
        ensures
            r.spec_hash() == hash,
            r.spec_key() == key,
    {
        BorrowHashed { hash, key }
    }

    /// The key.
    pub fn key(&self) -> (r: &'a Q)
        ensures
            r == self.spec_key(),
    {
        self.key
    }

    /// The hash.
    pub fn hash(&self) -> (r: u32)
        ensures
            r == self.spec_hash(),
    {
        self.hash
    }
}

impl<'a> BorrowHashed<'a, str> {
    /// Pairs a borrowed string with its hash.
    pub fn new(key: &'a str) -> (r: Self)
        ensures
            r.spec_hash() == text_hash(key@),
            r.spec_key() == key,
    {
        BorrowHashed { hash: hash_text(key), key }
    }

    /// The hash and the characters of the key.
    pub open spec fn model(&self) -> (u32, Seq<char>) {
        (self.spec_hash(), self.spec_key()@)
    }

    /// An owned copy of the key with the same hash.
    pub fn to_hashed(&self) -> (r: Hashed<String>)
        ensures
            r.model() == self.model(),
    {
        Hashed::new_unchecked(self.hash, self.key.to_owned())
    }
}

} // verus!
