//! A hasher for keys that carry a hash already: it hands that hash on.

use vstd::prelude::*;
use core::hash::{BuildHasher, Hasher};

verus! {

/// Folds what is written to it into one word by exclusive or. Fed a single
/// 32-bit hash, it finishes with that hash.
#[derive(Debug, Clone, Copy)]
pub struct IdHasher {
    state: u64,
}

impl IdHasher {
    /// The word folded so far.
    pub closed spec fn state(&self) -> u64 {
        self.state
    }

    /// A hasher that has seen nothing.
    pub fn new() -> (r: Self)
        ensures
            r.state() == 0,
    {
        IdHasher { state: 0 }
    }

    /// Folds a 32-bit hash in.
    pub fn fold_u32(&mut self, i: u32)
        ensures
            final(self).state() == old(self).state() ^ (i as u64),
    {
        self.state = self.state ^ (i as u64);
    }

    /// Folds bytes in, first to last: each shifts the word up by eight bits
    /// before it is folded in.
    pub fn fold_bytes(&mut self, bytes: &[u8])
        ensures
            final(self).state() == fold_bytes_from(old(self).state(), bytes@),
    {
        let mut i: usize = 0;
        while i < bytes.len()
            invariant
                i <= bytes@.len(),
                self.state == fold_bytes_from(old(self).state(), bytes@.take(i as int)),
            decreases bytes@.len() - i,
        {
            proof {
                let now = bytes@.take(i + 1);
                assert(now.drop_last() =~= bytes@.take(i as int));
                assert(now.last() == bytes@[i as int]);
            }
            self.state = (self.state << 8) ^ (bytes[i] as u64);
            i += 1;
        }
        assert(bytes@.take(i as int) =~= bytes@);
    }

    /// The word folded so far.
    pub fn value(&self) -> (r: u64)
        ensures
            r == self.state(),
    {
        self.state
    }
}

/// The word that folding `bytes` into `state` gives.
pub open spec fn fold_bytes_from(state: u64, bytes: Seq<u8>) -> u64
    decreases bytes.len(),
{
    if bytes.len() == 0 {
        state
    } else {
        (fold_bytes_from(state, bytes.drop_last()) << 8) ^ (bytes.last() as u64)
    }
}

/// A fresh hasher that is fed one 32-bit hash finishes with that hash.
pub proof fn law_identity_on_one_hash(h: IdHasher, i: u32)
    requires
        h.state() == 0,
    ensures
        h.state() ^ (i as u64) == i as u64,
{
    let x = i as u64;
    assert(0u64 ^ x == x) by (bit_vector);
}

impl Hasher for IdHasher {
    fn finish(&self) -> (r: u64)
        ensures
            r == self.state(),
    {
        self.value()
    }

    fn write(&mut self, bytes: &[u8])
        ensures
            final(self).state() == fold_bytes_from(old(self).state(), bytes@),
    {
        self.fold_bytes(bytes)
    }

    fn write_u32(&mut self, i: u32)
        ensures
            final(self).state() == old(self).state() ^ (i as u64),
    {
        self.fold_u32(i)
    }
}

/// Builds [`IdHasher`]s.
#[derive(Debug, Clone, Copy)]
pub struct BuildIdHasher {}

impl BuildIdHasher {
    /// The one builder there is.
    pub fn new() -> (r: Self) {
        BuildIdHasher {  }
    }
}

impl BuildHasher for BuildIdHasher {
    type Hasher = IdHasher;

    fn build_hasher(&self) -> (r: IdHasher)
        ensures
            r.state() == 0,
    {
        IdHasher::new()
    }
}

} // verus!
