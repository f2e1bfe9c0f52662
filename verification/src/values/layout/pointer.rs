//! The bits of a one-word tagged pointer.
//!
//! The low two bits are the tag:
//! `00` an entry of the frozen heap, `01` an entry of the mutable heap,
//! `10` the value none, `11` a boolean or an integer.
//! The third bit is the user bit of a pointer, the mark of the word that
//! stands for "not assigned" under tag `10`, and the payload of a boolean.
//! The fourth bit under tag `11` tells an integer, whose 32 bits lie in the
//! upper half of the word, from a boolean. A pointer keeps the number of its
//! entry above the low three bits.

use vstd::prelude::*;

verus! {

/// The largest entry number that fits above the low three bits.
pub const MAX_INDEX: u64 = 0x1fff_ffff_ffff_ffff;

/// What a word stands for.
#[derive(Debug, Clone, Copy, PartialEq, Eq, Structural)]
pub enum PointerUnpack {
    /// Entry number `.0` of the frozen heap.
    Frozen(u64),
    /// Entry number `.0` of the mutable heap.
    Mutable(u64),
    /// A slot that was never assigned.
    Unassigned,
    /// The value none.
    NoneValue,
    /// A boolean.
    Bool(bool),
    /// An integer.
    Int(i32),
}

/// What the word `w` stands for.
pub open spec fn decode(w: u64) -> PointerUnpack {
    if w & 3 == 0 {
        PointerUnpack::Frozen(w >> 3)
    } else if w & 3 == 1 {
        PointerUnpack::Mutable(w >> 3)
    } else if w & 3 == 2 {
        if w & 4 == 4 {
            PointerUnpack::Unassigned
        } else {
            PointerUnpack::NoneValue
        }
    } else if w & 8 == 8 {
        PointerUnpack::Int((w >> 32) as u32 as i32)
    } else {
        PointerUnpack::Bool(w & 4 == 4)
    }
}

/// Whether the user bit of the word `w` is set.
pub open spec fn user_bit(w: u64) -> bool {
    w & 4 == 4
}

/// The word of none.
pub const WORD_NONE: u64 = 2;

/// The word of "not assigned".
pub const WORD_UNASSIGNED: u64 = 6;

/// The word of a boolean.
pub fn word_of_bool(x: bool) -> (w: u64)
    ensures
        decode(w) == PointerUnpack::Bool(x),
        w == if x {
            7u64
        } else {
            3u64
        },
{
    assert(7u64 & 3 == 3 && 7u64 & 8 == 0 && 7u64 & 4 == 4) by (bit_vector);
    assert(3u64 & 3 == 3 && 3u64 & 8 == 0 && 3u64 & 4 == 0) by (bit_vector);
    if x {
        7
    } else {
        3
    }
}

/// The word of an integer.
pub fn word_of_int(x: i32) -> (w: u64)
    ensures
        decode(w) == PointerUnpack::Int(x),
        w == ((x as u32 as u64) << 32) | 11,
{
    let bits = x as u32 as u64;
    let w = (bits << 32) | 11;
    assert(w & 3 == 3 && w & 8 == 8 && (w >> 32) == bits) by (bit_vector)
        requires
            w == (bits << 32) | 11,
            bits <= 0xffff_ffff,
    ;
    assert(bits as u32 as i32 == x) by (bit_vector)
        requires
            bits == x as u32 as u64,
    ;
    w
}

/// The word of a pointer to entry `index` of the frozen heap.
pub fn word_of_frozen(index: u64) -> (w: u64)
    requires
        index <= MAX_INDEX,
    ensures
        decode(w) == PointerUnpack::Frozen(index),
        !user_bit(w),
        w == index << 3,
{
    let w = index << 3;
    assert(w & 3 == 0 && (w >> 3) == index && w & 4 == 0) by (bit_vector)
        requires
            w == index << 3,
            index <= 0x1fff_ffff_ffff_ffff,
    ;
    w
}

/// The word of a pointer to entry `index` of the mutable heap, with the
/// user bit as given.
pub fn word_of_mutable(index: u64, user: bool) -> (w: u64)
    requires
        index <= MAX_INDEX,
    ensures
        decode(w) == PointerUnpack::Mutable(index),
        user_bit(w) == user,
{
    let low: u64 = if user {
        5
    } else {
        1
    };
    let w = (index << 3) | low;
    assert(w & 3 == 1 && (w >> 3) == index && ((w & 4 == 4) <==> low == 5)) by (bit_vector)
        requires
            w == (index << 3) | low,
            index <= 0x1fff_ffff_ffff_ffff,
            low == 5 || low == 1,
    ;
    w
}

/// The same word with the user bit set.
pub fn word_with_user_bit(w: u64) -> (r: u64)
    requires
        decode(w) is Mutable,
    ensures
        decode(r) == decode(w),
        user_bit(r),
{
    let r = w | 4;
    assert(r & 3 == 1 && (r >> 3) == (w >> 3) && r & 4 == 4) by (bit_vector)
        requires
            r == w | 4,
            w & 3 == 1,
    ;
    r
}

/// Reads a word.
pub fn unpack_word(w: u64) -> (r: PointerUnpack)
    ensures
        r == decode(w),
{
    let tag = w & 3;
    if tag == 0 {
        PointerUnpack::Frozen(w >> 3)
    } else if tag == 1 {
        PointerUnpack::Mutable(w >> 3)
    } else if tag == 2 {
        if w & 4 == 4 {
            PointerUnpack::Unassigned
        } else {
            PointerUnpack::NoneValue
        }
    } else if w & 8 == 8 {
        let high = w >> 32;
        assert(high <= 0xffff_ffff) by (bit_vector)
            requires
                high == w >> 32,
        ;
        PointerUnpack::Int(high as u32 as i32)
    } else {
        PointerUnpack::Bool(w & 4 == 4)
    }
}

/// Whether the user bit of a word is set.
pub fn word_user_bit(w: u64) -> (r: bool)
    ensures
        r == user_bit(w),
{
    w & 4 == 4
}

/// The words of none and of "not assigned" decode as such.
pub proof fn lemma_fixed_words()
    ensures
        decode(WORD_NONE) == PointerUnpack::NoneValue,
        decode(WORD_UNASSIGNED) == PointerUnpack::Unassigned,
{
    assert(2u64 & 3 == 2 && 2u64 & 4 == 0) by (bit_vector);
    assert(6u64 & 3 == 2 && 6u64 & 4 == 4) by (bit_vector);
}

} // verus!
