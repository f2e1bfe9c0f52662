//! Values as the evaluator hands them round: one word each.

use vstd::prelude::*;
use crate::values::layout::pointer::{
    decode, lemma_fixed_words, unpack_word, user_bit, word_of_bool, word_of_frozen, word_of_int,
    word_of_mutable, word_user_bit, word_with_user_bit, PointerUnpack, MAX_INDEX, WORD_NONE,
    WORD_UNASSIGNED,
};

verus! {

/// A value of the language: none, a boolean, an integer, or a pointer to an
/// entry of the frozen or of the mutable heap.
#[derive(Debug, Clone, Copy)]
pub struct Value {
    word: u64,
}

/// A value that can never change: none, a boolean, an integer, or a pointer
/// to an entry of the frozen heap.
#[derive(Debug, Clone, Copy)]
pub struct FrozenValue {
    word: u64,
}

impl View for Value {
    type V = PointerUnpack;

    /// What the value stands for.
    open spec fn view(&self) -> PointerUnpack {
        decode(self.word())
    }
}

impl View for FrozenValue {
    type V = PointerUnpack;

    /// What the value stands for.
    open spec fn view(&self) -> PointerUnpack {
        decode(self.word())
    }
}

impl Value {
    /// The word itself.
    pub closed spec fn word(&self) -> u64 {
        self.word
    }

    /// The value is a pointer that carries the user bit: what it points to
    /// is a reference cell.
    pub open spec fn is_ref(&self) -> bool {
        self@ is Mutable && user_bit(self.word())
    }

    /// The value is one of the language: neither the mark "not assigned"
    /// nor a pointer to a reference cell.
    pub open spec fn is_proper(&self) -> bool {
        !(self@ is Unassigned) && !self.is_ref()
    }

    /// The value with the same word as a frozen value.
    pub open spec fn of_frozen(x: FrozenValue) -> Value {
        Value::of_word(x.word())
    }

    /// The value with a given word.
    pub closed spec fn of_word(w: u64) -> Value {
        Value { word: w }
    }

    /// Values are their words.
    pub broadcast proof fn lemma_of_word(w: u64)
        ensures
            (#[trigger] Value::of_word(w)).word() == w,
    {
    }

    /// Two values with one word are one value.
    pub proof fn lemma_same_word(a: Value, b: Value)
        requires
            a.word() == b.word(),
        ensures
            a == b,
    {
    }

    /// The value none.
    pub fn new_none() -> (r: Self)
        ensures
            r@ == PointerUnpack::NoneValue,
            r.word() == WORD_NONE,
    {
        proof {
            lemma_fixed_words();
        }
        Value { word: WORD_NONE }
    }

    /// A boolean.
    pub fn new_bool(x: bool) -> (r: Self)
        ensures
            r@ == PointerUnpack::Bool(x),
            r == Value::of_word(
                if x {
                    7u64
                } else {
                    3u64
                },
            ),
    {
        Value { word: word_of_bool(x) }
    }

    /// An integer.
    pub fn new_int(x: i32) -> (r: Self)
        ensures
            r@ == PointerUnpack::Int(x),
            r == Value::of_word(((x as u32 as u64) << 32) | 11),
    {
        Value { word: word_of_int(x) }
    }

    /// The mark of a slot that was never assigned. It is no value of the
    /// language.
    pub fn new_unassigned() -> (r: Self)
        ensures
            r@ == PointerUnpack::Unassigned,
            r.word() == WORD_UNASSIGNED,
            r == Value::of_word(WORD_UNASSIGNED),
            !r.is_ref(),
    {
        proof {
            lemma_fixed_words();
        }
        Value { word: WORD_UNASSIGNED }
    }

    /// A frozen value as a value: the same word.
    pub fn new_frozen(x: FrozenValue) -> (r: Self)
        ensures
            r == Value::of_frozen(x),
            r@ == x@,
            r.word() == x.word(),
            !(r@ is Mutable),
    {
        proof {
            use_type_invariant(&x);
        }
        Value { word: x.word }
    }

    /// A pointer to entry `index` of the mutable heap, with the user bit as
    /// given.
    pub fn new_mutable(index: u64, user: bool) -> (r: Self)
        requires
            index <= MAX_INDEX,
        ensures
            r@ == PointerUnpack::Mutable(index),
            r.is_ref() == user,
    {
        Value { word: word_of_mutable(index, user) }
    }

    /// The frozen value inside, if the value is not a pointer into the
    /// mutable heap.
    pub fn unpack_frozen(self) -> (r: Option<FrozenValue>)
        ensures
            r is None <==> self@ is Mutable,
            r matches Some(x) ==> Value::of_frozen(x) == self && x@ == self@ && x.word()
                == self.word(),
    {
        match unpack_word(self.word) {
            PointerUnpack::Mutable(_) => None,
            _ => Some(FrozenValue { word: self.word }),
        }
    }

    /// Whether this is the value none.
    pub fn is_none(self) -> (r: bool)
        ensures
            r == (self@ is NoneValue),
    {
        match unpack_word(self.word) {
            PointerUnpack::NoneValue => true,
            _ => false,
        }
    }

    /// Whether this is the mark of a slot that was never assigned.
    pub fn is_unassigned(self) -> (r: bool)
        ensures
            r == (self@ is Unassigned),
    {
        match unpack_word(self.word) {
            PointerUnpack::Unassigned => true,
            _ => false,
        }
    }

    /// The boolean, if the value is one.
    pub fn unpack_bool(self) -> (r: Option<bool>)
        ensures
            r == match self@ {
                PointerUnpack::Bool(x) => Some(x),
                _ => None,
            },
    {
        match unpack_word(self.word) {
            PointerUnpack::Bool(x) => Some(x),
            _ => None,
        }
    }

    /// The integer, if the value is one.
    pub fn unpack_int(self) -> (r: Option<i32>)
        ensures
            r == match self@ {
                PointerUnpack::Int(x) => Some(x),
                _ => None,
            },
    {
        match unpack_word(self.word) {
            PointerUnpack::Int(x) => Some(x),
            _ => None,
        }
    }

    /// What the value stands for.
    pub fn unpack(self) -> (r: PointerUnpack)
        ensures
            r == self@,
    {
        unpack_word(self.word)
    }

    /// Whether the value is a pointer to a reference cell.
    pub fn get_user_tag(self) -> (r: bool)
        ensures
            r == self.is_ref(),
    {
        match unpack_word(self.word) {
            PointerUnpack::Mutable(_) => word_user_bit(self.word),
            _ => false,
        }
    }

    /// The same pointer into the mutable heap, marked as one to a reference
    /// cell.
    pub fn set_user_tag(self) -> (r: Self)
        requires
            self@ is Mutable,
        ensures
            r@ == self@,
            r.is_ref(),
    {
        Value { word: word_with_user_bit(self.word) }
    }

    /// Whether two values are the same word: the same immediate, or
    /// pointers to the same entry.
    pub fn ptr_eq(self, other: Self) -> (r: bool)
        ensures
            r == (self == other),
            r ==> self@ == other@,
    {
        self.word == other.word
    }

    /// The word, to tell values apart by identity.
    pub fn ptr_value(self) -> (r: u64)
        ensures
            r == self.word(),
    {
        self.word
    }
}

impl FrozenValue {
    /// The word itself.
    pub closed spec fn word(&self) -> u64 {
        self.word
    }

    /// Two frozen values with one word are one value.
    pub proof fn lemma_same_word(a: FrozenValue, b: FrozenValue)
        requires
            a.word() == b.word(),
        ensures
            a == b,
    {
    }

    /// A frozen value points nowhere into a mutable heap. Every frozen value
    /// that a program holds meets this.
    #[verifier::type_invariant]
    pub closed spec fn wf(&self) -> bool {
        !(decode(self.word) is Mutable)
    }

    /// What the invariant says.
    pub proof fn lemma_wf(&self)
        requires
            self.wf(),
        ensures
            !(self@ is Mutable),
    {
    }

    /// The value none.
    pub fn new_none() -> (r: Self)
        ensures
            r@ == PointerUnpack::NoneValue,
            r.word() == WORD_NONE,
    {
        proof {
            lemma_fixed_words();
        }
        FrozenValue { word: WORD_NONE }
    }

    /// A boolean.
    pub fn new_bool(x: bool) -> (r: Self)
        ensures
            r@ == PointerUnpack::Bool(x),
    {
        FrozenValue { word: word_of_bool(x) }
    }

    /// An integer.
    pub fn new_int(x: i32) -> (r: Self)
        ensures
            r@ == PointerUnpack::Int(x),
    {
        FrozenValue { word: word_of_int(x) }
    }

    /// The mark of a slot that was never assigned.
    pub fn new_unassigned() -> (r: Self)
        ensures
            r@ == PointerUnpack::Unassigned,
    {
        proof {
            lemma_fixed_words();
        }
        FrozenValue { word: WORD_UNASSIGNED }
    }

    /// A pointer to entry `index` of the frozen heap.
    pub fn new_pointer(index: u64) -> (r: Self)
        requires
            index <= MAX_INDEX,
        ensures
            r@ == PointerUnpack::Frozen(index),
    {
        FrozenValue { word: word_of_frozen(index) }
    }

    /// Whether this is the value none.
    pub fn is_none(self) -> (r: bool)
        ensures
            r == (self@ is NoneValue),
    {
        match unpack_word(self.word) {
            PointerUnpack::NoneValue => true,
            _ => false,
        }
    }

    /// Whether this is the mark of a slot that was never assigned.
    pub fn is_unassigned(self) -> (r: bool)
        ensures
            r == (self@ is Unassigned),
    {
        match unpack_word(self.word) {
            PointerUnpack::Unassigned => true,
            _ => false,
        }
    }

    /// The boolean, if the value is one.
    pub fn unpack_bool(self) -> (r: Option<bool>)
        ensures
            r == match self@ {
                PointerUnpack::Bool(x) => Some(x),
                _ => None,
            },
    {
        match unpack_word(self.word) {
            PointerUnpack::Bool(x) => Some(x),
            _ => None,
        }
    }

    /// The integer, if the value is one.
    pub fn unpack_int(self) -> (r: Option<i32>)
        ensures
            r == match self@ {
                PointerUnpack::Int(x) => Some(x),
                _ => None,
            },
    {
        match unpack_word(self.word) {
            PointerUnpack::Int(x) => Some(x),
            _ => None,
        }
    }

    /// What the value stands for: never a pointer into a mutable heap.
    pub fn unpack(self) -> (r: PointerUnpack)
        ensures
            r == self@,
            !(r is Mutable),
    {
        proof {
            use_type_invariant(&self);
        }
        unpack_word(self.word)
    }

    /// The same as a value.
    pub fn to_value(self) -> (r: Value)
        ensures
            r == Value::of_frozen(self),
            r@ == self@,
            r.word() == self.word(),
            !(r@ is Mutable),
    {
        Value::new_frozen(self)
    }
}

/// What both kinds of value can do: stand as a value.
pub trait ValueLike: Copy {
    /// The value that this stands for.
    spec fn spec_to_value(&self) -> Value;

    /// The value that this stands for.
    fn to_value(&self) -> (r: Value)
        ensures
            r == self.spec_to_value(),
    ;
}

impl ValueLike for Value {
    open spec fn spec_to_value(&self) -> Value {
        *self
    }

    fn to_value(&self) -> (r: Value) {
        *self
    }
}

impl ValueLike for FrozenValue {
    open spec fn spec_to_value(&self) -> Value {
        Value::of_frozen(*self)
    }

    fn to_value(&self) -> (r: Value) {
        Value::new_frozen(*self)
    }
}

} // verus!
