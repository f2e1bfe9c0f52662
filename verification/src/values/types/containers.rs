//! The containers of the language as plain data: lists, tuples, dicts and
//! structs, over values of either kind.

use vstd::prelude::*;
use crate::collections::hash::Hashed;
use crate::collections::small_map::SmallMap;
use crate::values::layout::value::{FrozenValue, Value};

verus! {

/// A list: a sequence of values that can grow and change.
#[derive(Debug)]
pub struct ListGen<T> {
    /// The elements.
    pub content: Vec<T>,
}

/// A list on the mutable heap.
pub type List = ListGen<Value>;

/// A list on the frozen heap.
pub type FrozenList = ListGen<FrozenValue>;

/// A tuple: a sequence of values that is fixed once made.
#[derive(Debug)]
pub struct TupleGen<T> {
    /// The elements.
    pub content: Vec<T>,
}

/// A tuple on the mutable heap.
pub type Tuple = TupleGen<Value>;

/// A tuple on the frozen heap.
pub type FrozenTuple = TupleGen<FrozenValue>;

/// A dict: keys with their hashes, each with a value, in the order of
/// insertion.
#[derive(Debug)]
pub struct DictGen<T> {
    /// The entries.
    pub content: Vec<(Hashed<T>, T)>,
}

/// A dict on the mutable heap.
pub type Dict = DictGen<Value>;

/// A dict on the frozen heap.
pub type FrozenDict = DictGen<FrozenValue>;

/// A struct: named fields that are fixed once made.
#[derive(Debug)]
pub struct StructGen<T> {
    /// The fields.
    pub fields: SmallMap<T>,
}

/// A struct on the mutable heap.
pub type Struct = StructGen<Value>;

/// A struct on the frozen heap.
pub type FrozenStruct = StructGen<FrozenValue>;

/// Any container.
#[derive(Debug)]
pub enum ObjectGen<T> {
    List(ListGen<T>),
    Tuple(TupleGen<T>),
    Dict(DictGen<T>),
    Struct(StructGen<T>),
}

/// A container on the mutable heap: it may hold values of either heap.
pub type Object = ObjectGen<Value>;

/// A container on the frozen heap: it holds frozen values only.
pub type FrozenObject = ObjectGen<FrozenValue>;

impl<T> ObjectGen<T> {
    /// Whether the container can change once it is made: lists and dicts
    /// can, tuples and structs cannot.
    pub open spec fn spec_is_mutable(&self) -> bool {
        self is List || self is Dict
    }

    /// Whether the container can change once it is made.
    pub fn is_mutable(&self) -> (r: bool)
        ensures
            r == self.spec_is_mutable(),
    {
        match self {
            ObjectGen::List(_) => true,
            ObjectGen::Dict(_) => true,
            ObjectGen::Tuple(_) => false,
            ObjectGen::Struct(_) => false,
        }
    }

    /// The name of the container's type in the language.
    pub fn get_type(&self) -> (r: &'static str)
        ensures
            r@ == match self {
                ObjectGen::List(_) => "list"@,
                ObjectGen::Tuple(_) => "tuple"@,
                ObjectGen::Dict(_) => "dict"@,
                ObjectGen::Struct(_) => "struct"@,
            },
    {
        match self {
            ObjectGen::List(_) => "list",
            ObjectGen::Tuple(_) => "tuple",
            ObjectGen::Dict(_) => "dict",
            ObjectGen::Struct(_) => "struct",
        }
    }
}

impl<T> TupleGen<T> {
    /// A tuple of the given elements.
    pub fn new(content: Vec<T>) -> (r: Self)
        ensures
            r.content == content,
    {
        TupleGen { content }
    }

    /// The number of elements.
    pub fn len(&self) -> (r: usize)
        ensures
            r == self.content@.len(),
    {
        self.content.len()
    }
}

impl<T> DictGen<T> {
    /// A dict of the given entries.
    pub fn new(content: Vec<(Hashed<T>, T)>) -> (r: Self)
        ensures
            r.content == content,
    {
        DictGen { content }
    }

    /// The number of entries.
    pub fn len(&self) -> (r: usize)
        ensures
            r == self.content@.len(),
    {
        self.content.len()
    }
}

} // verus!
