//! The struct type: named fields, fixed once made, read with a dot.

use vstd::prelude::*;
use crate::collections::entries::{has_key, inserted, KeyModel};
use crate::collections::small_map::{shape_after_insert, text_key, Shape, SmallMap, THRESHOLD};
use crate::values::alloc_value::AllocValue;
use crate::values::layout::heap::Heap;
use crate::values::layout::value::Value;
use crate::values::types::containers::{Struct, StructGen};

verus! {

impl<T> StructGen<T> {
    /// A struct of the given fields.
    pub fn new(fields: SmallMap<T>) -> (r: Self)
        ensures
            r.fields == fields,
    {
        StructGen { fields }
    }

    /// Whether the struct has a field of the given name.
    pub fn has_attr(&self, attribute: &str) -> (r: bool)
        ensures
            r == has_key(self.fields@, text_key(attribute@)),
    {
        self.fields.contains_key(attribute)
    }

    /// The names of the fields, in their order.
    pub fn dir_attr(&self) -> (r: Vec<String>)
        ensures
            r@.len() == self.fields@.len(),
            forall|i: int| 0 <= i < r@.len() ==> (#[trigger] r@[i])@ == self.fields@[i].0.1,
    {
        let keys = self.fields.keys();
        let mut out: Vec<String> = Vec::with_capacity(keys.len());
        let mut i: usize = 0;
        while i < keys.len()
            invariant
                i <= keys@.len(),
                out@.len() == i,
                keys@.len() == self.fields@.len(),
                forall|j: int| 0 <= j < keys@.len() ==> (#[trigger] keys@[j])@ == self.fields@[j].0.1,
                forall|j: int| 0 <= j < i ==> (#[trigger] out@[j])@ == self.fields@[j].0.1,
            decreases keys@.len() - i,
        {
            out.push(keys[i].clone());
            i += 1;
        }
        out
    }
}

/// Gathers the fields of a struct, in the order in which they are added.
#[derive(Debug)]
pub struct StructBuilder {
    fields: SmallMap<Value>,
}

impl StructBuilder {
    /// The fields so far.
    pub closed spec fn fields(&self) -> Seq<(KeyModel, Value)> {
        self.fields@
    }

    /// How the fields are stored.
    pub closed spec fn shape(&self) -> Shape {
        self.fields.shape()
    }

    /// A builder with room for `capacity` fields: it holds none yet, and
    /// stores them in a vector where the capacity is under the threshold,
    /// else in a hashed index.
    pub fn with_capacity(capacity: usize) -> (r: Self)
        ensures
            r.fields() == Seq::<(KeyModel, Value)>::empty(),
            r.shape() == if capacity < THRESHOLD {
                Shape::Vector
            } else {
                Shape::Indexed
            },
    {
        StructBuilder { fields: SmallMap::with_capacity(capacity) }
    }

    /// A builder without fields.
    pub fn new() -> (r: Self)
        ensures
            r.fields() == Seq::<(KeyModel, Value)>::empty(),
            r.shape() == Shape::Empty,
    {
        StructBuilder { fields: SmallMap::new() }
    }

    /// Adds a field: the value of the host is put on the heap, and the
    /// field of that name holds it from now on.
    pub fn add<A: AllocValue>(&mut self, heap: &mut Heap, key: String, val: A)
        requires
            old(heap).can_alloc(val.cost()),
        ensures
            exists|v: Value|
                val.allocated(old(heap), final(heap), v) && final(self).fields() == inserted(
                    old(self).fields(),
                    text_key(key@),
                    v,
                ),
            final(heap).frozen() == old(heap).frozen(),
            final(heap).entries().len() == old(heap).entries().len() + val.cost(),
            final(heap).entries().take(old(heap).entries().len() as int) == old(heap).entries(),
            final(self).shape() == shape_after_insert(old(self).shape(), old(self).fields().len()),
    {
        let v = val.alloc_value(heap);
        self.fields.insert(key, v);
    }

    /// The struct of the fields that were added.
    pub fn build(self) -> (r: Struct)
        ensures
            r.fields@ == self.fields(),
            r.fields.shape() == self.shape(),
    {
        StructGen { fields: self.fields }
    }
}

} // verus!
