//! Putting values of the host on the heap.

use vstd::prelude::*;
use crate::values::layout::heap::{FrozenHeap, Heap};
use crate::values::layout::pointer::PointerUnpack;
use crate::values::layout::heap::FrozenValueMem;
use crate::values::layout::value::{FrozenValue, Value};
use crate::values::types::containers::{FrozenStruct, ObjectGen};

verus! {

/// A value of the host that can become a value of the language.
pub trait AllocValue: Sized {
    /// The number of heap entries that it takes.
    spec fn cost(&self) -> nat;

    /// The heap went from `before` to `after` and `r` is the value.
    spec fn allocated(&self, before: &Heap, after: &Heap, r: Value) -> bool;

    /// Makes the value, on the heap where it needs an entry.
    fn alloc_value(self, heap: &mut Heap) -> (r: Value)
        requires
            old(heap).can_alloc(self.cost()),
        ensures
            self.allocated(old(heap), final(heap), r),
            r.is_proper(),
            final(heap).frozen() == old(heap).frozen(),
            final(heap).entries().len() == old(heap).entries().len() + self.cost(),
            final(heap).entries().take(old(heap).entries().len() as int) == old(heap).entries(),
    ;
}

/// A value of the host that can become a frozen value.
pub trait AllocFrozenValue: Sized {
    /// The number of heap entries that it takes.
    spec fn frozen_cost(&self) -> nat;

    /// The heap went from `before` to `after` and `r` is the value.
    spec fn frozen_allocated(&self, before: &FrozenHeap, after: &FrozenHeap, r: FrozenValue) -> bool;

    /// Makes the value, on the heap where it needs an entry.
    fn alloc_frozen_value(self, heap: &mut FrozenHeap) -> (r: FrozenValue)
        requires
            old(heap).can_alloc(self.frozen_cost()),
        ensures
            self.frozen_allocated(old(heap), final(heap), r),
            !(r@ is Unassigned),
            final(heap).entries().len() == old(heap).entries().len() + self.frozen_cost(),
            final(heap).entries().take(old(heap).entries().len() as int) == old(heap).entries(),
    ;
}

impl AllocValue for Value {
    open spec fn cost(&self) -> nat {
        0
    }

    open spec fn allocated(&self, before: &Heap, after: &Heap, r: Value) -> bool {
        after.entries() == before.entries() && r == if self.is_proper() {
            *self
        } else {
            Value::of_word(crate::values::layout::pointer::WORD_NONE)
        }
    }

    /// A value stands for itself. The mark "not assigned" and a pointer to a
    /// reference cell are no values: in their place stands none.
    fn alloc_value(self, heap: &mut Heap) -> (r: Value) {
        assert(heap.entries().take(heap.entries().len() as int) =~= heap.entries());
        if self.is_unassigned() || self.get_user_tag() {
            let r = Value::new_none();
            proof {
                Value::lemma_of_word(crate::values::layout::pointer::WORD_NONE);
                Value::lemma_same_word(r, Value::of_word(crate::values::layout::pointer::WORD_NONE));
                assert(4u64 & 2 == 0 && 2u64 & 4 == 0) by (bit_vector);
            }
            r
        } else {
            self
        }
    }
}

impl AllocValue for bool {
    open spec fn cost(&self) -> nat {
        0
    }

    open spec fn allocated(&self, before: &Heap, after: &Heap, r: Value) -> bool {
        after.entries() == before.entries() && r@ == PointerUnpack::Bool(*self)
    }

    fn alloc_value(self, heap: &mut Heap) -> (r: Value) {
        assert(heap.entries().take(heap.entries().len() as int) =~= heap.entries());
        Value::new_bool(self)
    }
}

impl AllocValue for i32 {
    open spec fn cost(&self) -> nat {
        0
    }

    open spec fn allocated(&self, before: &Heap, after: &Heap, r: Value) -> bool {
        after.entries() == before.entries() && r@ == PointerUnpack::Int(*self)
    }

    fn alloc_value(self, heap: &mut Heap) -> (r: Value) {
        assert(heap.entries().take(heap.entries().len() as int) =~= heap.entries());
        Value::new_int(self)
    }
}

impl AllocValue for &str {
    open spec fn cost(&self) -> nat {
        1
    }

    open spec fn allocated(&self, before: &Heap, after: &Heap, r: Value) -> bool {
        r@ == PointerUnpack::Mutable(before.entries().len() as u64) && after.str_of(r@) == Some(
            self@,
        )
    }

    fn alloc_value(self, heap: &mut Heap) -> (r: Value) {
        let r = heap.alloc_str(self);
        assert(heap.entries().take(old(heap).entries().len() as int) =~= heap.entries().drop_last());
        r
    }
}

impl AllocFrozenValue for FrozenValue {
    open spec fn frozen_cost(&self) -> nat {
        0
    }

    open spec fn frozen_allocated(
        &self,
        before: &FrozenHeap,
        after: &FrozenHeap,
        r: FrozenValue,
    ) -> bool {
        after.entries() == before.entries() && (if self@ is Unassigned {
            r@ is NoneValue
        } else {
            r == *self
        })
    }

    fn alloc_frozen_value(self, heap: &mut FrozenHeap) -> (r: FrozenValue) {
        assert(heap.entries().take(heap.entries().len() as int) =~= heap.entries());
        if self.is_unassigned() {
            FrozenValue::new_none()
        } else {
            self
        }
    }
}

impl AllocFrozenValue for bool {
    open spec fn frozen_cost(&self) -> nat {
        0
    }

    open spec fn frozen_allocated(
        &self,
        before: &FrozenHeap,
        after: &FrozenHeap,
        r: FrozenValue,
    ) -> bool {
        after.entries() == before.entries() && r@ == PointerUnpack::Bool(*self)
    }

    fn alloc_frozen_value(self, heap: &mut FrozenHeap) -> (r: FrozenValue) {
        assert(heap.entries().take(heap.entries().len() as int) =~= heap.entries());
        FrozenValue::new_bool(self)
    }
}

impl AllocFrozenValue for i32 {
    open spec fn frozen_cost(&self) -> nat {
        0
    }

    open spec fn frozen_allocated(
        &self,
        before: &FrozenHeap,
        after: &FrozenHeap,
        r: FrozenValue,
    ) -> bool {
        after.entries() == before.entries() && r@ == PointerUnpack::Int(*self)
    }

    fn alloc_frozen_value(self, heap: &mut FrozenHeap) -> (r: FrozenValue) {
        assert(heap.entries().take(heap.entries().len() as int) =~= heap.entries());
        FrozenValue::new_int(self)
    }
}

impl AllocFrozenValue for &str {
    open spec fn frozen_cost(&self) -> nat {
        1
    }

    open spec fn frozen_allocated(
        &self,
        before: &FrozenHeap,
        after: &FrozenHeap,
        r: FrozenValue,
    ) -> bool {
        r@ == PointerUnpack::Frozen(before.entries().len() as u64) && after.str_of(r@) == Some(
            self@,
        )
    }

    fn alloc_frozen_value(self, heap: &mut FrozenHeap) -> (r: FrozenValue) {
        let r = heap.alloc_str(self);
        assert(heap.entries().take(old(heap).entries().len() as int) =~= heap.entries().drop_last());
        r
    }
}

impl AllocFrozenValue for FrozenStruct {
    open spec fn frozen_cost(&self) -> nat {
        1
    }

    open spec fn frozen_allocated(
        &self,
        before: &FrozenHeap,
        after: &FrozenHeap,
        r: FrozenValue,
    ) -> bool {
        r@ == PointerUnpack::Frozen(before.entries().len() as u64) && after.entries()
            == before.entries().push(FrozenValueMem::Simple(ObjectGen::Struct(*self)))
    }

    fn alloc_frozen_value(self, heap: &mut FrozenHeap) -> (r: FrozenValue) {
        let r = heap.alloc_simple(ObjectGen::Struct(self));
        assert(heap.entries().take(old(heap).entries().len() as int) =~= old(heap).entries());
        r
    }
}

} // verus!
