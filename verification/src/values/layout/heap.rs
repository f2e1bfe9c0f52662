//! The two heaps. A frozen heap only grows, and what it holds never
//! changes. A mutable heap belongs to one evaluation; it reads the frozen
//! heap that it was made over, and its own entries can change.

use vstd::prelude::*;
use crate::values::layout::pointer::{PointerUnpack, MAX_INDEX, WORD_UNASSIGNED};
use crate::values::layout::value::{FrozenValue, Value};
use crate::values::types::containers::{FrozenObject, Object};

verus! {

/// An entry of a frozen heap.
#[derive(Debug)]
pub enum FrozenValueMem {
    /// An entry that is reserved and not filled yet.
    Blackhole,
    /// A string.
    Str(String),
    /// A container of frozen values.
    Simple(FrozenObject),
}

/// A container that can change, and the number of those who are reading it
/// just now.
#[derive(Debug)]
pub struct MutableCell {
    pub object: Object,
    pub readers: usize,
}

/// What a cell that thaws on the first write holds.
#[derive(Debug, Clone, Copy)]
pub enum Thawable {
    /// Still the frozen list or dict.
    Frozen(FrozenValue),
    /// The copy that was made for the first write.
    Thawed(Value),
}

/// A frozen list or dict that is copied when it is first written to, and
/// the number of those who are reading the frozen one just now.
#[derive(Debug)]
pub struct ThawableCell {
    pub state: Thawable,
    pub readers: usize,
}

/// An entry of a mutable heap.
#[derive(Debug)]
pub enum ValueMem {
    /// The entry was frozen: the frozen value stands for it from now on.
    Forward(FrozenValue),
    /// The entry was moved by a collection: the value stands for it.
    Copied(Value),
    /// The entry is being frozen or moved.
    Blackhole,
    /// A string.
    Str(String),
    /// A container of frozen values.
    Simple(FrozenObject),
    /// A container that cannot change but may hold values that can.
    Immutable(Object),
    /// A container that can change.
    Mutable(MutableCell),
    /// A frozen list or dict that thaws on the first write.
    ThawOnWrite(ThawableCell),
    /// A reference cell: the one value that several frames share.
    Ref(Value),
    /// A mark of the profiler: a call of the given function begins.
    CallEnter(Value),
    /// A mark of the profiler: a call ends.
    CallExit,
}

impl ValueMem {
    /// The name of the variant.
    pub fn variant_name(&self) -> (r: &'static str)
        ensures
            r@ == match self {
                ValueMem::Forward(_) => "Forward"@,
                ValueMem::Copied(_) => "Copied"@,
                ValueMem::Blackhole => "Blackhole"@,
                ValueMem::Str(_) => "Str"@,
                ValueMem::Simple(_) => "Simple"@,
                ValueMem::Immutable(_) => "Immutable"@,
                ValueMem::Mutable(_) => "Mutable"@,
                ValueMem::ThawOnWrite(_) => "ThawOnWrite"@,
                ValueMem::Ref(_) => "Ref"@,
                ValueMem::CallEnter(_) => "CallEnter"@,
                ValueMem::CallExit => "CallExit"@,
            },
    {
        match self {
            ValueMem::Forward(_) => "Forward",
            ValueMem::Copied(_) => "Copied",
            ValueMem::Blackhole => "Blackhole",
            ValueMem::Str(_) => "Str",
            ValueMem::Simple(_) => "Simple",
            ValueMem::Immutable(_) => "Immutable",
            ValueMem::Mutable(_) => "Mutable",
            ValueMem::ThawOnWrite(_) => "ThawOnWrite",
            ValueMem::Ref(_) => "Ref",
            ValueMem::CallEnter(_) => "CallEnter",
            ValueMem::CallExit => "CallExit",
        }
    }
}

impl ValueMem {
    /// What to say of an entry that a method does not expect.
    pub fn unexpected(&self, method: &str) -> (r: String)
        ensures
            r@ == "ValueMem::"@ + method@ + ", unexpected variant "@ + (match self {
                ValueMem::Forward(_) => "Forward"@,
                ValueMem::Copied(_) => "Copied"@,
                ValueMem::Blackhole => "Blackhole"@,
                ValueMem::Str(_) => "Str"@,
                ValueMem::Simple(_) => "Simple"@,
                ValueMem::Immutable(_) => "Immutable"@,
                ValueMem::Mutable(_) => "Mutable"@,
                ValueMem::ThawOnWrite(_) => "ThawOnWrite"@,
                ValueMem::Ref(_) => "Ref"@,
                ValueMem::CallEnter(_) => "CallEnter"@,
                ValueMem::CallExit => "CallExit"@,
            }),
    {
        let mut out = String::new();
        crate::text::push_text(&mut out, "ValueMem::");
        crate::text::push_text(&mut out, method);
        crate::text::push_text(&mut out, ", unexpected variant ");
        crate::text::push_text(&mut out, self.variant_name());
        out
    }
}

impl FrozenValueMem {
    /// The name of the variant.
    pub fn variant_name(&self) -> (r: &'static str)
        ensures
            r@ == match self {
                FrozenValueMem::Blackhole => "Blackhole"@,
                FrozenValueMem::Str(_) => "Str"@,
                FrozenValueMem::Simple(_) => "Simple"@,
            },
    {
        match self {
            FrozenValueMem::Blackhole => "Blackhole",
            FrozenValueMem::Str(_) => "Str",
            FrozenValueMem::Simple(_) => "Simple",
        }
    }

    /// What to say of an entry that a method does not expect.
    pub fn unexpected(&self, method: &str) -> (r: String)
        ensures
            r@ == "FrozenValueMem::"@ + method@ + ", unexpected variant "@ + (match self {
                FrozenValueMem::Blackhole => "Blackhole"@,
                FrozenValueMem::Str(_) => "Str"@,
                FrozenValueMem::Simple(_) => "Simple"@,
            }),
    {
        let mut out = String::new();
        crate::text::push_text(&mut out, "FrozenValueMem::");
        crate::text::push_text(&mut out, method);
        crate::text::push_text(&mut out, ", unexpected variant ");
        crate::text::push_text(&mut out, self.variant_name());
        out
    }
}

/// A heap of values that never change.
#[derive(Debug)]
pub struct FrozenHeap {
    entries: Vec<FrozenValueMem>,
}

impl FrozenHeap {
    /// The entries, in the order in which they were made.
    pub closed spec fn entries(&self) -> Seq<FrozenValueMem> {
        self.entries@
    }

    /// There is a number left for `n` more entries.
    pub open spec fn can_alloc(&self, n: nat) -> bool {
        self.entries().len() + n <= MAX_INDEX + 1
    }

    /// The entry that a frozen value points to, if it points to one.
    pub open spec fn target(&self, v: PointerUnpack) -> Option<FrozenValueMem> {
        match v {
            PointerUnpack::Frozen(i) if i < self.entries().len() => Some(self.entries()[i as int]),
            _ => None,
        }
    }

    /// The characters of the string that a value is, if it is one.
    pub open spec fn str_of(&self, v: PointerUnpack) -> Option<Seq<char>> {
        match self.target(v) {
            Some(FrozenValueMem::Str(s)) => Some(s@),
            _ => None,
        }
    }

    /// A heap without entries.
    pub fn new() -> (r: Self)
        ensures
            r.entries() == Seq::<FrozenValueMem>::empty(),
    {
        FrozenHeap { entries: Vec::new() }
    }

    /// The number of entries.
    pub fn len(&self) -> (r: usize)
        ensures
            r == self.entries().len(),
    {
        self.entries.len()
    }

    /// Puts an entry on the heap and hands out the pointer to it.
    pub fn alloc_raw(&mut self, mem: FrozenValueMem) -> (r: FrozenValue)
        requires
            old(self).can_alloc(1),
        ensures
            final(self).entries() == old(self).entries().push(mem),
            r@ == PointerUnpack::Frozen(old(self).entries().len() as u64),
    {
        let index = self.entries.len() as u64;
        self.entries.push(mem);
        FrozenValue::new_pointer(index)
    }

    /// Puts a string on the heap.
    pub fn alloc_str(&mut self, s: &str) -> (r: FrozenValue)
        requires
            old(self).can_alloc(1),
        ensures
            final(self).entries().len() == old(self).entries().len() + 1,
            final(self).entries().drop_last() == old(self).entries(),
            final(self).str_of(r@) == Some(s@),
            r@ == PointerUnpack::Frozen(old(self).entries().len() as u64),
    {
        let ghost before = self.entries();
        let r = self.alloc_raw(FrozenValueMem::Str(s.to_owned()));
        assert(self.entries().drop_last() =~= before);
        r
    }

    /// Puts a container of frozen values on the heap.
    pub fn alloc_simple(&mut self, obj: FrozenObject) -> (r: FrozenValue)
        requires
            old(self).can_alloc(1),
        ensures
            final(self).entries() == old(self).entries().push(FrozenValueMem::Simple(obj)),
            r@ == PointerUnpack::Frozen(old(self).entries().len() as u64),
    {
        self.alloc_raw(FrozenValueMem::Simple(obj))
    }

    /// Fills an entry that was reserved.
    pub fn fill(&mut self, at: usize, mem: FrozenValueMem)
        requires
            at < old(self).entries().len(),
            old(self).entries()[at as int] is Blackhole,
        ensures
            final(self).entries() == old(self).entries().update(at as int, mem),
    {
        self.entries.push(mem);
        let _ = self.entries.swap_remove(at);
        assert(self.entries@ =~= old(self).entries@.update(at as int, mem));
    }

    /// The entry that a value points to, if it points to one.
    pub fn get(&self, v: FrozenValue) -> (r: Option<&FrozenValueMem>)
        ensures
            match r {
                Some(mem) => self.target(v@) == Some(*mem),
                None => self.target(v@) is None,
            },
    {
        match v.unpack() {
            PointerUnpack::Frozen(i) => {
                if i < self.entries.len() as u64 {
                    Some(&self.entries[i as usize])
                } else {
                    None
                }
            },
            _ => None,
        }
    }

    /// The string that a value is, if it is one.
    pub fn unpack_str(&self, v: FrozenValue) -> (r: Option<&str>)
        ensures
            match r {
                Some(s) => self.str_of(v@) == Some(s@),
                None => self.str_of(v@) is None,
            },
    {
        match self.get(v) {
            Some(FrozenValueMem::Str(s)) => Some(s.as_str()),
            _ => None,
        }
    }
}

/// The heap of one evaluation, over the frozen heap that the evaluation
/// reads.
#[derive(Debug)]
pub struct Heap {
    frozen: FrozenHeap,
    entries: Vec<ValueMem>,
}

impl Heap {
    /// The entries, in the order in which they were made.
    pub closed spec fn entries(&self) -> Seq<ValueMem> {
        self.entries@
    }

    /// The frozen heap underneath.
    pub closed spec fn frozen(&self) -> FrozenHeap {
        self.frozen
    }

    /// There is a number left for `n` more entries.
    pub open spec fn can_alloc(&self, n: nat) -> bool {
        self.entries().len() + n <= MAX_INDEX + 1
    }

    /// The entry that a value points to, if it points to one of this heap.
    pub open spec fn target(&self, v: PointerUnpack) -> Option<ValueMem> {
        match v {
            PointerUnpack::Mutable(i) if i < self.entries().len() => Some(self.entries()[i as int]),
            _ => None,
        }
    }

    /// The characters of the string that a value is, if it is one: a string
    /// of either heap, or an entry of this heap that was frozen into one.
    pub open spec fn str_of(&self, v: PointerUnpack) -> Option<Seq<char>> {
        match v {
            PointerUnpack::Frozen(_) => self.frozen().str_of(v),
            PointerUnpack::Mutable(_) => match self.target(v) {
                Some(ValueMem::Str(s)) => Some(s@),
                Some(ValueMem::Forward(x)) => self.frozen().str_of(x@),
                _ => None,
            },
            _ => None,
        }
    }

    /// A heap without entries over a frozen heap.
    pub fn new(frozen: FrozenHeap) -> (r: Self)
        ensures
            r.entries() == Seq::<ValueMem>::empty(),
            r.frozen() == frozen,
    {
        Heap { frozen, entries: Vec::new() }
    }

    /// The frozen heap underneath.
    pub fn frozen_heap(&self) -> (r: &FrozenHeap)
        ensures
            *r == self.frozen(),
    {
        &self.frozen
    }

    /// Ends the evaluation: what is left is the frozen heap.
    pub fn into_frozen(self) -> (r: FrozenHeap)
        ensures
            r == self.frozen(),
    {
        self.frozen
    }

    /// The number of entries.
    pub fn len(&self) -> (r: usize)
        ensures
            r == self.entries().len(),
    {
        self.entries.len()
    }

    /// Puts an entry on the heap and hands out the pointer to it.
    pub fn alloc_raw(&mut self, mem: ValueMem) -> (r: Value)
        requires
            old(self).can_alloc(1),
        ensures
            final(self).entries() == old(self).entries().push(mem),
            final(self).frozen() == old(self).frozen(),
            r@ == PointerUnpack::Mutable(old(self).entries().len() as u64),
            !r.is_ref(),
    {
        let index = self.entries.len() as u64;
        self.entries.push(mem);
        Value::new_mutable(index, false)
    }

    /// Puts a string on the heap.
    pub fn alloc_str(&mut self, s: &str) -> (r: Value)
        requires
            old(self).can_alloc(1),
        ensures
            final(self).entries().len() == old(self).entries().len() + 1,
            final(self).entries().drop_last() == old(self).entries(),
            final(self).frozen() == old(self).frozen(),
            final(self).str_of(r@) == Some(s@),
            r@ == PointerUnpack::Mutable(old(self).entries().len() as u64),
            !r.is_ref(),
    {
        let ghost before = self.entries();
        let r = self.alloc_raw(ValueMem::Str(s.to_owned()));
        assert(self.entries().drop_last() =~= before);
        r
    }

    /// Puts a container of frozen values on the heap.
    pub fn alloc_simple(&mut self, obj: FrozenObject) -> (r: Value)
        requires
            old(self).can_alloc(1),
        ensures
            final(self).entries() == old(self).entries().push(ValueMem::Simple(obj)),
            final(self).frozen() == old(self).frozen(),
            r@ == PointerUnpack::Mutable(old(self).entries().len() as u64),
            !r.is_ref(),
    {
        self.alloc_raw(ValueMem::Simple(obj))
    }

    /// Puts a container on the heap: as one that can change if it says it
    /// can, with nobody reading it; else as one that cannot.
    pub fn alloc_complex(&mut self, obj: Object) -> (r: Value)
        requires
            old(self).can_alloc(1),
        ensures
            final(self).entries() == old(self).entries().push(
                if obj.spec_is_mutable() {
                    ValueMem::Mutable(MutableCell { object: obj, readers: 0 })
                } else {
                    ValueMem::Immutable(obj)
                },
            ),
            final(self).frozen() == old(self).frozen(),
            r@ == PointerUnpack::Mutable(old(self).entries().len() as u64),
            !r.is_ref(),
    {
        if obj.is_mutable() {
            self.alloc_raw(ValueMem::Mutable(MutableCell { object: obj, readers: 0 }))
        } else {
            self.alloc_raw(ValueMem::Immutable(obj))
        }
    }

    /// Puts a frozen list or dict on the heap as one that thaws on the
    /// first write.
    pub fn alloc_thaw_on_write(&mut self, x: FrozenValue) -> (r: Value)
        requires
            old(self).can_alloc(1),
        ensures
            final(self).entries() == old(self).entries().push(
                ValueMem::ThawOnWrite(ThawableCell { state: Thawable::Frozen(x), readers: 0 }),
            ),
            final(self).frozen() == old(self).frozen(),
            r@ == PointerUnpack::Mutable(old(self).entries().len() as u64),
            !r.is_ref(),
    {
        self.alloc_raw(ValueMem::ThawOnWrite(ThawableCell { state: Thawable::Frozen(x), readers: 0 }))
    }

    /// Puts a reference cell on the heap that holds `initial`. The pointer
    /// carries the user bit.
    pub fn alloc_ref(&mut self, initial: Value) -> (r: Value)
        requires
            old(self).can_alloc(1),
        ensures
            final(self).entries() == old(self).entries().push(ValueMem::Ref(initial)),
            final(self).frozen() == old(self).frozen(),
            r@ == PointerUnpack::Mutable(old(self).entries().len() as u64),
            r.is_ref(),
            old(self).refs_are_flat() && !initial.is_ref() ==> final(self).refs_are_flat(),
    {
        self.alloc_raw(ValueMem::Ref(initial)).set_user_tag()
    }

    /// The entry that a value points to, if it points to one of this heap.
    pub fn get(&self, v: Value) -> (r: Option<&ValueMem>)
        ensures
            match r {
                Some(mem) => self.target(v@) == Some(*mem),
                None => self.target(v@) is None,
            },
    {
        match v.unpack() {
            PointerUnpack::Mutable(i) => {
                if i < self.entries.len() as u64 {
                    Some(&self.entries[i as usize])
                } else {
                    None
                }
            },
            _ => None,
        }
    }

    /// The string that a value is, if it is one.
    pub fn unpack_str(&self, v: Value) -> (r: Option<&str>)
        ensures
            match r {
                Some(s) => self.str_of(v@) == Some(s@),
                None => self.str_of(v@) is None,
            },
    {
        match v.unpack_frozen() {
            Some(x) => self.frozen.unpack_str(x),
            None => match self.get(v) {
                Some(ValueMem::Str(s)) => Some(s.as_str()),
                Some(ValueMem::Forward(x)) => self.frozen.unpack_str(*x),
                _ => None,
            },
        }
    }

    /// Puts an entry on the frozen heap underneath and hands out the
    /// pointer to it.
    pub fn frozen_alloc(&mut self, mem: FrozenValueMem) -> (r: FrozenValue)
        requires
            old(self).frozen().can_alloc(1),
        ensures
            final(self).entries() == old(self).entries(),
            final(self).frozen().entries() == old(self).frozen().entries().push(mem),
            r@ == PointerUnpack::Frozen(old(self).frozen().entries().len() as u64),
    {
        self.frozen.alloc_raw(mem)
    }

    /// Fills an entry of the frozen heap underneath that was reserved.
    pub fn frozen_fill(&mut self, at: usize, mem: FrozenValueMem)
        requires
            at < old(self).frozen().entries().len(),
            old(self).frozen().entries()[at as int] is Blackhole,
        ensures
            final(self).entries() == old(self).entries(),
            final(self).frozen().entries() == old(self).frozen().entries().update(at as int, mem),
    {
        self.frozen.fill(at, mem);
    }

    /// Puts `entries` in the place of the entries of the heap, and the
    /// entries of the heap in the place of `entries`.
    pub fn swap_entries(&mut self, entries: &mut Vec<ValueMem>)
        ensures
            final(self).entries() == old(entries)@,
            final(entries)@ == old(self).entries(),
            final(self).frozen() == old(self).frozen(),
    {
        core::mem::swap(&mut self.entries, entries);
    }

    /// Puts `mem` in the place of entry `at`, and hands out what was there.
    pub fn replace_entry(&mut self, at: usize, mem: ValueMem) -> (r: ValueMem)
        requires
            at < old(self).entries().len(),
        ensures
            r == old(self).entries()[at as int],
            final(self).entries() == old(self).entries().update(at as int, mem),
            final(self).frozen() == old(self).frozen(),
    {
        self.entries.push(mem);
        let r = self.entries.swap_remove(at);
        assert(self.entries@ =~= old(self).entries@.update(at as int, mem));
        r
    }

    /// No reference cell holds a pointer to a reference cell.
    pub open spec fn refs_are_flat(&self) -> bool {
        forall|j: int|
            0 <= j < self.entries().len() ==> ((#[trigger] self.entries()[j]) matches ValueMem::Ref(
                inner,
            ) ==> !inner.is_ref())
    }

    /// The value that a reference cell holds, if `v` points to one.
    pub open spec fn ref_content(&self, v: Value) -> Option<Value> {
        if v.is_ref() {
            match self.target(v@) {
                Some(ValueMem::Ref(inner)) => Some(inner),
                _ => None,
            }
        } else {
            None
        }
    }

    /// The value that a reference cell holds, if `v` points to one.
    pub fn read_ref(&self, v: Value) -> (r: Option<Value>)
        ensures
            r == self.ref_content(v),
    {
        if v.get_user_tag() {
            match self.get(v) {
                Some(ValueMem::Ref(inner)) => Some(*inner),
                _ => None,
            }
        } else {
            None
        }
    }

    /// Writes `value` into the reference cell that `v` points to. Where `v`
    /// points to none, nothing changes and the result is `false`.
    pub fn write_ref(&mut self, v: Value, value: Value) -> (r: bool)
        ensures
            r == old(self).ref_content(v).is_some(),
            final(self).frozen() == old(self).frozen(),
            r ==> final(self).entries() == old(self).entries().update(
                v@->Mutable_0 as int,
                ValueMem::Ref(value),
            ),
            !r ==> final(self).entries() == old(self).entries(),
            old(self).refs_are_flat() && !value.is_ref() ==> final(self).refs_are_flat(),
    {
        if self.read_ref(v).is_some() {
            match v.unpack() {
                PointerUnpack::Mutable(i) => {
                    if i < self.entries.len() as u64 {
                        let at = i as usize;
                        self.entries[at] = ValueMem::Ref(value);
                        true
                    } else {
                        false
                    }
                },
                _ => false,
            }
        } else {
            false
        }
    }
}

/// A slot of a frame. It holds a value, or the mark "not assigned". Where
/// an inner function has captured the slot, it holds a pointer to a
/// reference cell instead, and the value is the one in that cell: every
/// frame that shares the cell sees each change.
#[derive(Debug, Clone, Copy)]
pub struct ValueRef {
    value: Value,
}

impl ValueRef {
    /// What the slot itself holds.
    pub closed spec fn raw(&self) -> Value {
        self.value
    }

    /// The value of the slot, which may be the mark "not assigned": what a
    /// reference cell holds where the slot points to one, else what the
    /// slot itself holds.
    pub open spec fn content(&self, heap: &Heap) -> Value {
        match heap.ref_content(self.raw()) {
            Some(inner) => inner,
            None => self.raw(),
        }
    }

    /// A slot that was never assigned.
    pub fn new_unassigned() -> (r: Self)
        ensures
            r.raw()@ is Unassigned,
            r.raw() == Value::of_word(WORD_UNASSIGNED),
            !r.raw().is_ref(),
    {
        ValueRef { value: Value::new_unassigned() }
    }

    /// A slot that holds a frozen value.
    pub fn new_frozen(x: FrozenValue) -> (r: Self)
        ensures
            r.raw() == Value::of_frozen(x),
            !r.raw().is_ref(),
    {
        ValueRef { value: Value::new_frozen(x) }
    }

    /// Assigns the slot: through the reference cell where the slot points
    /// to one.
    pub fn set(&mut self, heap: &mut Heap, value: Value)
        requires
            !(value@ is Unassigned),
        ensures
            final(heap).frozen() == old(heap).frozen(),
            old(heap).refs_are_flat() && !value.is_ref() ==> final(heap).refs_are_flat(),
            match old(heap).ref_content(old(self).raw()) {
                Some(_) => final(self).raw() == old(self).raw() && final(heap).entries()
                    == old(heap).entries().update(
                    old(self).raw()@->Mutable_0 as int,
                    ValueMem::Ref(value),
                ),
                None => final(self).raw() == value && final(heap).entries() == old(heap).entries(),
            },
    {
        if !heap.write_ref(self.value, value) {
            self.value = value;
        }
    }

    /// Assigns a slot that points to no reference cell.
    pub fn set_direct(&mut self, value: Value)
        requires
            !old(self).raw().is_ref(),
            !(value@ is Unassigned),
        ensures
            final(self).raw() == value,
    {
        self.value = value;
    }

    /// Whether the slot was never assigned.
    pub fn is_unassigned(&self, heap: &Heap) -> (r: bool)
        ensures
            r == (self.content(heap)@ is Unassigned),
    {
        self.get(heap).is_none()
    }

    /// Whether a slot that points to no reference cell was never assigned.
    pub fn is_unassigned_direct(&self) -> (r: bool)
        ensures
            r == (self.raw()@ is Unassigned),
    {
        self.value.is_unassigned()
    }

    /// The value of the slot, if it was assigned.
    pub fn get(&self, heap: &Heap) -> (r: Option<Value>)
        ensures
            r == if self.content(heap)@ is Unassigned {
                None
            } else {
                Some(self.content(heap))
            },
    {
        let v = match heap.read_ref(self.value) {
            Some(inner) => inner,
            None => self.value,
        };
        if v.is_unassigned() {
            None
        } else {
            Some(v)
        }
    }

    /// The value of the slot. To read a slot that was never assigned is an
    /// error.
    pub fn read(&self, heap: &Heap) -> (r: Result<Value, crate::values::error::ValueError>)
        ensures
            r == if self.content(heap)@ is Unassigned {
                Err::<Value, crate::values::error::ValueError>(
                    crate::values::error::ValueError::UnboundVariable,
                )
            } else {
                Ok::<Value, crate::values::error::ValueError>(self.content(heap))
            },
    {
        match self.get(heap) {
            Some(v) => Ok(v),
            None => Err(crate::values::error::ValueError::UnboundVariable),
        }
    }

    /// What the slot itself holds.
    pub fn get_raw(&self) -> (r: Value)
        ensures
            r == self.raw(),
    {
        self.value
    }

    /// A second slot that shares the value of this one, now and after
    /// every change to either. Where this slot points to no reference cell
    /// yet, one is made that holds its value, and the slot points to it
    /// from now on.
    pub fn clone_reference(&mut self, heap: &mut Heap) -> (r: ValueRef)
        requires
            old(heap).can_alloc(1),
        ensures
            r.raw() == final(self).raw(),
            final(heap).frozen() == old(heap).frozen(),
            old(heap).refs_are_flat() ==> final(heap).refs_are_flat(),
            old(self).raw().is_ref() ==> final(self).raw() == old(self).raw()
                && final(heap).entries() == old(heap).entries(),
            !old(self).raw().is_ref() ==> final(self).raw().is_ref() && final(self).raw()@
                == PointerUnpack::Mutable(old(heap).entries().len() as u64) && final(heap).entries()
                == old(heap).entries().push(ValueMem::Ref(old(self).raw())),
    {
        let v = self.value;
        if v.get_user_tag() {
            ValueRef { value: v }
        } else {
            let reffed = heap.alloc_ref(v);
            self.value = reffed;
            ValueRef { value: reffed }
        }
    }
}

} // verus!
