//! Reading a value: whatever it is and wherever it lives, one look gives
//! what it is.

use vstd::prelude::*;
use crate::collections::hash::Hashed;
use crate::values::layout::heap::{FrozenHeap, FrozenValueMem, Heap, Thawable, ValueMem};
use crate::values::layout::pointer::PointerUnpack;
use crate::values::layout::value::{FrozenValue, Value, ValueLike};
use crate::values::types::containers::{FrozenList, FrozenObject, ListGen, Object, ObjectGen};

verus! {

/// What a value is, for reading.
#[derive(Debug, Clone, Copy)]
pub enum ARef<'a> {
    /// The value none.
    NoneValue,
    /// A boolean.
    Bool(bool),
    /// An integer.
    Int(i32),
    /// A string.
    Str(&'a String),
    /// A container of frozen values.
    Frozen(&'a FrozenObject),
    /// A container of the mutable heap.
    Live(&'a Object),
}

impl FrozenHeap {
    /// What a frozen value is: nothing for the mark "not assigned", for a
    /// pointer that leads nowhere and for an entry that is not filled.
    pub open spec fn aref(&self, v: PointerUnpack) -> Option<ARef<'_>> {
        match v {
            PointerUnpack::NoneValue => Some(ARef::NoneValue),
            PointerUnpack::Bool(b) => Some(ARef::Bool(b)),
            PointerUnpack::Int(i) => Some(ARef::Int(i)),
            PointerUnpack::Frozen(_) => match self.target(v) {
                Some(FrozenValueMem::Str(s)) => Some(ARef::Str(&s)),
                Some(FrozenValueMem::Simple(obj)) => Some(ARef::Frozen(&obj)),
                _ => None,
            },
            _ => None,
        }
    }

    /// What a frozen value is.
    pub fn get_ref(&self, v: FrozenValue) -> (r: Option<ARef<'_>>)
        ensures
            r == self.aref(v@),
    {
        match v.unpack() {
            PointerUnpack::NoneValue => Some(ARef::NoneValue),
            PointerUnpack::Bool(b) => Some(ARef::Bool(b)),
            PointerUnpack::Int(i) => Some(ARef::Int(i)),
            PointerUnpack::Frozen(_) => match self.get(v) {
                Some(FrozenValueMem::Str(s)) => Some(ARef::Str(s)),
                Some(FrozenValueMem::Simple(obj)) => Some(ARef::Frozen(obj)),
                _ => None,
            },
            _ => None,
        }
    }
}

impl Heap {
    /// What a value is, where that can be had without a look into a
    /// container that can change: nothing for such a container, and nothing
    /// where [`Heap::aref`] has nothing.
    pub open spec fn plain_ref(&self, v: PointerUnpack) -> Option<ARef<'_>> {
        match v {
            PointerUnpack::Mutable(_) => match self.target(v) {
                Some(ValueMem::Forward(x)) => self.frozen().aref(x@),
                Some(ValueMem::Str(s)) => Some(ARef::Str(&s)),
                Some(ValueMem::Simple(obj)) => Some(ARef::Frozen(&obj)),
                Some(ValueMem::Immutable(obj)) => Some(ARef::Live(&obj)),
                _ => None,
            },
            _ => self.frozen().aref(v),
        }
    }

    /// What a value is. A container that can change is read as it is now; a
    /// cell that thaws on the first write is read as the frozen container as
    /// long as it was not written to, and as its copy after (or as what the
    /// copy was frozen to). Nothing for the mark "not assigned", for a
    /// pointer that leads nowhere and for an entry that no value stands
    /// for.
    pub open spec fn aref(&self, v: PointerUnpack) -> Option<ARef<'_>> {
        match v {
            PointerUnpack::Mutable(_) => match self.target(v) {
                Some(ValueMem::Mutable(cell)) => Some(ARef::Live(&cell.object)),
                Some(ValueMem::ThawOnWrite(cell)) => match cell.state {
                    Thawable::Frozen(x) => self.frozen().aref(x@),
                    Thawable::Thawed(w) => match self.target(w@) {
                        Some(ValueMem::Mutable(inner)) => Some(ARef::Live(&inner.object)),
                        Some(ValueMem::Forward(x)) => self.frozen().aref(x@),
                        _ => None,
                    },
                },
                _ => self.plain_ref(v),
            },
            _ => self.frozen().aref(v),
        }
    }

    /// What a value is, without a look into a container that can change:
    /// see [`Heap::plain_ref`].
    pub fn get_ref(&self, v: Value) -> (r: Option<ARef<'_>>)
        ensures
            r == self.plain_ref(v@),
    {
        match v.unpack_frozen() {
            Some(x) => self.frozen_heap().get_ref(x),
            None => match self.get(v) {
                Some(ValueMem::Forward(x)) => self.frozen_heap().get_ref(*x),
                Some(ValueMem::Str(s)) => Some(ARef::Str(s)),
                Some(ValueMem::Simple(obj)) => Some(ARef::Frozen(obj)),
                Some(ValueMem::Immutable(obj)) => Some(ARef::Live(obj)),
                _ => None,
            },
        }
    }

    /// What a value is: see [`Heap::aref`].
    pub fn get_aref(&self, v: Value) -> (r: Option<ARef<'_>>)
        ensures
            r == self.aref(v@),
    {
        match v.unpack_frozen() {
            Some(x) => self.frozen_heap().get_ref(x),
            None => match self.get(v) {
                Some(ValueMem::Forward(x)) => self.frozen_heap().get_ref(*x),
                Some(ValueMem::Str(s)) => Some(ARef::Str(s)),
                Some(ValueMem::Simple(obj)) => Some(ARef::Frozen(obj)),
                Some(ValueMem::Immutable(obj)) => Some(ARef::Live(obj)),
                Some(ValueMem::Mutable(cell)) => Some(ARef::Live(&cell.object)),
                Some(ValueMem::ThawOnWrite(cell)) => match cell.state {
                    Thawable::Frozen(x) => self.frozen_heap().get_ref(x),
                    Thawable::Thawed(w) => match self.get(w) {
                        Some(ValueMem::Mutable(inner)) => Some(ARef::Live(&inner.object)),
                        Some(ValueMem::Forward(x)) => self.frozen_heap().get_ref(*x),
                        _ => None,
                    },
                },
                _ => None,
            },
        }
    }
}

/// The values of a list of values of either kind.
pub open spec fn as_values<T: ValueLike>(s: Seq<T>) -> Seq<Value> {
    s.map_values(|x: T| x.spec_to_value())
}

/// Computes [`as_values`].
pub fn to_values<T: ValueLike>(v: &Vec<T>) -> (r: Vec<Value>)
    ensures
        r@ == as_values(v@),
{
    let mut out: Vec<Value> = Vec::with_capacity(v.len());
    let mut i: usize = 0;
    while i < v.len()
        invariant
            i <= v@.len(),
            out@ == as_values(v@).take(i as int),
        decreases v@.len() - i,
    {
        out.push(v[i].to_value());
        assert(out@ =~= as_values(v@).take(i + 1));
        i += 1;
    }
    assert(as_values(v@).take(i as int) =~= as_values(v@));
    out
}

/// The keys of the entries of a dict, as values.
pub open spec fn dict_keys<T: ValueLike>(s: Seq<(Hashed<T>, T)>) -> Seq<Value> {
    s.map_values(|e: (Hashed<T>, T)| e.0.spec_key().spec_to_value())
}

/// The entries of a dict: the hash of each key, the key and the value.
pub open spec fn dict_entries<T: ValueLike>(s: Seq<(Hashed<T>, T)>) -> Seq<(u32, Value, Value)> {
    s.map_values(
        |e: (Hashed<T>, T)| (e.0.spec_hash(), e.0.spec_key().spec_to_value(), e.1.spec_to_value()),
    )
}

impl<T: ValueLike> ObjectGen<T> {
    /// What iterating over the container gives: the elements of a list or a
    /// tuple, the keys of a dict. A struct cannot be iterated over.
    pub open spec fn items(&self) -> Option<Seq<Value>> {
        match self {
            ObjectGen::List(l) => Some(as_values(l.content@)),
            ObjectGen::Tuple(t) => Some(as_values(t.content@)),
            ObjectGen::Dict(d) => Some(dict_keys(d.content@)),
            ObjectGen::Struct(_) => None,
        }
    }

    /// Computes [`ObjectGen::items`].
    pub fn iterate(&self) -> (r: Option<Vec<Value>>)
        ensures
            match r {
                Some(items) => self.items() == Some(items@),
                None => self.items() is None,
            },
    {
        match self {
            ObjectGen::List(l) => Some(to_values(&l.content)),
            ObjectGen::Tuple(t) => Some(to_values(&t.content)),
            ObjectGen::Dict(d) => {
                let mut out: Vec<Value> = Vec::with_capacity(d.content.len());
                let mut i: usize = 0;
                while i < d.content.len()
                    invariant
                        i <= d.content@.len(),
                        out@ == dict_keys(d.content@).take(i as int),
                    decreases d.content@.len() - i,
                {
                    out.push(d.content[i].0.key().to_value());
                    assert(out@ =~= dict_keys(d.content@).take(i + 1));
                    i += 1;
                }
                assert(dict_keys(d.content@).take(i as int) =~= dict_keys(d.content@));
                Some(out)
            },
            ObjectGen::Struct(_) => None,
        }
    }

    /// The entries of the container, if it is a dict.
    pub open spec fn entries(&self) -> Option<Seq<(u32, Value, Value)>> {
        match self {
            ObjectGen::Dict(d) => Some(dict_entries(d.content@)),
            _ => None,
        }
    }

    /// Computes [`ObjectGen::entries`].
    pub fn dict_items(&self) -> (r: Option<Vec<(u32, Value, Value)>>)
        ensures
            match r {
                Some(items) => self.entries() == Some(items@),
                None => self.entries() is None,
            },
    {
        match self {
            ObjectGen::Dict(d) => {
                let mut out: Vec<(u32, Value, Value)> = Vec::with_capacity(d.content.len());
                let mut i: usize = 0;
                while i < d.content.len()
                    invariant
                        i <= d.content@.len(),
                        out@ == dict_entries(d.content@).take(i as int),
                    decreases d.content@.len() - i,
                {
                    let e = &d.content[i];
                    out.push((e.0.hash(), e.0.key().to_value(), e.1.to_value()));
                    assert(out@ =~= dict_entries(d.content@).take(i + 1));
                    i += 1;
                }
                assert(dict_entries(d.content@).take(i as int) =~= dict_entries(d.content@));
                Some(out)
            },
            _ => None,
        }
    }
}

impl Heap {
    /// What iterating over a value gives, if the value can be iterated
    /// over.
    pub open spec fn items_of(&self, v: PointerUnpack) -> Option<Seq<Value>> {
        match self.aref(v) {
            Some(ARef::Frozen(obj)) => obj.items(),
            Some(ARef::Live(obj)) => obj.items(),
            _ => None,
        }
    }

    /// Computes [`Heap::items_of`]. The elements are copied out, so that
    /// what is done with them cannot disturb the container.
    pub fn iterate(&self, v: Value) -> (r: Option<Vec<Value>>)
        ensures
            match r {
                Some(items) => self.items_of(v@) == Some(items@),
                None => self.items_of(v@) is None,
            },
    {
        match self.get_aref(v) {
            Some(ARef::Frozen(obj)) => obj.iterate(),
            Some(ARef::Live(obj)) => obj.iterate(),
            _ => None,
        }
    }

    /// The entries of a value, if the value is a dict.
    pub open spec fn entries_of(&self, v: PointerUnpack) -> Option<Seq<(u32, Value, Value)>> {
        match self.aref(v) {
            Some(ARef::Frozen(obj)) => obj.entries(),
            Some(ARef::Live(obj)) => obj.entries(),
            _ => None,
        }
    }

    /// Computes [`Heap::entries_of`].
    pub fn dict_items(&self, v: Value) -> (r: Option<Vec<(u32, Value, Value)>>)
        ensures
            match r {
                Some(items) => self.entries_of(v@) == Some(items@),
                None => self.entries_of(v@) is None,
            },
    {
        match self.get_aref(v) {
            Some(ARef::Frozen(obj)) => obj.dict_items(),
            Some(ARef::Live(obj)) => obj.dict_items(),
            _ => None,
        }
    }
}

impl Value {
    /// The string that the value is, if it is one: see [`Heap::unpack_str`].
    pub fn unpack_str(self, heap: &Heap) -> (r: Option<&str>)
        ensures
            match r {
                Some(s) => heap.str_of(self@) == Some(s@),
                None => heap.str_of(self@) is None,
            },
    {
        heap.unpack_str(self)
    }

    /// What the value is, without a look into a container that can change:
    /// see [`Heap::plain_ref`].
    pub fn get_ref(self, heap: &Heap) -> (r: Option<ARef<'_>>)
        ensures
            r == heap.plain_ref(self@),
    {
        heap.get_ref(self)
    }

    /// What the value is: see [`Heap::aref`].
    pub fn get_aref(self, heap: &Heap) -> (r: Option<ARef<'_>>)
        ensures
            r == heap.aref(self@),
    {
        heap.get_aref(self)
    }
}

impl FrozenValue {
    /// The string that the value is, if it is one.
    pub fn unpack_str(self, heap: &FrozenHeap) -> (r: Option<&str>)
        ensures
            match r {
                Some(s) => heap.str_of(self@) == Some(s@),
                None => heap.str_of(self@) is None,
            },
    {
        heap.unpack_str(self)
    }

    /// What the value is: see [`FrozenHeap::aref`].
    pub fn get_ref(self, heap: &FrozenHeap) -> (r: Option<ARef<'_>>)
        ensures
            r == heap.aref(self@),
    {
        heap.get_ref(self)
    }
}

impl ListGen<FrozenValue> {
    /// The frozen list that a frozen value is, if it is one.
    pub fn from_frozen_value<'a>(x: &FrozenValue, heap: &'a FrozenHeap) -> (r: Option<
        &'a FrozenList,
    >)
        ensures
            match r {
                Some(l) => heap.aref(x@) == Some(ARef::Frozen(&ObjectGen::List(*l))),
                None => !(heap.aref(x@) matches Some(ARef::Frozen(ObjectGen::List(_)))),
            },
    {
        match heap.get_ref(*x) {
            Some(ARef::Frozen(ObjectGen::List(l))) => Some(l),
            _ => None,
        }
    }
}

} // verus!
