//! What every value answers, whatever it is: its length, its elements, its
//! fields. A value that has no answer says so with an error.

use vstd::prelude::*;
use crate::collections::entries::value_of;
use crate::collections::small_map::text_key;
use crate::values::display::{repr_of, Shape};
use crate::values::error::{EvalError, ValueError};
use crate::values::layout::access::ARef;
use crate::values::layout::heap::{Heap, MutableCell, Thawable, ThawableCell, ValueMem};
use crate::values::layout::pointer::PointerUnpack;
use crate::values::layout::value::{Value, ValueLike};
use crate::values::mutate::ListOp;
use crate::values::types::containers::ObjectGen;
use crate::values::types::list::index_in;

verus! {

impl<T: ValueLike> ObjectGen<T> {
    /// The field of a struct with the given name, as a value.
    pub open spec fn field(&self, name: Seq<char>) -> Option<Value> {
        match self {
            ObjectGen::Struct(s) => match value_of(s.fields@, text_key(name)) {
                Some(v) => Some(v.spec_to_value()),
                None => None,
            },
            _ => None,
        }
    }

    /// Computes [`ObjectGen::field`].
    pub fn get_field(&self, name: &str) -> (r: Option<Value>)
        ensures
            r == self.field(name@),
    {
        match self {
            ObjectGen::Struct(s) => match s.fields.get(name) {
                Some(v) => Some(v.to_value()),
                None => None,
            },
            _ => None,
        }
    }

    /// The number of elements, entries or fields.
    pub open spec fn size(&self) -> nat {
        match self {
            ObjectGen::List(l) => l.content@.len(),
            ObjectGen::Tuple(t) => t.content@.len(),
            ObjectGen::Dict(d) => d.content@.len(),
            ObjectGen::Struct(s) => s.fields@.len(),
        }
    }

    /// Computes [`ObjectGen::size`].
    pub fn len(&self) -> (r: usize)
        ensures
            r == self.size(),
    {
        match self {
            ObjectGen::List(l) => l.content.len(),
            ObjectGen::Tuple(t) => t.content.len(),
            ObjectGen::Dict(d) => d.content.len(),
            ObjectGen::Struct(s) => s.fields.len(),
        }
    }

    /// The element at an index of the language, of a list or a tuple.
    pub open spec fn element(&self, index: int) -> Option<Value> {
        match self {
            ObjectGen::List(l) => match index_in(index, l.content@.len() as int) {
                Some(i) => Some(l.content@[i].spec_to_value()),
                None => None,
            },
            ObjectGen::Tuple(t) => match index_in(index, t.content@.len() as int) {
                Some(i) => Some(t.content@[i].spec_to_value()),
                None => None,
            },
            _ => None,
        }
    }

    /// Computes [`ObjectGen::element`].
    pub fn get_element(&self, index: i32) -> (r: Option<Value>)
        ensures
            r == self.element(index as int),
    {
        match self {
            ObjectGen::List(l) => match crate::values::types::list::convert_index(
                index,
                l.content.len(),
            ) {
                Ok(i) => Some(l.content[i].to_value()),
                Err(_) => None,
            },
            ObjectGen::Tuple(t) => match crate::values::types::list::convert_index(
                index,
                t.content.len(),
            ) {
                Ok(i) => Some(t.content[i].to_value()),
                Err(_) => None,
            },
            _ => None,
        }
    }
}

impl Heap {
    /// The container that a value is, if it is one: on either heap.
    pub open spec fn size_of(&self, v: PointerUnpack) -> Option<nat> {
        match self.aref(v) {
            Some(ARef::Frozen(obj)) => Some(obj.size()),
            Some(ARef::Live(obj)) => Some(obj.size()),
            _ => None,
        }
    }

    /// The number of elements, entries or fields of a container. Nothing
    /// else has a length.
    pub fn length(&self, v: Value) -> (r: Result<usize, ValueError>)
        ensures
            match r {
                Ok(n) => self.size_of(v@) == Some(n as nat),
                Err(e) => self.size_of(v@) is None && (e matches ValueError::OperationNotSupported {
                    op,
                    typ,
                } && op@ == "len()"@ && typ@ == self.type_of(v@)),
            },
    {
        match self.get_aref(v) {
            Some(ARef::Frozen(obj)) => Ok(obj.len()),
            Some(ARef::Live(obj)) => Ok(obj.len()),
            _ => Err(
                ValueError::OperationNotSupported {
                    op: "len()".to_owned(),
                    typ: self.get_type(v).to_owned(),
                },
            ),
        }
    }

    /// The element of a value at an index of the language.
    pub open spec fn element_of(&self, v: PointerUnpack, index: int) -> Option<Value> {
        match self.aref(v) {
            Some(ARef::Frozen(obj)) => obj.element(index),
            Some(ARef::Live(obj)) => obj.element(index),
            _ => None,
        }
    }

    /// The element of a list or a tuple at `index`, which must be an
    /// integer: a negative one counts from the end.
    pub fn at(&self, v: Value, index: Value) -> (r: Result<Value, ValueError>)
        ensures
            match index@ {
                PointerUnpack::Int(i) => match self.element_of(v@, i as int) {
                    Some(x) => r == Ok::<Value, ValueError>(x),
                    None => if self.items_of(v@) is Some {
                        r == Err::<Value, ValueError>(ValueError::IndexOutOfBound(i))
                    } else {
                        r matches Err(ValueError::OperationNotSupported { op, typ }) && op@ == "[]"@
                            && typ@ == self.type_of(v@)
                    },
                },
                _ => r == Err::<Value, ValueError>(ValueError::IncorrectParameterType),
            },
    {
        let i = match index.unpack_int() {
            Some(i) => i,
            None => {
                return Err(ValueError::IncorrectParameterType);
            },
        };
        let found = match self.get_aref(v) {
            Some(ARef::Frozen(obj)) => obj.get_element(i),
            Some(ARef::Live(obj)) => obj.get_element(i),
            _ => None,
        };
        match found {
            Some(x) => Ok(x),
            None => {
                if self.iterate(v).is_some() {
                    Err(ValueError::IndexOutOfBound(i))
                } else {
                    Err(
                        ValueError::OperationNotSupported {
                            op: "[]".to_owned(),
                            typ: self.get_type(v).to_owned(),
                        },
                    )
                }
            },
        }
    }

    /// The field of a value with the given name.
    pub open spec fn field_of(&self, v: PointerUnpack, name: Seq<char>) -> Option<Value> {
        match self.aref(v) {
            Some(ARef::Frozen(obj)) => obj.field(name),
            Some(ARef::Live(obj)) => obj.field(name),
            _ => None,
        }
    }

    /// How deep a walk over the heap can go before it meets an entry for the
    /// second time: one more than there are entries (as far as that can be
    /// counted).
    pub open spec fn depth(&self) -> nat {
        if self.entries().len() + self.frozen().entries().len() + 1 <= usize::MAX {
            self.entries().len() + self.frozen().entries().len() + 1
        } else {
            usize::MAX as nat
        }
    }

    /// Computes [`Heap::depth`].
    pub fn depth_limit(&self) -> (r: usize)
        ensures
            r == self.depth(),
    {
        let a = self.len();
        let b = self.frozen_heap().len();
        if a < usize::MAX - b {
            a + b + 1
        } else {
            usize::MAX
        }
    }

    /// The field `attribute` of a struct. Where the value has no such
    /// field, the error names the field and shows the value as the language
    /// prints it (or, where it cannot be printed, the name of its type).
    pub fn get_attr(&self, v: Value, attribute: &str) -> (r: Result<Value, ValueError>)
        ensures
            match self.field_of(v@, attribute@) {
                Some(x) => r == Ok::<Value, ValueError>(x),
                None => r matches Err(ValueError::OperationNotSupported { op, typ }) && op@
                    == attribute@ && typ@ == (match repr_of(self, v, self.depth()) {
                    Some(text) => text,
                    None => self.type_of(v@),
                }),
            },
    {
        let found = match self.get_aref(v) {
            Some(ARef::Frozen(obj)) => obj.get_field(attribute),
            Some(ARef::Live(obj)) => obj.get_field(attribute),
            _ => None,
        };
        match found {
            Some(x) => Ok(x),
            None => {
                let fuel = self.depth_limit();
                let typ = match self.to_repr(v, fuel) {
                    Some(text) => text,
                    None => self.get_type(v).to_owned(),
                };
                Err(ValueError::OperationNotSupported { op: attribute.to_owned(), typ })
            },
        }
    }

    /// Whether a value has a field of the given name.
    pub fn has_attr(&self, v: Value, attribute: &str) -> (r: bool)
        ensures
            r == self.field_of(v@, attribute@).is_some(),
    {
        match self.get_aref(v) {
            Some(ARef::Frozen(obj)) => obj.get_field(attribute).is_some(),
            Some(ARef::Live(obj)) => obj.get_field(attribute).is_some(),
            _ => false,
        }
    }

    /// The names of the fields of a struct, in their order; none for any
    /// other value.
    pub fn dir_attr(&self, v: Value) -> (r: Vec<String>)
        ensures
            match self.shape_of(v) {
                Some(Shape::Struct(fields)) => r@.len() == fields.len() && forall|i: int|
                    0 <= i < r@.len() ==> (#[trigger] r@[i])@ == fields[i].0,
                _ => r@.len() == 0,
            },
    {
        match self.get_aref(v) {
            Some(ARef::Frozen(ObjectGen::Struct(s))) => s.dir_attr(),
            Some(ARef::Live(ObjectGen::Struct(s))) => s.dir_attr(),
            _ => Vec::new(),
        }
    }

    /// Whether a value counts as true: none, `False`, zero, the empty
    /// string and the empty container do not.
    pub fn to_bool(&self, v: Value) -> (r: bool)
        ensures
            r == match self.aref(v@) {
                Some(ARef::NoneValue) => false,
                Some(ARef::Bool(b)) => b,
                Some(ARef::Int(i)) => i != 0,
                Some(ARef::Str(s)) => s@.len() > 0,
                Some(ARef::Frozen(obj)) => obj.size() > 0,
                Some(ARef::Live(obj)) => obj.size() > 0,
                None => false,
            },
    {
        match self.get_aref(v) {
            Some(ARef::NoneValue) => false,
            Some(ARef::Bool(b)) => b,
            Some(ARef::Int(i)) => i != 0,
            Some(ARef::Str(s)) => !s.as_str().is_empty(),
            Some(ARef::Frozen(obj)) => obj.len() > 0,
            Some(ARef::Live(obj)) => obj.len() > 0,
            None => false,
        }
    }

    /// Appends the elements of `other`, first to last, to the list that `v`
    /// is.
    pub fn list_extend(&mut self, v: Value, other: Vec<Value>) -> (r: Result<(), EvalError>)
        requires
            old(self).can_alloc(1),
        ensures
            final(self).frozen() == old(self).frozen(),
            match old(self).write_target(v@) {
                Err(e) => r == Err::<(), EvalError>(EvalError::Control(e)) && final(self).entries()
                    == old(self).entries(),
                Ok(_) => match old(self).list_of(v@) {
                    None => r == Err::<(), EvalError>(
                        EvalError::Value(ValueError::IncorrectParameterType),
                    ),
                    Some(content) => r is Ok && final(self).list_of(v@) == Some(content + other@),
                },
            },
    {
        self.write_list(v, ListOp::Extend(other))
    }

    /// Takes every element out of the list that `v` is.
    pub fn list_clear(&mut self, v: Value) -> (r: Result<(), EvalError>)
        requires
            old(self).can_alloc(1),
        ensures
            final(self).frozen() == old(self).frozen(),
            match old(self).write_target(v@) {
                Err(e) => r == Err::<(), EvalError>(EvalError::Control(e)) && final(self).entries()
                    == old(self).entries(),
                Ok(_) => match old(self).list_of(v@) {
                    None => r == Err::<(), EvalError>(
                        EvalError::Value(ValueError::IncorrectParameterType),
                    ),
                    Some(content) => r is Ok && final(self).list_of(v@) == Some(
                        Seq::<Value>::empty(),
                    ),
                },
            },
    {
        self.write_list(v, ListOp::Clear)
    }

    /// The entry with one reader more or less, where it counts readers.
    pub open spec fn with_readers(mem: ValueMem, more: bool) -> ValueMem {
        match mem {
            ValueMem::Mutable(cell) => ValueMem::Mutable(
                MutableCell {
                    object: cell.object,
                    readers: if more {
                        if cell.readers < usize::MAX {
                            (cell.readers + 1) as usize
                        } else {
                            cell.readers
                        }
                    } else if cell.readers > 0 {
                        (cell.readers - 1) as usize
                    } else {
                        cell.readers
                    },
                },
            ),
            ValueMem::ThawOnWrite(cell) => ValueMem::ThawOnWrite(
                ThawableCell {
                    state: cell.state,
                    readers: if more {
                        if cell.readers < usize::MAX {
                            (cell.readers + 1) as usize
                        } else {
                            cell.readers
                        }
                    } else if cell.readers > 0 {
                        (cell.readers - 1) as usize
                    } else {
                        cell.readers
                    },
                },
            ),
            other => other,
        }
    }

    /// The entry whose readers count for a value: its own, or the one of
    /// the copy that was made when it thawed.
    pub open spec fn reader_index(&self, v: PointerUnpack) -> Option<int> {
        match self.target(v) {
            Some(ValueMem::Mutable(_)) => Some(v->Mutable_0 as int),
            Some(ValueMem::ThawOnWrite(cell)) => match cell.state {
                Thawable::Thawed(w) => match self.target(w@) {
                    Some(ValueMem::Mutable(_)) => Some(w@->Mutable_0 as int),
                    _ => None,
                },
                Thawable::Frozen(_) => Some(v->Mutable_0 as int),
            },
            _ => None,
        }
    }

    /// Starts (`more`) or ends a read of a container that can change, as
    /// an iteration does: while there is a reader, the container cannot be
    /// written to. Nothing changes for a value that is no such container.
    pub fn count_reader(&mut self, v: Value, more: bool)
        ensures
            final(self).frozen() == old(self).frozen(),
            match old(self).reader_index(v@) {
                Some(i) => 0 <= i < old(self).entries().len() && final(self).entries() == old(self).entries().update(i, Heap::with_readers(old(self).entries()[i], more)),
                None => final(self).entries() == old(self).entries(),
            },
    {
        let at = match self.get(v) {
            Some(ValueMem::Mutable(_)) => v,
            Some(ValueMem::ThawOnWrite(cell)) => match cell.state {
                Thawable::Thawed(w) => match self.get(w) {
                    Some(ValueMem::Mutable(_)) => w,
                    _ => {
                        return ;
                    },
                },
                Thawable::Frozen(_) => v,
            },
            _ => {
                return ;
            },
        };
        let index = match at.unpack() {
            PointerUnpack::Mutable(i) => {
                if i < self.len() as u64 {
                    i as usize
                } else {
                    return ;
                }
            },
            _ => {
                return ;
            },
        };
        let mem = self.replace_entry(index, ValueMem::Blackhole);
        let ghost before = mem;
        let changed = match mem {
            ValueMem::Mutable(cell) => {
                let MutableCell { object, readers } = cell;
                let readers = if more {
                    if readers < usize::MAX {
                        readers + 1
                    } else {
                        readers
                    }
                } else if readers > 0 {
                    readers - 1
                } else {
                    readers
                };
                ValueMem::Mutable(MutableCell { object, readers })
            },
            ValueMem::ThawOnWrite(cell) => {
                let ThawableCell { state, readers } = cell;
                let readers = if more {
                    if readers < usize::MAX {
                        readers + 1
                    } else {
                        readers
                    }
                } else if readers > 0 {
                    readers - 1
                } else {
                    readers
                };
                ValueMem::ThawOnWrite(ThawableCell { state, readers })
            },
            other => other,
        };
        assert(changed == Heap::with_readers(before, more));
        self.replace_entry(index, changed);
        assert(self.entries() =~= old(self).entries().update(
            index as int,
            Heap::with_readers(old(self).entries()[index as int], more),
        ));
    }
}

} // verus!
