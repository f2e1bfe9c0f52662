//! Changing what is on the mutable heap. A container can be written to if
//! it is one that can change and nobody is reading it; a frozen list or dict
//! that was put on the heap to thaw on the first write is copied at that
//! write, and the copy is written to.

use vstd::prelude::*;
use crate::collections::hash::Hashed;
use crate::values::error::{ControlError, EvalError, ValueError};
use crate::values::layout::access::{as_values, dict_entries, to_values, ARef};
use crate::values::layout::heap::{Heap, MutableCell, Thawable, ThawableCell, ValueMem};
use crate::values::layout::pointer::PointerUnpack;
use crate::values::layout::value::{FrozenValue, Value, ValueLike};
use crate::values::types::containers::{DictGen, FrozenObject, ListGen, Object, ObjectGen};
use crate::values::types::list::{index_in, repeated};

verus! {

/// The thawed copy of a list or a dict holds the same values, now as
/// values that may live on either heap.
pub open spec fn is_thaw_of(copy: Object, frozen: FrozenObject) -> bool {
    match (copy, frozen) {
        (ObjectGen::List(l), ObjectGen::List(f)) => l.content@ == as_values(f.content@),
        (ObjectGen::Dict(d), ObjectGen::Dict(f)) => dict_entries(d.content@) == dict_entries(
            f.content@,
        ),
        _ => false,
    }
}

impl ObjectGen<FrozenValue> {
    /// A copy that can change, of a list or a dict. Nothing else thaws.
    pub fn thaw(&self) -> (r: Option<Object>)
        ensures
            match r {
                Some(copy) => is_thaw_of(copy, *self),
                None => !(self is List) && !(self is Dict),
            },
    {
        match self {
            ObjectGen::List(f) => Some(ObjectGen::List(ListGen { content: to_values(&f.content) })),
            ObjectGen::Dict(f) => {
                let mut content: Vec<(Hashed<Value>, Value)> = Vec::with_capacity(f.content.len());
                let mut i: usize = 0;
                while i < f.content.len()
                    invariant
                        i <= f.content@.len(),
                        dict_entries(content@) == dict_entries(f.content@).take(i as int),
                    decreases f.content@.len() - i,
                {
                    let e = &f.content[i];
                    let ghost before = content@;
                    let item = (Hashed::new_unchecked(e.0.hash(), e.0.key().to_value()), e.1.to_value());
                    content.push(item);
                    proof {
                        assert(dict_entries(content@) =~= dict_entries(before).push(
                            (item.0.spec_hash(), item.0.spec_key(), item.1),
                        ));
                        assert(dict_entries(f.content@).take(i + 1) =~= dict_entries(
                            f.content@,
                        ).take(i as int).push(dict_entries(f.content@)[i as int]));
                    }
                    i += 1;
                }
                assert(dict_entries(f.content@).take(i as int) =~= dict_entries(f.content@));
                Some(ObjectGen::Dict(DictGen { content }))
            },
            _ => None,
        }
    }
}

/// Where a write to a value goes.
pub enum WriteTarget {
    /// To the container in this entry.
    Cell(int),
    /// To a copy, yet to be made, of this frozen list or dict; the entry
    /// `.0` will point to the copy.
    Thaw(int, FrozenObject),
}

/// The entries `after` are the entries `before` once the cell at `at` has
/// thawed: a copy of the frozen container that can change is the new last
/// entry, the cell points to it, and every other entry is as it was.
pub open spec fn thawed_at(
    after: Seq<ValueMem>,
    before: Seq<ValueMem>,
    at: int,
    frozen: FrozenObject,
) -> bool {
    &&& after.len() == before.len() + 1
    &&& forall|j: int| 0 <= j < before.len() && j != at ==> (#[trigger] after[j]) == before[j]
    &&& after[at] matches ValueMem::ThawOnWrite(cell) && cell.readers == 0 && (
    cell.state matches Thawable::Thawed(w) && w@ == PointerUnpack::Mutable(before.len() as u64)
        && !w.is_ref())
    &&& after.last() matches ValueMem::Mutable(cell) && cell.readers == 0 && is_thaw_of(
        cell.object,
        frozen,
    )
}

/// A value that does not point into the mutable heap refuses every write:
/// none, a boolean, an integer and a frozen value cannot change.
pub proof fn law_immutable_value_refuses_writes(heap: &Heap, v: Value)
    requires
        !(v@ is Mutable),
    ensures
        heap.write_target(v@) == Err::<WriteTarget, ControlError>(
            ControlError::CannotMutateImmutableValue,
        ),
{
}

/// A frozen container thaws once: after the first write has made the copy,
/// every later write goes to that copy, and the frozen container stays as
/// it was.
pub proof fn law_thaws_once(after: &Heap, before: &Heap, v: Value, at: int, frozen: FrozenObject)
    requires
        before.write_target(v@) == Ok::<WriteTarget, ControlError>(WriteTarget::Thaw(at, frozen)),
        thawed_at(after.entries(), before.entries(), at, frozen),
        before.entries().len() <= crate::values::layout::pointer::MAX_INDEX,
        after.frozen() == before.frozen(),
    ensures
        after.write_target(v@) == Ok::<WriteTarget, ControlError>(
            WriteTarget::Cell(before.entries().len() as int),
        ),
        after.cell_index(v@) == Some(before.entries().len() as int),
        after.frozen().aref(
            before.target(v@)->Some_0->ThawOnWrite_0.state->Frozen_0@,
        ) == Some(ARef::Frozen(&frozen)),
{
}

impl Heap {
    /// Where a write to the value `v` goes, or why it cannot be written to:
    /// a value that is no container that can change is immutable; a
    /// container that somebody reads cannot change just now.
    pub open spec fn write_target(&self, v: PointerUnpack) -> Result<WriteTarget, ControlError> {
        match self.target(v) {
            Some(ValueMem::Mutable(cell)) => if cell.readers > 0 {
                Err(ControlError::MutationDuringIteration)
            } else {
                Ok(WriteTarget::Cell(v->Mutable_0 as int))
            },
            Some(ValueMem::ThawOnWrite(cell)) => match cell.state {
                Thawable::Thawed(w) => match self.target(w@) {
                    Some(ValueMem::Mutable(inner)) => if inner.readers > 0 {
                        Err(ControlError::MutationDuringIteration)
                    } else {
                        Ok(WriteTarget::Cell(w@->Mutable_0 as int))
                    },
                    _ => Err(ControlError::CannotMutateImmutableValue),
                },
                Thawable::Frozen(x) => if cell.readers > 0 {
                    Err(ControlError::MutationDuringIteration)
                } else {
                    match self.frozen().aref(x@) {
                        Some(ARef::Frozen(obj)) if obj is List || obj is Dict => Ok(
                            WriteTarget::Thaw(v->Mutable_0 as int, *obj),
                        ),
                        _ => Err(ControlError::CannotMutateImmutableValue),
                    }
                },
            },
            _ => Err(ControlError::CannotMutateImmutableValue),
        }
    }

    /// The entry of the container that can change which `v` stands for:
    /// its own, or the one of the copy that was made when it thawed.
    pub open spec fn cell_index(&self, v: PointerUnpack) -> Option<int> {
        match self.target(v) {
            Some(ValueMem::Mutable(_)) => Some(v->Mutable_0 as int),
            Some(ValueMem::ThawOnWrite(cell)) => match cell.state {
                Thawable::Thawed(w) => match self.target(w@) {
                    Some(ValueMem::Mutable(_)) => Some(w@->Mutable_0 as int),
                    _ => None,
                },
                _ => None,
            },
            _ => None,
        }
    }

    /// A value that stands for a container that can change reads as that
    /// container, and goes on to stand for it when the container changes.
    pub proof fn lemma_cell_index(&self, v: PointerUnpack, i: int, after: &Heap, cell: MutableCell)
        requires
            self.cell_index(v) == Some(i),
            after.entries() == self.entries().update(i, ValueMem::Mutable(cell)),
            after.frozen() == self.frozen(),
        ensures
            0 <= i < self.entries().len(),
            self.entries()[i] matches ValueMem::Mutable(c) && self.aref(v) == Some(
                ARef::Live(&c.object),
            ),
            after.cell_index(v) == Some(i),
            after.aref(v) == Some(ARef::Live(&cell.object)),
    {
        match self.target(v) {
            Some(ValueMem::ThawOnWrite(c)) => {
                let w = c.state->Thawed_0;
                assert(after.target(v) == self.target(v));
                assert(after.target(w@) == Some(ValueMem::Mutable(cell)));
            },
            _ => {
                assert(after.target(v) == Some(ValueMem::Mutable(cell)));
            },
        }
    }

    /// The entry of the container that a write to `v` goes to, if `v` can
    /// be written to without a copy being made.
    pub fn get_ref_mut_already(&self, v: Value) -> (r: Option<usize>)
        ensures
            match r {
                Some(i) => self.write_target(v@) == Ok::<WriteTarget, ControlError>(
                    WriteTarget::Cell(i as int),
                ),
                None => !(self.write_target(v@) matches Ok(WriteTarget::Cell(_))),
            },
    {
        match self.get(v) {
            Some(ValueMem::Mutable(cell)) => {
                if cell.readers > 0 {
                    None
                } else {
                    self.index_of_pointer(v)
                }
            },
            Some(ValueMem::ThawOnWrite(cell)) => match cell.state {
                Thawable::Thawed(w) => match self.get(w) {
                    Some(ValueMem::Mutable(inner)) => {
                        if inner.readers > 0 {
                            None
                        } else {
                            self.index_of_pointer(w)
                        }
                    },
                    _ => None,
                },
                Thawable::Frozen(_) => None,
            },
            _ => None,
        }
    }

    /// The number of the entry that a pointer into this heap points to.
    fn index_of_pointer(&self, v: Value) -> (r: Option<usize>)
        ensures
            match r {
                Some(i) => v@ == PointerUnpack::Mutable(i as u64) && i < self.entries().len(),
                None => self.target(v@) is None,
            },
    {
        match v.unpack() {
            PointerUnpack::Mutable(i) => {
                if i < self.len() as u64 {
                    Some(i as usize)
                } else {
                    None
                }
            },
            _ => None,
        }
    }

    /// The entry of the container that a write to `v` goes to. A frozen
    /// list or dict that thaws on the first write is copied now: the copy
    /// is a new entry, which the result names, and the entry of `v` points
    /// to it from now on. Where `v` cannot be written to, nothing changes.
    pub fn get_ref_mut(&mut self, v: Value) -> (r: Result<usize, ControlError>)
        requires
            old(self).write_target(v@) matches Ok(WriteTarget::Thaw(_, _)) ==> old(self).can_alloc(
                1,
            ),
        ensures
            final(self).frozen() == old(self).frozen(),
            match old(self).write_target(v@) {
                Err(e) => r == Err::<usize, ControlError>(e) && final(self).entries() == old(self).entries(),
                Ok(WriteTarget::Cell(i)) => r == Ok::<usize, ControlError>(i as usize) && final(self).entries() == old(self).entries(),
                Ok(WriteTarget::Thaw(at, frozen)) => r == Ok::<usize, ControlError>(
                    old(self).entries().len() as usize,
                ) && thawed_at(final(self).entries(), old(self).entries(), at, frozen),
            },
            r matches Ok(i) ==> i < final(self).entries().len() && (final(self).entries()[i as int] matches ValueMem::Mutable(cell) && cell.readers == 0),
            r matches Ok(i) ==> final(self).cell_index(v@) == Some(i as int),
    {
        if let Some(i) = self.get_ref_mut_already(v) {
            return Ok(i);
        }
        let copy = match self.get(v) {
            Some(ValueMem::Mutable(_)) => {
                return Err(ControlError::MutationDuringIteration);
            },
            Some(ValueMem::ThawOnWrite(cell)) => match cell.state {
                Thawable::Thawed(w) => match self.get(w) {
                    Some(ValueMem::Mutable(_)) => {
                        return Err(ControlError::MutationDuringIteration);
                    },
                    _ => {
                        return Err(ControlError::CannotMutateImmutableValue);
                    },
                },
                Thawable::Frozen(x) => {
                    if cell.readers > 0 {
                        return Err(ControlError::MutationDuringIteration);
                    }
                    match self.frozen_heap().get_ref(x) {
                        Some(ARef::Frozen(obj)) => match obj.thaw() {
                            Some(copy) => copy,
                            None => {
                                return Err(ControlError::CannotMutateImmutableValue);
                            },
                        },
                        _ => {
                            return Err(ControlError::CannotMutateImmutableValue);
                        },
                    }
                },
            },
            _ => {
                return Err(ControlError::CannotMutateImmutableValue);
            },
        };
        let at = self.index_of_pointer(v).unwrap();
        let fresh = self.alloc_complex(copy);
        let index = self.len() - 1;
        self.replace_entry(
            at,
            ValueMem::ThawOnWrite(ThawableCell { state: Thawable::Thawed(fresh), readers: 0 }),
        );
        Ok(index)
    }
}

/// A change to a list.
#[derive(Debug)]
pub enum ListOp {
    /// Append an element.
    Push(Value),
    /// Append elements, first to last.
    Extend(Vec<Value>),
    /// Take every element out.
    Clear,
    /// Put a value in the place that an index of the language names.
    SetAt(i32, Value),
}

impl ListOp {
    /// The elements after the change, or why the change cannot be made.
    pub open spec fn apply(&self, content: Seq<Value>) -> Result<Seq<Value>, ValueError> {
        match self {
            ListOp::Push(x) => Ok(content.push(*x)),
            ListOp::Extend(more) => Ok(content + more@),
            ListOp::Clear => Ok(Seq::empty()),
            ListOp::SetAt(index, x) => match index_in(*index as int, content.len() as int) {
                Some(i) => Ok(content.update(i, *x)),
                None => Err(ValueError::IndexOutOfBound(*index)),
            },
        }
    }

    /// Makes the change.
    fn run(self, list: &mut ListGen<Value>) -> (r: Result<(), ValueError>)
        ensures
            match self.apply(old(list).content@) {
                Ok(after) => r is Ok && final(list).content@ == after,
                Err(e) => r == Err::<(), ValueError>(e) && final(list).content@ == old(list).content@,
            },
    {
        match self {
            ListOp::Push(x) => {
                list.push(x);
                Ok(())
            },
            ListOp::Extend(more) => {
                list.extend(more);
                Ok(())
            },
            ListOp::Clear => {
                list.clear();
                Ok(())
            },
            ListOp::SetAt(index, x) => {
                match crate::values::types::list::convert_index(index, list.content.len()) {
                    Ok(i) => {
                        list.content[i] = x;
                        assert(list.content@ =~= old(list).content@.update(i as int, x));
                        Ok(())
                    },
                    Err(e) => Err(e),
                }
            },
        }
    }
}

impl Heap {
    /// The elements of the list that a value is, if it is one.
    pub open spec fn list_of(&self, v: PointerUnpack) -> Option<Seq<Value>> {
        match self.aref(v) {
            Some(ARef::Live(ObjectGen::List(l))) => Some(l.content@),
            Some(ARef::Frozen(ObjectGen::List(l))) => Some(as_values(l.content@)),
            _ => None,
        }
    }

    /// Changes the list that `v` is. A value that cannot be written to is
    /// left alone, and so is everything else on the heap; a frozen list that
    /// thaws on the first write is copied first. What is written to must be
    /// a list, and the change must be one that its elements allow.
    pub fn write_list(&mut self, v: Value, op: ListOp) -> (r: Result<(), EvalError>)
        requires
            old(self).can_alloc(1),
        ensures
            final(self).frozen() == old(self).frozen(),
            match old(self).write_target(v@) {
                Err(e) => r == Err::<(), EvalError>(EvalError::Control(e)) && final(self).entries()
                    == old(self).entries(),
                Ok(_) => match old(self).list_of(v@) {
                    None => r == Err::<(), EvalError>(
                        EvalError::Value(ValueError::IncorrectParameterType),
                    ),
                    Some(content) => match op.apply(content) {
                        Ok(after) => r is Ok && final(self).list_of(v@) == Some(after),
                        Err(e) => r == Err::<(), EvalError>(EvalError::Value(e)) && final(self).list_of(v@) == Some(content),
                    },
                },
            },
            forall|j: int|
                0 <= j < old(self).entries().len() && !(old(self).write_target(v@) matches Ok(
                    WriteTarget::Cell(c),
                ) && c == j) && !(old(self).write_target(v@) matches Ok(WriteTarget::Thaw(c, _))
                    && c == j) ==> (#[trigger] final(self).entries()[j]) == old(self).entries()[j],
    {
        let at = match self.get_ref_mut(v) {
            Ok(at) => at,
            Err(e) => {
                return Err(EvalError::Control(e));
            },
        };
        let ghost mid = *self;
        let ghost content0 = old(self).list_of(v@);
        proof {
            let c = mid.entries()[at as int]->Mutable_0;
            assert(mid.entries().update(at as int, ValueMem::Mutable(c)) =~= mid.entries());
            mid.lemma_cell_index(v@, at as int, &mid, c);
            assert(mid.list_of(v@) == content0) by {
                match old(self).write_target(v@) {
                    Ok(WriteTarget::Thaw(_, frozen)) => {},
                    _ => {},
                }
            }
        }
        let mem = self.replace_entry(at, ValueMem::Blackhole);
        match mem {
            ValueMem::Mutable(cell) => {
                let MutableCell { object, readers } = cell;
                match object {
                    ObjectGen::List(list) => {
                        let mut list = list;
                        let r = op.run(&mut list);
                        let ghost cell = MutableCell { object: ObjectGen::List(list), readers };
                        self.replace_entry(
                            at,
                            ValueMem::Mutable(
                                MutableCell { object: ObjectGen::List(list), readers },
                            ),
                        );
                        proof {
                            assert(self.entries() =~= mid.entries().update(
                                at as int,
                                ValueMem::Mutable(cell),
                            ));
                            mid.lemma_cell_index(v@, at as int, &*self, cell);
                        }
                        match r {
                            Ok(()) => Ok(()),
                            Err(e) => Err(EvalError::Value(e)),
                        }
                    },
                    other => {
                        self.replace_entry(
                            at,
                            ValueMem::Mutable(MutableCell { object: other, readers }),
                        );
                        assert(self.entries() =~= mid.entries());
                        Err(EvalError::Value(ValueError::IncorrectParameterType))
                    },
                }
            },
            other => {
                self.replace_entry(at, other);
                assert(self.entries() =~= mid.entries());
                Err(EvalError::Value(ValueError::IncorrectParameterType))
            },
        }
    }

    /// Appends an element to the list that `v` is.
    pub fn list_push(&mut self, v: Value, value: Value) -> (r: Result<(), EvalError>)
        requires
            old(self).can_alloc(1),
        ensures
            final(self).frozen() == old(self).frozen(),
            match old(self).write_target(v@) {
                Err(e) => r == Err::<(), EvalError>(EvalError::Control(e)) && final(self).entries()
                    == old(self).entries(),
                Ok(_) => match old(self).list_of(v@) {
                    None => r == Err::<(), EvalError>(
                        EvalError::Value(ValueError::IncorrectParameterType),
                    ),
                    Some(content) => r is Ok && final(self).list_of(v@) == Some(
                        content.push(value),
                    ),
                },
            },
    {
        self.write_list(v, ListOp::Push(value))
    }

    /// Puts `value` in the place of the list `v` that `index` names.
    pub fn set_at(&mut self, v: Value, index: Value, value: Value) -> (r: Result<(), EvalError>)
        requires
            old(self).can_alloc(1),
        ensures
            final(self).frozen() == old(self).frozen(),
            !(index@ is Int) ==> r == Err::<(), EvalError>(
                EvalError::Value(ValueError::IncorrectParameterType),
            ) && final(self).entries() == old(self).entries(),
            index@ matches PointerUnpack::Int(i) ==> match old(self).write_target(v@) {
                Err(e) => r == Err::<(), EvalError>(EvalError::Control(e)) && final(self).entries()
                    == old(self).entries(),
                Ok(_) => match old(self).list_of(v@) {
                    None => r == Err::<(), EvalError>(
                        EvalError::Value(ValueError::IncorrectParameterType),
                    ),
                    Some(content) => match index_in(i as int, content.len() as int) {
                        Some(at) => r is Ok && final(self).list_of(v@) == Some(
                            content.update(at, value),
                        ),
                        None => r == Err::<(), EvalError>(
                            EvalError::Value(ValueError::IndexOutOfBound(i)),
                        ) && final(self).list_of(v@) == Some(content),
                    },
                },
            },
    {
        match index.unpack_int() {
            Some(i) => self.write_list(v, ListOp::SetAt(i, value)),
            None => Err(EvalError::Value(ValueError::IncorrectParameterType)),
        }
    }

    /// The list of the elements of `a` followed by those of `b`, as a new
    /// entry. Both must be lists.
    pub fn list_add(&mut self, a: Value, b: Value) -> (r: Result<Value, ValueError>)
        requires
            old(self).can_alloc(1),
            old(self).list_of(a@) is Some && old(self).list_of(b@) is Some ==> old(self).list_of(
                a@,
            )->0.len() + old(self).list_of(b@)->0.len() <= usize::MAX,
        ensures
            final(self).frozen() == old(self).frozen(),
            match (old(self).list_of(a@), old(self).list_of(b@)) {
                (Some(left), Some(right)) => r matches Ok(v) && v@ == PointerUnpack::Mutable(
                    old(self).entries().len() as u64,
                ) && !v.is_ref() && final(self).entries().len() == old(self).entries().len() + 1
                    && final(self).entries().drop_last() == old(self).entries() && final(self).list_of(v@) == Some(left + right),
                _ => r matches Err(ValueError::OperationNotSupportedBinary { op, left, right })
                    && op@ == "+"@ && left@ == old(self).type_of(a@) && right@ == old(self).type_of(
                    b@,
                ) && final(self).entries() == old(self).entries(),
            },
    {
        let left = match self.get_aref(a) {
            Some(ARef::Live(ObjectGen::List(l))) => Some(l.iter()),
            Some(ARef::Frozen(ObjectGen::List(l))) => Some(l.iter()),
            _ => None,
        };
        let right = match self.get_aref(b) {
            Some(ARef::Live(ObjectGen::List(l))) => Some(l.iter()),
            Some(ARef::Frozen(ObjectGen::List(l))) => Some(l.iter()),
            _ => None,
        };
        match (left, right) {
            (Some(left), Some(right)) => {
                let result = ListGen { content: left };
                let content = result.concat(&right);
                let ghost before = self.entries();
                let v = self.alloc_complex(ObjectGen::List(ListGen { content }));
                assert(self.entries().drop_last() =~= before);
                assert(as_values(left@) =~= left@);
                Ok(v)
            },
            _ => Err(
                ValueError::OperationNotSupportedBinary {
                    op: "+".to_owned(),
                    left: self.get_type(a).to_owned(),
                    right: self.get_type(b).to_owned(),
                },
            ),
        }
    }

    /// The list of the elements of `a`, `n` times in a row, as a new entry.
    /// `a` must be a list and `n` an integer.
    pub fn list_mul(&mut self, a: Value, n: Value) -> (r: Result<Value, ValueError>)
        requires
            old(self).can_alloc(1),
        ensures
            final(self).frozen() == old(self).frozen(),
            match (old(self).list_of(a@), n@) {
                (Some(items), PointerUnpack::Int(times)) => r matches Ok(v) && v@
                    == PointerUnpack::Mutable(old(self).entries().len() as u64) && !v.is_ref()
                    && final(self).entries().len() == old(self).entries().len() + 1 && final(self).entries().drop_last() == old(self).entries() && final(self).list_of(v@) == Some(
                    repeated(items, times as int),
                ),
                _ => r == Err::<Value, ValueError>(ValueError::IncorrectParameterType) && final(self).entries() == old(self).entries(),
            },
    {
        let times = match n.unpack_int() {
            Some(l) => l,
            None => {
                return Err(ValueError::IncorrectParameterType);
            },
        };
        let content = match self.get_aref(a) {
            Some(ARef::Live(ObjectGen::List(l))) => {
                assert(as_values(l.content@) =~= l.content@);
                l.repeat(times)
            },
            Some(ARef::Frozen(ObjectGen::List(l))) => l.repeat(times),
            _ => {
                return Err(ValueError::IncorrectParameterType);
            },
        };
        let ghost before = self.entries();
        let v = self.alloc_complex(ObjectGen::List(ListGen { content }));
        assert(self.entries().drop_last() =~= before);
        Ok(v)
    }

    /// The name of the type of a value in the language.
    pub open spec fn type_of(&self, v: PointerUnpack) -> Seq<char> {
        match self.aref(v) {
            Some(ARef::NoneValue) => "NoneType"@,
            Some(ARef::Bool(_)) => "bool"@,
            Some(ARef::Int(_)) => "int"@,
            Some(ARef::Str(_)) => "string"@,
            Some(ARef::Frozen(ObjectGen::List(_))) => "list"@,
            Some(ARef::Frozen(ObjectGen::Tuple(_))) => "tuple"@,
            Some(ARef::Frozen(ObjectGen::Dict(_))) => "dict"@,
            Some(ARef::Frozen(ObjectGen::Struct(_))) => "struct"@,
            Some(ARef::Live(ObjectGen::List(_))) => "list"@,
            Some(ARef::Live(ObjectGen::Tuple(_))) => "tuple"@,
            Some(ARef::Live(ObjectGen::Dict(_))) => "dict"@,
            Some(ARef::Live(ObjectGen::Struct(_))) => "struct"@,
            None => "unassigned"@,
        }
    }

    /// Computes [`Heap::type_of`].
    pub fn get_type(&self, v: Value) -> (r: &'static str)
        ensures
            r@ == self.type_of(v@),
    {
        match self.get_aref(v) {
            Some(ARef::NoneValue) => "NoneType",
            Some(ARef::Bool(_)) => "bool",
            Some(ARef::Int(_)) => "int",
            Some(ARef::Str(_)) => "string",
            Some(ARef::Frozen(obj)) => obj.get_type(),
            Some(ARef::Live(obj)) => obj.get_type(),
            None => "unassigned",
        }
    }
}

} // verus!
