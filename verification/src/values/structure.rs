//! What a value is made of, whichever heap its parts live on: the measure
//! by which a frozen copy is the same as what it was made from.

use vstd::prelude::*;
use crate::values::freeze::Label;
use crate::values::layout::access::ARef;
use crate::values::layout::heap::{FrozenValueMem, Heap, Thawable, ValueMem};
use crate::values::layout::pointer::PointerUnpack;
use crate::values::layout::value::{FrozenValue, Value};

verus! {

/// A value without its place on a heap.
pub enum Tree {
    NoneValue,
    Bool(bool),
    Int(i32),
    Str(Seq<char>),
    Node(Label, Seq<Tree>),
}

/// What the value `v` is made of, following containers `fuel` deep. Nothing
/// where that is not deep enough (as it never is for a value that holds
/// itself), and nothing for what is no value.
pub open spec fn structure(heap: &Heap, v: Value, fuel: nat) -> Option<Tree>
    decreases fuel, 0nat,
{
    match heap.aref(v@) {
        None => None,
        Some(ARef::NoneValue) => Some(Tree::NoneValue),
        Some(ARef::Bool(b)) => Some(Tree::Bool(b)),
        Some(ARef::Int(i)) => Some(Tree::Int(i)),
        Some(ARef::Str(s)) => Some(Tree::Str(s@)),
        Some(ARef::Frozen(obj)) => if fuel == 0 {
            None
        } else {
            match frozen_structures(heap, obj.children(), (fuel - 1) as nat) {
                Some(parts) => Some(Tree::Node(obj.label(), parts)),
                None => None,
            }
        },
        Some(ARef::Live(obj)) => if fuel == 0 {
            None
        } else {
            match structures(heap, obj.children(), (fuel - 1) as nat) {
                Some(parts) => Some(Tree::Node(obj.label(), parts)),
                None => None,
            }
        },
    }
}

/// What each of `kids` is made of.
pub open spec fn structures(heap: &Heap, kids: Seq<Value>, fuel: nat) -> Option<Seq<Tree>>
    decreases fuel, kids.len() + 1,
{
    if kids.len() == 0 {
        Some(Seq::empty())
    } else {
        match (structures(heap, kids.drop_last(), fuel), structure(heap, kids.last(), fuel)) {
            (Some(parts), Some(part)) => Some(parts.push(part)),
            _ => None,
        }
    }
}

/// What each of the values of a frozen container is made of. A pointer into
/// a mutable heap has no place in such a container, and is made of
/// nothing.
pub open spec fn frozen_structures(heap: &Heap, kids: Seq<Value>, fuel: nat) -> Option<Seq<Tree>>
    decreases fuel, kids.len() + 1,
{
    if kids.len() == 0 {
        Some(Seq::empty())
    } else {
        match (
            frozen_structures(heap, kids.drop_last(), fuel),
            if kids.last()@ is Mutable {
                None
            } else {
                structure(heap, kids.last(), fuel)
            },
        ) {
            (Some(parts), Some(part)) => Some(parts.push(part)),
            _ => None,
        }
    }
}

/// Values of which none points into a mutable heap are made of the same,
/// whether they are read as the values of a frozen container or not.
pub proof fn lemma_frozen_structures(heap: &Heap, kids: Seq<Value>, fuel: nat)
    requires
        forall|i: int| 0 <= i < kids.len() ==> !((#[trigger] kids[i])@ is Mutable),
    ensures
        frozen_structures(heap, kids, fuel) == structures(heap, kids, fuel),
    decreases kids.len(),
{
    if kids.len() > 0 {
        assert forall|i: int| 0 <= i < kids.drop_last().len() implies !((
        #[trigger] kids.drop_last()[i])@ is Mutable) by {
            assert(!(kids[i]@ is Mutable));
        }
        lemma_frozen_structures(heap, kids.drop_last(), fuel);
        assert(!(kids[kids.len() - 1]@ is Mutable));
    }
}

/// Where the values of a frozen container can be read, none of them points
/// into a mutable heap.
pub proof fn lemma_frozen_structures_pure(heap: &Heap, kids: Seq<Value>, fuel: nat)
    requires
        frozen_structures(heap, kids, fuel) is Some,
    ensures
        forall|i: int| 0 <= i < kids.len() ==> !((#[trigger] kids[i])@ is Mutable),
        frozen_structures(heap, kids, fuel) == structures(heap, kids, fuel),
    decreases kids.len(),
{
    if kids.len() > 0 {
        lemma_frozen_structures_pure(heap, kids.drop_last(), fuel);
        assert forall|i: int| 0 <= i < kids.len() implies !((#[trigger] kids[i])@ is Mutable) by {
            if i < kids.len() - 1 {
                assert(kids.drop_last()[i] == kids[i]);
            }
        }
    }
}

/// Two values that read the same are made of the same.
pub proof fn lemma_same_reading(heap: &Heap, a: Value, b: Value, fuel: nat)
    requires
        heap.aref(a@) == heap.aref(b@),
    ensures
        structure(heap, a, fuel) == structure(heap, b, fuel),
{
}

/// A value that stands for another reads the same.
pub proof fn lemma_stands_for_reads(heap: &Heap, c: Value, x: Value)
    requires
        heap.stands_for(c, x),
    ensures
        heap.aref(c@) == heap.aref(x@),
{
    if c@ is Mutable {
        let fx = heap.target(c@)->0->Forward_0;
        Value::lemma_of_word(fx.word());
        assert(x@ == fx@);
    }
}

/// An entry of the frozen heap that a value reads stays as it is.
proof fn lemma_frozen_reading(after: &Heap, before: &Heap, p: PointerUnpack)
    requires
        after.extends(before),
        before.frozen().aref(p) is Some,
    ensures
        after.frozen().aref(p) == before.frozen().aref(p),
{
    if p is Frozen {
        let k = p->Frozen_0 as int;
        assert(!(before.frozen().entries()[k] is Blackhole));
    }
}

/// Freezing changes nothing of what a value is made of: whatever could be
/// read `fuel` deep before, reads the same after.
pub proof fn lemma_structure_kept(after: &Heap, before: &Heap, u: Value, fuel: nat)
    requires
        after.simulates(before, -1),
        after.extends(before),
        structure(before, u, fuel) is Some,
    ensures
        structure(after, u, fuel) == structure(before, u, fuel),
    decreases fuel, 2nat, 0nat,
{
    let a = before.aref(u@);
    if !(u@ is Mutable) {
        lemma_frozen_reading(after, before, u@);
        match a {
            Some(ARef::Frozen(obj)) => {
                lemma_frozen_kept(after, before, obj.children(), (fuel - 1) as nat);
            },
            _ => {},
        }
    } else {
        let j = u@->Mutable_0 as int;
        let e = before.entries()[j];
        let e2 = after.entries()[j];
        assert(after.entry_kept_or_frozen(before, j));
        if e2 == e {
            match e {
                ValueMem::Forward(x) => {
                    lemma_frozen_reading(after, before, x@);
                    match a {
                        Some(ARef::Frozen(obj)) => {
                            lemma_frozen_kept(after, before, obj.children(), (fuel - 1) as nat);
                        },
                        _ => {},
                    }
                },
                ValueMem::Simple(obj) => {
                    lemma_frozen_kept(after, before, obj.children(), (fuel - 1) as nat);
                },
                ValueMem::Immutable(obj) => {
                    lemma_structures_kept(after, before, obj.children(), (fuel - 1) as nat);
                },
                ValueMem::Mutable(cell) => {
                    lemma_structures_kept(after, before, cell.object.children(), (fuel - 1) as nat);
                },
                ValueMem::ThawOnWrite(cell) => match cell.state {
                    Thawable::Frozen(y) => {
                        lemma_frozen_reading(after, before, y@);
                        match a {
                            Some(ARef::Frozen(obj)) => {
                                lemma_frozen_kept(after, before, obj.children(), (fuel - 1) as nat);
                            },
                            _ => {},
                        }
                    },
                    Thawable::Thawed(w) => {
                        lemma_thawed_kept(after, before, u, w, fuel);
                    },
                },
                _ => {},
            }
        } else {
            let x = e2->Forward_0;
            match e {
                ValueMem::Simple(obj) => {
                    lemma_frozen_kept(after, before, obj.children(), (fuel - 1) as nat);
                },
                ValueMem::Immutable(obj) => {
                    lemma_copy_kept(after, before, obj, x, fuel);
                },
                ValueMem::Mutable(cell) => {
                    lemma_copy_kept(after, before, cell.object, x, fuel);
                },
                ValueMem::ThawOnWrite(cell) => match cell.state {
                    Thawable::Frozen(y) => {
                        lemma_frozen_reading(after, before, y@);
                        match a {
                            Some(ARef::Frozen(obj)) => {
                                lemma_frozen_kept(after, before, obj.children(), (fuel - 1) as nat);
                            },
                            _ => {},
                        }
                    },
                    Thawable::Thawed(w) => {
                        let fx = after.target(w@)->0->Forward_0;
                        Value::lemma_of_word(fx.word());
                        Value::lemma_of_word(x.word());
                        FrozenValue::lemma_same_word(fx, x);
                        lemma_thawed_kept(after, before, u, w, fuel);
                    },
                },
                _ => {},
            }
        }
    }
}

/// What a thawed copy is made of is kept.
proof fn lemma_thawed_kept(after: &Heap, before: &Heap, u: Value, w: Value, fuel: nat)
    requires
        after.simulates(before, -1),
        after.extends(before),
        structure(before, u, fuel) is Some,
        u@ is Mutable,
        before.target(u@) matches Some(ValueMem::ThawOnWrite(cell)) && cell.state
            == Thawable::Thawed(w),
        after.aref(u@) == (match after.target(w@) {
            Some(ValueMem::Mutable(inner)) => Some(ARef::Live(&inner.object)),
            Some(ValueMem::Forward(x)) => after.frozen().aref(x@),
            _ => None,
        }),
    ensures
        structure(after, u, fuel) == structure(before, u, fuel),
    decreases fuel, 1nat, 0nat,
{
    let jw = w@->Mutable_0 as int;
    assert(before.target(w@) is Some);
    assert(after.entry_kept_or_frozen(before, jw));
    let ew = before.entries()[jw];
    match ew {
        ValueMem::Mutable(inner) => {
            if after.entries()[jw] == ew {
                lemma_structures_kept(after, before, inner.object.children(), (fuel - 1) as nat);
            } else {
                let x = after.entries()[jw]->Forward_0;
                lemma_copy_kept(after, before, inner.object, x, fuel);
            }
        },
        ValueMem::Forward(x) => {
            lemma_frozen_reading(after, before, x@);
            match before.aref(u@) {
                Some(ARef::Frozen(obj)) => {
                    lemma_frozen_kept(after, before, obj.children(), (fuel - 1) as nat);
                },
                _ => {},
            }
        },
        _ => {},
    }
}

/// A copy is made of what the container it was copied from was made of.
proof fn lemma_copy_kept(
    after: &Heap,
    before: &Heap,
    obj: crate::values::types::containers::Object,
    x: FrozenValue,
    fuel: nat,
)
    requires
        after.simulates(before, -1),
        after.extends(before),
        after.is_copy(obj, x),
        fuel > 0,
        structures(before, obj.children(), (fuel - 1) as nat) is Some,
    ensures
        after.frozen().target(x@) matches Some(FrozenValueMem::Simple(copy)) && copy.label()
            == obj.label() && frozen_structures(after, copy.children(), (fuel - 1) as nat)
            == structures(before, obj.children(), (fuel - 1) as nat),
    decreases fuel, 0nat, 0nat,
{
    let copy = after.frozen().target(x@)->0->Simple_0;
    lemma_children_kept(after, before, obj.children(), copy.children(), (fuel - 1) as nat);
    assert forall|i: int| 0 <= i < copy.children().len() implies !((
    #[trigger] copy.children()[i])@ is Mutable) by {
        assert(after.stands_for(obj.children()[i], copy.children()[i]));
        if obj.children()[i]@ is Mutable {
            let fx = after.target(obj.children()[i]@)->0->Forward_0;
            Value::lemma_of_word(fx.word());
        }
    }
    lemma_frozen_structures(after, copy.children(), (fuel - 1) as nat);
}

/// Values that stand, one for one, for values of before are made of what
/// those were made of.
proof fn lemma_children_kept(
    after: &Heap,
    before: &Heap,
    kids: Seq<Value>,
    copies: Seq<Value>,
    fuel: nat,
)
    requires
        after.simulates(before, -1),
        after.extends(before),
        kids.len() == copies.len(),
        forall|i: int| 0 <= i < kids.len() ==> after.stands_for(#[trigger] kids[i], copies[i]),
        structures(before, kids, fuel) is Some,
    ensures
        structures(after, copies, fuel) == structures(before, kids, fuel),
    decreases fuel, 3nat, kids.len(),
{
    if kids.len() > 0 {
        assert forall|i: int| 0 <= i < kids.drop_last().len() implies after.stands_for(
            #[trigger] kids.drop_last()[i],
            copies.drop_last()[i],
        ) by {
            assert(after.stands_for(kids[i], copies[i]));
        }
        lemma_children_kept(after, before, kids.drop_last(), copies.drop_last(), fuel);
        assert(after.stands_for(kids[kids.len() - 1], copies[kids.len() - 1]));
        lemma_stands_for_reads(after, kids.last(), copies.last());
        lemma_same_reading(after, kids.last(), copies.last(), fuel);
        lemma_structure_kept(after, before, kids.last(), fuel);
    }
}

/// What each of `kids` is made of is kept.
pub proof fn lemma_structures_kept(after: &Heap, before: &Heap, kids: Seq<Value>, fuel: nat)
    requires
        after.simulates(before, -1),
        after.extends(before),
        structures(before, kids, fuel) is Some,
    ensures
        structures(after, kids, fuel) == structures(before, kids, fuel),
    decreases fuel, 3nat, kids.len(),
{
    if kids.len() > 0 {
        lemma_structures_kept(after, before, kids.drop_last(), fuel);
        lemma_structure_kept(after, before, kids.last(), fuel);
    }
}

/// What the values of a frozen container are made of is kept.
pub proof fn lemma_frozen_kept(after: &Heap, before: &Heap, kids: Seq<Value>, fuel: nat)
    requires
        after.simulates(before, -1),
        after.extends(before),
        frozen_structures(before, kids, fuel) is Some,
    ensures
        frozen_structures(after, kids, fuel) == frozen_structures(before, kids, fuel),
    decreases fuel, 4nat, 0nat,
{
    lemma_frozen_structures_pure(before, kids, fuel);
    lemma_structures_kept(after, before, kids, fuel);
    lemma_frozen_structures(after, kids, fuel);
}

/// Freezing a value that holds itself nowhere gives a frozen value that is
/// made of the same: where `v` could be read `fuel` deep on the heap
/// before, the value that [`Heap::freeze`] has handed out for it reads the
/// same on the heap after.
pub proof fn law_frozen_reads_as_before(
    after: &Heap,
    before: &Heap,
    v: Value,
    x: FrozenValue,
    fuel: nat,
)
    requires
        after.frozen_further(before),
        after.simulates(before, -1),
        after.stands_for(v, Value::of_frozen(x)),
        structure(before, v, fuel) is Some,
    ensures
        structure(after, Value::of_frozen(x), fuel) == structure(before, v, fuel),
{
    after.lemma_further_extends(before, 0, -1);
    lemma_structure_kept(after, before, v, fuel);
    lemma_stands_for_reads(after, v, Value::of_frozen(x));
    lemma_same_reading(after, v, Value::of_frozen(x), fuel);
}

/// A container that lived in a cell of the mutable heap, once frozen, is a
/// container of the frozen heap of the same kind and holds as many values:
/// in each place the value that stands for the one that was there, none of
/// which points into a mutable heap.
pub proof fn law_frozen_container_is_a_copy(
    after: &Heap,
    before: &Heap,
    v: Value,
    x: FrozenValue,
    cell: crate::values::layout::heap::MutableCell,
)
    requires
        after.simulates(before, -1),
        before.target(v@) == Some(ValueMem::Mutable(cell)),
        after.stands_for(v, Value::of_frozen(x)),
    ensures
        after.is_copy(cell.object, x),
        after.frozen().target(x@) matches Some(FrozenValueMem::Simple(copy)) && forall|i: int|
            0 <= i < copy.children().len() ==> !((#[trigger] copy.children()[i])@ is Mutable),
{
    let j = v@->Mutable_0 as int;
    assert(after.entry_kept_or_frozen(before, j));
    let fx = after.entries()[j]->Forward_0;
    Value::lemma_of_word(fx.word());
    Value::lemma_of_word(x.word());
    FrozenValue::lemma_same_word(fx, x);
    let copy = after.frozen().target(x@)->Some_0->Simple_0;
    assert forall|i: int| 0 <= i < copy.children().len() implies !((
    #[trigger] copy.children()[i])@ is Mutable) by {
        let c = cell.object.children()[i];
        assert(after.stands_for(c, copy.children()[i]));
        if c@ is Mutable {
            let fc = after.target(c@)->Some_0->Forward_0;
            Value::lemma_of_word(fc.word());
        }
    }
}

/// The value can be read to the end: it is made of finitely many parts,
/// none of which is missing. A value that holds itself cannot.
pub open spec fn readable(heap: &Heap, v: Value) -> bool {
    exists|fuel: nat| structure(heap, v, fuel) is Some
}

/// Reading the pointer `u` looks at the entry `at`: `u` points to it, or
/// to a cell that has thawed into it.
pub open spec fn reads_entry(heap: &Heap, u: PointerUnpack, at: int) -> bool {
    (u matches PointerUnpack::Mutable(j) && j == at) || (heap.target(u) matches Some(
        ValueMem::ThawOnWrite(cell),
    ) && (cell.state matches Thawable::Thawed(w) && (w@ matches PointerUnpack::Mutable(j) && j
        == at)))
}

/// Where a value can be read at all, there is a least depth at which it
/// can.
pub proof fn lemma_least_fuel(heap: &Heap, p: Value, fuel: nat)
    requires
        structure(heap, p, fuel) is Some,
    ensures
        exists|g: nat|
            structure(heap, p, g) is Some && forall|h: nat|
                h < g ==> (#[trigger] structure(heap, p, h)) is None,
    decreases fuel,
{
    if exists|h: nat| h < fuel && structure(heap, p, h) is Some {
        let h = choose|h: nat| h < fuel && structure(heap, p, h) is Some;
        lemma_least_fuel(heap, p, h);
    } else {
        assert(forall|h: nat| h < fuel ==> (#[trigger] structure(heap, p, h)) is None);
    }
}

/// Where all of a list can be read, each of it can.
pub proof fn lemma_each_structure(heap: &Heap, kids: Seq<Value>, fuel: nat, i: int)
    requires
        structures(heap, kids, fuel) is Some,
        0 <= i < kids.len(),
    ensures
        structure(heap, kids[i], fuel) is Some,
    decreases kids.len(),
{
    if i < kids.len() - 1 {
        lemma_each_structure(heap, kids.drop_last(), fuel, i);
    }
}

/// A value whose reading looks at the entry `at` reads as any pointer to
/// that entry does, where it reads at all.
proof fn lemma_reads_as_pointer(heap: &Heap, at: int, p: Value, u: Value, fuel: nat)
    requires
        0 <= at < heap.entries().len(),
        p@ matches PointerUnpack::Mutable(j) && j == at,
        reads_entry(heap, u@, at),
        structure(heap, u, fuel) is Some,
    ensures
        structure(heap, p, fuel) == structure(heap, u, fuel),
{
    if u@ == p@ {
        lemma_same_reading(heap, p, u, fuel);
    } else {
        assert(heap.aref(u@) == heap.aref(p@));
        lemma_same_reading(heap, p, u, fuel);
    }
}

/// A black hole in the place of the entry `at` is not seen by a value whose
/// reading, as deep as it goes, comes nowhere near that entry.
pub proof fn lemma_holed_structure(
    holed: &Heap,
    before: &Heap,
    at: int,
    p: Value,
    u: Value,
    fuel: nat,
)
    requires
        0 <= at < before.entries().len(),
        holed.entries() == before.entries().update(at, ValueMem::Blackhole),
        holed.frozen() == before.frozen(),
        p@ matches PointerUnpack::Mutable(j) && j == at,
        structure(before, u, fuel) is Some,
        !reads_entry(before, u@, at),
        forall|h: nat| h < fuel ==> (#[trigger] structure(before, p, h)) is None,
    ensures
        structure(holed, u, fuel) == structure(before, u, fuel),
    decreases fuel, 0nat,
{
    assert(holed.aref(u@) == before.aref(u@)) by {
        if u@ is Mutable {
            let j = u@->Mutable_0 as int;
            assert(j != at);
            assert(holed.entries()[j] == before.entries()[j]);
            match before.entries()[j] {
                ValueMem::ThawOnWrite(cell) => match cell.state {
                    Thawable::Thawed(w) => {
                        if w@ is Mutable {
                            let k = w@->Mutable_0 as int;
                            assert(k != at);
                            if k < before.entries().len() {
                                assert(holed.entries()[k] == before.entries()[k]);
                            }
                        }
                    },
                    _ => {},
                },
                _ => {},
            }
        }
    }
    match before.aref(u@) {
        Some(ARef::Frozen(obj)) => {
            lemma_frozen_structures_pure(before, obj.children(), (fuel - 1) as nat);
            lemma_holed_structures(holed, before, at, p, obj.children(), (fuel - 1) as nat);
            lemma_frozen_structures(holed, obj.children(), (fuel - 1) as nat);
        },
        Some(ARef::Live(obj)) => {
            lemma_holed_structures(holed, before, at, p, obj.children(), (fuel - 1) as nat);
        },
        _ => {},
    }
}

/// As [`lemma_holed_structure`], for each of `kids`.
pub proof fn lemma_holed_structures(
    holed: &Heap,
    before: &Heap,
    at: int,
    p: Value,
    kids: Seq<Value>,
    fuel: nat,
)
    requires
        0 <= at < before.entries().len(),
        holed.entries() == before.entries().update(at, ValueMem::Blackhole),
        holed.frozen() == before.frozen(),
        p@ matches PointerUnpack::Mutable(j) && j == at,
        structures(before, kids, fuel) is Some,
        forall|h: nat| h <= fuel ==> (#[trigger] structure(before, p, h)) is None,
    ensures
        structures(holed, kids, fuel) == structures(before, kids, fuel),
    decreases fuel, 1nat, kids.len(),
{
    if kids.len() > 0 {
        lemma_holed_structures(holed, before, at, p, kids.drop_last(), fuel);
        let c = kids.last();
        if reads_entry(before, c@, at) {
            lemma_reads_as_pointer(before, at, p, c, fuel);
            assert(structure(before, p, fuel) is None);
        }
        lemma_holed_structure(holed, before, at, p, c, fuel);
    }
}

/// While a container that can be read is being frozen, with a black hole in
/// its place, each value in it can still be read.
pub proof fn lemma_children_readable(
    holed: &Heap,
    before: &Heap,
    at: int,
    v: Value,
    obj: crate::values::types::containers::Object,
)
    requires
        0 <= at < before.entries().len(),
        holed.entries() == before.entries().update(at, ValueMem::Blackhole),
        holed.frozen() == before.frozen(),
        v@ matches PointerUnpack::Mutable(j) && j == at,
        before.aref(v@) == Some(ARef::Live(&obj)),
        readable(before, v),
    ensures
        forall|i: int| 0 <= i < obj.children().len() ==> readable(holed, #[trigger] obj.children()[i]),
{
    let f = choose|f: nat| structure(before, v, f) is Some;
    lemma_least_fuel(before, v, f);
    let g = choose|g: nat|
        structure(before, v, g) is Some && forall|h: nat|
            h < g ==> (#[trigger] structure(before, v, h)) is None;
    assert(g > 0);
    let kids = obj.children();
    lemma_holed_structures(holed, before, at, v, kids, (g - 1) as nat);
    assert forall|i: int| 0 <= i < kids.len() implies readable(holed, #[trigger] kids[i]) by {
        lemma_each_structure(holed, kids, (g - 1) as nat, i);
    }
}

/// While a cell that has thawed and can be read is being frozen, with a
/// black hole in its place, the copy that it thawed into can still be read.
pub proof fn lemma_thawed_readable(holed: &Heap, before: &Heap, at: int, v: Value, w: Value)
    requires
        0 <= at < before.entries().len(),
        holed.entries() == before.entries().update(at, ValueMem::Blackhole),
        holed.frozen() == before.frozen(),
        v@ matches PointerUnpack::Mutable(j) && j == at,
        before.entries()[at] matches ValueMem::ThawOnWrite(cell) && cell.state == Thawable::Thawed(
            w,
        ),
        readable(before, v),
    ensures
        readable(holed, w),
{
    let f = choose|f: nat| structure(before, v, f) is Some;
    lemma_least_fuel(before, v, f);
    let g = choose|g: nat|
        structure(before, v, g) is Some && forall|h: nat|
            h < g ==> (#[trigger] structure(before, v, h)) is None;
    assert(before.aref(v@) == before.aref(w@));
    lemma_same_reading(before, v, w, g);
    lemma_holed_structure(holed, before, at, v, w, g);
}

/// Two heaps on which every pointer reads the same make every value of the
/// same.
pub proof fn lemma_same_heap_reading(a: &Heap, b: &Heap, u: Value, fuel: nat)
    requires
        forall|p: PointerUnpack| #[trigger] a.aref(p) == b.aref(p),
    ensures
        structure(a, u, fuel) == structure(b, u, fuel),
    decreases fuel, 0nat,
{
    assert(a.aref(u@) == b.aref(u@));
    match a.aref(u@) {
        Some(ARef::Frozen(obj)) => {
            if fuel > 0 {
                lemma_same_heap_frozen(a, b, obj.children(), (fuel - 1) as nat);
            }
        },
        Some(ARef::Live(obj)) => {
            if fuel > 0 {
                lemma_same_heap_readings(a, b, obj.children(), (fuel - 1) as nat);
            }
        },
        _ => {},
    }
}

/// As [`lemma_same_heap_reading`], for each of `kids`.
pub proof fn lemma_same_heap_readings(a: &Heap, b: &Heap, kids: Seq<Value>, fuel: nat)
    requires
        forall|p: PointerUnpack| #[trigger] a.aref(p) == b.aref(p),
    ensures
        structures(a, kids, fuel) == structures(b, kids, fuel),
    decreases fuel, 1nat, kids.len(),
{
    if kids.len() > 0 {
        lemma_same_heap_readings(a, b, kids.drop_last(), fuel);
        lemma_same_heap_reading(a, b, kids.last(), fuel);
    }
}

/// As [`lemma_same_heap_reading`], for the values of a frozen container.
pub proof fn lemma_same_heap_frozen(a: &Heap, b: &Heap, kids: Seq<Value>, fuel: nat)
    requires
        forall|p: PointerUnpack| #[trigger] a.aref(p) == b.aref(p),
    ensures
        frozen_structures(a, kids, fuel) == frozen_structures(b, kids, fuel),
    decreases fuel, 1nat, kids.len(),
{
    if kids.len() > 0 {
        lemma_same_heap_frozen(a, b, kids.drop_last(), fuel);
        lemma_same_heap_reading(a, b, kids.last(), fuel);
    }
}

/// An entry that is reserved on the frozen heap changes what no value
/// reads.
pub proof fn lemma_reserved_reading(after: &Heap, before: &Heap, u: Value)
    requires
        after.entries() == before.entries(),
        after.frozen().entries() == before.frozen().entries().push(FrozenValueMem::Blackhole),
        readable(before, u),
    ensures
        readable(after, u),
{
    assert forall|p: PointerUnpack| #[trigger] after.aref(p) == before.aref(p) by {
        lemma_reserved_aref(after, before, p);
    }
    let f = choose|f: nat| structure(before, u, f) is Some;
    lemma_same_heap_reading(after, before, u, f);
}

/// An entry that is reserved on the frozen heap reads as nothing, as the
/// pointer to it did before.
proof fn lemma_reserved_aref(after: &Heap, before: &Heap, p: PointerUnpack)
    requires
        after.entries() == before.entries(),
        after.frozen().entries() == before.frozen().entries().push(FrozenValueMem::Blackhole),
    ensures
        after.aref(p) == before.aref(p),
{
    assert forall|q: PointerUnpack| #[trigger] after.frozen().aref(q) == before.frozen().aref(
        q,
    ) by {
        if q is Frozen {
            let k = q->Frozen_0 as int;
            if k < before.frozen().entries().len() {
                assert(after.frozen().entries()[k] == before.frozen().entries()[k]);
            }
        }
    }
    match p {
        PointerUnpack::Mutable(j) => {
            match before.target(p) {
                Some(ValueMem::Forward(x)) => {
                    assert(after.frozen().aref(x@) == before.frozen().aref(x@));
                },
                Some(ValueMem::ThawOnWrite(cell)) => match cell.state {
                    Thawable::Frozen(x) => {
                        assert(after.frozen().aref(x@) == before.frozen().aref(x@));
                    },
                    Thawable::Thawed(w) => match before.target(w@) {
                        Some(ValueMem::Forward(x)) => {
                            assert(after.frozen().aref(x@) == before.frozen().aref(x@));
                        },
                        _ => {},
                    },
                },
                _ => {},
            }
        },
        _ => {
            assert(after.frozen().aref(p) == before.frozen().aref(p));
        },
    }
}

/// What can be read before a step of freezing can be read after.
pub proof fn lemma_readable_kept(after: &Heap, before: &Heap, u: Value)
    requires
        after.simulates(before, -1),
        after.extends(before),
        readable(before, u),
    ensures
        readable(after, u),
{
    let f = choose|f: nat| structure(before, u, f) is Some;
    lemma_structure_kept(after, before, u, f);
}

} // verus!
