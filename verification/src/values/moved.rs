//! What a collection leaves behind, as a relation between the old run of
//! entries, the marks that the collection has put on it, and the new run.

use vstd::prelude::*;
use crate::values::layout::access::ARef;
use crate::values::layout::heap::{FrozenValueMem, Heap, Thawable, ValueMem};
use crate::values::layout::pointer::PointerUnpack;
use crate::values::layout::value::{FrozenValue, Value};
use crate::values::reach::{held, only_marked, reaches};
use crate::values::structure::{frozen_structures, lemma_same_reading, structure, structures};
use crate::values::types::containers::Object;

verus! {

/// The value `c2` is where the value `c` lives after the collection. A
/// value that points to no entry of the old run is its own; one whose entry
/// is marked as moved points to where that went; one whose entry forwards
/// to the frozen heap is the frozen value.
pub open spec fn moved_to(marks: Seq<ValueMem>, c: Value, c2: Value) -> bool {
    match c@ {
        PointerUnpack::Mutable(j) => if j < marks.len() {
            match marks[j as int] {
                ValueMem::Copied(n) => c2@ == n@ && c2@ is Mutable,
                ValueMem::Forward(x) => c2 == Value::of_frozen(x) && !(c2@ is Mutable),
                _ => false,
            }
        } else {
            c2 == c
        },
        _ => c2 == c,
    }
}

/// The container `b` is the container `a` with each value where it lives
/// after the collection.
pub open spec fn images(marks: Seq<ValueMem>, a: Object, b: Object) -> bool {
    b.label() == a.label() && b.children().len() == a.children().len() && forall|i: int|
        0 <= i < a.children().len() ==> moved_to(marks, #[trigger] a.children()[i], b.children()[i])
}

/// What a cell that thaws holds after the collection: the same frozen
/// value; or the copy where it lives now; or, where the copy was frozen
/// since, the frozen value again.
pub open spec fn state_image(marks: Seq<ValueMem>, a: Thawable, b: Thawable) -> bool {
    match (a, b) {
        (Thawable::Frozen(x), Thawable::Frozen(y)) => x == y,
        (Thawable::Thawed(w), Thawable::Thawed(w2)) => moved_to(marks, w, w2) && (w@ is Mutable
            ==> w2@ is Mutable),
        (Thawable::Thawed(w), Thawable::Frozen(y)) => w@ is Mutable && moved_to(
            marks,
            w,
            Value::of_frozen(y),
        ) && !(y@ is Mutable),
        _ => false,
    }
}

/// The entry `b` of the new run is the entry `a` of the old one, with each
/// value in it where it lives after the collection.
pub open spec fn image_of(marks: Seq<ValueMem>, a: ValueMem, b: ValueMem) -> bool {
    match (a, b) {
        (ValueMem::Str(x), ValueMem::Str(y)) => x == y,
        (ValueMem::Simple(x), ValueMem::Simple(y)) => x == y,
        (ValueMem::Immutable(x), ValueMem::Immutable(y)) => images(marks, x, y),
        (ValueMem::Mutable(x), ValueMem::Mutable(y)) => x.readers == y.readers && images(
            marks,
            x.object,
            y.object,
        ),
        (ValueMem::ThawOnWrite(x), ValueMem::ThawOnWrite(y)) => x.readers == y.readers
            && state_image(marks, x.state, y.state),
        (ValueMem::Ref(x), ValueMem::Ref(y)) => moved_to(marks, x, y),
        (ValueMem::CallEnter(x), ValueMem::CallEnter(y)) => moved_to(marks, x, y),
        (ValueMem::CallExit, ValueMem::CallExit) => true,
        (ValueMem::Blackhole, ValueMem::Blackhole) => true,
        _ => false,
    }
}

/// Every mark points into the new run, and carries no user bit.
pub open spec fn marks_fit(marks: Seq<ValueMem>, to_len: nat) -> bool {
    forall|j: int|
        0 <= j < marks.len() ==> ((#[trigger] marks[j]) matches ValueMem::Copied(n) ==> (
        n@ matches PointerUnpack::Mutable(k) && k < to_len && !n.is_ref()))
}

/// The entry `j` of the old run is as it was, or it is marked as moved to an
/// entry of the new run, at or behind `from`, that is its image.
pub open spec fn entry_relocated(
    marks: Seq<ValueMem>,
    to: Seq<ValueMem>,
    before: Seq<ValueMem>,
    from: nat,
    j: int,
) -> bool {
    marks[j] == before[j] || (!(before[j] is Copied) && !(before[j] is Forward) && (
    marks[j] matches ValueMem::Copied(n) && (n@ matches PointerUnpack::Mutable(k) && from <= k
        < to.len() && image_of(marks, before[j], to[k as int]))))
}

/// Every entry of the old run is as it was or was moved: see
/// [`entry_relocated`].
pub open spec fn relocated(
    marks: Seq<ValueMem>,
    to: Seq<ValueMem>,
    before: Seq<ValueMem>,
    from: nat,
) -> bool {
    marks.len() == before.len() && forall|j: int|
        0 <= j < before.len() ==> #[trigger] entry_relocated(marks, to, before, from, j)
}

/// The entry `k` of the new run is where a mark points to: an entry of the
/// old run was moved there.
pub open spec fn sourced(marks: Seq<ValueMem>, k: int) -> bool {
    exists|j: int|
        0 <= j < marks.len() && ((#[trigger] marks[j]) matches ValueMem::Copied(n) && (
        n@ matches PointerUnpack::Mutable(i) && i == k))
}

/// Marks are only ever added: an entry that is marked or forwards stays as
/// it is.
pub open spec fn marks_grow(before: Seq<ValueMem>, after: Seq<ValueMem>) -> bool {
    after.len() == before.len() && forall|j: int|
        0 <= j < before.len() && ((#[trigger] before[j]) is Copied || before[j] is Forward)
            ==> after[j] == before[j]
}

/// The new run only grows: what was in it stays.
pub open spec fn run_grows(before: Seq<ValueMem>, after: Seq<ValueMem>) -> bool {
    before.len() <= after.len() && forall|k: int|
        0 <= k < before.len() ==> #[trigger] after[k] == before[k]
}

/// An old run that was relocated has its marks grown.
pub proof fn lemma_relocated_grows(
    marks: Seq<ValueMem>,
    to: Seq<ValueMem>,
    before: Seq<ValueMem>,
    from: nat,
)
    requires
        relocated(marks, to, before, from),
    ensures
        marks_grow(before, marks),
{
    assert forall|j: int|
        0 <= j < before.len() && ((#[trigger] before[j]) is Copied || before[j] is Forward) implies marks[j]
        == before[j] by {
        assert(entry_relocated(marks, to, before, from, j));
    }
}

/// An old run that was relocated differs from what it was by marks alone.
pub proof fn lemma_relocated_marks(
    marks: Seq<ValueMem>,
    to: Seq<ValueMem>,
    before: Seq<ValueMem>,
    from: nat,
)
    requires
        relocated(marks, to, before, from),
    ensures
        only_marked(marks, before),
{
    assert forall|j: int| 0 <= j < before.len() implies (#[trigger] marks[j]) == before[j]
        || marks[j] is Copied by {
        assert(entry_relocated(marks, to, before, from, j));
    }
}

/// An entry of the new run to which a mark points keeps that mark.
pub proof fn lemma_sourced_stable(after: Seq<ValueMem>, before: Seq<ValueMem>, k: int)
    requires
        marks_grow(before, after),
        sourced(before, k),
    ensures
        sourced(after, k),
{
    let j = choose|j: int|
        0 <= j < before.len() && ((#[trigger] before[j]) matches ValueMem::Copied(n) && (
        n@ matches PointerUnpack::Mutable(i) && i == k));
    assert(after[j] == before[j]);
}

/// A value that an entry held points, where its image is in the new run,
/// to an entry that is marked as moved or forwards.
pub proof fn lemma_held_moved(marks: Seq<ValueMem>, a: ValueMem, b: ValueMem, c: int)
    requires
        image_of(marks, a, b),
        0 <= c < held(a).len(),
        held(a)[c]@ matches PointerUnpack::Mutable(k) && k < marks.len(),
    ensures
        marks[held(a)[c]@->Mutable_0 as int] is Copied || marks[held(a)[c]@->Mutable_0 as int]
            is Forward,
{
    match (a, b) {
        (ValueMem::Immutable(x), ValueMem::Immutable(y)) => {
            assert(moved_to(marks, x.children()[c], y.children()[c]));
        },
        (ValueMem::Mutable(x), ValueMem::Mutable(y)) => {
            assert(moved_to(marks, x.object.children()[c], y.object.children()[c]));
        },
        _ => {},
    }
}

/// Whatever can be reached from an entry that was moved, and does not
/// forward, was moved.
pub proof fn lemma_reached_marked(
    marks: Seq<ValueMem>,
    to: Seq<ValueMem>,
    before: Seq<ValueMem>,
    from: int,
    j: int,
    steps: nat,
)
    requires
        relocated(marks, to, before, 0),
        forall|i: int| 0 <= i < before.len() ==> !((#[trigger] before[i]) is Copied),
        reaches(before, from, j, steps),
        marks[from] is Copied,
        !(before[j] is Forward),
    ensures
        marks[j] is Copied,
    decreases steps,
{
    if from != j {
        let c = choose|c: int|
            0 <= c < held(before[from]).len() && (#[trigger] held(before[from])[c])@ is Mutable
                && reaches(
                before,
                held(before[from])[c]@->Mutable_0 as int,
                j,
                (steps - 1) as nat,
            );
        let k = held(before[from])[c]@->Mutable_0 as int;
        assert(entry_relocated(marks, to, before, 0, from));
        let at = marks[from]->Copied_0@->Mutable_0 as int;
        lemma_held_moved(marks, before[from], to[at], c);
        assert(entry_relocated(marks, to, before, 0, k));
        if marks[k] is Copied {
            lemma_reached_marked(marks, to, before, k, j, (steps - 1) as nat);
        } else {
            assert(before[k] is Forward);
            assert(held(before[k]).len() == 0);
        }
    }
}

/// Where a value lives stays where it lives.
pub proof fn lemma_moved_to_stable(after: Seq<ValueMem>, before: Seq<ValueMem>, c: Value, c2: Value)
    requires
        marks_grow(before, after),
        moved_to(before, c, c2),
    ensures
        moved_to(after, c, c2),
{
    if c@ is Mutable {
        let j = c@->Mutable_0 as int;
        if j < before.len() {
            assert(before[j] is Copied || before[j] is Forward);
        }
    }
}

/// The image of a container stays its image.
pub proof fn lemma_images_stable(after: Seq<ValueMem>, before: Seq<ValueMem>, a: Object, b: Object)
    requires
        marks_grow(before, after),
        images(before, a, b),
    ensures
        images(after, a, b),
{
    assert forall|i: int| 0 <= i < a.children().len() implies moved_to(
        after,
        #[trigger] a.children()[i],
        b.children()[i],
    ) by {
        lemma_moved_to_stable(after, before, a.children()[i], b.children()[i]);
    }
}

/// The image of an entry stays its image.
pub proof fn lemma_image_stable(
    after: Seq<ValueMem>,
    before: Seq<ValueMem>,
    a: ValueMem,
    b: ValueMem,
)
    requires
        marks_grow(before, after),
        image_of(before, a, b),
    ensures
        image_of(after, a, b),
{
    match (a, b) {
        (ValueMem::Immutable(x), ValueMem::Immutable(y)) => {
            lemma_images_stable(after, before, x, y);
        },
        (ValueMem::Mutable(x), ValueMem::Mutable(y)) => {
            lemma_images_stable(after, before, x.object, y.object);
        },
        (ValueMem::ThawOnWrite(x), ValueMem::ThawOnWrite(y)) => match (x.state, y.state) {
            (Thawable::Thawed(w), Thawable::Thawed(w2)) => {
                lemma_moved_to_stable(after, before, w, w2);
            },
            (Thawable::Thawed(w), Thawable::Frozen(f)) => {
                lemma_moved_to_stable(after, before, w, Value::of_frozen(f));
            },
            _ => {},
        },
        (ValueMem::Ref(x), ValueMem::Ref(y)) => {
            lemma_moved_to_stable(after, before, x, y);
        },
        (ValueMem::CallEnter(x), ValueMem::CallEnter(y)) => {
            lemma_moved_to_stable(after, before, x, y);
        },
        _ => {},
    }
}

/// Two steps of a collection, one after the other, are one.
pub proof fn lemma_relocated_transitive(
    marks3: Seq<ValueMem>,
    to3: Seq<ValueMem>,
    marks2: Seq<ValueMem>,
    to2: Seq<ValueMem>,
    marks1: Seq<ValueMem>,
    from: nat,
)
    requires
        relocated(marks2, to2, marks1, from),
        relocated(marks3, to3, marks2, to2.len()),
        run_grows(to2, to3),
        from <= to2.len(),
    ensures
        relocated(marks3, to3, marks1, from),
{
    lemma_relocated_grows(marks3, to3, marks2, to2.len());
    assert forall|j: int| 0 <= j < marks1.len() implies #[trigger] entry_relocated(
        marks3,
        to3,
        marks1,
        from,
        j,
    ) by {
        assert(entry_relocated(marks2, to2, marks1, from, j));
        assert(entry_relocated(marks3, to3, marks2, to2.len(), j));
        if marks2[j] != marks1[j] {
            let n = marks2[j]->Copied_0;
            let k = n@->Mutable_0 as int;
            assert(marks3[j] == marks2[j]);
            assert(to3[k] == to2[k]);
            lemma_image_stable(marks3, marks2, marks1[j], to2[k]);
        }
    }
}

/// What a value was made of before the collection, the value that stands
/// for it since is made of after.
pub proof fn lemma_moved_structure(
    after: &Heap,
    before: &Heap,
    marks: Seq<ValueMem>,
    c: Value,
    c2: Value,
    fuel: nat,
)
    requires
        after.frozen() == before.frozen(),
        after.entries().len() <= before.entries().len(),
        relocated(marks, after.entries(), before.entries(), 0),
        forall|j: int| 0 <= j < before.entries().len() ==> !((#[trigger] before.entries()[j]) is Copied),
        moved_to(marks, c, c2),
    ensures
        structure(after, c2, fuel) == structure(before, c, fuel),
    decreases fuel, 4nat, 0nat,
{
    if !(c@ is Mutable) {
        lemma_same_frozen(after, before, marks, c, fuel);
    } else {
        let j = c@->Mutable_0 as int;
        if j < marks.len() {
            assert(entry_relocated(marks, after.entries(), before.entries(), 0, j));
            match marks[j] {
                ValueMem::Copied(n) => {
                    let k = n@->Mutable_0 as int;
                    let a = before.entries()[j];
                    let b = after.entries()[k];
                    match (a, b) {
                        (ValueMem::Simple(x), ValueMem::Simple(y)) => {
                            if fuel > 0 {
                                lemma_frozen_same(
                                    after,
                                    before,
                                    marks,
                                    x.children(),
                                    (fuel - 1) as nat,
                                );
                            }
                        },
                        (ValueMem::Immutable(x), ValueMem::Immutable(y)) => {
                            if fuel > 0 {
                                lemma_moved_structures(
                                    after,
                                    before,
                                    marks,
                                    x.children(),
                                    y.children(),
                                    (fuel - 1) as nat,
                                );
                            }
                        },
                        (ValueMem::Mutable(x), ValueMem::Mutable(y)) => {
                            if fuel > 0 {
                                lemma_moved_structures(
                                    after,
                                    before,
                                    marks,
                                    x.object.children(),
                                    y.object.children(),
                                    (fuel - 1) as nat,
                                );
                            }
                        },
                        (ValueMem::ThawOnWrite(x), ValueMem::ThawOnWrite(y)) => {
                            lemma_moved_thawable(after, before, marks, c, c2, x.state, y.state, fuel);
                        },
                        _ => {},
                    }
                },
                ValueMem::Forward(x) => {
                    Value::lemma_of_word(x.word());
                    let y = Value::of_frozen(x);
                    assert(after.aref(c2@) == before.aref(c@));
                    lemma_same_frozen(after, before, marks, y, fuel);
                    lemma_same_reading(after, c2, y, fuel);
                    lemma_same_reading(before, c, y, fuel);
                },
                _ => {},
            }
        }
    }
}

/// A value that points into no mutable heap is made of the same before and
/// after.
proof fn lemma_same_frozen(
    after: &Heap,
    before: &Heap,
    marks: Seq<ValueMem>,
    c: Value,
    fuel: nat,
)
    requires
        after.frozen() == before.frozen(),
        after.entries().len() <= before.entries().len(),
        relocated(marks, after.entries(), before.entries(), 0),
        forall|j: int| 0 <= j < before.entries().len() ==> !((#[trigger] before.entries()[j]) is Copied),
        !(c@ is Mutable),
    ensures
        structure(after, c, fuel) == structure(before, c, fuel),
    decreases fuel, 1nat, 0nat,
{
    match before.aref(c@) {
        Some(ARef::Frozen(obj)) => {
            if fuel > 0 {
                lemma_frozen_same(after, before, marks, obj.children(), (fuel - 1) as nat);
            }
        },
        _ => {},
    }
}

/// The values of a frozen container are each made of the same before and
/// after.
proof fn lemma_frozen_same(
    after: &Heap,
    before: &Heap,
    marks: Seq<ValueMem>,
    kids: Seq<Value>,
    fuel: nat,
)
    requires
        after.frozen() == before.frozen(),
        after.entries().len() <= before.entries().len(),
        relocated(marks, after.entries(), before.entries(), 0),
        forall|j: int| 0 <= j < before.entries().len() ==> !((#[trigger] before.entries()[j]) is Copied),
    ensures
        frozen_structures(after, kids, fuel) == frozen_structures(before, kids, fuel),
    decreases fuel, 2nat, kids.len(),
{
    if kids.len() > 0 {
        lemma_frozen_same(after, before, marks, kids.drop_last(), fuel);
        if !(kids.last()@ is Mutable) {
            lemma_same_frozen(after, before, marks, kids.last(), fuel);
        }
    }
}

/// What each value was made of before the collection, the value that
/// stands for it since is made of after.
pub proof fn lemma_moved_structures(
    after: &Heap,
    before: &Heap,
    marks: Seq<ValueMem>,
    kids: Seq<Value>,
    kids2: Seq<Value>,
    fuel: nat,
)
    requires
        after.frozen() == before.frozen(),
        after.entries().len() <= before.entries().len(),
        relocated(marks, after.entries(), before.entries(), 0),
        forall|j: int| 0 <= j < before.entries().len() ==> !((#[trigger] before.entries()[j]) is Copied),
        kids.len() == kids2.len(),
        forall|i: int| 0 <= i < kids.len() ==> moved_to(marks, #[trigger] kids[i], kids2[i]),
    ensures
        structures(after, kids2, fuel) == structures(before, kids, fuel),
    decreases fuel, 5nat, kids.len(),
{
    if kids.len() > 0 {
        assert forall|i: int| 0 <= i < kids.drop_last().len() implies moved_to(
            marks,
            #[trigger] kids.drop_last()[i],
            kids2.drop_last()[i],
        ) by {
            assert(moved_to(marks, kids[i], kids2[i]));
        }
        lemma_moved_structures(after, before, marks, kids.drop_last(), kids2.drop_last(), fuel);
        assert(moved_to(marks, kids[kids.len() - 1], kids2[kids.len() - 1]));
        lemma_moved_structure(after, before, marks, kids.last(), kids2.last(), fuel);
    }
}

/// A cell that thaws is made of the same before and after.
proof fn lemma_moved_thawable(
    after: &Heap,
    before: &Heap,
    marks: Seq<ValueMem>,
    c: Value,
    c2: Value,
    a: Thawable,
    b: Thawable,
    fuel: nat,
)
    requires
        after.frozen() == before.frozen(),
        after.entries().len() <= before.entries().len(),
        relocated(marks, after.entries(), before.entries(), 0),
        forall|j: int| 0 <= j < before.entries().len() ==> !((#[trigger] before.entries()[j]) is Copied),
        before.target(c@) matches Some(ValueMem::ThawOnWrite(x)) && x.state == a,
        after.target(c2@) matches Some(ValueMem::ThawOnWrite(y)) && y.state == b,
        state_image(marks, a, b),
    ensures
        structure(after, c2, fuel) == structure(before, c, fuel),
    decreases fuel, 3nat, 0nat,
{
    match (a, b) {
        (Thawable::Frozen(x), Thawable::Frozen(y)) => {
            Value::lemma_of_word(x.word());
            let v = Value::of_frozen(x);
            if !(x@ is Mutable) {
                lemma_same_frozen(after, before, marks, v, fuel);
                lemma_same_reading(after, c2, v, fuel);
                lemma_same_reading(before, c, v, fuel);
            }
        },
        (Thawable::Thawed(w), Thawable::Frozen(y)) => {
            Value::lemma_of_word(y.word());
            let v = Value::of_frozen(y);
            let jw = w@->Mutable_0 as int;
            if jw < marks.len() {
                assert(entry_relocated(marks, after.entries(), before.entries(), 0, jw));
                let x = marks[jw]->Forward_0;
                Value::lemma_of_word(x.word());
                FrozenValue::lemma_same_word(x, y);
                lemma_same_frozen(after, before, marks, v, fuel);
                lemma_same_reading(after, c2, v, fuel);
                lemma_same_reading(before, c, v, fuel);
            }
        },
        (Thawable::Thawed(w), Thawable::Thawed(w2)) => {
            if w@ is Mutable {
                let jw = w@->Mutable_0 as int;
                if jw < marks.len() {
                    assert(entry_relocated(marks, after.entries(), before.entries(), 0, jw));
                    let n = marks[jw]->Copied_0;
                    let kw = n@->Mutable_0 as int;
                    match (before.entries()[jw], after.entries()[kw]) {
                        (ValueMem::Mutable(x), ValueMem::Mutable(y)) => {
                            if fuel > 0 {
                                lemma_moved_structures(
                                    after,
                                    before,
                                    marks,
                                    x.object.children(),
                                    y.object.children(),
                                    (fuel - 1) as nat,
                                );
                            }
                        },
                        _ => {},
                    }
                }
            }
        },
        _ => {},
    }
}

} // verus!
