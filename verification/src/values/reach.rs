//! Which entries of a heap can be reached from given values, by following
//! the values that the entries hold.

use vstd::prelude::*;
use crate::values::layout::heap::{Thawable, ValueMem};
use crate::values::layout::pointer::PointerUnpack;
use crate::values::layout::value::Value;

verus! {

/// The values that an entry holds and that a collection follows: those of
/// a container that lives on the mutable heap, the copy that a thawed cell
/// has made, the value behind a reference, the function of a call.
pub open spec fn held(mem: ValueMem) -> Seq<Value> {
    match mem {
        ValueMem::Immutable(obj) => obj.children(),
        ValueMem::Mutable(cell) => cell.object.children(),
        ValueMem::ThawOnWrite(cell) => match cell.state {
            Thawable::Thawed(w) => seq![w],
            Thawable::Frozen(_) => Seq::empty(),
        },
        ValueMem::Ref(inner) => seq![inner],
        ValueMem::CallEnter(f) => seq![f],
        _ => Seq::empty(),
    }
}

/// The entry `j` is the entry `from`, or can be reached from it in at most
/// `steps` steps, each from an entry to one that a value in it points to.
pub open spec fn reaches(entries: Seq<ValueMem>, from: int, j: int, steps: nat) -> bool
    decreases steps,
{
    0 <= from < entries.len() && (from == j || (steps > 0 && exists|c: int|
        0 <= c < held(entries[from]).len() && (#[trigger] held(entries[from])[c])@ is Mutable
            && reaches(
            entries,
            held(entries[from])[c]@->Mutable_0 as int,
            j,
            (steps - 1) as nat,
        )))
}

/// The entry `j` can be reached from the value `v`.
pub open spec fn reached_from(entries: Seq<ValueMem>, v: Value, j: int) -> bool {
    v@ matches PointerUnpack::Mutable(i) && exists|steps: nat|
        reaches(entries, i as int, j, steps)
}

/// The entry `j` can be reached from one of `values`.
pub open spec fn reached_from_any(entries: Seq<ValueMem>, values: Seq<Value>, j: int) -> bool {
    exists|i: int| 0 <= i < values.len() && reached_from(entries, #[trigger] values[i], j)
}

/// Every entry of `after` that differs from the one of `before` can be
/// reached from one of `values` on `before`.
pub open spec fn changed_within(
    after: Seq<ValueMem>,
    before: Seq<ValueMem>,
    values: Seq<Value>,
) -> bool {
    forall|j: int|
        0 <= j < before.len() && #[trigger] after[j] != before[j] ==> reached_from_any(
            before,
            values,
            j,
        )
}

/// Marks hide the values of the entries they stand on and nothing else: an
/// entry of `after` is the one of `before` or a mark.
pub open spec fn only_marked(after: Seq<ValueMem>, before: Seq<ValueMem>) -> bool {
    after.len() == before.len() && forall|j: int|
        0 <= j < before.len() ==> (#[trigger] after[j]) == before[j] || after[j] is Copied
}

/// What can be reached with marks on some entries can be reached without
/// them.
pub proof fn lemma_reaches_before(
    after: Seq<ValueMem>,
    before: Seq<ValueMem>,
    from: int,
    j: int,
    steps: nat,
)
    requires
        only_marked(after, before),
        reaches(after, from, j, steps),
    ensures
        reaches(before, from, j, steps),
    decreases steps,
{
    if from != j {
        let c = choose|c: int|
            0 <= c < held(after[from]).len() && (#[trigger] held(after[from])[c])@ is Mutable
                && reaches(
                after,
                held(after[from])[c]@->Mutable_0 as int,
                j,
                (steps - 1) as nat,
            );
        assert(after[from] == before[from]);
        let k = held(after[from])[c]@->Mutable_0 as int;
        lemma_reaches_before(after, before, k, j, (steps - 1) as nat);
        assert(held(before[from])[c]@ is Mutable);
    }
}

/// The same of a value.
pub proof fn lemma_reached_before(
    after: Seq<ValueMem>,
    before: Seq<ValueMem>,
    v: Value,
    j: int,
)
    requires
        only_marked(after, before),
        reached_from(after, v, j),
    ensures
        reached_from(before, v, j),
{
    let i = v@->Mutable_0 as int;
    let steps = choose|steps: nat| reaches(after, i, j, steps);
    lemma_reaches_before(after, before, i, j, steps);
}

/// What can be reached from a value that an entry holds can be reached
/// from the entry.
pub proof fn lemma_reached_through(entries: Seq<ValueMem>, at: int, c: int, j: int)
    requires
        0 <= at < entries.len(),
        0 <= c < held(entries[at]).len(),
        reached_from(entries, held(entries[at])[c], j),
    ensures
        exists|steps: nat| reaches(entries, at, j, steps),
{
    let w = held(entries[at])[c];
    let i = w@->Mutable_0 as int;
    let steps = choose|steps: nat| reaches(entries, i, j, steps);
    assert(held(entries[at])[c]@ is Mutable);
    assert(reaches(entries, at, j, steps + 1));
}

} // verus!
