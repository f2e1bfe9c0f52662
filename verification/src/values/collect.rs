//! Garbage collection: what can be reached from the roots is copied to a
//! new run of entries, and everything else is dropped with the old one.

use vstd::prelude::*;
use crate::values::layout::heap::{Heap, MutableCell, Thawable, ThawableCell, ValueMem};
use crate::values::layout::pointer::{PointerUnpack, MAX_INDEX};
use crate::values::layout::value::Value;
use crate::values::moved::{
    entry_relocated, image_of, images, lemma_image_stable, lemma_moved_structure,
    lemma_moved_to_stable, lemma_reached_marked, lemma_relocated_grows, lemma_relocated_marks,
    lemma_relocated_transitive, lemma_sourced_stable, marks_fit, marks_grow, moved_to,
    relocated, run_grows, sourced, state_image,
};
use crate::values::reach::{
    changed_within, held, lemma_reached_before, lemma_reached_through, only_marked,
    reached_from, reached_from_any, reaches,
};
use crate::values::structure::structure;
use crate::values::types::containers::Object;

verus! {

/// The number of entries that were not moved yet.
pub open spec fn count_unmoved(entries: Seq<ValueMem>) -> nat
    decreases entries.len(),
{
    if entries.len() == 0 {
        0
    } else {
        count_unmoved(entries.drop_last()) + if entries.last() is Copied {
            0nat
        } else {
            1nat
        }
    }
}

/// Marking one entry as moved changes the count by what that entry
/// counted.
pub proof fn lemma_count_unmoved_update(entries: Seq<ValueMem>, at: int, mem: ValueMem)
    requires
        0 <= at < entries.len(),
    ensures
        count_unmoved(entries.update(at, mem)) + (if entries[at] is Copied {
            0int
        } else {
            1int
        }) == count_unmoved(entries) + (if mem is Copied {
            0int
        } else {
            1int
        }),
        count_unmoved(entries) <= entries.len(),
    decreases entries.len(),
{
    let after = entries.update(at, mem);
    if at == entries.len() - 1 {
        assert(after.drop_last() =~= entries.drop_last());
        lemma_count_unmoved_bound(entries.drop_last());
    } else {
        lemma_count_unmoved_update(entries.drop_last(), at, mem);
        assert(after.drop_last() =~= entries.drop_last().update(at, mem));
    }
}

/// No more entries are unmoved than there are.
pub proof fn lemma_count_unmoved_bound(entries: Seq<ValueMem>)
    ensures
        count_unmoved(entries) <= entries.len(),
    decreases entries.len(),
{
    if entries.len() > 0 {
        lemma_count_unmoved_bound(entries.drop_last());
    }
}

/// Where nothing is marked, everything is unmoved.
pub proof fn lemma_count_unmarked(entries: Seq<ValueMem>)
    requires
        forall|j: int| 0 <= j < entries.len() ==> !((#[trigger] entries[j]) is Copied),
    ensures
        count_unmoved(entries) == entries.len(),
    decreases entries.len(),
{
    if entries.len() > 0 {
        assert forall|j: int| 0 <= j < entries.drop_last().len() implies !((
        #[trigger] entries.drop_last()[j]) is Copied) by {
            assert(entries.drop_last()[j] == entries[j]);
        }
        lemma_count_unmarked(entries.drop_last());
    }
}

/// The entries that a collection keeps: those that can be reached from a
/// root and do not forward to the frozen heap.
pub open spec fn kept(before: Seq<ValueMem>, roots: Seq<Value>, j: int) -> bool {
    0 <= j < before.len() && !(before[j] is Forward) && reached_from_any(before, roots, j)
}

/// What a collection makes of the run `before` and of `roots`, with the
/// marks it has put on the old run: the entries marked as moved are those
/// it keeps, see [`kept`], and no others; each of them has its image in the
/// run `after`, where its mark points to; `after` holds nothing else, and
/// as many entries as were moved; and each of `r` is where the root lives
/// since.
pub open spec fn collection(
    marks: Seq<ValueMem>,
    before: Seq<ValueMem>,
    after: Seq<ValueMem>,
    roots: Seq<Value>,
    r: Seq<Value>,
) -> bool {
    &&& relocated(marks, after, before, 0)
    &&& marks_fit(marks, after.len())
    &&& r.len() == roots.len()
    &&& forall|i: int| 0 <= i < roots.len() ==> moved_to(marks, #[trigger] roots[i], r[i])
    &&& forall|j: int|
        0 <= j < before.len() ==> ((#[trigger] marks[j]) is Copied <==> kept(before, roots, j))
    &&& forall|k: int| 0 <= k < after.len() ==> #[trigger] sourced(marks, k)
    &&& after.len() + count_unmoved(marks) == before.len()
}

/// The value `v` with the user bit of `like`.
fn tagged_like(v: Value, like: Value) -> (r: Value)
    requires
        v@ is Mutable,
    ensures
        r@ == v@,
        r.is_ref() == (like.is_ref() || v.is_ref()),
{
    if like.get_user_tag() {
        v.set_user_tag()
    } else {
        v
    }
}

impl Heap {
    /// The number of entries that were not moved yet.
    pub open spec fn unmoved(&self) -> nat {
        count_unmoved(self.entries())
    }

    /// What a step of a collection leaves as it was: the frozen heap and
    /// the number of entries of the old run. The new run grows by as many
    /// entries as are moved, what was in it stays, every mark points into
    /// it, every entry of the old run is as it was or was moved to its
    /// image: see [`relocated`]; and a mark points to each entry that the
    /// new run has grown by.
    pub open spec fn collected_further(
        &self,
        to: Seq<ValueMem>,
        before: &Heap,
        to_before: Seq<ValueMem>,
    ) -> bool {
        &&& self.frozen() == before.frozen()
        &&& self.entries().len() == before.entries().len()
        &&& self.unmoved() <= before.unmoved()
        &&& to_before.len() <= to.len()
        &&& to.len() - to_before.len() == before.unmoved() - self.unmoved()
        &&& run_grows(to_before, to)
        &&& marks_fit(self.entries(), to.len())
        &&& relocated(self.entries(), to, before.entries(), to_before.len())
        &&& forall|k: int| to_before.len() <= k < to.len() ==> #[trigger] sourced(self.entries(), k)
    }

    /// Two steps of a collection, one after the other, are one.
    pub proof fn lemma_collected_transitive(
        &self,
        to: Seq<ValueMem>,
        mid: &Heap,
        to_mid: Seq<ValueMem>,
        before: &Heap,
        to_before: Seq<ValueMem>,
    )
        requires
            mid.collected_further(to_mid, before, to_before),
            self.collected_further(to, mid, to_mid),
        ensures
            self.collected_further(to, before, to_before),
    {
        lemma_relocated_transitive(
            self.entries(),
            to,
            mid.entries(),
            to_mid,
            before.entries(),
            to_before.len(),
        );
        assert forall|k: int| 0 <= k < to_before.len() implies #[trigger] to[k] == to_before[k] by {
            assert(to_mid[k] == to_before[k]);
        }
        lemma_relocated_grows(self.entries(), to, mid.entries(), to_mid.len());
        assert forall|k: int| to_before.len() <= k < to.len() implies #[trigger] sourced(
            self.entries(),
            k,
        ) by {
            if k < to_mid.len() {
                lemma_sourced_stable(self.entries(), mid.entries(), k);
            }
        }
    }

    /// A step that does nothing is a step.
    pub proof fn lemma_collected_nothing(&self, to: Seq<ValueMem>)
        requires
            marks_fit(self.entries(), to.len()),
        ensures
            self.collected_further(to, self, to),
    {
        assert forall|j: int| 0 <= j < self.entries().len() implies #[trigger] entry_relocated(
            self.entries(),
            to,
            self.entries(),
            to.len(),
            j,
        ) by {}
    }

    /// Where `v` lives from now on. A value that points to no entry of the
    /// old run is its own. An entry that was forwarded to the frozen heap is
    /// left behind: the frozen value stands for it. Any other entry is moved
    /// to the new run `to`, once, with every value it holds, and marked as
    /// moved to where it went.
    pub fn walk(&mut self, to: &mut Vec<ValueMem>, v: Value) -> (r: Value)
        requires
            to@.len() + old(self).unmoved() <= MAX_INDEX + 1,
            marks_fit(old(self).entries(), to@.len()),
        ensures
            final(self).collected_further(final(to)@, old(self), old(to)@),
            moved_to(final(self).entries(), v, r),
            !(v@ is Mutable) ==> r == v,
            r.is_ref() ==> v.is_ref(),
            changed_within(final(self).entries(), old(self).entries(), seq![v]),
        decreases old(self).unmoved(), 0nat,
    {
        proof {
            self.lemma_collected_nothing(to@);
        }
        let at = match v.unpack() {
            PointerUnpack::Mutable(i) => {
                if i < self.len() as u64 {
                    i as usize
                } else {
                    return v;
                }
            },
            _ => {
                return v;
            },
        };
        match self.get(v) {
            Some(ValueMem::Copied(moved)) => {
                let moved = *moved;
                match moved.unpack() {
                    PointerUnpack::Mutable(_) => {
                        return tagged_like(moved, v);
                    },
                    _ => {
                        return moved;
                    },
                }
            },
            Some(ValueMem::Forward(x)) => {
                let frozen = *x;
                return Value::new_frozen(frozen);
            },
            _ => {},
        }
        let ghost marks0 = self.entries();
        let ghost to0 = to@;
        let index = to.len();
        proof {
            lemma_count_unmoved_update(marks0, at as int, ValueMem::Copied(v));
        }
        to.push(ValueMem::Blackhole);
        let fresh = Value::new_mutable(index as u64, false);
        proof {
            lemma_count_unmoved_update(marks0, at as int, ValueMem::Copied(fresh));
        }
        let mem = self.replace_entry(at, ValueMem::Copied(fresh));
        let ghost marked = *self;
        let ghost to1 = to@;
        proof {
            marked.lemma_collected_nothing(to1);
        }
        let moved = match mem {
            ValueMem::Immutable(obj) => ValueMem::Immutable(self.walk_object(to, obj)),
            ValueMem::Mutable(cell) => {
                let MutableCell { object, readers } = cell;
                ValueMem::Mutable(MutableCell { object: self.walk_object(to, object), readers })
            },
            ValueMem::ThawOnWrite(cell) => {
                let ThawableCell { state, readers } = cell;
                let state = match state {
                    Thawable::Frozen(x) => Thawable::Frozen(x),
                    Thawable::Thawed(w) => {
                        let w2 = self.walk(to, w);
                        match (w.unpack(), w2.unpack_frozen()) {
                            (PointerUnpack::Mutable(_), Some(y)) => Thawable::Frozen(y),
                            _ => Thawable::Thawed(w2),
                        }
                    },
                };
                ValueMem::ThawOnWrite(ThawableCell { state, readers })
            },
            ValueMem::Ref(inner) => ValueMem::Ref(self.walk(to, inner)),
            ValueMem::CallEnter(f) => ValueMem::CallEnter(self.walk(to, f)),
            other => other,
        };
        assert(changed_within(self.entries(), marked.entries(), held(mem)));
        let ghost to2 = to@;
        to.push(moved);
        let _ = to.swap_remove(index);
        proof {
            let marks2 = self.entries();
            let to3 = to@;
            assert(to3 =~= to2.update(index as int, moved));
            assert(self.collected_further(to2, &marked, to1));
            lemma_relocated_grows(marks2, to2, marked.entries(), to1.len());
            assert(marked.entries()[at as int] is Copied);
            assert(marks2[at as int] == ValueMem::Copied(fresh));
            assert(image_of(marks2, mem, moved));
            assert forall|j: int| 0 <= j < marks0.len() implies #[trigger] entry_relocated(
                marks2,
                to3,
                marks0,
                to0.len(),
                j,
            ) by {
                if j != at {
                    assert(entry_relocated(marks2, to2, marked.entries(), to1.len(), j));
                    assert(marked.entries()[j] == marks0[j]);
                    if marks2[j] != marks0[j] {
                        let k = marks2[j]->Copied_0@->Mutable_0 as int;
                        assert(to3[k] == to2[k]);
                    }
                }
            }
            assert forall|k: int| 0 <= k < to0.len() implies #[trigger] to3[k] == to0[k] by {
                assert(to1[k] == to0[k]);
                assert(to2[k] == to1[k]);
            }
            assert forall|k: int| to0.len() <= k < to3.len() implies #[trigger] sourced(marks2, k) by {
                if k == index {
                    assert(marks2[at as int] matches ValueMem::Copied(n) && (
                    n@ matches PointerUnpack::Mutable(i) && i == k));
                }
            }
            assert(only_marked(marked.entries(), marks0));
            assert forall|j: int|
                0 <= j < marks0.len() && #[trigger] marks2[j] != marks0[j] implies reached_from_any(
                marks0,
                seq![v],
                j,
            ) by {
                if j == at {
                    assert(reaches(marks0, at as int, j, 0));
                } else {
                    assert(marked.entries()[j] == marks0[j]);
                    let c = choose|c: int|
                        0 <= c < held(mem).len() && reached_from(
                            marked.entries(),
                            #[trigger] held(mem)[c],
                            j,
                        );
                    lemma_reached_before(marked.entries(), marks0, held(mem)[c], j);
                    lemma_reached_through(marks0, at as int, c, j);
                }
                assert(reached_from(marks0, seq![v][0], j));
            }
        }
        tagged_like(fresh, v)
    }

    /// A container with every value in it walked.
    fn walk_object(&mut self, to: &mut Vec<ValueMem>, obj: Object) -> (r: Object)
        requires
            to@.len() + old(self).unmoved() <= MAX_INDEX + 1,
            marks_fit(old(self).entries(), to@.len()),
        ensures
            final(self).collected_further(final(to)@, old(self), old(to)@),
            images(final(self).entries(), obj, r),
            changed_within(final(self).entries(), old(self).entries(), obj.children()),
        decreases old(self).unmoved(), 2nat,
    {
        let kids = obj.child_values();
        let moved = self.walk_all(to, kids);
        let r: Object = obj.rebuild(&moved);
        assert(r.children() =~= moved@);
        r
    }

    /// Each of `values` walked, first to last.
    fn walk_all(&mut self, to: &mut Vec<ValueMem>, values: Vec<Value>) -> (r: Vec<Value>)
        requires
            to@.len() + old(self).unmoved() <= MAX_INDEX + 1,
            marks_fit(old(self).entries(), to@.len()),
        ensures
            final(self).collected_further(final(to)@, old(self), old(to)@),
            r@.len() == values@.len(),
            forall|i: int|
                0 <= i < r@.len() ==> moved_to(final(self).entries(), #[trigger] values@[i], r@[i]),
            forall|i: int|
                0 <= i < r@.len() ==> (!(values@[i]@ is Mutable) ==> #[trigger] r@[i] == values@[i]),
            changed_within(final(self).entries(), old(self).entries(), values@),
        decreases old(self).unmoved(), 1nat,
    {
        let mut out: Vec<Value> = Vec::with_capacity(values.len());
        let mut i: usize = 0;
        proof {
            self.lemma_collected_nothing(to@);
        }
        while i < values.len()
            invariant
                i <= values@.len(),
                out@.len() == i,
                self.collected_further(to@, old(self), old(to)@),
                old(to)@.len() + old(self).unmoved() <= MAX_INDEX + 1,
                forall|j: int|
                    0 <= j < i ==> moved_to(self.entries(), #[trigger] values@[j], out@[j]),
                forall|j: int|
                    0 <= j < i ==> (!(values@[j]@ is Mutable) ==> #[trigger] out@[j] == values@[j]),
                changed_within(self.entries(), old(self).entries(), values@),
            decreases values@.len() - i,
        {
            let ghost mid = *self;
            let ghost to_mid = to@;
            let ghost out_mid = out@;
            let x = self.walk(to, values[i]);
            out.push(x);
            proof {
                lemma_relocated_marks(mid.entries(), to_mid, old(self).entries(), old(to)@.len());
                let first = old(self).entries();
                assert forall|j: int|
                    0 <= j < first.len() && #[trigger] self.entries()[j]
                        != first[j] implies reached_from_any(first, values@, j) by {
                    if mid.entries()[j] == first[j] {
                        assert(reached_from(mid.entries(), seq![values@[i as int]][0], j));
                        lemma_reached_before(
                            mid.entries(),
                            old(self).entries(),
                            values@[i as int],
                            j,
                        );
                    } else {
                        assert(reached_from_any(old(self).entries(), values@, j));
                    }
                }
                self.lemma_collected_transitive(to@, &mid, to_mid, old(self), old(to)@);
                lemma_relocated_grows(self.entries(), to@, mid.entries(), to_mid.len());
                assert forall|j: int| 0 <= j < i + 1 implies moved_to(
                    self.entries(),
                    #[trigger] values@[j],
                    out@[j],
                ) by {
                    if j < i {
                        assert(out@[j] == out_mid[j]);
                        lemma_moved_to_stable(self.entries(), mid.entries(), values@[j], out_mid[j]);
                    }
                }
            }
            i += 1;
        }
        out
    }

    /// Drops every entry that cannot be reached from `roots`. The entries
    /// that can are moved to a new run, and the result holds, for each root,
    /// the value that stands for it from now on. None, booleans, integers
    /// and frozen values are their own before and after; whatever a root
    /// was made of before, what stands for it is made of after. The new run
    /// holds the images of the entries that a root reaches and that do not
    /// forward to the frozen heap, one entry for each, and nothing else: see
    /// [`collection`].
    pub fn garbage_collect(&mut self, roots: Vec<Value>) -> (r: Vec<Value>)
        requires
            old(self).entries().len() <= MAX_INDEX + 1,
            forall|j: int|
                0 <= j < old(self).entries().len() ==> !((#[trigger] old(self).entries()[j])
                    is Copied),
        ensures
            final(self).frozen() == old(self).frozen(),
            final(self).entries().len() <= old(self).entries().len(),
            r@.len() == roots@.len(),
            forall|i: int|
                0 <= i < r@.len() ==> (!(roots@[i]@ is Mutable) ==> #[trigger] r@[i] == roots@[i]),
            forall|i: int, fuel: nat|
                0 <= i < r@.len() ==> #[trigger] structure(final(self), r@[i], fuel) == structure(
                    old(self),
                    roots@[i],
                    fuel,
                ),
            exists|marks: Seq<ValueMem>| #[trigger]
                collection(marks, old(self).entries(), final(self).entries(), roots@, r@),
    {
        let mut to: Vec<ValueMem> = Vec::new();
        proof {
            lemma_count_unmoved_bound(self.entries());
        }
        let r = self.walk_all(&mut to, roots);
        let ghost marks = self.entries();
        proof {
            lemma_count_unmoved_bound(old(self).entries());
        }
        self.swap_entries(&mut to);
        proof {
            let before = old(self).entries();
            let after = self.entries();
            lemma_count_unmarked(before);
            assert forall|j: int| 0 <= j < before.len() implies ((#[trigger] marks[j]) is Copied
                <==> kept(before, roots@, j)) by {
                assert(entry_relocated(marks, after, before, 0, j));
                if kept(before, roots@, j) {
                    let i = choose|i: int|
                        0 <= i < roots@.len() && reached_from(before, #[trigger] roots@[i], j);
                    let from = roots@[i]@->Mutable_0 as int;
                    let steps = choose|steps: nat| reaches(before, from, j, steps);
                    assert(moved_to(marks, roots@[i], r@[i]));
                    assert(entry_relocated(marks, after, before, 0, from));
                    if marks[from] is Copied {
                        lemma_reached_marked(marks, after, before, from, j, steps);
                    } else {
                        assert(held(before[from]).len() == 0);
                    }
                }
            }
            assert(collection(marks, before, after, roots@, r@));
        }
        proof {
            assert forall|i: int, fuel: nat| 0 <= i < r@.len() implies #[trigger] structure(
                &*self,
                r@[i],
                fuel,
            ) == structure(old(self), roots@[i], fuel) by {
                lemma_moved_structure(&*self, old(self), marks, roots@[i], r@[i], fuel);
            }
        }
        r
    }
}

} // verus!
