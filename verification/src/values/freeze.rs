//! Freezing: the values that a module leaves behind are copied to the
//! frozen heap, each container once, so that they can be read from anywhere
//! and never change again.

use vstd::prelude::*;
use crate::collections::entries::{distinct_keys, has_key, index_of, key_at, keys_of, KeyModel};
use crate::collections::hash::Hashed;
use crate::collections::small_map::SmallMap;
use crate::values::error::ControlError;
use crate::values::layout::access::{as_values, dict_keys, to_values, ARef};
use crate::values::structure::{
    lemma_children_readable, lemma_readable_kept, lemma_reserved_reading, lemma_thawed_readable,
    readable, structure,
};
use crate::values::layout::heap::{FrozenValueMem, Heap, MutableCell, Thawable, ValueMem};
use crate::values::layout::pointer::PointerUnpack;
use crate::values::layout::value::{FrozenValue, Value, ValueLike};
use crate::values::types::containers::{
    DictGen, FrozenObject, ListGen, Object, ObjectGen, StructGen, TupleGen,
};

verus! {

/// What a container is apart from the values in it: its kind, the hashes of
/// the keys of a dict, the names of the fields of a struct.
pub enum Label {
    List,
    Tuple,
    Dict(Seq<u32>),
    Struct(Seq<KeyModel>),
}

/// The hashes of the keys of a dict.
pub open spec fn dict_hashes<T>(s: Seq<(Hashed<T>, T)>) -> Seq<u32> {
    s.map_values(|e: (Hashed<T>, T)| e.0.spec_hash())
}

/// The values of the entries of a dict, as values.
pub open spec fn dict_values<T: ValueLike>(s: Seq<(Hashed<T>, T)>) -> Seq<Value> {
    s.map_values(|e: (Hashed<T>, T)| e.1.spec_to_value())
}

/// The values of the fields of a struct, as values.
pub open spec fn field_values<T: ValueLike>(s: Seq<(KeyModel, T)>) -> Seq<Value> {
    s.map_values(|e: (KeyModel, T)| e.1.spec_to_value())
}

impl<T: ValueLike> ObjectGen<T> {
    /// What the container is apart from the values in it.
    pub open spec fn label(&self) -> Label {
        match self {
            ObjectGen::List(_) => Label::List,
            ObjectGen::Tuple(_) => Label::Tuple,
            ObjectGen::Dict(d) => Label::Dict(dict_hashes(d.content@)),
            ObjectGen::Struct(s) => Label::Struct(keys_of(s.fields@)),
        }
    }

    /// The values in the container: the elements of a list or tuple, the
    /// keys of a dict followed by its values, the values of the fields of a
    /// struct.
    pub open spec fn children(&self) -> Seq<Value> {
        match self {
            ObjectGen::List(l) => as_values(l.content@),
            ObjectGen::Tuple(t) => as_values(t.content@),
            ObjectGen::Dict(d) => dict_keys(d.content@) + dict_values(d.content@),
            ObjectGen::Struct(s) => field_values(s.fields@),
        }
    }

    /// Computes [`ObjectGen::children`].
    pub fn child_values(&self) -> (r: Vec<Value>)
        ensures
            r@ == self.children(),
    {
        match self {
            ObjectGen::List(l) => to_values(&l.content),
            ObjectGen::Tuple(t) => to_values(&t.content),
            ObjectGen::Dict(d) => {
                let mut out: Vec<Value> = Vec::new();
                let mut i: usize = 0;
                while i < d.content.len()
                    invariant
                        i <= d.content@.len(),
                        out@ == dict_keys(d.content@).take(i as int),
                    decreases d.content@.len() - i,
                {
                    out.push(d.content[i].0.key().to_value());
                    assert(out@ =~= dict_keys(d.content@).take(i + 1));
                    i += 1;
                }
                assert(dict_keys(d.content@).take(i as int) =~= dict_keys(d.content@));
                let mut k: usize = 0;
                while k < d.content.len()
                    invariant
                        k <= d.content@.len(),
                        out@ == dict_keys(d.content@) + dict_values(d.content@).take(k as int),
                    decreases d.content@.len() - k,
                {
                    out.push(d.content[k].1.to_value());
                    assert(out@ =~= dict_keys(d.content@) + dict_values(d.content@).take(k + 1));
                    k += 1;
                }
                assert(dict_values(d.content@).take(k as int) =~= dict_values(d.content@));
                out
            },
            ObjectGen::Struct(s) => {
                let values = s.fields.values();
                let mut out: Vec<Value> = Vec::with_capacity(values.len());
                let mut i: usize = 0;
                while i < values.len()
                    invariant
                        i <= values@.len(),
                        values@.len() == s.fields@.len(),
                        forall|j: int|
                            0 <= j < values@.len() ==> *(#[trigger] values@[j]) == s.fields@[j].1,
                        out@ == field_values(s.fields@).take(i as int),
                    decreases values@.len() - i,
                {
                    out.push(values[i].to_value());
                    assert(out@ =~= field_values(s.fields@).take(i + 1));
                    i += 1;
                }
                assert(field_values(s.fields@).take(i as int) =~= field_values(s.fields@));
                out
            },
        }
    }

    /// The same container over the values `kids` in the place of its own.
    pub fn rebuild<U: ValueLike>(&self, kids: &Vec<U>) -> (r: ObjectGen<U>)
        requires
            kids@.len() == self.children().len(),
        ensures
            r.label() == self.label(),
            r.children() == as_values(kids@),
    {
        match self {
            ObjectGen::List(_) => {
                let content = copy_frozen(kids, 0, kids.len());
                assert(kids@.subrange(0, kids@.len() as int) =~= kids@);
                ObjectGen::List(ListGen { content })
            },
            ObjectGen::Tuple(_) => {
                let content = copy_frozen(kids, 0, kids.len());
                assert(kids@.subrange(0, kids@.len() as int) =~= kids@);
                ObjectGen::Tuple(TupleGen { content })
            },
            ObjectGen::Dict(d) => {
                let n = d.content.len();
                let total = kids.len();
                let mut content: Vec<(Hashed<U>, U)> = Vec::with_capacity(n);
                let mut i: usize = 0;
                while i < n
                    invariant
                        i <= n,
                        n == d.content@.len(),
                        total == kids@.len(),
                        kids@.len() == 2 * n,
                        content@.len() == i,
                        forall|j: int|
                            0 <= j < i ==> (#[trigger] content@[j]).0.spec_hash()
                                == d.content@[j].0.spec_hash() && content@[j].0.spec_key()
                                == kids@[j] && content@[j].1 == kids@[n + j],
                    decreases n - i,
                {
                    content.push((Hashed::new_unchecked(d.content[i].0.hash(), kids[i]), kids[n + i]));
                    i += 1;
                }
                let r: ObjectGen<U> = ObjectGen::Dict(DictGen { content });
                assert(dict_hashes(content@) =~= dict_hashes(d.content@));
                assert(r.children() =~= as_values(kids@));
                r
            },
            ObjectGen::Struct(s) => {
                let entries = s.fields.iter_hashed();
                let n = entries.len();
                let mut fields: SmallMap<U> = SmallMap::with_capacity(n);
                proof {
                    use_type_invariant(&s.fields);
                    s.lemma_fields_distinct();
                }
                let mut i: usize = 0;
                while i < n
                    invariant
                        i <= n,
                        n == entries@.len(),
                        n == s.fields@.len(),
                        kids@.len() == n,
                        distinct_keys(s.fields@),
                        forall|j: int|
                            0 <= j < n ==> (#[trigger] entries@[j]).0.model() == s.fields@[j].0,
                        fields@.len() == i,
                        forall|j: int|
                            0 <= j < i ==> (#[trigger] fields@[j]) == (s.fields@[j].0, kids@[j]),
                    decreases n - i,
                {
                    let ghost before = fields@;
                    let key = Hashed::new_unchecked(
                        entries[i].0.hash(),
                        entries[i].0.key().to_owned(),
                    );
                    proof {
                        if has_key(before, key.model()) {
                            let c = index_of(before, key.model());
                            assert(key_at(before, c, key.model()));
                            assert(s.fields@[c].0 == s.fields@[i as int].0);
                        }
                    }
                    fields.insert_hashed(key, kids[i]);
                    i += 1;
                }
                let r: ObjectGen<U> = ObjectGen::Struct(StructGen { fields });
                assert(keys_of(fields@) =~= keys_of(s.fields@));
                assert(r.children() =~= as_values(kids@));
                r
            },
        }
    }
}

impl<T> StructGen<T> {
    /// No field of a struct has the name of another.
    pub proof fn lemma_fields_distinct(&self)
        requires
            self.fields.wf(),
        ensures
            distinct_keys(self.fields@),
    {
        self.fields.lemma_wf();
    }
}

/// A copy of a stretch of values.
fn copy_frozen<U: ValueLike>(kids: &Vec<U>, from: usize, to: usize) -> (r: Vec<U>)
    requires
        from <= to <= kids@.len(),
    ensures
        r@ == kids@.subrange(from as int, to as int),
{
    let mut out: Vec<U> = Vec::with_capacity(to - from);
    let mut i: usize = from;
    while i < to
        invariant
            from <= i <= to,
            to <= kids@.len(),
            out@ == kids@.subrange(from as int, i as int),
        decreases to - i,
    {
        out.push(kids[i]);
        assert(out@ =~= kids@.subrange(from as int, i + 1));
        i += 1;
    }
    out
}

/// Whether an entry still waits to be frozen: it is neither forwarded to the
/// frozen heap nor being frozen just now.
pub open spec fn is_live(mem: ValueMem) -> bool {
    !(mem is Forward) && !(mem is Blackhole)
}

/// The number of entries that still wait to be frozen.
pub open spec fn count_live(entries: Seq<ValueMem>) -> nat
    decreases entries.len(),
{
    if entries.len() == 0 {
        0
    } else {
        count_live(entries.drop_last()) + if is_live(entries.last()) {
            1nat
        } else {
            0nat
        }
    }
}

/// Changing one entry changes the count by what that entry counts.
pub proof fn lemma_count_live_update(entries: Seq<ValueMem>, at: int, mem: ValueMem)
    requires
        0 <= at < entries.len(),
    ensures
        count_live(entries.update(at, mem)) + (if is_live(entries[at]) {
            1int
        } else {
            0int
        }) == count_live(entries) + (if is_live(mem) {
            1int
        } else {
            0int
        }),
    decreases entries.len(),
{
    let after = entries.update(at, mem);
    if at == entries.len() - 1 {
        assert(after.drop_last() =~= entries.drop_last());
    } else {
        lemma_count_live_update(entries.drop_last(), at, mem);
        assert(after.drop_last() =~= entries.drop_last().update(at, mem));
    }
}

impl Heap {
    /// The number of entries that still wait to be frozen.
    pub open spec fn live_count(&self) -> nat {
        count_live(self.entries())
    }

    /// What freezing leaves as it was: the number of entries, every entry
    /// that was forwarded or was being frozen, and every entry of the
    /// frozen heap that was there. The frozen heap grows by no more entries
    /// than stop waiting to be frozen, and `extra` more.
    pub open spec fn frozen_further_by(&self, before: &Heap, extra: int) -> bool {
        self.frozen_further_but(before, extra, -1)
    }

    /// As [`Heap::frozen_further_by`], but that the entry `hole`, which was
    /// being frozen, may have been forwarded.
    pub open spec fn frozen_further_but(&self, before: &Heap, extra: int, hole: int) -> bool {
        &&& self.entries().len() == before.entries().len()
        &&& self.live_count() <= before.live_count()
        &&& before.frozen().entries().len() <= self.frozen().entries().len()
        &&& self.frozen().entries().len() - before.frozen().entries().len() <= before.live_count()
            - self.live_count() + extra
        &&& forall|j: int|
            0 <= j < before.frozen().entries().len() ==> (#[trigger] self.frozen().entries()[j])
                == before.frozen().entries()[j]
        &&& forall|j: int|
            0 <= j < before.entries().len() && j != hole && !is_live(#[trigger] before.entries()[j])
                ==> self.entries()[j] == before.entries()[j]
    }

    /// As [`Heap::frozen_further_by`], with nothing extra.
    pub open spec fn frozen_further(&self, before: &Heap) -> bool {
        self.frozen_further_by(before, 0)
    }

    /// Freezing further, twice in a row, freezes further.
    pub proof fn lemma_frozen_further_transitive(
        &self,
        mid: &Heap,
        before: &Heap,
        extra1: int,
        extra2: int,
    )
        requires
            mid.frozen_further_by(before, extra1),
            self.frozen_further_by(mid, extra2),
        ensures
            self.frozen_further_by(before, extra1 + extra2),
    {
        assert forall|j: int| 0 <= j < before.frozen().entries().len() implies (
        #[trigger] self.frozen().entries()[j]) == before.frozen().entries()[j] by {
            assert(mid.frozen().entries()[j] == before.frozen().entries()[j]);
        }
        assert forall|j: int|
            0 <= j < before.entries().len() && !is_live(
                #[trigger] before.entries()[j],
            ) implies self.entries()[j] == before.entries()[j] by {
            assert(mid.entries()[j] == before.entries()[j]);
        }
    }

    /// What holds of a heap, against the one before a live entry `at` was
    /// made a black hole, when it holds against the one after.
    proof fn lemma_through_hole(&self, holed: &Heap, before: &Heap, at: int, extra: int)
        requires
            0 <= at < before.entries().len(),
            is_live(before.entries()[at]),
            holed.entries() == before.entries().update(at, ValueMem::Blackhole),
            holed.frozen() == before.frozen(),
            self.frozen_further_but(holed, extra, at),
        ensures
            self.frozen_further_by(before, extra - 1),
    {
        lemma_count_live_update(before.entries(), at, ValueMem::Blackhole);
        assert forall|j: int|
            0 <= j < before.entries().len() && j != -1 && !is_live(
                #[trigger] before.entries()[j],
            ) implies self.entries()[j] == before.entries()[j] by {
            assert(holed.entries()[j] == before.entries()[j]);
        }
    }

    /// What holds once a live entry `at` is forwarded, the frozen heap
    /// having grown by one entry at most.
    proof fn lemma_entry_forwarded(&self, before: &Heap, at: int, x: FrozenValue)
        requires
            0 <= at < before.entries().len(),
            is_live(before.entries()[at]),
            self.entries() == before.entries().update(at, ValueMem::Forward(x)),
            self.frozen().entries() == before.frozen().entries() || self.frozen().entries().drop_last()
                == before.frozen().entries() && self.frozen().entries().len() > 0,
        ensures
            self.frozen_further(before),
    {
        lemma_count_live_update(before.entries(), at, ValueMem::Forward(x));
        assert forall|j: int| 0 <= j < before.frozen().entries().len() implies (
        #[trigger] self.frozen().entries()[j]) == before.frozen().entries()[j] by {
            if self.frozen().entries() != before.frozen().entries() {
                assert(self.frozen().entries().drop_last()[j] == before.frozen().entries()[j]);
            }
        }
    }

    /// The value `x` stands for the value `c`: it is `c`, or what the entry
    /// of `c` forwards to.
    pub open spec fn stands_for(&self, c: Value, x: Value) -> bool {
        if c@ is Mutable {
            self.target(c@) matches Some(ValueMem::Forward(fx)) && Value::of_frozen(fx) == x && !(
            fx@ is Mutable)
        } else {
            x == c
        }
    }

    /// The frozen value `x` is a copy of the container `obj`: an entry of
    /// the frozen heap that holds a container of the same label, and in the
    /// place of each value of `obj` one that stands for it.
    pub open spec fn is_copy(&self, obj: Object, x: FrozenValue) -> bool {
        self.frozen().target(x@) matches Some(FrozenValueMem::Simple(copy)) && copy.label()
            == obj.label() && copy.children().len() == obj.children().len() && forall|i: int|
            0 <= i < obj.children().len() ==> self.stands_for(
                #[trigger] obj.children()[i],
                copy.children()[i],
            )
    }

    /// The frozen value `x` is what the entry `mem` was frozen to.
    pub open spec fn frozen_as(&self, mem: ValueMem, x: FrozenValue) -> bool {
        match mem {
            ValueMem::Str(s) => self.frozen().target(x@) == Some(FrozenValueMem::Str(s)),
            ValueMem::Simple(obj) => self.frozen().target(x@) == Some(FrozenValueMem::Simple(obj)),
            ValueMem::Immutable(obj) => self.is_copy(obj, x),
            ValueMem::Mutable(cell) => self.is_copy(cell.object, x),
            ValueMem::ThawOnWrite(cell) => match cell.state {
                Thawable::Frozen(y) => x == y,
                Thawable::Thawed(w) => self.stands_for(w, Value::of_frozen(x)),
            },
            ValueMem::Ref(inner) => self.stands_for(inner, Value::of_frozen(x)),
            _ => false,
        }
    }

    /// The entry `j` is as it was in `before`, or it was live there and
    /// forwards to what it was frozen to.
    pub open spec fn entry_kept_or_frozen(&self, before: &Heap, j: int) -> bool {
        self.entries()[j] == before.entries()[j] || (is_live(before.entries()[j]) && (
        self.entries()[j] matches ValueMem::Forward(x) && self.frozen_as(before.entries()[j], x)))
    }

    /// Every entry but `hole` is as it was in `before`, or forwards to what
    /// it was frozen to.
    pub open spec fn simulates(&self, before: &Heap, hole: int) -> bool {
        forall|j: int|
            0 <= j < before.entries().len() && j != hole ==> #[trigger] self.entry_kept_or_frozen(
                before,
                j,
            )
    }

    /// What is frozen stays frozen: every entry that forwards in `before`
    /// is the same here, and so is every entry of the frozen heap of
    /// `before` that was filled.
    pub open spec fn extends(&self, before: &Heap) -> bool {
        &&& self.entries().len() == before.entries().len()
        &&& before.frozen().entries().len() <= self.frozen().entries().len()
        &&& forall|j: int|
            0 <= j < before.entries().len() && (#[trigger] before.entries()[j]) is Forward
                ==> self.entries()[j] == before.entries()[j]
        &&& forall|k: int|
            0 <= k < before.frozen().entries().len() && !((
            #[trigger] before.frozen().entries()[k]) is Blackhole) ==> self.frozen().entries()[k]
                == before.frozen().entries()[k]
    }

    /// A value that stands for another goes on to do so.
    pub proof fn lemma_stands_for_stable(&self, before: &Heap, c: Value, x: Value)
        requires
            self.extends(before),
            before.stands_for(c, x),
        ensures
            self.stands_for(c, x),
    {
        if c@ is Mutable {
            let j = c@->Mutable_0 as int;
            assert(before.entries()[j] is Forward);
        }
    }

    /// What an entry was frozen to stays what it was frozen to.
    pub proof fn lemma_frozen_as_stable(&self, before: &Heap, mem: ValueMem, x: FrozenValue)
        requires
            self.extends(before),
            before.frozen_as(mem, x),
        ensures
            self.frozen_as(mem, x),
    {
        match mem {
            ValueMem::Str(s) => {
                let k = x@->Frozen_0 as int;
                assert(!(before.frozen().entries()[k] is Blackhole));
            },
            ValueMem::Simple(obj) => {
                let k = x@->Frozen_0 as int;
                assert(!(before.frozen().entries()[k] is Blackhole));
            },
            ValueMem::Immutable(obj) => {
                self.lemma_is_copy_stable(before, obj, x);
            },
            ValueMem::Mutable(cell) => {
                self.lemma_is_copy_stable(before, cell.object, x);
            },
            ValueMem::ThawOnWrite(cell) => match cell.state {
                Thawable::Frozen(y) => {},
                Thawable::Thawed(w) => {
                    self.lemma_stands_for_stable(before, w, Value::of_frozen(x));
                },
            },
            ValueMem::Ref(inner) => {
                self.lemma_stands_for_stable(before, inner, Value::of_frozen(x));
            },
            _ => {},
        }
    }

    /// A copy of a container stays a copy of it.
    pub proof fn lemma_is_copy_stable(&self, before: &Heap, obj: Object, x: FrozenValue)
        requires
            self.extends(before),
            before.is_copy(obj, x),
        ensures
            self.is_copy(obj, x),
    {
        let k = x@->Frozen_0 as int;
        assert(!(before.frozen().entries()[k] is Blackhole));
        let copy = before.frozen().entries()[k]->Simple_0;
        assert forall|i: int| 0 <= i < obj.children().len() implies self.stands_for(
            #[trigger] obj.children()[i],
            copy.children()[i],
        ) by {
            self.lemma_stands_for_stable(before, obj.children()[i], copy.children()[i]);
        }
    }

    /// Freezing further keeps what is frozen, where the entry that may have
    /// been forwarded was a black hole.
    pub proof fn lemma_further_extends(&self, before: &Heap, extra: int, hole: int)
        requires
            self.frozen_further_but(before, extra, hole),
            0 <= hole < before.entries().len() ==> !(before.entries()[hole] is Forward),
        ensures
            self.extends(before),
    {
    }

    /// Two steps of freezing, one after the other, are one.
    pub proof fn lemma_simulates_transitive(&self, mid: &Heap, before: &Heap, hole: int)
        requires
            mid.simulates(before, hole),
            self.simulates(mid, hole),
            self.extends(mid),
            mid.entries().len() == before.entries().len(),
        ensures
            self.simulates(before, hole),
    {
        assert forall|j: int|
            0 <= j < before.entries().len() && j != hole implies #[trigger] self.entry_kept_or_frozen(
            before,
            j,
        ) by {
            assert(mid.entry_kept_or_frozen(before, j));
            assert(self.entry_kept_or_frozen(mid, j));
            if mid.entries()[j] != before.entries()[j] {
                let x = mid.entries()[j]->Forward_0;
                self.lemma_frozen_as_stable(mid, before.entries()[j], x);
            }
        }
    }

    /// A step that changes nothing but the entry `at`, which was live and
    /// forwards now to what it was frozen to, is a step of freezing.
    pub proof fn lemma_simulates_one(&self, before: &Heap, at: int, x: FrozenValue)
        requires
            0 <= at < before.entries().len(),
            is_live(before.entries()[at]),
            self.entries() == before.entries().update(at, ValueMem::Forward(x)),
            self.frozen_as(before.entries()[at], x),
        ensures
            self.simulates(before, -1),
    {
        assert forall|j: int|
            0 <= j < before.entries().len() && j != -1 implies #[trigger] self.entry_kept_or_frozen(
            before,
            j,
        ) by {}
    }

    /// A step of freezing seen from before the entry `at` was made a black
    /// hole: the entry forwards now to what it was frozen to.
    pub proof fn lemma_simulates_through_hole(
        &self,
        holed: &Heap,
        before: &Heap,
        at: int,
        x: FrozenValue,
    )
        requires
            0 <= at < before.entries().len(),
            is_live(before.entries()[at]),
            holed.entries() == before.entries().update(at, ValueMem::Blackhole),
            self.simulates(holed, at),
            self.entries()[at] == ValueMem::Forward(x),
            self.frozen_as(before.entries()[at], x),
        ensures
            self.simulates(before, -1),
    {
        assert forall|j: int|
            0 <= j < before.entries().len() && j != -1 implies #[trigger] self.entry_kept_or_frozen(
            before,
            j,
        ) by {
            if j != at {
                assert(self.entry_kept_or_frozen(holed, j));
                assert(holed.entries()[j] == before.entries()[j]);
            }
        }
    }

    /// Forwarding the black hole `at` keeps what is frozen and what was
    /// simulated.
    pub proof fn lemma_after_forward(&self, mid: &Heap, before: &Heap, at: int, x: FrozenValue)
        requires
            0 <= at < mid.entries().len(),
            mid.entries()[at] is Blackhole,
            mid.entries().len() == before.entries().len(),
            self.entries() == mid.entries().update(at, ValueMem::Forward(x)),
            self.frozen() == mid.frozen(),
            forall|j: int|
                0 <= j < before.entries().len() && j != at ==> #[trigger] mid.entry_kept_or_frozen(
                    before,
                    j,
                ),
        ensures
            self.extends(mid),
            self.simulates(before, at),
    {
        assert forall|j: int|
            0 <= j < before.entries().len() && j != at implies #[trigger] self.entry_kept_or_frozen(
            before,
            j,
        ) by {
            assert(mid.entry_kept_or_frozen(before, j));
            if mid.entries()[j] != before.entries()[j] {
                self.lemma_frozen_as_stable(mid, before.entries()[j], mid.entries()[j]->Forward_0);
            }
        }
    }

    /// Forwards entry `at`, which is a black hole, to the frozen value `x`
    /// and hands `x` out.
    fn forward(&mut self, at: usize, x: FrozenValue) -> (r: Result<FrozenValue, ControlError>)
        requires
            at < old(self).entries().len(),
            old(self).entries()[at as int] is Blackhole,
        ensures
            r == Ok::<FrozenValue, ControlError>(x),
            final(self).entries() == old(self).entries().update(at as int, ValueMem::Forward(x)),
            final(self).frozen() == old(self).frozen(),
            final(self).live_count() == old(self).live_count(),
    {
        proof {
            lemma_count_live_update(self.entries(), at as int, ValueMem::Forward(x));
        }
        self.replace_entry(at, ValueMem::Forward(x));
        Ok(x)
    }

    /// The frozen value that stands for `v` from now on. An immediate and a
    /// frozen value are their own. An entry of this heap is copied to the
    /// frozen heap, and so is every value that it holds, unless that was
    /// done before; the entry forwards to the copy from then on. A value
    /// that holds itself cannot be frozen.
    pub fn freeze(&mut self, v: Value) -> (r: Result<FrozenValue, ControlError>)
        requires
            old(self).frozen().can_alloc(old(self).live_count()),
        ensures
            final(self).frozen_further(old(self)),
            !(v@ is Mutable) ==> (r matches Ok(x) && Value::of_frozen(x) == v) && final(self).entries() == old(self).entries() && final(self).frozen() == old(self).frozen(),
            old(self).target(v@) matches Some(ValueMem::Forward(x)) ==> r == Ok::<
                FrozenValue,
                ControlError,
            >(x) && final(self).entries() == old(self).entries() && final(self).frozen() == old(self).frozen(),
            old(self).target(v@) matches Some(ValueMem::Blackhole) ==> r == Err::<
                FrozenValue,
                ControlError,
            >(ControlError::CyclicFreeze),
            r matches Ok(x) ==> (v@ is Mutable ==> final(self).target(v@) == Some(
                ValueMem::Forward(x),
            )),
            r matches Ok(x) ==> final(self).simulates(old(self), -1) && final(self).stands_for(
                v,
                Value::of_frozen(x),
            ),
            readable(old(self), v) ==> r is Ok,
        decreases old(self).live_count(), 0nat,
    {
        if let Some(x) = v.unpack_frozen() {
            assert forall|j: int|
                0 <= j < old(self).entries().len() && j != -1 implies #[trigger] self.entry_kept_or_frozen(
                old(self),
                j,
            ) by {}
            return Ok(x);
        }
        proof {
            if readable(old(self), v) {
                let f = choose|f: nat| structure(old(self), v, f) is Some;
                assert(old(self).aref(v@) is Some);
            }
        }
        let at = match v.unpack() {
            PointerUnpack::Mutable(i) => {
                if i < self.len() as u64 {
                    i as usize
                } else {
                    return Err(ControlError::NotAValue);
                }
            },
            _ => {
                return Err(ControlError::NotAValue);
            },
        };
        let ghost before = self.entries();
        proof {
            lemma_count_live_update(before, at as int, ValueMem::Blackhole);
        }
        let mem = self.replace_entry(at, ValueMem::Blackhole);
        let ghost holed = *self;
        let r = match mem {
            ValueMem::Forward(x) => {
                self.replace_entry(at, ValueMem::Forward(x));
                assert(self.entries() =~= before);
                assert forall|j: int|
                    0 <= j < old(self).entries().len() && j != -1 implies #[trigger] self.entry_kept_or_frozen(
                    old(self),
                    j,
                ) by {}
                Ok(x)
            },
            ValueMem::Blackhole => {
                assert(self.entries() =~= before);
                Err(ControlError::CyclicFreeze)
            },
            ValueMem::Str(s) => {
                let x = self.frozen_alloc(FrozenValueMem::Str(s));
                let r = self.forward(at, x);
                proof {
                    assert(self.entries() =~= before.update(at as int, ValueMem::Forward(x)));
                    assert(self.frozen().entries().drop_last() =~= old(self).frozen().entries());
                    self.lemma_entry_forwarded(old(self), at as int, x);
                    self.lemma_simulates_one(old(self), at as int, x);
                }
                r
            },
            ValueMem::Simple(obj) => {
                let x = self.frozen_alloc(FrozenValueMem::Simple(obj));
                let r = self.forward(at, x);
                proof {
                    assert(self.entries() =~= before.update(at as int, ValueMem::Forward(x)));
                    assert(self.frozen().entries().drop_last() =~= old(self).frozen().entries());
                    self.lemma_entry_forwarded(old(self), at as int, x);
                    self.lemma_simulates_one(old(self), at as int, x);
                }
                r
            },
            ValueMem::Immutable(obj) => {
                proof {
                    if readable(old(self), v) {
                        lemma_children_readable(&holed, old(self), at as int, v, obj);
                    }
                }
                let r = self.freeze_object(at, obj);
                proof {
                    self.lemma_through_hole(&holed, old(self), at as int, 1);
                    if let Ok(x) = r {
                        self.lemma_simulates_through_hole(&holed, old(self), at as int, x);
                    }
                }
                r
            },
            ValueMem::Mutable(cell) => {
                let MutableCell { object, readers: _ } = cell;
                proof {
                    if readable(old(self), v) {
                        lemma_children_readable(&holed, old(self), at as int, v, object);
                    }
                }
                let r = self.freeze_object(at, object);
                proof {
                    self.lemma_through_hole(&holed, old(self), at as int, 1);
                    if let Ok(x) = r {
                        self.lemma_simulates_through_hole(&holed, old(self), at as int, x);
                    }
                }
                r
            },
            ValueMem::ThawOnWrite(cell) => match cell.state {
                Thawable::Frozen(x) => {
                    let r = self.forward(at, x);
                    proof {
                        assert(self.entries() =~= before.update(at as int, ValueMem::Forward(x)));
                        self.lemma_entry_forwarded(old(self), at as int, x);
                        self.lemma_simulates_one(old(self), at as int, x);
                    }
                    r
                },
                Thawable::Thawed(w) => {
                    proof {
                        if readable(old(self), v) {
                            lemma_thawed_readable(&holed, old(self), at as int, v, w);
                        }
                    }
                    let r = self.freeze_inner(at, w);
                    proof {
                        self.lemma_through_hole(&holed, old(self), at as int, 0);
                        if let Ok(x) = r {
                            self.lemma_simulates_through_hole(&holed, old(self), at as int, x);
                        }
                    }
                    r
                },
            },
            ValueMem::Ref(inner) => {
                let r = self.freeze_inner(at, inner);
                proof {
                    self.lemma_through_hole(&holed, old(self), at as int, 0);
                    if let Ok(x) = r {
                        self.lemma_simulates_through_hole(&holed, old(self), at as int, x);
                    }
                }
                r
            },
            other => {
                self.replace_entry(at, other);
                assert(self.entries() =~= before);
                Err(ControlError::NotAValue)
            },
        };
        match &r {
            Ok(x) => {
                proof {
                    use_type_invariant(x);
                    x.lemma_wf();
                }
            },
            Err(_) => {},
        }
        r
    }

    /// Freezes the one value that the entry `at`, now a black hole, held,
    /// and forwards the entry to what comes of it.
    fn freeze_inner(&mut self, at: usize, inner: Value) -> (r: Result<FrozenValue, ControlError>)
        requires
            at < old(self).entries().len(),
            old(self).entries()[at as int] is Blackhole,
            old(self).frozen().can_alloc(old(self).live_count()),
        ensures
            final(self).frozen_further_but(old(self), 0, at as int),
            r matches Ok(x) ==> final(self).entries()[at as int] == ValueMem::Forward(x) && final(self).simulates(old(self), at as int) && final(self).stands_for(inner, Value::of_frozen(x)),
            readable(old(self), inner) ==> r is Ok,
        decreases old(self).live_count(), 3nat,
    {
        match self.freeze(inner) {
            Ok(x) => {
                let ghost mid = *self;
                assert(mid.entries()[at as int] == old(self).entries()[at as int]);
                let r = self.forward(at, x);
                proof {
                    self.lemma_after_forward(&mid, old(self), at as int, x);
                    self.lemma_stands_for_stable(&mid, inner, Value::of_frozen(x));
                    assert forall|j: int|
                        0 <= j < old(self).entries().len() && j != at && !is_live(
                            #[trigger] old(self).entries()[j],
                        ) implies self.entries()[j] == old(self).entries()[j] by {
                        assert(mid.entries()[j] == old(self).entries()[j]);
                    }
                }
                r
            },
            Err(e) => Err(e),
        }
    }

    /// Copies a container, which the entry `at` held, to the frozen heap:
    /// an entry there is reserved first, then every value in the container
    /// is frozen, then the reserved entry is filled, and the entry `at`
    /// forwards to it.
    fn freeze_object(&mut self, at: usize, obj: Object) -> (r: Result<FrozenValue, ControlError>)
        requires
            at < old(self).entries().len(),
            old(self).entries()[at as int] is Blackhole,
            old(self).frozen().can_alloc(old(self).live_count() + 1),
        ensures
            final(self).frozen_further_but(old(self), 1, at as int),
            r matches Ok(x) ==> final(self).entries()[at as int] == ValueMem::Forward(x) && final(self).simulates(old(self), at as int) && final(self).is_copy(obj, x),
            (forall|i: int|
                0 <= i < obj.children().len() ==> readable(old(self), #[trigger] obj.children()[i]))
                ==> r is Ok,
        decreases old(self).live_count(), 2nat,
    {
        let kids = obj.child_values();
        let reserved = self.frozen_heap().len();
        let slot = self.frozen_alloc(FrozenValueMem::Blackhole);
        let ghost start = *self;
        proof {
            if forall|i: int|
                0 <= i < obj.children().len() ==> readable(old(self), #[trigger] obj.children()[i]) {
                assert forall|i: int| 0 <= i < kids@.len() implies readable(
                    &start,
                    #[trigger] kids@[i],
                ) by {
                    lemma_reserved_reading(&start, old(self), kids@[i]);
                }
            }
        }
        match self.freeze_children(&kids) {
            Ok(frozen_kids) => {
                let copy: FrozenObject = obj.rebuild(&frozen_kids);
                let ghost mid = *self;
                assert(mid.frozen().entries()[reserved as int] == start.frozen().entries()[reserved as int]);
                assert(mid.entries()[at as int] == start.entries()[at as int]);
                self.frozen_fill(reserved, FrozenValueMem::Simple(copy));
                let ghost filled = *self;
                let r = self.forward(at, slot);
                proof {
                    assert(filled.extends(&mid));
                    assert forall|j: int|
                        0 <= j < old(self).entries().len() && j != at implies #[trigger] filled.entry_kept_or_frozen(
                        old(self),
                        j,
                    ) by {
                        assert(mid.entry_kept_or_frozen(&start, j));
                        if mid.entries()[j] != start.entries()[j] {
                            filled.lemma_frozen_as_stable(
                                &mid,
                                start.entries()[j],
                                mid.entries()[j]->Forward_0,
                            );
                        }
                    }
                    self.lemma_after_forward(&filled, old(self), at as int, slot);
                    assert(self.extends(&mid));
                    assert forall|i: int| 0 <= i < obj.children().len() implies self.stands_for(
                        #[trigger] obj.children()[i],
                        copy.children()[i],
                    ) by {
                        assert(copy.children()[i] == Value::of_frozen(frozen_kids@[i]));
                        self.lemma_stands_for_stable(
                            &mid,
                            kids@[i],
                            Value::of_frozen(frozen_kids@[i]),
                        );
                    }
                    assert forall|j: int|
                        0 <= j < old(self).frozen().entries().len() implies (
                    #[trigger] self.frozen().entries()[j]) == old(self).frozen().entries()[j] by {
                        assert(start.frozen().entries()[j] == old(self).frozen().entries()[j]);
                        assert(mid.frozen().entries()[j] == start.frozen().entries()[j]);
                    }
                    assert forall|j: int|
                        0 <= j < old(self).entries().len() && j != at && !is_live(
                            #[trigger] old(self).entries()[j],
                        ) implies self.entries()[j] == old(self).entries()[j] by {
                        assert(mid.entries()[j] == start.entries()[j]);
                    }
                }
                r
            },
            Err(e) => {
                proof {
                    assert forall|j: int|
                        0 <= j < old(self).frozen().entries().len() implies (
                    #[trigger] self.frozen().entries()[j]) == old(self).frozen().entries()[j] by {
                        assert(start.frozen().entries()[j] == old(self).frozen().entries()[j]);
                    }
                }
                Err(e)
            },
        }
    }

    /// Freezes each of `kids`, first to last. The first that cannot be
    /// frozen ends it.
    fn freeze_children(&mut self, kids: &Vec<Value>) -> (r: Result<Vec<FrozenValue>, ControlError>)
        requires
            old(self).frozen().can_alloc(old(self).live_count()),
        ensures
            final(self).frozen_further(old(self)),
            r matches Ok(out) ==> out@.len() == kids@.len() && final(self).simulates(old(self), -1)
                && forall|i: int|
                0 <= i < kids@.len() ==> final(self).stands_for(
                    #[trigger] kids@[i],
                    Value::of_frozen(out@[i]),
                ),
            (forall|i: int| 0 <= i < kids@.len() ==> readable(old(self), #[trigger] kids@[i]))
                ==> r is Ok,
        decreases old(self).live_count(), 1nat,
    {
        let mut out: Vec<FrozenValue> = Vec::with_capacity(kids.len());
        let mut i: usize = 0;
        assert forall|j: int|
            0 <= j < old(self).entries().len() && j != -1 implies #[trigger] self.entry_kept_or_frozen(
            old(self),
            j,
        ) by {}
        while i < kids.len()
            invariant
                i <= kids@.len(),
                out@.len() == i,
                self.frozen_further(old(self)),
                self.frozen().can_alloc(self.live_count()),
                self.simulates(old(self), -1),
                forall|j: int|
                    0 <= j < i ==> self.stands_for(#[trigger] kids@[j], Value::of_frozen(out@[j])),
                (forall|j: int| 0 <= j < kids@.len() ==> readable(old(self), #[trigger] kids@[j]))
                    ==> forall|j: int|
                    i <= j < kids@.len() ==> readable(&*self, #[trigger] kids@[j]),
            decreases kids@.len() - i,
        {
            let ghost mid = *self;
            let ghost out_mid = out@;
            match self.freeze(kids[i]) {
                Ok(x) => {
                    out.push(x);
                    proof {
                        self.lemma_further_extends(&mid, 0, -1);
                        if forall|j: int|
                            0 <= j < kids@.len() ==> readable(old(self), #[trigger] kids@[j]) {
                            assert forall|j: int| i + 1 <= j < kids@.len() implies readable(
                                &*self,
                                #[trigger] kids@[j],
                            ) by {
                                lemma_readable_kept(&*self, &mid, kids@[j]);
                            }
                        }
                        self.lemma_simulates_transitive(&mid, old(self), -1);
                        assert forall|j: int| 0 <= j < i + 1 implies self.stands_for(
                            #[trigger] kids@[j],
                            Value::of_frozen(out@[j]),
                        ) by {
                            if j < i {
                                assert(out@[j] == out_mid[j]);
                                self.lemma_stands_for_stable(
                                    &mid,
                                    kids@[j],
                                    Value::of_frozen(out_mid[j]),
                                );
                            }
                        }
                    }
                },
                Err(e) => {
                    proof {
                        self.lemma_frozen_further_transitive(&mid, old(self), 0, 0);
                    }
                    return Err(e);
                },
            }
            proof {
                self.lemma_frozen_further_transitive(&mid, old(self), 0, 0);
            }
            i += 1;
        }
        Ok(out)
    }

    /// Freezes the values that a module leaves behind, first to last.
    pub fn freeze_module(&mut self, roots: &Vec<Value>) -> (r: Result<Vec<FrozenValue>, ControlError>)
        requires
            old(self).frozen().can_alloc(old(self).live_count()),
        ensures
            final(self).frozen_further(old(self)),
            r matches Ok(out) ==> out@.len() == roots@.len() && final(self).simulates(old(self), -1)
                && forall|i: int|
                0 <= i < roots@.len() ==> final(self).stands_for(
                    #[trigger] roots@[i],
                    Value::of_frozen(out@[i]),
                ),
            (forall|i: int| 0 <= i < roots@.len() ==> readable(old(self), #[trigger] roots@[i]))
                ==> r is Ok,
    {
        self.freeze_children(roots)
    }
}

} // verus!
