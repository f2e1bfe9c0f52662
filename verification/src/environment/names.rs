//! Tables from names to slot numbers.

use vstd::prelude::*;
use crate::text::same_text;

verus! {

/// A finite map from names to slot numbers, kept as an association list in
/// which no name occurs twice.
#[derive(Debug, Clone)]
pub struct NameMap {
    entries: Vec<(String, usize)>,
}

impl View for NameMap {
    type V = Map<Seq<char>, usize>;

    closed spec fn view(&self) -> Map<Seq<char>, usize> {
        Map::new(
            |k: Seq<char>| exists|i: int| self.holds_at(i, k),
            |k: Seq<char>| self.entries@[choose|i: int| self.holds_at(i, k)].1,
        )
    }
}

impl NameMap {
    /// Entry `i` exists and binds the name `k`.
    pub closed spec fn holds_at(&self, i: int, k: Seq<char>) -> bool {
        0 <= i < self.entries@.len() && self.entries@[i].0@ == k
    }

    /// No name is bound twice.
    pub closed spec fn wf(&self) -> bool {
        forall|i: int, j: int|
            0 <= i < j < self.entries@.len() ==> self.entries@[i].0@ != self.entries@[j].0@
    }

    proof fn lemma_view_at(&self, i: int)
        requires
            self.wf(),
            0 <= i < self.entries@.len(),
        ensures
            self@.dom().contains(self.entries@[i].0@),
            self@[self.entries@[i].0@] == self.entries@[i].1,
    {
        let k = self.entries@[i].0@;
        assert(self.holds_at(i, k));
        let c = choose|c: int| self.holds_at(c, k);
        assert(self.holds_at(c, k));
        assert(c == i);
    }

    /// The empty map.
    pub fn new() -> (r: Self)
        ensures
            r.wf(),
            r@ == Map::<Seq<char>, usize>::empty(),
    {
        let r = NameMap { entries: Vec::new() };
        assert(r@ =~= Map::<Seq<char>, usize>::empty());
        r
    }

    /// The position of `name` in the list, if it is bound.
    fn position(&self, name: &str) -> (r: Option<usize>)
        requires
            self.wf(),
        ensures
            match r {
                Some(i) => self.holds_at(i as int, name@),
                None => !self@.dom().contains(name@),
            },
    {
        let mut i: usize = 0;
        while i < self.entries.len()
            invariant
                i <= self.entries@.len(),
                forall|j: int| 0 <= j < i ==> self.entries@[j].0@ != name@,
            decreases self.entries@.len() - i,
        {
            if same_text(self.entries[i].0.as_str(), name) {
                return Some(i);
            }
            i += 1;
        }
        assert(forall|j: int| !self.holds_at(j, name@));
        None
    }

    /// The slot bound to `name`, if any.
    pub fn get(&self, name: &str) -> (r: Option<usize>)
        requires
            self.wf(),
        ensures
            r == if self@.dom().contains(name@) {
                Some(self@[name@])
            } else {
                None
            },
    {
        match self.position(name) {
            Some(i) => {
                proof {
                    self.lemma_view_at(i as int);
                }
                Some(self.entries[i].1)
            },
            None => None,
        }
    }

    /// Binds `name` to `slot`, and returns the slot it was bound to before.
    pub fn insert(&mut self, name: &str, slot: usize) -> (r: Option<usize>)
        requires
            old(self).wf(),
        ensures
            final(self).wf(),
            final(self)@ == old(self)@.insert(name@, slot),
            r == if old(self)@.dom().contains(name@) {
                Some(old(self)@[name@])
            } else {
                None
            },
    {
        match self.position(name) {
            Some(i) => {
                proof {
                    self.lemma_view_at(i as int);
                }
                let prior = self.entries[i].1;
                let ghost before = *self;
                self.entries[i].1 = slot;
                proof {
                    assert(self.entries@.len() == before.entries@.len());
                    assert forall|j: int| 0 <= j < self.entries@.len() implies self.entries@[j].0@
                        == before.entries@[j].0@ by {}
                    assert(self.wf());
                    assert forall|k: Seq<char>|
                        self@.dom().contains(k) == before@.insert(name@, slot).dom().contains(
                            k,
                        ) by {
                        if self@.dom().contains(k) {
                            let c = choose|c: int| self.holds_at(c, k);
                            assert(before.holds_at(c, k));
                        }
                        if before@.dom().contains(k) {
                            let c = choose|c: int| before.holds_at(c, k);
                            assert(self.holds_at(c, k));
                        }
                        if k == name@ {
                            assert(self.holds_at(i as int, k));
                        }
                    }
                    assert forall|k: Seq<char>| self@.dom().contains(k) implies self@[k]
                        == before@.insert(name@, slot)[k] by {
                        let c = choose|c: int| self.holds_at(c, k);
                        self.lemma_view_at(c);
                        before.lemma_view_at(c);
                    }
                    assert(self@ =~= before@.insert(name@, slot));
                }
                Some(prior)
            },
            None => {
                let ghost before = *self;
                self.entries.push((name.to_owned(), slot));
                proof {
                    let n = before.entries@.len() as int;
                    assert forall|i: int, j: int|
                        0 <= i < j < self.entries@.len() implies self.entries@[i].0@
                        != self.entries@[j].0@ by {
                        if j == n {
                            assert(!before.holds_at(i, name@));
                        }
                    }
                    assert forall|k: Seq<char>|
                        self@.dom().contains(k) == before@.insert(name@, slot).dom().contains(
                            k,
                        ) by {
                        if self@.dom().contains(k) {
                            let c = choose|c: int| self.holds_at(c, k);
                            if c < n {
                                assert(before.holds_at(c, k));
                            }
                        }
                        if before@.dom().contains(k) {
                            let c = choose|c: int| before.holds_at(c, k);
                            assert(self.holds_at(c, k));
                        }
                        if k == name@ {
                            assert(self.holds_at(n, k));
                        }
                    }
                    assert forall|k: Seq<char>| self@.dom().contains(k) implies self@[k]
                        == before@.insert(name@, slot)[k] by {
                        let c = choose|c: int| self.holds_at(c, k);
                        self.lemma_view_at(c);
                        if c < n {
                            before.lemma_view_at(c);
                        }
                    }
                    assert(self@ =~= before@.insert(name@, slot));
                }
                None
            },
        }
    }

    /// Forgets the binding of `name`, if there is one.
    pub fn remove(&mut self, name: &str)
        requires
            old(self).wf(),
        ensures
            final(self).wf(),
            final(self)@ == old(self)@.remove(name@),
    {
        match self.position(name) {
            Some(i) => {
                let ghost before = *self;
                self.entries.remove(i);
                proof {
                    let p = i as int;
                    assert forall|a: int, b: int|
                        0 <= a < b < self.entries@.len() implies self.entries@[a].0@
                        != self.entries@[b].0@ by {
                        let a0 = if a < p { a } else { a + 1 };
                        let b0 = if b < p { b } else { b + 1 };
                        assert(self.entries@[a] == before.entries@[a0]);
                        assert(self.entries@[b] == before.entries@[b0]);
                    }
                    assert forall|k: Seq<char>|
                        self@.dom().contains(k) == before@.remove(name@).dom().contains(k) by {
                        if self@.dom().contains(k) {
                            let c = choose|c: int| self.holds_at(c, k);
                            let c0 = if c < p { c } else { c + 1 };
                            assert(self.entries@[c] == before.entries@[c0]);
                            assert(before.holds_at(c0, k));
                        }
                        if before@.dom().contains(k) && k != name@ {
                            let c = choose|c: int| before.holds_at(c, k);
                            let c1 = if c < p { c } else { c - 1 };
                            assert(self.entries@[c1] == before.entries@[c]);
                            assert(self.holds_at(c1, k));
                        }
                    }
                    assert forall|k: Seq<char>| self@.dom().contains(k) implies self@[k]
                        == before@.remove(name@)[k] by {
                        let c = choose|c: int| self.holds_at(c, k);
                        let c0 = if c < p { c } else { c + 1 };
                        assert(self.entries@[c] == before.entries@[c0]);
                        self.lemma_view_at(c);
                        before.lemma_view_at(c0);
                    }
                    assert(self@ =~= before@.remove(name@));
                }
            },
            None => {
                assert(self@ =~= self@.remove(name@));
            },
        }
    }
}

/// The names that a module defines at its top level, each with its slot.
/// Slots are handed out in the order in which the names are first added.
#[derive(Debug, Clone)]
pub struct MutableNames {
    names: NameMap,
    count: usize,
}

impl MutableNames {
    /// The slot of each name.
    pub closed spec fn slots(&self) -> Map<Seq<char>, usize> {
        self.names@
    }

    /// How many slots have been handed out.
    pub closed spec fn count(&self) -> usize {
        self.count
    }

    /// The underlying table is well formed.
    pub closed spec fn wf(&self) -> bool {
        self.names.wf()
    }

    /// A table without names.
    pub fn new() -> (r: Self)
        ensures
            r.wf(),
            r.slots() == Map::<Seq<char>, usize>::empty(),
            r.count() == 0,
    {
        MutableNames { names: NameMap::new(), count: 0 }
    }

    /// The slot of `name`: the one it has, or else the next free one, which
    /// it then takes.
    pub fn add_name(&mut self, name: &str) -> (r: usize)
        requires
            old(self).wf(),
            old(self).count() < usize::MAX,
        ensures
            final(self).wf(),
            old(self).slots().dom().contains(name@) ==> {
                &&& r == old(self).slots()[name@]
                &&& final(self).slots() == old(self).slots()
                &&& final(self).count() == old(self).count()
            },
            !old(self).slots().dom().contains(name@) ==> {
                &&& r == old(self).count()
                &&& final(self).slots() == old(self).slots().insert(name@, r)
                &&& final(self).count() == old(self).count() + 1
            },
    {
        match self.names.get(name) {
            Some(slot) => slot,
            None => {
                let slot = self.count;
                self.count = slot + 1;
                self.names.insert(name, slot);
                slot
            },
        }
    }

    /// The slot of `name`, if the module defines it.
    pub fn get_name(&self, name: &str) -> (r: Option<usize>)
        requires
            self.wf(),
        ensures
            r == if self.slots().dom().contains(name@) {
                Some(self.slots()[name@])
            } else {
                None
            },
    {
        self.names.get(name)
    }

    /// The number of slots that the module needs.
    pub fn slot_count(&self) -> (r: usize)
        ensures
            r == self.count(),
    {
        self.count
    }
}

} // verus!
