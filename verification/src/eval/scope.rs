//! Lexical scope resolution: which slot each name of a module, a function or
//! a comprehension lives in, and which slots an inner function takes from the
//! function around it.

use vstd::prelude::*;
use crate::environment::names::{MutableNames, NameMap};
use crate::eval::slots::{
    lemma_scoped_after, lemma_settles_capture, lemma_settles_pop, lemma_settles_push,
    lemma_settles_with_used, lemma_sound_add_names, lemma_sound_private_after, settles, sound,
    with_used,
};
use crate::text::texts;

verus! {

/// Whether a top-level name can be seen from other modules.
#[derive(Debug, Clone, Copy, PartialEq, Eq, Structural)]
pub enum Visibility {
    Public,
    Private,
}

/// Where a name was found.
#[derive(Debug, Clone, Copy, PartialEq, Eq, Structural)]
pub enum Slot {
    /// A slot of the module's own table.
    Module(usize),
    /// A slot of the innermost function's frame.
    Local(usize),
}

/// What one scope knows, as plain mathematics.
pub struct ScopeModel {
    pub used: usize,
    pub mp: Map<Seq<char>, usize>,
    pub parent: Seq<(usize, usize)>,
}

impl ScopeModel {
    /// A scope that uses no slot.
    pub open spec fn empty() -> ScopeModel {
        ScopeModel { used: 0, mp: Map::empty(), parent: Seq::empty() }
    }

    /// The scope after `name` has taken the next free slot, whatever it was
    /// bound to before.
    pub open spec fn bind_fresh(self, name: Seq<char>) -> ScopeModel {
        ScopeModel {
            used: (self.used + 1) as usize,
            mp: self.mp.insert(name, self.used),
            parent: self.parent,
        }
    }

    /// The scope after `name` was added: unchanged if it is bound already.
    pub open spec fn add_name(self, name: Seq<char>) -> ScopeModel {
        if self.mp.dom().contains(name) {
            self
        } else {
            self.bind_fresh(name)
        }
    }

    /// The scope after each of `names` was added, first to last.
    pub open spec fn add_names(self, names: Seq<Seq<char>>) -> ScopeModel
        decreases names.len(),
    {
        if names.len() == 0 {
            self
        } else {
            self.add_names(names.drop_last()).add_name(names.last())
        }
    }

    /// The scope after it took `name` from slot `from` of the scope around
    /// it.
    pub open spec fn copy_parent(self, from: usize, name: Seq<char>) -> ScopeModel {
        ScopeModel {
            used: (self.used + 1) as usize,
            mp: self.mp.insert(name, self.used),
            parent: self.parent.push((from, self.used)),
        }
    }

    /// The scope after one recorded binding was put back.
    pub open spec fn restore(self, undo: (Seq<char>, Option<usize>)) -> ScopeModel {
        ScopeModel {
            used: self.used,
            mp: match undo.1 {
                Some(slot) => self.mp.insert(undo.0, slot),
                None => self.mp.remove(undo.0),
            },
            parent: self.parent,
        }
    }

    /// The scope after all of `undo` was put back, last recorded first.
    pub open spec fn unscope(self, undo: Seq<(Seq<char>, Option<usize>)>) -> ScopeModel
        decreases undo.len(),
    {
        if undo.len() == 0 {
            self
        } else {
            self.restore(undo.last()).unscope(undo.drop_last())
        }
    }
}

/// The bindings that a comprehension shadowed, in the order in which it did.
#[derive(Debug, Clone)]
pub struct Unscope {
    undo: Vec<(String, Option<usize>)>,
}

impl View for Unscope {
    type V = Seq<(Seq<char>, Option<usize>)>;

    closed spec fn view(&self) -> Seq<(Seq<char>, Option<usize>)> {
        self.undo@.map_values(|e: (String, Option<usize>)| (e.0@, e.1))
    }
}

impl Unscope {
    /// A record of nothing.
    pub fn new() -> (r: Self)
        ensures
            r@ == Seq::<(Seq<char>, Option<usize>)>::empty(),
    {
        let r = Unscope { undo: Vec::new() };
        assert(r@ =~= Seq::<(Seq<char>, Option<usize>)>::empty());
        r
    }
}

/// The names of one function (or of the module's private part) and the slots
/// of its frame.
#[derive(Debug, Clone)]
pub struct ScopeNames {
    /// The number of slots this scope uses, those of parameters and of
    /// `parent` included. The next slot to hand out is `used`.
    pub used: usize,
    /// The names that are in this scope.
    pub mp: NameMap,
    /// Slots to copy from the scope around this one: (slot there, slot
    /// here). Module-level names are not copied.
    pub parent: Vec<(usize, usize)>,
}

impl View for ScopeNames {
    type V = ScopeModel;

    open spec fn view(&self) -> ScopeModel {
        ScopeModel { used: self.used, mp: self.mp@, parent: self.parent@ }
    }
}

impl ScopeNames {
    /// The name table is well formed.
    pub open spec fn wf(&self) -> bool {
        self.mp.wf()
    }

    /// A scope that uses no slot.
    pub fn new() -> (r: Self)
        ensures
            r.wf(),
            r@ == ScopeModel::empty(),
    {
        ScopeNames { used: 0, mp: NameMap::new(), parent: Vec::new() }
    }

    /// Takes `name` from slot `parent` of the scope around this one, into a
    /// fresh slot, which is returned.
    pub fn copy_parent(&mut self, parent: usize, name: &str) -> (r: usize)
        requires
            old(self).wf(),
            old(self).used < usize::MAX,
            !old(self)@.mp.dom().contains(name@),
        ensures
            final(self).wf(),
            final(self)@ == old(self)@.copy_parent(parent, name@),
            r == old(self).used,
    {
        let res = self.add_name(name);
        self.parent.push((parent, res));
        res
    }

    /// Hands out the next free slot.
    pub fn next_slot(&mut self) -> (r: usize)
        requires
            old(self).used < usize::MAX,
        ensures
            r == old(self).used,
            final(self).used == old(self).used + 1,
            final(self).mp == old(self).mp,
            final(self).parent == old(self).parent,
    {
        let res = self.used;
        self.used += 1;
        res
    }

    /// The slot of `name`: the one it has, or else a fresh one.
    pub fn add_name(&mut self, name: &str) -> (r: usize)
        requires
            old(self).wf(),
            old(self).used < usize::MAX || old(self)@.mp.dom().contains(name@),
        ensures
            final(self).wf(),
            final(self)@ == old(self)@.add_name(name@),
            r == final(self)@.mp[name@],
            final(self)@.mp.dom().contains(name@),
    {
        match self.mp.get(name) {
            Some(v) => v,
            None => {
                let slot = self.next_slot();
                self.mp.insert(name, slot);
                slot
            },
        }
    }

    /// Gives `name` a fresh slot for the time of a comprehension, and notes
    /// in `unscope` what it was bound to before.
    pub fn add_scoped(&mut self, name: &str, unscope: &mut Unscope) -> (r: usize)
        requires
            old(self).wf(),
            old(self).used < usize::MAX,
        ensures
            final(self).wf(),
            final(self)@ == old(self)@.bind_fresh(name@),
            r == old(self).used,
            final(unscope)@ == old(unscope)@.push(
                (
                    name@,
                    if old(self)@.mp.dom().contains(name@) {
                        Some(old(self)@.mp[name@])
                    } else {
                        None
                    },
                ),
            ),
    {
        let slot = self.next_slot();
        let undo = self.mp.insert(name, slot);
        let ghost before = unscope@;
        unscope.undo.push((name.to_owned(), undo));
        assert(unscope@ =~= before.push((name@, undo)));
        slot
    }

    /// Puts back what `unscope` recorded, last recorded first.
    pub fn unscope(&mut self, unscope: Unscope)
        requires
            old(self).wf(),
        ensures
            final(self).wf(),
            final(self)@ == old(self)@.unscope(unscope@),
    {
        let mut i: usize = unscope.undo.len();
        assert(unscope@.take(i as int) =~= unscope@);
        while i > 0
            invariant
                i <= unscope.undo@.len(),
                self.wf(),
                self@.unscope(unscope@.take(i as int)) == old(self)@.unscope(unscope@),
            decreases i,
        {
            let ghost before = self@;
            let ghost pending = unscope@.take(i as int);
            i -= 1;
            let name = unscope.undo[i].0.as_str();
            match unscope.undo[i].1 {
                None => {
                    self.mp.remove(name);
                },
                Some(v) => {
                    self.mp.insert(name, v);
                },
            }
            proof {
                assert(pending.last() == unscope@[i as int]);
                assert(pending.drop_last() =~= unscope@.take(i as int));
                assert(self@ == before.restore(pending.last()));
            }
        }
        assert(unscope@.take(0) =~= Seq::<(Seq<char>, Option<usize>)>::empty());
    }

    /// The slot of `name` in this scope, if it has one.
    pub fn get_name(&self, name: &str) -> (r: Option<usize>)
        requires
            self.wf(),
        ensures
            r == if self@.mp.dom().contains(name@) {
                Some(self@.mp[name@])
            } else {
                None
            },
    {
        self.mp.get(name)
    }
}

/// The names that a piece of code defines, each with its visibility, as
/// plain values.
pub open spec fn define_views(v: Seq<(String, Visibility)>) -> Seq<(Seq<char>, Visibility)> {
    v.map_values(|d: (String, Visibility)| (d.0@, d.1))
}

/// The module's table (slots and count) after the public names among
/// `defines` were added to it, first to last.
pub open spec fn module_after(
    slots: Map<Seq<char>, usize>,
    count: usize,
    defines: Seq<(Seq<char>, Visibility)>,
) -> (Map<Seq<char>, usize>, usize)
    decreases defines.len(),
{
    if defines.len() == 0 {
        (slots, count)
    } else {
        let prev = module_after(slots, count, defines.drop_last());
        let d = defines.last();
        if d.1 == Visibility::Public && !prev.0.dom().contains(d.0) {
            (prev.0.insert(d.0, prev.1), (prev.1 + 1) as usize)
        } else {
            prev
        }
    }
}

/// The scope after the private names among `defines` were added to it, first
/// to last.
pub open spec fn private_after(
    scope: ScopeModel,
    defines: Seq<(Seq<char>, Visibility)>,
) -> ScopeModel
    decreases defines.len(),
{
    if defines.len() == 0 {
        scope
    } else {
        let prev = private_after(scope, defines.drop_last());
        let d = defines.last();
        if d.1 == Visibility::Private {
            prev.add_name(d.0)
        } else {
            prev
        }
    }
}

/// A scope and the record of its comprehension after each of `vars` was
/// given a fresh slot, first to last.
pub open spec fn scoped_after(
    scope: ScopeModel,
    undo: Seq<(Seq<char>, Option<usize>)>,
    vars: Seq<Seq<char>>,
) -> (ScopeModel, Seq<(Seq<char>, Option<usize>)>)
    decreases vars.len(),
{
    if vars.len() == 0 {
        (scope, undo)
    } else {
        let prev = scoped_after(scope, undo, vars.drop_last());
        let name = vars.last();
        (
            prev.0.bind_fresh(name),
            prev.1.push(
                (
                    name,
                    if prev.0.mp.dom().contains(name) {
                        Some(prev.0.mp[name])
                    } else {
                        None
                    },
                ),
            ),
        )
    }
}

/// The index of the innermost scope that binds `name`, or -1 if none does.
pub open spec fn innermost(locals: Seq<ScopeModel>, name: Seq<char>) -> int
    decreases locals.len(),
{
    if locals.len() == 0 {
        -1
    } else if locals.last().mp.dom().contains(name) {
        locals.len() - 1
    } else {
        innermost(locals.drop_last(), name)
    }
}

/// The slot that `name` has in scope `j` once it was handed down from scope
/// `at`, which binds it, to every scope inside.
pub open spec fn slot_in(locals: Seq<ScopeModel>, name: Seq<char>, at: int, j: int) -> usize {
    if j == at {
        locals[at].mp[name]
    } else {
        locals[j].used
    }
}

/// The scopes after `name` was handed down from scope `at` to every scope
/// inside it: each of those takes it from the one around into a fresh slot.
pub open spec fn captured(locals: Seq<ScopeModel>, name: Seq<char>, at: int) -> Seq<ScopeModel> {
    Seq::new(
        locals.len(),
        |j: int|
            if j <= at {
                locals[j]
            } else {
                locals[j].copy_parent(slot_in(locals, name, at, j - 1), name)
            },
    )
}

/// What looking `name` up gives: a local slot where a function scope binds
/// it, else the module's slot, else nothing.
pub open spec fn resolve(
    locals: Seq<ScopeModel>,
    module: Map<Seq<char>, usize>,
    name: Seq<char>,
) -> Option<Slot> {
    let at = innermost(locals, name);
    if at >= 0 {
        Some(Slot::Local(slot_in(locals, name, at, locals.len() - 1)))
    } else if module.dom().contains(name) {
        Some(Slot::Module(module[name]))
    } else {
        None
    }
}

/// `innermost` finds the last scope that binds the name.
pub proof fn lemma_innermost(locals: Seq<ScopeModel>, name: Seq<char>)
    ensures
        -1 <= innermost(locals, name) < locals.len(),
        innermost(locals, name) >= 0 ==> locals[innermost(locals, name)].mp.dom().contains(name),
        forall|j: int|
            innermost(locals, name) < j < locals.len() ==> !(#[trigger] locals[j]).mp.dom().contains(
                name,
            ),
    decreases locals.len(),
{
    if locals.len() > 0 && !locals.last().mp.dom().contains(name) {
        let rest = locals.drop_last();
        lemma_innermost(rest, name);
        assert forall|j: int| innermost(locals, name) < j < locals.len() implies !(
        #[trigger] locals[j]).mp.dom().contains(name) by {
            if j < rest.len() {
                assert(rest[j] == locals[j]);
            }
        }
        if innermost(locals, name) >= 0 {
            assert(rest[innermost(rest, name)] == locals[innermost(locals, name)]);
        }
    }
}

/// The resolver's state: the module's names, a stack of function scopes (the
/// first holds the module's private names and its top-level comprehension
/// variables), and a stack of comprehension records. With each record goes
/// the index of the scope that the comprehension was entered in.
pub struct Scope {
    module: MutableNames,
    locals: Vec<ScopeNames>,
    unscopes: Vec<Unscope>,
    owners: Ghost<Seq<int>>,
}

impl Scope {
    /// The stack of function scopes, outermost first.
    pub closed spec fn locals(&self) -> Seq<ScopeModel> {
        self.locals@.map_values(|s: ScopeNames| s@)
    }

    /// The stack of comprehension records, outermost first.
    pub closed spec fn unscopes(&self) -> Seq<Seq<(Seq<char>, Option<usize>)>> {
        self.unscopes@.map_values(|u: Unscope| u@)
    }

    /// For each open comprehension, outermost first, the index of the
    /// function scope that it was entered in.
    pub closed spec fn frame_scopes(&self) -> Seq<int> {
        self.owners@
    }

    /// The slots of every scope are in order, or will be once the open
    /// comprehensions are closed: see [`settles`].
    pub open spec fn settled(&self) -> bool {
        settles(self.locals(), self.unscopes(), self.frame_scopes())
    }

    /// The slots of the module's public names.
    pub closed spec fn module_slots(&self) -> Map<Seq<char>, usize> {
        self.module.slots()
    }

    /// The number of slots of the module's table.
    pub closed spec fn module_count(&self) -> usize {
        self.module.count()
    }

    /// Every table of the state is well formed.
    pub closed spec fn wf(&self) -> bool {
        &&& self.module.wf()
        &&& forall|i: int| 0 <= i < self.locals@.len() ==> (#[trigger] self.locals@[i]).wf()
    }

    /// No open comprehension was entered in the innermost scope.
    pub open spec fn closed_within(&self) -> bool {
        forall|i: int|
            0 <= i < self.frame_scopes().len() ==> #[trigger] self.frame_scopes()[i]
                != self.locals().len() - 1
    }

    /// The innermost open comprehension was entered in the innermost scope.
    pub open spec fn open_within(&self) -> bool {
        self.frame_scopes().len() > 0 && self.frame_scopes().last() == self.locals().len() - 1
    }

    /// Every scope inside the innermost one that binds `name` has a slot
    /// left to take it into.
    pub open spec fn has_room(&self, name: Seq<char>) -> bool {
        let at = innermost(self.locals(), name);
        at >= 0 ==> forall|j: int|
            at < j < self.locals().len() ==> (#[trigger] self.locals()[j]).used < usize::MAX
    }

    /// Starts on a module whose top level defines `defines`: the public ones
    /// get slots of `module`, the private ones slots of the first scope.
    pub fn enter_module(module: MutableNames, defines: &Vec<(String, Visibility)>) -> (r: Self)
        requires
            module.wf(),
            module.count() + defines@.len() <= usize::MAX,
        ensures
            r.wf(),
            (r.module_slots(), r.module_count()) == module_after(
                module.slots(),
                module.count(),
                define_views(defines@),
            ),
            r.locals() == seq![private_after(ScopeModel::empty(), define_views(defines@))],
            r.unscopes() == Seq::<Seq<(Seq<char>, Option<usize>)>>::empty(),
            r.frame_scopes() == Seq::<int>::empty(),
            r.settled(),
    {
        let mut module = module;
        let ghost start = module;
        let mut module_private = ScopeNames::new();
        let mut i: usize = 0;
        while i < defines.len()
            invariant
                i <= defines@.len(),
                module.wf(),
                module_private.wf(),
                start.count() + defines@.len() <= usize::MAX,
                module.count() <= start.count() + i,
                module_private.used <= i,
                (module.slots(), module.count()) == module_after(
                    start.slots(),
                    start.count(),
                    define_views(defines@).take(i as int),
                ),
                module_private@ == private_after(
                    ScopeModel::empty(),
                    define_views(defines@).take(i as int),
                ),
            decreases defines@.len() - i,
        {
            proof {
                let now = define_views(defines@).take(i + 1);
                assert(now.drop_last() =~= define_views(defines@).take(i as int));
                assert(now.last() == (defines@[i as int].0@, defines@[i as int].1));
            }
            let name = defines[i].0.as_str();
            match defines[i].1 {
                Visibility::Public => {
                    module.add_name(name);
                },
                Visibility::Private => {
                    module_private.add_name(name);
                },
            }
            i += 1;
        }
        assert(define_views(defines@).take(i as int) =~= define_views(defines@));
        let mut locals = Vec::new();
        locals.push(module_private);
        let r = Scope { module, locals, unscopes: Vec::new(), owners: Ghost(Seq::empty()) };
        assert(r.locals() =~= seq![module_private@]);
        assert(r.unscopes() =~= Seq::<Seq<(Seq<char>, Option<usize>)>>::empty());
        proof {
            lemma_sound_private_after(ScopeModel::empty(), define_views(defines@));
        }
        r
    }

    /// The names of the module, as they are now.
    pub fn module(&self) -> (r: &MutableNames)
        ensures
            r.slots() == self.module_slots(),
            r.count() == self.module_count(),
            self.wf() ==> r.wf(),
    {
        &self.module
    }

    /// Ends the module: the number of module slots and the number of slots
    /// of the first scope.
    pub fn exit_module(self) -> (r: (usize, usize))
        requires
            self.locals().len() == 1,
            self.unscopes().len() == 0,
            self.locals()[0].parent.len() == 0,
        ensures
            r == (self.module_count(), self.locals()[0].used),
    {
        let mut me = self;
        let scope = me.locals.pop().unwrap();
        (me.module.slot_count(), scope.used)
    }

    /// Enters a function with parameters `params` whose body defines
    /// `defines`. The parameters take the first slots, in their order.
    pub fn enter_def(&mut self, params: &Vec<String>, defines: &Vec<String>)
        requires
            old(self).wf(),
            params@.len() + defines@.len() <= usize::MAX,
        ensures
            final(self).wf(),
            final(self).locals() == old(self).locals().push(
                ScopeModel::empty().add_names(texts(params@)).add_names(texts(defines@)),
            ),
            final(self).unscopes() == old(self).unscopes(),
            final(self).frame_scopes() == old(self).frame_scopes(),
            old(self).settled() ==> final(self).settled(),
            final(self).module_slots() == old(self).module_slots(),
            final(self).module_count() == old(self).module_count(),
    {
        let mut names = ScopeNames::new();
        let mut i: usize = 0;
        while i < params.len()
            invariant
                i <= params@.len(),
                names.wf(),
                names.used <= i,
                names@ == ScopeModel::empty().add_names(texts(params@).take(i as int)),
            decreases params@.len() - i,
        {
            proof {
                let now = texts(params@).take(i + 1);
                assert(now.drop_last() =~= texts(params@).take(i as int));
                assert(now.last() == params@[i as int]@);
            }
            names.add_name(params[i].as_str());
            i += 1;
        }
        assert(texts(params@).take(i as int) =~= texts(params@));
        let ghost after_params = names@;
        let mut k: usize = 0;
        while k < defines.len()
            invariant
                k <= defines@.len(),
                names.wf(),
                names.used <= params@.len() + k,
                params@.len() + defines@.len() <= usize::MAX,
                names@ == after_params.add_names(texts(defines@).take(k as int)),
            decreases defines@.len() - k,
        {
            proof {
                let now = texts(defines@).take(k + 1);
                assert(now.drop_last() =~= texts(defines@).take(k as int));
                assert(now.last() == defines@[k as int]@);
            }
            names.add_name(defines[k].as_str());
            k += 1;
        }
        assert(texts(defines@).take(k as int) =~= texts(defines@));
        let ghost before = self.locals();
        self.locals.push(names);
        assert(self.locals() =~= before.push(names@));
        proof {
            let with_params = ScopeModel::empty().add_names(texts(params@));
            lemma_sound_add_names(ScopeModel::empty(), texts(params@));
            lemma_sound_add_names(with_params, texts(defines@));
            if old(self).settled() {
                lemma_settles_push(before, self.unscopes(), self.frame_scopes(), names@);
            }
        }
    }

    /// Leaves the innermost function and hands its scope out. Where the
    /// comprehensions that were entered in it are all closed, its slots are
    /// in order: see [`sound`].
    pub fn exit_def(&mut self) -> (r: ScopeNames)
        requires
            old(self).wf(),
            old(self).locals().len() > 0,
        ensures
            final(self).wf(),
            r.wf(),
            r@ == old(self).locals().last(),
            final(self).locals() == old(self).locals().drop_last(),
            final(self).unscopes() == old(self).unscopes(),
            final(self).frame_scopes() == old(self).frame_scopes(),
            old(self).settled() && old(self).closed_within() ==> sound(r@) && final(self).settled(),
            final(self).module_slots() == old(self).module_slots(),
            final(self).module_count() == old(self).module_count(),
    {
        let ghost before = self.locals();
        let r = self.locals.pop().unwrap();
        assert(self.locals() =~= before.drop_last());
        proof {
            if old(self).settled() && old(self).closed_within() {
                lemma_settles_pop(before, self.unscopes(), self.frame_scopes());
            }
        }
        r
    }

    /// Enters a comprehension, in the innermost scope.
    pub fn enter_compr(&mut self)
        ensures
            old(self).wf() ==> final(self).wf(),
            final(self).locals() == old(self).locals(),
            final(self).unscopes() == old(self).unscopes().push(Seq::empty()),
            final(self).frame_scopes() == old(self).frame_scopes().push(
                old(self).locals().len() - 1,
            ),
            old(self).settled() && old(self).locals().len() > 0 ==> final(self).settled(),
            final(self).module_slots() == old(self).module_slots(),
            final(self).module_count() == old(self).module_count(),
    {
        let ghost before = self.unscopes();
        let ghost owners = self.owners@;
        self.unscopes.push(Unscope::new());
        self.owners = Ghost(owners.push(self.locals().len() - 1));
        assert(self.unscopes() =~= before.push(Seq::empty()));
        proof {
            if old(self).settled() && old(self).locals().len() > 0 {
                let o = self.locals().len() - 1;
                let f = self.unscopes().last();
                assert(f =~= Seq::<(Seq<char>, Option<usize>)>::empty());
                assert(self.locals().update(o, self.locals()[o].unscope(f)) =~= self.locals());
                assert(self.unscopes().drop_last() =~= before);
                assert(self.frame_scopes().drop_last() =~= owners);
            }
        }
    }

    /// Binds the variables `vars` of the innermost comprehension: each gets
    /// a fresh slot of the innermost scope, and what it shadows is recorded.
    pub fn add_compr(&mut self, vars: &Vec<String>)
        requires
            old(self).wf(),
            old(self).locals().len() > 0,
            old(self).unscopes().len() > 0,
            old(self).locals().last().used + vars@.len() <= usize::MAX,
        ensures
            final(self).wf(),
            final(self).locals() == old(self).locals().drop_last().push(
                scoped_after(old(self).locals().last(), old(self).unscopes().last(), texts(vars@)).0,
            ),
            final(self).unscopes() == old(self).unscopes().drop_last().push(
                scoped_after(old(self).locals().last(), old(self).unscopes().last(), texts(vars@)).1,
            ),
            final(self).frame_scopes() == old(self).frame_scopes(),
            old(self).settled() && old(self).open_within() ==> final(self).settled(),
            final(self).module_slots() == old(self).module_slots(),
            final(self).module_count() == old(self).module_count(),
    {
        let ghost locals0 = self.locals();
        let ghost unscopes0 = self.unscopes();
        let mut scope = self.locals.pop().unwrap();
        let mut unscope = self.unscopes.pop().unwrap();
        assert(self.locals() =~= locals0.drop_last());
        assert(self.unscopes() =~= unscopes0.drop_last());
        let ghost scope0 = scope@;
        let ghost unscope0 = unscope@;
        let mut i: usize = 0;
        while i < vars.len()
            invariant
                i <= vars@.len(),
                scope.wf(),
                scope0.used + vars@.len() <= usize::MAX,
                scope.used == scope0.used + i,
                (scope@, unscope@) == scoped_after(scope0, unscope0, texts(vars@).take(i as int)),
            decreases vars@.len() - i,
        {
            proof {
                let now = texts(vars@).take(i + 1);
                assert(now.drop_last() =~= texts(vars@).take(i as int));
                assert(now.last() == vars@[i as int]@);
            }
            scope.add_scoped(vars[i].as_str(), &mut unscope);
            i += 1;
        }
        assert(texts(vars@).take(i as int) =~= texts(vars@));
        self.locals.push(scope);
        self.unscopes.push(unscope);
        assert(self.locals() =~= locals0.drop_last().push(scope@));
        assert(self.unscopes() =~= unscopes0.drop_last().push(unscope@));
        proof {
            if old(self).settled() && old(self).open_within() {
                let o = locals0.len() - 1;
                let owners = self.frame_scopes();
                let closed0 = locals0.update(o, scope0.unscope(unscope0));
                lemma_scoped_after(scope0, unscope0, texts(vars@));
                crate::eval::slots::lemma_unscope_used(scope0, unscope0);
                lemma_settles_with_used(
                    closed0,
                    unscopes0.drop_last(),
                    owners.drop_last(),
                    o,
                    scope@.used,
                );
                assert(self.unscopes().drop_last() =~= unscopes0.drop_last());
                assert(self.locals().update(o, self.locals()[o].unscope(self.unscopes().last()))
                    =~= closed0.update(o, with_used(closed0[o], scope@.used)));
            }
        }
    }

    /// Leaves the innermost comprehension: the innermost scope gets back
    /// the bindings that the comprehension shadowed.
    pub fn exit_compr(&mut self)
        requires
            old(self).wf(),
            old(self).locals().len() > 0,
            old(self).unscopes().len() > 0,
        ensures
            final(self).wf(),
            final(self).locals() == old(self).locals().drop_last().push(
                old(self).locals().last().unscope(old(self).unscopes().last()),
            ),
            final(self).unscopes() == old(self).unscopes().drop_last(),
            final(self).frame_scopes() == old(self).frame_scopes().drop_last(),
            old(self).settled() && old(self).open_within() ==> final(self).settled(),
            final(self).module_slots() == old(self).module_slots(),
            final(self).module_count() == old(self).module_count(),
    {
        let ghost locals0 = self.locals();
        let ghost unscopes0 = self.unscopes();
        let ghost owners = self.owners@;
        let mut scope = self.locals.pop().unwrap();
        let unscope = self.unscopes.pop().unwrap();
        assert(self.locals() =~= locals0.drop_last());
        assert(self.unscopes() =~= unscopes0.drop_last());
        scope.unscope(unscope);
        self.locals.push(scope);
        self.owners = Ghost(owners.drop_last());
        assert(self.locals() =~= locals0.drop_last().push(scope@));
        proof {
            if old(self).settled() && old(self).open_within() {
                let o = locals0.len() - 1;
                assert(self.locals() =~= locals0.update(o, locals0[o].unscope(unscopes0.last())));
            }
        }
    }

    /// Looks `name` up, innermost scope first. Found in a function scope, it
    /// is handed down to every scope inside that one, each of which records
    /// from which slot of the scope around it takes it; the result is its
    /// slot in the innermost scope. Found in no function scope, it is looked
    /// up in the module.
    pub fn get_name(&mut self, name: &str) -> (r: Option<Slot>)
        requires
            old(self).wf(),
            old(self).has_room(name@),
        ensures
            final(self).wf(),
            r == resolve(old(self).locals(), old(self).module_slots(), name@),
            final(self).locals() == if innermost(old(self).locals(), name@) >= 0 {
                captured(old(self).locals(), name@, innermost(old(self).locals(), name@))
            } else {
                old(self).locals()
            },
            final(self).unscopes() == old(self).unscopes(),
            final(self).frame_scopes() == old(self).frame_scopes(),
            old(self).settled() ==> final(self).settled(),
            final(self).module_slots() == old(self).module_slots(),
            final(self).module_count() == old(self).module_count(),
    {
        let ghost locals0 = self.locals();
        let n = self.locals.len();
        let mut i: usize = n;
        while i > 0
            invariant
                i <= n,
                n == self.locals@.len(),
                self.wf(),
                self.locals() == locals0,
                self.unscopes == old(self).unscopes,
                self.owners == old(self).owners,
                self.module == old(self).module,
                old(self).has_room(name@),
                locals0 == old(self).locals(),
                forall|j: int| i <= j < n ==> !(#[trigger] locals0[j]).mp.dom().contains(name@),
            decreases i,
        {
            i -= 1;
            assert(locals0[i as int] == self.locals@[i as int]@);
            if let Some(found) = self.locals[i].get_name(name) {
                proof {
                    lemma_innermost(locals0, name@);
                    let at = innermost(locals0, name@);
                    if at < i {
                        assert(!locals0[i as int].mp.dom().contains(name@));
                    }
                    if at > i {
                        assert(!locals0[at].mp.dom().contains(name@));
                    }
                    assert(at == i);
                }
                let mut v = found;
                let mut j: usize = i + 1;
                while j < n
                    invariant
                        i < j <= n,
                        n == self.locals@.len(),
                        n == locals0.len(),
                        self.wf(),
                        self.unscopes == old(self).unscopes,
                        self.owners == old(self).owners,
                        self.module == old(self).module,
                        old(self).settled() ==> self.settled(),
                        v == slot_in(locals0, name@, i as int, j - 1),
                        forall|k: int| i < k < n ==> (#[trigger] locals0[k]).used < usize::MAX,
                        forall|k: int|
                            i < k < n ==> !(#[trigger] locals0[k]).mp.dom().contains(name@),
                        forall|k: int|
                            0 <= k < n ==> (#[trigger] self.locals()[k]) == if k < j {
                                captured(locals0, name@, i as int)[k]
                            } else {
                                locals0[k]
                            },
                    decreases n - j,
                {
                    let ghost before = self.locals();
                    assert(before[j as int] == self.locals@[j as int]@);
                    assert(!locals0[j as int].mp.dom().contains(name@));
                    let ghost from = v;
                    let mut scope = self.locals.remove(j);
                    v = scope.copy_parent(v, name);
                    self.locals.insert(j, scope);
                    proof {
                        assert(self.locals() =~= before.update(
                            j as int,
                            before[j as int].copy_parent(from, name@),
                        ));
                        if old(self).settled() {
                            lemma_settles_capture(
                                before,
                                self.unscopes(),
                                self.frame_scopes(),
                                j as int,
                                from,
                                name@,
                            );
                        }
                        assert forall|k: int| 0 <= k < n implies (#[trigger] self.locals()[k]) == if k
                            < j + 1 {
                            captured(locals0, name@, i as int)[k]
                        } else {
                            locals0[k]
                        } by {
                            if k != j {
                                assert(self.locals()[k] == before[k]);
                            }
                        }
                    }
                    j += 1;
                }
                assert(self.locals() =~= captured(locals0, name@, i as int));
                return Some(Slot::Local(v));
            }
        }
        proof {
            lemma_innermost(locals0, name@);
            let at = innermost(locals0, name@);
            if at >= 0 {
                assert(!locals0[at].mp.dom().contains(name@));
            }
        }
        match self.module.get_name(name) {
            None => None,
            Some(v) => Some(Slot::Module(v)),
        }
    }

    /// Looks up a name that is known to be bound.
    pub fn get_name_or_panic(&mut self, name: &str) -> (r: Slot)
        requires
            old(self).wf(),
            old(self).has_room(name@),
            resolve(old(self).locals(), old(self).module_slots(), name@) is Some,
        ensures
            final(self).wf(),
            Some(r) == resolve(old(self).locals(), old(self).module_slots(), name@),
            final(self).locals() == if innermost(old(self).locals(), name@) >= 0 {
                captured(old(self).locals(), name@, innermost(old(self).locals(), name@))
            } else {
                old(self).locals()
            },
            final(self).unscopes() == old(self).unscopes(),
            final(self).frame_scopes() == old(self).frame_scopes(),
            old(self).settled() ==> final(self).settled(),
            final(self).module_slots() == old(self).module_slots(),
            final(self).module_count() == old(self).module_count(),
    {
        self.get_name(name).unwrap()
    }
}

/// Adding names keeps every binding that was there.
pub proof fn lemma_add_names_keeps(scope: ScopeModel, names: Seq<Seq<char>>, name: Seq<char>)
    requires
        scope.mp.dom().contains(name),
    ensures
        scope.add_names(names).mp.dom().contains(name),
        scope.add_names(names).mp[name] == scope.mp[name],
    decreases names.len(),
{
    if names.len() > 0 {
        lemma_add_names_keeps(scope, names.drop_last(), name);
    }
}

/// Distinct names added to an empty scope get the slots of their positions.
pub proof fn lemma_add_distinct_names(names: Seq<Seq<char>>)
    requires
        names.no_duplicates(),
        names.len() <= usize::MAX,
    ensures
        ScopeModel::empty().add_names(names).used == names.len(),
        forall|k: Seq<char>|
            ScopeModel::empty().add_names(names).mp.dom().contains(k) <==> names.contains(k),
        forall|i: int|
            0 <= i < names.len() ==> ScopeModel::empty().add_names(names).mp[#[trigger] names[i]]
                == i,
    decreases names.len(),
{
    let after = ScopeModel::empty().add_names(names);
    if names.len() > 0 {
        let rest = names.drop_last();
        let prev = ScopeModel::empty().add_names(rest);
        lemma_add_distinct_names(rest);
        assert(!rest.contains(names.last())) by {
            if rest.contains(names.last()) {
                let j = choose|j: int| 0 <= j < rest.len() && rest[j] == names.last();
                assert(names[j] == names[names.len() - 1]);
            }
        }
        assert forall|k: Seq<char>| after.mp.dom().contains(k) <==> names.contains(k) by {
            if names.contains(k) {
                let j = choose|j: int| 0 <= j < names.len() && names[j] == k;
                if j < rest.len() {
                    assert(rest[j] == k);
                }
            }
            if rest.contains(k) {
                let j = choose|j: int| 0 <= j < rest.len() && rest[j] == k;
                assert(names[j] == k);
            }
            if k == names.last() {
                assert(names[names.len() - 1] == k);
            }
        }
        assert forall|i: int| 0 <= i < names.len() implies after.mp[#[trigger] names[i]] == i by {
            if i < rest.len() {
                assert(rest[i] == names[i]);
                assert(rest.contains(names[i]));
            }
        }
    } else {
        assert forall|k: Seq<char>| after.mp.dom().contains(k) <==> names.contains(k) by {}
    }
}

/// A name that the function around binds, and the innermost function does
/// not, resolves to the next free slot of the innermost function, which
/// takes it from the slot that the name has around: the scope of the
/// innermost function notes the pair of the two slots, binds the name to
/// its own, and has used one slot more. The scopes around stay as they
/// were.
pub proof fn law_name_is_taken_from_the_scope_around(
    locals: Seq<ScopeModel>,
    module: Map<Seq<char>, usize>,
    name: Seq<char>,
)
    requires
        locals.len() >= 2,
        locals[locals.len() - 2].mp.dom().contains(name),
        !locals.last().mp.dom().contains(name),
    ensures
        innermost(locals, name) == locals.len() - 2,
        resolve(locals, module, name) == Some(Slot::Local(locals.last().used)),
        captured(locals, name, locals.len() - 2).drop_last() == locals.drop_last(),
        captured(locals, name, locals.len() - 2).last() == locals.last().copy_parent(
            locals[locals.len() - 2].mp[name],
            name,
        ),
        locals.last().copy_parent(locals[locals.len() - 2].mp[name], name).parent
            == locals.last().parent.push((locals[locals.len() - 2].mp[name], locals.last().used)),
        locals.last().copy_parent(locals[locals.len() - 2].mp[name], name).mp[name]
            == locals.last().used,
{
    let at = locals.len() - 2;
    assert(locals.drop_last().last() == locals[at]);
    assert(innermost(locals.drop_last(), name) == at);
    assert(captured(locals, name, at).drop_last() =~= locals.drop_last());
}

/// Inside a function whose parameters are distinct, each parameter resolves
/// to the local slot that has the number of its position, whatever else the
/// body defines and whatever scopes lie around.
pub proof fn law_parameter_resolves_to_its_position(
    locals: Seq<ScopeModel>,
    module: Map<Seq<char>, usize>,
    params: Seq<Seq<char>>,
    defines: Seq<Seq<char>>,
    i: int,
)
    requires
        params.no_duplicates(),
        params.len() <= usize::MAX,
        0 <= i < params.len(),
    ensures
        resolve(
            locals.push(ScopeModel::empty().add_names(params).add_names(defines)),
            module,
            params[i],
        ) == Some(Slot::Local(i as usize)),
        captured(
            locals.push(ScopeModel::empty().add_names(params).add_names(defines)),
            params[i],
            locals.len() as int,
        ) == locals.push(ScopeModel::empty().add_names(params).add_names(defines)),
{
    let inner = ScopeModel::empty().add_names(params);
    let top = inner.add_names(defines);
    let stack = locals.push(top);
    lemma_add_distinct_names(params);
    assert(params.contains(params[i]));
    lemma_add_names_keeps(inner, defines, params[i]);
    assert(stack.last() == top);
    assert(innermost(stack, params[i]) == locals.len());
    assert(captured(stack, params[i], locals.len() as int) =~= stack);
}

} // verus!
