//! The names that every module can see: built once, frozen, and shared.

use vstd::prelude::*;
use std::sync::Arc;
use itertools::Itertools;
use once_cell::sync::OnceCell;
use crate::collections::entries::{inserted, value_of, KeyModel};
use crate::collections::small_map::{text_key, SmallMap};
use crate::text::{joined, push_text, texts};
use crate::values::alloc_value::AllocFrozenValue;
use crate::values::display::repr_of;
use crate::values::layout::heap::{FrozenHeap, FrozenValueMem, Heap};
use crate::values::layout::value::{FrozenValue, Value};
use crate::values::types::containers::{ObjectGen, StructGen};

verus! {

/// `Itertools::join` over strings: the strings in a row with `sep` between
/// each two.
#[verifier::external_body]
fn join_with(parts: &Vec<String>, sep: &str) -> (r: String)
    ensures
        r@ == joined(texts(parts@), sep@),
{
    parts.iter().join(sep)
}

/// What a [`Globals`] shares: the heap of its values, and the value of each
/// name.
#[derive(Debug)]
pub struct GlobalsData {
    heap: Heap,
    variables: SmallMap<FrozenValue>,
}

/// The global names and their values. A copy shares them with what it was
/// copied from.
#[derive(Debug)]
pub struct Globals(Arc<GlobalsData>);

/// Gathers the global names, and the heap that their values live on.
#[derive(Debug)]
pub struct GlobalsBuilder {
    heap: FrozenHeap,
    variables: SmallMap<FrozenValue>,
    struct_fields: Option<SmallMap<FrozenValue>>,
}

/// How a global shows in a description: its name, ` = `, and its value as
/// the language prints it (nothing, where the value cannot be printed).
pub open spec fn described(heap: &Heap, name: Seq<char>, value: FrozenValue, fuel: nat) -> Seq<
    char,
> {
    name + " = "@ + match repr_of(heap, Value::of_frozen(value), fuel) {
        Some(text) => text,
        None => Seq::empty(),
    }
}

/// One line for each global, in their order: see [`described`].
pub open spec fn described_lines(
    heap: &Heap,
    variables: Seq<(KeyModel, FrozenValue)>,
    fuel: nat,
) -> Seq<Seq<char>> {
    Seq::new(variables.len(), |i: int| described(heap, variables[i].0.1, variables[i].1, fuel))
}

impl Globals {
    /// The value of each name, in the order in which the names were set.
    pub closed spec fn variables(&self) -> Seq<(KeyModel, FrozenValue)> {
        self.0.variables@
    }

    /// The heap that the values live on.
    pub closed spec fn heap_model(&self) -> Heap {
        self.0.heap
    }

    /// Globals without names.
    pub fn new() -> (r: Self)
        ensures
            r.variables() == Seq::<(KeyModel, FrozenValue)>::empty(),
    {
        GlobalsBuilder::new().build()
    }

    /// The value of a name, as a value.
    pub fn get(&self, name: &str) -> (r: Option<Value>)
        ensures
            r == match value_of(self.variables(), text_key(name@)) {
                Some(x) => Some(Value::of_frozen(x)),
                None => None,
            },
    {
        match self.get_frozen(name) {
            Some(x) => Some(x.to_value()),
            None => None,
        }
    }

    /// The value of a name.
    pub fn get_frozen(&self, name: &str) -> (r: Option<FrozenValue>)
        ensures
            r == value_of(self.variables(), text_key(name@)),
    {
        match self.0.variables.get(name) {
            Some(x) => Some(*x),
            None => None,
        }
    }

    /// The names, in the order in which they were set.
    pub fn names(&self) -> (r: Vec<String>)
        ensures
            texts(r@) == self.variables().map_values(|e: (KeyModel, FrozenValue)| e.0.1),
    {
        let keys = self.0.variables.keys();
        let ghost all = self.variables().map_values(|e: (KeyModel, FrozenValue)| e.0.1);
        let mut out: Vec<String> = Vec::with_capacity(keys.len());
        let mut i: usize = 0;
        while i < keys.len()
            invariant
                i <= keys@.len(),
                keys@.len() == all.len(),
                all == self.variables().map_values(|e: (KeyModel, FrozenValue)| e.0.1),
                forall|j: int| 0 <= j < keys@.len() ==> (#[trigger] keys@[j])@ == all[j],
                texts(out@) == all.take(i as int),
            decreases keys@.len() - i,
        {
            let ghost before = out@;
            let key = keys[i].clone();
            out.push(key);
            proof {
                assert(texts(out@) =~= texts(before).push(key@));
                assert(all.take(i + 1) =~= all.take(i as int).push(all[i as int]));
            }
            i += 1;
        }
        assert(all.take(i as int) =~= all);
        out
    }

    /// The heap that the values live on.
    pub fn heap(&self) -> (r: &FrozenHeap)
        ensures
            *r == self.heap_model().frozen(),
    {
        self.0.heap.frozen_heap()
    }

    /// One line for each name, in the order in which the names were set,
    /// with a line break between each two: see [`described`]. Values are
    /// printed as deep as the heap has entries.
    pub fn describe(&self) -> (r: String)
        ensures
            r@ == joined(
                described_lines(
                    &self.heap_model(),
                    self.variables(),
                    self.heap_model().depth(),
                ),
                "\n"@,
            ),
    {
        let entries = self.0.variables.iter();
        let fuel = self.0.heap.depth_limit();
        let ghost all = described_lines(&self.heap_model(), self.variables(), fuel as nat);
        let mut lines: Vec<String> = Vec::with_capacity(entries.len());
        let mut i: usize = 0;
        while i < entries.len()
            invariant
                i <= entries@.len(),
                entries@.len() == self.variables().len(),
                all == described_lines(&self.heap_model(), self.variables(), fuel as nat),
                forall|j: int|
                    0 <= j < entries@.len() ==> (#[trigger] entries@[j]).0@
                        == self.variables()[j].0.1 && *entries@[j].1 == self.variables()[j].1,
                texts(lines@) == all.take(i as int),
            decreases entries@.len() - i,
        {
            let ghost before = lines@;
            let mut line = String::new();
            push_text(&mut line, entries[i].0.as_str());
            push_text(&mut line, " = ");
            match self.0.heap.to_repr(entries[i].1.to_value(), fuel) {
                Some(text) => {
                    push_text(&mut line, text.as_str());
                },
                None => {},
            }
            assert(line@ =~= all[i as int]);
            lines.push(line);
            proof {
                assert(texts(lines@) =~= texts(before).push(line@));
                assert(all.take(i + 1) =~= all.take(i as int).push(all[i as int]));
            }
            i += 1;
        }
        assert(all.take(i as int) =~= all);
        join_with(&lines, "\n")
    }
}

impl Clone for Globals {
    /// A second handle on the same globals.
    fn clone(&self) -> (r: Self)
        ensures
            r.variables() == self.variables(),
            r.heap_model() == self.heap_model(),
    {
        Globals(share(&self.0))
    }
}

/// `Arc::clone`: a second handle on what the first one shares.
#[verifier::external_body]
fn share(data: &Arc<GlobalsData>) -> (r: Arc<GlobalsData>)
    ensures
        r == *data,
{
    Arc::clone(data)
}

impl GlobalsBuilder {
    /// The value of each name that was set outside a struct.
    pub closed spec fn variables(&self) -> Seq<(KeyModel, FrozenValue)> {
        self.variables@
    }

    /// The fields of the struct that is being built, if one is.
    pub closed spec fn struct_fields(&self) -> Option<Seq<(KeyModel, FrozenValue)>> {
        match self.struct_fields {
            Some(fields) => Some(fields@),
            None => None,
        }
    }

    /// The heap that the values live on.
    pub closed spec fn heap(&self) -> FrozenHeap {
        self.heap
    }

    /// A builder without names, over an empty heap.
    pub fn new() -> (r: Self)
        ensures
            r.variables() == Seq::<(KeyModel, FrozenValue)>::empty(),
            r.struct_fields() is None,
            r.heap().entries() == Seq::<FrozenValueMem>::empty(),
    {
        GlobalsBuilder { heap: FrozenHeap::new(), variables: SmallMap::new(), struct_fields: None }
    }

    /// Opens a struct: what is set from now on becomes a field of it. A
    /// struct cannot be opened inside another.
    pub fn begin_struct(&mut self)
        requires
            old(self).struct_fields() is None,
        ensures
            old(self).opened_as(*final(self)),
    {
        self.struct_fields = Some(SmallMap::new());
    }

    /// Closes the struct that is open, and sets `name` to it. Where none is
    /// open, `name` is set to a struct without fields.
    pub fn end_struct(&mut self, name: &str)
        requires
            old(self).heap().can_alloc(1),
        ensures
            exists|v: FrozenValue| #[trigger] old(self).closed_as(name@, v, *final(self)),
    {
        let mut taken: Option<SmallMap<FrozenValue>> = None;
        core::mem::swap(&mut self.struct_fields, &mut taken);
        let fields = match taken {
            Some(fields) => fields,
            None => SmallMap::new(),
        };
        let ghost before = self.heap.entries();
        let v = self.heap.alloc_simple(ObjectGen::Struct(StructGen { fields }));
        assert(self.heap.entries().drop_last() =~= before);
        self.variables.insert(name.to_owned(), v);
        assert(old(self).closed_as(name@, v, *self));
    }

    /// The builder `b` is this one with a struct opened that has no field
    /// yet.
    pub open spec fn opened_as(&self, b: GlobalsBuilder) -> bool {
        &&& b.struct_fields() == Some(Seq::<(KeyModel, FrozenValue)>::empty())
        &&& b.variables() == self.variables()
        &&& b.heap() == self.heap()
    }

    /// The builder `r` is this one with its struct closed: the struct is
    /// the value `v`, a new entry at the end of the frozen heap that holds
    /// the fields of the struct, and `name` is set to it.
    pub open spec fn closed_as(&self, name: Seq<char>, v: FrozenValue, r: GlobalsBuilder) -> bool {
        &&& r.struct_fields() is None
        &&& r.variables() == inserted(self.variables(), text_key(name), v)
        &&& v@ == crate::values::layout::pointer::PointerUnpack::Frozen(
            self.heap().entries().len() as u64,
        )
        &&& r.heap().entries().drop_last() == self.heap().entries()
        &&& r.heap().entries().len() == self.heap().entries().len() + 1
        &&& (r.heap().entries().last() matches FrozenValueMem::Simple(ObjectGen::Struct(s))
            && s.fields@ == (match self.struct_fields() {
            Some(fields) => fields,
            None => Seq::empty(),
        }))
    }

    /// Adds a struct of the names that `f` sets: what `f` sets on the
    /// builder it is given becomes a field of the struct, and `name` is set
    /// to the struct.
    pub fn struct_<F: FnOnce(GlobalsBuilder) -> GlobalsBuilder>(self, name: &str, f: F) -> (r: Self)
        requires
            self.struct_fields() is None,
            forall|b: GlobalsBuilder| self.opened_as(b) ==> call_requires(f, (b,)),
            forall|b: GlobalsBuilder, after: GlobalsBuilder|
                call_ensures(f, (b,), after) ==> after.heap().can_alloc(1),
        ensures
            exists|b: GlobalsBuilder, after: GlobalsBuilder, v: FrozenValue|
                self.opened_as(b) && #[trigger] call_ensures(f, (b,), after)
                    && #[trigger] after.closed_as(name@, v, r),
    {
        let mut me = self;
        me.begin_struct();
        let ghost b = me;
        let mut after = f(me);
        let ghost filled = after;
        after.end_struct(name);
        proof {
            let v = choose|v: FrozenValue| #[trigger] filled.closed_as(name@, v, after);
            assert(self.opened_as(b) && call_ensures(f, (b,), filled) && filled.closed_as(
                name@,
                v,
                after,
            ));
        }
        after
    }

    /// The builder after `f` had it.
    pub fn with<F: FnOnce(Self) -> Self>(self, f: F) -> (r: Self)
        requires
            call_requires(f, (self,)),
        ensures
            call_ensures(f, (self,), r),
    {
        f(self)
    }

    /// As [`GlobalsBuilder::struct_`].
    pub fn with_struct<F: FnOnce(GlobalsBuilder) -> GlobalsBuilder>(self, name: &str, f: F) -> (r:
        Self)
        requires
            self.struct_fields() is None,
            forall|b: GlobalsBuilder| self.opened_as(b) ==> call_requires(f, (b,)),
            forall|b: GlobalsBuilder, after: GlobalsBuilder|
                call_ensures(f, (b,), after) ==> after.heap().can_alloc(1),
        ensures
            exists|b: GlobalsBuilder, after: GlobalsBuilder, v: FrozenValue|
                self.opened_as(b) && #[trigger] call_ensures(f, (b,), after)
                    && #[trigger] after.closed_as(name@, v, r),
    {
        self.struct_(name, f)
    }

    /// The globals of the names that were set. A struct that is still open
    /// is dropped.
    pub fn build(self) -> (r: Globals)
        ensures
            r.variables() == self.variables(),
            r.heap_model().frozen() == self.heap(),
            r.heap_model().entries().len() == 0,
    {
        Globals(Arc::new(GlobalsData { heap: Heap::new(self.heap), variables: self.variables }))
    }

    /// Sets a name to a value of the host, which is put on the heap: as a
    /// global, or as a field of the struct that is open.
    pub fn set<A: AllocFrozenValue>(&mut self, name: &str, value: A)
        requires
            old(self).heap().can_alloc(value.frozen_cost()),
        ensures
            exists|v: FrozenValue| #[trigger]
                value.frozen_allocated(&old(self).heap(), &final(self).heap(), v) && (match old(self).struct_fields() {
                    None => final(self).variables() == inserted(
                        old(self).variables(),
                        text_key(name@),
                        v,
                    ) && final(self).struct_fields() is None,
                    Some(fields) => final(self).struct_fields() == Some(
                        inserted(fields, text_key(name@), v),
                    ) && final(self).variables() == old(self).variables(),
                }),
    {
        let v = value.alloc_frozen_value(&mut self.heap);
        let mut taken: Option<SmallMap<FrozenValue>> = None;
        core::mem::swap(&mut self.struct_fields, &mut taken);
        match taken {
            None => {
                self.variables.insert(name.to_owned(), v);
            },
            Some(fields) => {
                let mut fields = fields;
                fields.insert(name.to_owned(), v);
                self.struct_fields = Some(fields);
            },
        }
        assert(value.frozen_allocated(&old(self).heap(), &self.heap(), v));
    }

    /// Puts a value of the host on the heap of the builder, for values that
    /// are set later to refer to.
    pub fn alloc_frozen<A: AllocFrozenValue>(&mut self, value: A) -> (r: FrozenValue)
        requires
            old(self).heap().can_alloc(value.frozen_cost()),
        ensures
            value.frozen_allocated(&old(self).heap(), &final(self).heap(), r),
            final(self).variables() == old(self).variables(),
            final(self).struct_fields() == old(self).struct_fields(),
    {
        value.alloc_frozen_value(&mut self.heap)
    }
}

/// `once_cell::sync::OnceCell`: a cell that is written to once at most.
/// Nothing inside it is seen from here.
#[verifier::external_type_specification]
#[verifier::external_body]
#[verifier::reject_recursive_types(T)]
pub struct ExOnceCell<T>(OnceCell<T>);

/// `OnceCell::new`: a cell that nothing was put in yet.
#[verifier::external_body]
fn once_cell_new() -> (r: OnceCell<Globals>) {
    OnceCell::new()
}

/// `OnceCell::get`: what the cell holds, if anything was put in yet. What
/// that is depends on the calls that came before, so nothing is claimed of
/// the result.
#[verifier::external_body]
fn once_cell_get(cell: &OnceCell<Globals>) -> (r: Option<&Globals>) {
    cell.get()
}

/// `OnceCell::try_insert`: puts `value` into the cell where the cell is
/// empty. The result is what the cell holds from then on: `value`, or what
/// was there before. Which of the two cannot be told from the outside, so
/// nothing is claimed of the result.
#[verifier::external_body]
fn once_cell_try_insert(cell: &OnceCell<Globals>, value: Globals) -> (r: &Globals) {
    match cell.try_insert(value) {
        Ok(held) => held,
        Err((held, _)) => held,
    }
}

/// The members of a type of value: built when they are first asked for,
/// and the same ever after.
#[derive(Debug)]
pub struct GlobalsStatic(OnceCell<Globals>);

impl Globals {
    /// The number of names.
    pub fn len(&self) -> (r: usize)
        ensures
            r == self.variables().len(),
    {
        self.0.variables.len()
    }

    /// The value of the one name there is.
    pub fn single(&self) -> (r: FrozenValue)
        requires
            self.variables().len() == 1,
        ensures
            r == self.variables()[0].1,
    {
        match self.0.variables.get_index(0) {
            Some(e) => *e.1,
            None => FrozenValue::new_none(),
        }
    }

    /// The value of the one name, where there is exactly one name; nothing
    /// where there are none or several.
    pub fn only_member(&self) -> (r: Option<FrozenValue>)
        ensures
            r == if self.variables().len() == 1 {
                Some(self.variables()[0].1)
            } else {
                None
            },
    {
        if self.len() != 1 {
            None
        } else {
            Some(self.single())
        }
    }
}

impl GlobalsStatic {
    /// Members that are not built yet.
    pub fn new() -> (r: Self) {
        GlobalsStatic(once_cell_new())
    }

    /// What the cell holds. Where it holds nothing yet, the globals that
    /// `x` sets on a new builder are built and put into it; `x` is not
    /// called where the cell is filled.
    fn globals<F: FnOnce(GlobalsBuilder) -> GlobalsBuilder>(&self, x: F) -> (r: &Globals)
        requires
            forall|b: GlobalsBuilder|
                b.variables() == Seq::<(KeyModel, FrozenValue)>::empty() && b.struct_fields()
                    is None && b.heap().entries() == Seq::<FrozenValueMem>::empty()
                    ==> call_requires(x, (b,)),
    {
        match once_cell_get(&self.0) {
            Some(held) => held,
            None => once_cell_try_insert(&self.0, GlobalsBuilder::new().with(x).build()),
        }
    }

    /// The members: those that were built at the first call, by the `x` of
    /// that call. The result is never nothing.
    pub fn members<F: FnOnce(GlobalsBuilder) -> GlobalsBuilder>(&self, x: F) -> (r: Option<
        &Globals,
    >)
        requires
            forall|b: GlobalsBuilder|
                b.variables() == Seq::<(KeyModel, FrozenValue)>::empty() && b.struct_fields()
                    is None && b.heap().entries() == Seq::<FrozenValueMem>::empty()
                    ==> call_requires(x, (b,)),
        ensures
            r is Some,
    {
        Some(self.globals(x))
    }

    /// The one member there is, where the members are exactly one: what
    /// [`Globals::only_member`] gives for the members that the cell holds.
    pub fn function<F: FnOnce(GlobalsBuilder) -> GlobalsBuilder>(&self, x: F) -> (r: Option<
        FrozenValue,
    >)
        requires
            forall|b: GlobalsBuilder|
                b.variables() == Seq::<(KeyModel, FrozenValue)>::empty() && b.struct_fields()
                    is None && b.heap().entries() == Seq::<FrozenValueMem>::empty()
                    ==> call_requires(x, (b,)),
    {
        self.globals(x).only_member()
    }
}

} // verus!
