//! Equality of values: by what they are, not by where they live.

use vstd::prelude::*;
use crate::text::same_text;
use crate::values::display::{struct_fields, Shape};
use crate::values::layout::access::{as_values, to_values, ARef};
use crate::values::layout::heap::Heap;
use crate::values::layout::value::{Value, ValueLike};
use crate::values::types::containers::ObjectGen;

verus! {

/// Whether two values are equal, following containers `fuel` deep; nothing
/// where that is not deep enough or where one of them is no value. None,
/// booleans, integers and strings are equal to their like. Lists are equal
/// to lists and tuples to tuples of as many elements that are equal one by
/// one. A struct is equal to a struct of as many fields that has, under
/// each name of the first, an equal value; a dict is equal to a dict of as
/// many entries that has, under a key equal to each key of the first, an
/// equal value. Values of different kinds are not equal.
pub open spec fn equal_values(heap: &Heap, a: Value, b: Value, fuel: nat) -> Option<bool>
    decreases fuel, 0nat, 0nat,
{
    match (heap.aref(a@), heap.aref(b@)) {
        (None, _) => None,
        (_, None) => None,
        (Some(ARef::NoneValue), Some(ARef::NoneValue)) => Some(true),
        (Some(ARef::Bool(x)), Some(ARef::Bool(y))) => Some(x == y),
        (Some(ARef::Int(x)), Some(ARef::Int(y))) => Some(x == y),
        (Some(ARef::Str(x)), Some(ARef::Str(y))) => Some(x@ == y@),
        _ => match (heap.shape_of(a), heap.shape_of(b)) {
            (Some(x), Some(y)) => if fuel == 0 {
                None
            } else {
                equal_shapes(heap, x, y, (fuel - 1) as nat)
            },
            _ => Some(false),
        },
    }
}

/// Whether two containers are equal.
pub open spec fn equal_shapes(heap: &Heap, x: Shape, y: Shape, fuel: nat) -> Option<bool>
    decreases fuel, 4nat, 0nat,
{
    match (x, y) {
        (Shape::List(xs), Shape::List(ys)) => if xs.len() != ys.len() {
            Some(false)
        } else {
            equal_items(heap, xs, ys, fuel)
        },
        (Shape::Tuple(xs), Shape::Tuple(ys)) => if xs.len() != ys.len() {
            Some(false)
        } else {
            equal_items(heap, xs, ys, fuel)
        },
        (Shape::Struct(xs), Shape::Struct(ys)) => if xs.len() != ys.len() {
            Some(false)
        } else {
            equal_fields(heap, xs, ys, fuel)
        },
        (Shape::Dict(xs), Shape::Dict(ys)) => if xs.len() != ys.len() {
            Some(false)
        } else {
            equal_entries(heap, xs, ys, fuel)
        },
        _ => Some(false),
    }
}

/// Whether the values of two lists of equal length are equal one by one:
/// the first pair that is not, or cannot be compared, decides.
pub open spec fn equal_items(heap: &Heap, xs: Seq<Value>, ys: Seq<Value>, fuel: nat) -> Option<bool>
    decreases fuel, 3nat, xs.len(),
{
    if xs.len() == 0 || ys.len() == 0 {
        Some(true)
    } else {
        match equal_values(heap, xs[0], ys[0], fuel) {
            Some(true) => equal_items(heap, xs.drop_first(), ys.drop_first(), fuel),
            other => other,
        }
    }
}

/// The first field of the given name at or behind `from`, if there is one.
pub open spec fn field_from(ys: Seq<(Seq<char>, Value)>, name: Seq<char>, from: int) -> Option<
    Value,
>
    decreases ys.len() - from,
{
    if from < 0 || from >= ys.len() {
        None
    } else if ys[from].0 == name {
        Some(ys[from].1)
    } else {
        field_from(ys, name, from + 1)
    }
}

/// Whether each field of `xs` has an equal value under its name in `ys`:
/// the first that has none, or an unequal one, or one that cannot be
/// compared, decides.
pub open spec fn equal_fields(
    heap: &Heap,
    xs: Seq<(Seq<char>, Value)>,
    ys: Seq<(Seq<char>, Value)>,
    fuel: nat,
) -> Option<bool>
    decreases fuel, 3nat, xs.len(),
{
    if xs.len() == 0 {
        Some(true)
    } else {
        match field_from(ys, xs[0].0, 0) {
            None => Some(false),
            Some(v) => match equal_values(heap, xs[0].1, v, fuel) {
                Some(true) => equal_fields(heap, xs.drop_first(), ys, fuel),
                other => other,
            },
        }
    }
}

/// The value under the first key at or behind `from` that has the hash
/// `hash` and is equal to `key`: `Some(None)` where there is none, nothing
/// where a key cannot be compared.
pub open spec fn entry_from(
    heap: &Heap,
    ys: Seq<(u32, Value, Value)>,
    hash: u32,
    key: Value,
    from: int,
    fuel: nat,
) -> Option<Option<Value>>
    decreases fuel, 1nat, ys.len() - from,
{
    if from < 0 || from >= ys.len() {
        Some(None)
    } else if ys[from].0 != hash {
        entry_from(heap, ys, hash, key, from + 1, fuel)
    } else {
        match equal_values(heap, key, ys[from].1, fuel) {
            None => None,
            Some(true) => Some(Some(ys[from].2)),
            Some(false) => entry_from(heap, ys, hash, key, from + 1, fuel),
        }
    }
}

/// Whether each entry of `xs` has an equal value under an equal key in
/// `ys`.
pub open spec fn equal_entries(
    heap: &Heap,
    xs: Seq<(u32, Value, Value)>,
    ys: Seq<(u32, Value, Value)>,
    fuel: nat,
) -> Option<bool>
    decreases fuel, 3nat, xs.len(),
{
    if xs.len() == 0 {
        Some(true)
    } else {
        match entry_from(heap, ys, xs[0].0, xs[0].1, 0, fuel) {
            None => None,
            Some(None) => Some(false),
            Some(Some(v)) => match equal_values(heap, xs[0].2, v, fuel) {
                Some(true) => equal_entries(heap, xs.drop_first(), ys, fuel),
                other => other,
            },
        }
    }
}

/// What a container holds, copied out.
pub enum ShapeOf {
    List(Vec<Value>),
    Tuple(Vec<Value>),
    Dict(Vec<(u32, Value, Value)>),
    Struct(Vec<(String, Value)>),
}

impl View for ShapeOf {
    type V = Shape;

    open spec fn view(&self) -> Shape {
        match self {
            ShapeOf::List(items) => Shape::List(items@),
            ShapeOf::Tuple(items) => Shape::Tuple(items@),
            ShapeOf::Dict(entries) => Shape::Dict(entries@),
            ShapeOf::Struct(fields) => Shape::Struct(
                fields@.map_values(|f: (String, Value)| (f.0@, f.1)),
            ),
        }
    }
}

impl<T: ValueLike> ObjectGen<T> {
    /// What the container holds, copied out.
    pub fn copy_shape(&self) -> (r: ShapeOf)
        ensures
            r@ == self.shape(),
    {
        match self {
            ObjectGen::List(l) => ShapeOf::List(to_values(&l.content)),
            ObjectGen::Tuple(t) => ShapeOf::Tuple(to_values(&t.content)),
            ObjectGen::Dict(_) => ShapeOf::Dict(self.dict_items().unwrap()),
            ObjectGen::Struct(s) => {
                let fields = s.fields.iter();
                let ghost all = struct_fields(s.fields@);
                let mut out: Vec<(String, Value)> = Vec::with_capacity(fields.len());
                let mut i: usize = 0;
                while i < fields.len()
                    invariant
                        i <= fields@.len(),
                        fields@.len() == all.len(),
                        all == struct_fields(s.fields@),
                        forall|j: int|
                            0 <= j < fields@.len() ==> (#[trigger] fields@[j]).0@ == all[j].0
                                && fields@[j].1.spec_to_value() == all[j].1,
                        out@.map_values(|f: (String, Value)| (f.0@, f.1)) == all.take(i as int),
                    decreases fields@.len() - i,
                {
                    let ghost before = out@;
                    let item = (fields[i].0.clone(), fields[i].1.to_value());
                    out.push(item);
                    proof {
                        assert(out@.map_values(|f: (String, Value)| (f.0@, f.1))
                            =~= before.map_values(|f: (String, Value)| (f.0@, f.1)).push(
                            (item.0@, item.1),
                        ));
                        assert(all.take(i + 1) =~= all.take(i as int).push(all[i as int]));
                    }
                    i += 1;
                }
                assert(all.take(i as int) =~= all);
                ShapeOf::Struct(out)
            },
        }
    }
}

impl Heap {
    /// What the container that a value is holds, copied out.
    pub fn copy_shape(&self, v: Value) -> (r: Option<ShapeOf>)
        ensures
            match r {
                Some(shape) => self.shape_of(v) == Some(shape@),
                None => self.shape_of(v) is None,
            },
    {
        match self.get_aref(v) {
            Some(ARef::Frozen(obj)) => Some(obj.copy_shape()),
            Some(ARef::Live(obj)) => Some(obj.copy_shape()),
            _ => None,
        }
    }

    /// Computes [`equal_values`].
    pub fn equals(&self, a: Value, b: Value, fuel: usize) -> (r: Option<bool>)
        ensures
            r == equal_values(self, a, b, fuel as nat),
        decreases fuel, 0nat, 0nat,
    {
        match (self.get_aref(a), self.get_aref(b)) {
            (None, _) => None,
            (_, None) => None,
            (Some(ARef::NoneValue), Some(ARef::NoneValue)) => Some(true),
            (Some(ARef::Bool(x)), Some(ARef::Bool(y))) => Some(x == y),
            (Some(ARef::Int(x)), Some(ARef::Int(y))) => Some(x == y),
            (Some(ARef::Str(x)), Some(ARef::Str(y))) => Some(same_text(x.as_str(), y.as_str())),
            _ => match (self.copy_shape(a), self.copy_shape(b)) {
                (Some(x), Some(y)) => {
                    if fuel == 0 {
                        None
                    } else {
                        self.equal_shapes(&x, &y, fuel - 1)
                    }
                },
                _ => Some(false),
            },
        }
    }

    /// Computes [`equal_shapes`].
    fn equal_shapes(&self, x: &ShapeOf, y: &ShapeOf, fuel: usize) -> (r: Option<bool>)
        ensures
            r == equal_shapes(self, x@, y@, fuel as nat),
        decreases fuel, 4nat, 0nat,
    {
        match (x, y) {
            (ShapeOf::List(xs), ShapeOf::List(ys)) => {
                if xs.len() != ys.len() {
                    Some(false)
                } else {
                    self.equal_items(xs, ys, fuel)
                }
            },
            (ShapeOf::Tuple(xs), ShapeOf::Tuple(ys)) => {
                if xs.len() != ys.len() {
                    Some(false)
                } else {
                    self.equal_items(xs, ys, fuel)
                }
            },
            (ShapeOf::Struct(xs), ShapeOf::Struct(ys)) => {
                if xs.len() != ys.len() {
                    Some(false)
                } else {
                    self.equal_fields(xs, ys, fuel)
                }
            },
            (ShapeOf::Dict(xs), ShapeOf::Dict(ys)) => {
                if xs.len() != ys.len() {
                    Some(false)
                } else {
                    self.equal_entries(xs, ys, fuel)
                }
            },
            _ => Some(false),
        }
    }

    /// Computes [`equal_items`].
    fn equal_items(&self, xs: &Vec<Value>, ys: &Vec<Value>, fuel: usize) -> (r: Option<bool>)
        requires
            xs@.len() == ys@.len(),
        ensures
            r == equal_items(self, xs@, ys@, fuel as nat),
        decreases fuel, 3nat, 0nat,
    {
        let mut i: usize = 0;
        assert(xs@.subrange(0, xs@.len() as int) =~= xs@);
        assert(ys@.subrange(0, ys@.len() as int) =~= ys@);
        while i < xs.len()
            invariant
                i <= xs@.len(),
                xs@.len() == ys@.len(),
                equal_items(self, xs@, ys@, fuel as nat) == equal_items(
                    self,
                    xs@.subrange(i as int, xs@.len() as int),
                    ys@.subrange(i as int, ys@.len() as int),
                    fuel as nat,
                ),
            decreases fuel, 2nat, xs@.len() - i,
        {
            proof {
                let rx = xs@.subrange(i as int, xs@.len() as int);
                let ry = ys@.subrange(i as int, ys@.len() as int);
                assert(rx[0] == xs@[i as int]);
                assert(ry[0] == ys@[i as int]);
                assert(rx.drop_first() =~= xs@.subrange(i + 1, xs@.len() as int));
                assert(ry.drop_first() =~= ys@.subrange(i + 1, ys@.len() as int));
            }
            match self.equals(xs[i], ys[i], fuel) {
                Some(true) => {},
                other => {
                    return other;
                },
            }
            i += 1;
        }
        Some(true)
    }

    /// Computes [`field_from`] from the first field on.
    fn find_field(ys: &Vec<(String, Value)>, name: &str) -> (r: Option<Value>)
        ensures
            r == field_from(ys@.map_values(|f: (String, Value)| (f.0@, f.1)), name@, 0),
    {
        let ghost all = ys@.map_values(|f: (String, Value)| (f.0@, f.1));
        let mut i: usize = 0;
        while i < ys.len()
            invariant
                i <= ys@.len(),
                all == ys@.map_values(|f: (String, Value)| (f.0@, f.1)),
                field_from(all, name@, 0) == field_from(all, name@, i as int),
            decreases ys@.len() - i,
        {
            assert(all[i as int] == (ys@[i as int].0@, ys@[i as int].1));
            if same_text(ys[i].0.as_str(), name) {
                return Some(ys[i].1);
            }
            i += 1;
        }
        None
    }

    /// Computes [`equal_fields`].
    fn equal_fields(&self, xs: &Vec<(String, Value)>, ys: &Vec<(String, Value)>, fuel: usize) -> (r:
        Option<bool>)
        ensures
            r == equal_fields(
                self,
                xs@.map_values(|f: (String, Value)| (f.0@, f.1)),
                ys@.map_values(|f: (String, Value)| (f.0@, f.1)),
                fuel as nat,
            ),
        decreases fuel, 3nat, 0nat,
    {
        let ghost fx = xs@.map_values(|f: (String, Value)| (f.0@, f.1));
        let ghost fy = ys@.map_values(|f: (String, Value)| (f.0@, f.1));
        let mut i: usize = 0;
        assert(fx.subrange(0, fx.len() as int) =~= fx);
        while i < xs.len()
            invariant
                i <= xs@.len(),
                fx == xs@.map_values(|f: (String, Value)| (f.0@, f.1)),
                fy == ys@.map_values(|f: (String, Value)| (f.0@, f.1)),
                equal_fields(self, fx, fy, fuel as nat) == equal_fields(
                    self,
                    fx.subrange(i as int, fx.len() as int),
                    fy,
                    fuel as nat,
                ),
            decreases fuel, 2nat, xs@.len() - i,
        {
            proof {
                let rx = fx.subrange(i as int, fx.len() as int);
                assert(rx[0] == (xs@[i as int].0@, xs@[i as int].1));
                assert(rx.drop_first() =~= fx.subrange(i + 1, fx.len() as int));
            }
            match Self::find_field(ys, xs[i].0.as_str()) {
                None => {
                    return Some(false);
                },
                Some(v) => match self.equals(xs[i].1, v, fuel) {
                    Some(true) => {},
                    other => {
                        return other;
                    },
                },
            }
            i += 1;
        }
        Some(true)
    }

    /// Computes [`entry_from`] from the first entry on.
    fn find_entry(&self, ys: &Vec<(u32, Value, Value)>, hash: u32, key: Value, fuel: usize) -> (r:
        Option<Option<Value>>)
        ensures
            r == entry_from(self, ys@, hash, key, 0, fuel as nat),
        decreases fuel, 1nat, 0nat,
    {
        let mut i: usize = 0;
        while i < ys.len()
            invariant
                i <= ys@.len(),
                entry_from(self, ys@, hash, key, 0, fuel as nat) == entry_from(
                    self,
                    ys@,
                    hash,
                    key,
                    i as int,
                    fuel as nat,
                ),
            decreases fuel, 0nat, ys@.len() - i,
        {
            if ys[i].0 == hash {
                match self.equals(key, ys[i].1, fuel) {
                    None => {
                        return None;
                    },
                    Some(true) => {
                        return Some(Some(ys[i].2));
                    },
                    Some(false) => {},
                }
            }
            i += 1;
        }
        Some(None)
    }

    /// Computes [`equal_entries`].
    fn equal_entries(
        &self,
        xs: &Vec<(u32, Value, Value)>,
        ys: &Vec<(u32, Value, Value)>,
        fuel: usize,
    ) -> (r: Option<bool>)
        ensures
            r == equal_entries(self, xs@, ys@, fuel as nat),
        decreases fuel, 3nat, 0nat,
    {
        let mut i: usize = 0;
        assert(xs@.subrange(0, xs@.len() as int) =~= xs@);
        while i < xs.len()
            invariant
                i <= xs@.len(),
                equal_entries(self, xs@, ys@, fuel as nat) == equal_entries(
                    self,
                    xs@.subrange(i as int, xs@.len() as int),
                    ys@,
                    fuel as nat,
                ),
            decreases fuel, 2nat, xs@.len() - i,
        {
            proof {
                let rx = xs@.subrange(i as int, xs@.len() as int);
                assert(rx[0] == xs@[i as int]);
                assert(rx.drop_first() =~= xs@.subrange(i + 1, xs@.len() as int));
            }
            match self.find_entry(ys, xs[i].0, xs[i].1, fuel) {
                None => {
                    return None;
                },
                Some(None) => {
                    return Some(false);
                },
                Some(Some(v)) => match self.equals(xs[i].2, v, fuel) {
                    Some(true) => {},
                    other => {
                        return other;
                    },
                },
            }
            i += 1;
        }
        Some(true)
    }

    /// The place of the first of `items` that is equal to `needle`:
    /// `Some(None)` where none is, nothing where one cannot be compared.
    pub open spec fn position_from(
        &self,
        items: Seq<Value>,
        needle: Value,
        from: int,
        fuel: nat,
    ) -> Option<Option<int>>
        decreases items.len() - from,
    {
        if from < 0 || from >= items.len() {
            Some(None)
        } else {
            match equal_values(self, items[from], needle, fuel) {
                None => None,
                Some(true) => Some(Some(from)),
                Some(false) => self.position_from(items, needle, from + 1, fuel),
            }
        }
    }

    /// The place of the first element of the list `v` that is equal to
    /// `needle`: see [`Heap::position_from`]. A value that is no list has no
    /// such element.
    pub fn position(&self, v: Value, needle: Value, fuel: usize) -> (r: Option<Option<usize>>)
        ensures
            match self.list_of(v@) {
                Some(items) => match self.position_from(items, needle, 0, fuel as nat) {
                    None => r is None,
                    Some(None) => r == Some(None::<usize>),
                    Some(Some(i)) => r == Some(Some(i as usize)),
                },
                None => r == Some(None::<usize>),
            },
    {
        let items = match self.get_aref(v) {
            Some(ARef::Live(ObjectGen::List(l))) => {
                assert(as_values(l.content@) =~= l.content@);
                l.iter()
            },
            Some(ARef::Frozen(ObjectGen::List(l))) => l.iter(),
            _ => {
                return Some(None);
            },
        };
        let mut i: usize = 0;
        while i < items.len()
            invariant
                i <= items@.len(),
                self.list_of(v@) == Some(items@),
                self.position_from(items@, needle, 0, fuel as nat) == self.position_from(
                    items@,
                    needle,
                    i as int,
                    fuel as nat,
                ),
            decreases items@.len() - i,
        {
            match self.equals(items[i], needle, fuel) {
                None => {
                    return None;
                },
                Some(true) => {
                    return Some(Some(i));
                },
                Some(false) => {},
            }
            i += 1;
        }
        Some(None)
    }

    /// Whether an element of the list or tuple `v`, or a key of the dict
    /// `v`, is equal to `needle`; nothing where one cannot be compared.
    pub fn is_in(&self, v: Value, needle: Value, fuel: usize) -> (r: Option<bool>)
        ensures
            match self.items_of(v@) {
                Some(items) => match self.position_from(items, needle, 0, fuel as nat) {
                    None => r is None,
                    Some(None) => r == Some(false),
                    Some(Some(_)) => r == Some(true),
                },
                None => r == Some(false),
            },
    {
        let items = match self.iterate(v) {
            Some(items) => items,
            None => {
                return Some(false);
            },
        };
        let mut i: usize = 0;
        while i < items.len()
            invariant
                i <= items@.len(),
                self.items_of(v@) == Some(items@),
                self.position_from(items@, needle, 0, fuel as nat) == self.position_from(
                    items@,
                    needle,
                    i as int,
                    fuel as nat,
                ),
            decreases items@.len() - i,
        {
            match self.equals(items[i], needle, fuel) {
                None => {
                    return None;
                },
                Some(true) => {
                    return Some(true);
                },
                Some(false) => {},
            }
            i += 1;
        }
        Some(false)
    }
}

impl crate::values::types::containers::ListGen<Value> {
    /// The place of the first element that is equal to `needle`: see
    /// [`Heap::position_from`].
    pub fn position(&self, needle: Value, heap: &Heap, fuel: usize) -> (r: Option<Option<usize>>)
        ensures
            match heap.position_from(self.content@, needle, 0, fuel as nat) {
                None => r is None,
                Some(None) => r == Some(None::<usize>),
                Some(Some(i)) => r == Some(Some(i as usize)),
            },
    {
        let mut i: usize = 0;
        while i < self.content.len()
            invariant
                i <= self.content@.len(),
                heap.position_from(self.content@, needle, 0, fuel as nat) == heap.position_from(
                    self.content@,
                    needle,
                    i as int,
                    fuel as nat,
                ),
            decreases self.content@.len() - i,
        {
            match heap.equals(self.content[i], needle, fuel) {
                None => {
                    return None;
                },
                Some(true) => {
                    return Some(Some(i));
                },
                Some(false) => {},
            }
            i += 1;
        }
        Some(None)
    }
}

} // verus!
