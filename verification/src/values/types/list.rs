//! The list type: a sequence of values that can grow and change.

use vstd::prelude::*;
use core::marker::PhantomData;
use crate::eval::parameters::UnpackValue;
use crate::values::alloc_value::AllocValue;
use crate::values::error::ValueError;
use crate::values::layout::heap::Heap;
use crate::values::layout::pointer::PointerUnpack;
use crate::values::types::containers::ObjectGen;
use crate::values::layout::access::{as_values, to_values};
use crate::values::layout::value::{Value, ValueLike};
use crate::values::types::containers::{List, ListGen};

verus! {

/// The place in a sequence of `len` elements that an index of the language
/// names: a negative index counts from the end.
pub open spec fn index_in(index: int, len: int) -> Option<int> {
    if 0 <= index < len {
        Some(index)
    } else if -len <= index < 0 {
        Some(index + len)
    } else {
        None
    }
}

/// Computes [`index_in`]; an index outside the sequence is an error.
pub fn convert_index(index: i32, len: usize) -> (r: Result<usize, ValueError>)
    ensures
        match r {
            Ok(i) => index_in(index as int, len as int) == Some(i as int),
            Err(e) => index_in(index as int, len as int) is None && e
                == ValueError::IndexOutOfBound(index),
        },
{
    if index >= 0 {
        let i = index as usize;
        if i < len {
            Ok(i)
        } else {
            Err(ValueError::IndexOutOfBound(index))
        }
    } else {
        let back = (-(index as i64)) as u64;
        if back <= len as u64 {
            Ok(len - back as usize)
        } else {
            Err(ValueError::IndexOutOfBound(index))
        }
    }
}

/// `times` copies of `items` in a row; none for a count below one.
pub open spec fn repeated(items: Seq<Value>, times: int) -> Seq<Value>
    decreases times,
{
    if times <= 0 {
        Seq::empty()
    } else {
        repeated(items, times - 1) + items
    }
}

impl<T: ValueLike> ListGen<T> {
    /// A list of the given elements.
    pub fn new(content: Vec<T>) -> (r: Self)
        ensures
            r.content == content,
    {
        ListGen { content }
    }

    /// The number of elements.
    pub fn len(&self) -> (r: usize)
        ensures
            r == self.content@.len(),
    {
        self.content.len()
    }

    /// The elements as values, first to last.
    pub fn iter(&self) -> (r: Vec<Value>)
        ensures
            r@ == as_values(self.content@),
    {
        to_values(&self.content)
    }

    /// A list is true if it has an element.
    pub fn to_bool(&self) -> (r: bool)
        ensures
            r == (self.content@.len() > 0),
    {
        !(self.content.len() == 0)
    }

    /// The element at an index of the language.
    pub fn at(&self, index: i32) -> (r: Result<Value, ValueError>)
        ensures
            match r {
                Ok(v) => index_in(index as int, self.content@.len() as int) matches Some(i) && v
                    == self.content@[i].spec_to_value(),
                Err(e) => index_in(index as int, self.content@.len() as int) is None && e
                    == ValueError::IndexOutOfBound(index),
            },
    {
        match convert_index(index, self.content.len()) {
            Ok(i) => Ok(self.content[i].to_value()),
            Err(e) => Err(e),
        }
    }

    /// The elements of this list followed by `other`.
    pub fn concat(&self, other: &Vec<Value>) -> (r: Vec<Value>)
        requires
            self.content@.len() + other@.len() <= usize::MAX,
        ensures
            r@ == as_values(self.content@) + other@,
    {
        let mut result: Vec<Value> = Vec::with_capacity(self.content.len() + other.len());
        let mut i: usize = 0;
        while i < self.content.len()
            invariant
                i <= self.content@.len(),
                result@ == as_values(self.content@).take(i as int),
            decreases self.content@.len() - i,
        {
            result.push(self.content[i].to_value());
            assert(result@ =~= as_values(self.content@).take(i + 1));
            i += 1;
        }
        assert(as_values(self.content@).take(i as int) =~= as_values(self.content@));
        let mut k: usize = 0;
        while k < other.len()
            invariant
                k <= other@.len(),
                result@ == as_values(self.content@) + other@.take(k as int),
            decreases other@.len() - k,
        {
            result.push(other[k]);
            assert(result@ =~= as_values(self.content@) + other@.take(k + 1));
            k += 1;
        }
        assert(other@.take(k as int) =~= other@);
        result
    }

    /// The elements of this list `times` times in a row.
    pub fn repeat(&self, times: i32) -> (r: Vec<Value>)
        ensures
            r@ == repeated(as_values(self.content@), times as int),
    {
        let mut result: Vec<Value> = Vec::new();
        let mut done: i32 = 0;
        while done < times
            invariant
                0 <= done,
                done <= times || (times < 0 && done == 0),
                result@ == repeated(as_values(self.content@), done as int),
            decreases times - done,
        {
            let ghost before = result@;
            let mut i: usize = 0;
            while i < self.content.len()
                invariant
                    i <= self.content@.len(),
                    result@ == before + as_values(self.content@).take(i as int),
                decreases self.content@.len() - i,
            {
                result.push(self.content[i].to_value());
                assert(result@ =~= before + as_values(self.content@).take(i + 1));
                i += 1;
            }
            assert(as_values(self.content@).take(i as int) =~= as_values(self.content@));
            done += 1;
        }
        proof {
            if times < 0 {
                assert(repeated(as_values(self.content@), 0) =~= repeated(
                    as_values(self.content@),
                    times as int,
                ));
            }
        }
        result
    }
}

impl ListGen<Value> {
    /// Appends an element.
    pub fn push(&mut self, value: Value)
        ensures
            final(self).content@ == old(self).content@.push(value),
    {
        self.content.push(value);
    }

    /// Appends the elements of `other`, first to last.
    pub fn extend(&mut self, other: Vec<Value>)
        ensures
            final(self).content@ == old(self).content@ + other@,
    {
        let mut other = other;
        self.content.append(&mut other);
    }

    /// Takes every element out.
    pub fn clear(&mut self)
        ensures
            final(self).content@ == Seq::<Value>::empty(),
    {
        self.content.clear();
    }
}

/// The number of heap entries that the elements of a list take.
pub open spec fn items_cost<T: AllocValue>(s: Seq<T>) -> nat
    decreases s.len(),
{
    if s.len() == 0 {
        0
    } else {
        items_cost(s.drop_last()) + s.last().cost()
    }
}

impl<T: AllocValue> AllocValue for Vec<T> {
    open spec fn cost(&self) -> nat {
        items_cost(self@) + 1
    }

    open spec fn allocated(&self, before: &Heap, after: &Heap, r: Value) -> bool {
        r@ == PointerUnpack::Mutable((after.entries().len() - 1) as u64) && (after.list_of(r@) matches Some(
            items,
        ) && items.len() == self@.len() && forall|i: int|
            0 <= i < items.len() ==> (#[trigger] items[i]).is_proper())
    }

    /// A list of the values that the elements become, in their order.
    fn alloc_value(self, heap: &mut Heap) -> (r: Value) {
        let mut rest = self;
        let n = rest.len();
        let mut rev: Vec<T> = Vec::with_capacity(n);
        while rest.len() > 0
            invariant
                self@.len() == n,
                rev@.len() + rest@.len() == n,
                rest@ == self@.take(rest@.len() as int),
                forall|j: int| 0 <= j < rev@.len() ==> (#[trigger] rev@[j]) == self@[n - 1 - j],
            decreases rest@.len(),
        {
            let e = rest.pop().unwrap();
            rev.push(e);
        }
        let ghost rev0 = rev@;
        let mut content: Vec<Value> = Vec::with_capacity(n);
        assert(self@.take(0) =~= Seq::<T>::empty());
        assert(heap.entries().take(heap.entries().len() as int) =~= heap.entries());
        while rev.len() > 0
            invariant
                rev0.len() == n,
                self@.len() == n,
                rev@.len() <= n,
                rev@ == rev0.take(rev@.len() as int),
                forall|j: int| 0 <= j < n ==> (#[trigger] rev0[j]) == self@[n - 1 - j],
                content@.len() == n - rev@.len(),
                forall|j: int| 0 <= j < content@.len() ==> (#[trigger] content@[j]).is_proper(),
                heap.frozen() == old(heap).frozen(),
                heap.entries().len() == old(heap).entries().len() + items_cost(
                    self@.take(n - rev@.len()),
                ),
                heap.entries().take(old(heap).entries().len() as int) == old(heap).entries(),
                old(heap).can_alloc(items_cost(self@) + 1),
            decreases rev@.len(),
        {
            let ghost done = n - rev@.len();
            let ghost mid = *heap;
            let e = rev.pop().unwrap();
            proof {
                let now = self@.take(done + 1);
                assert(now.drop_last() =~= self@.take(done));
                assert(now.last() == e);
                lemma_items_cost_take(self@, done + 1);
            }
            let v = e.alloc_value(heap);
            content.push(v);
            proof {
                assert(heap.entries().take(old(heap).entries().len() as int)
                    =~= mid.entries().take(old(heap).entries().len() as int)) by {
                    assert(heap.entries().take(mid.entries().len() as int) == mid.entries());
                    assert forall|k: int| 0 <= k < old(heap).entries().len() implies heap.entries()[k]
                        == mid.entries()[k] by {
                        assert(heap.entries().take(mid.entries().len() as int)[k]
                            == heap.entries()[k]);
                    }
                }
            }
        }
        assert(self@.take(n as int) =~= self@);
        let ghost before_list = heap.entries();
        let r = heap.alloc_complex(ObjectGen::List(ListGen { content }));
        assert(heap.entries().take(old(heap).entries().len() as int) =~= before_list.take(
            old(heap).entries().len() as int,
        ));
        r
    }
}

/// The cost of the first elements is no more than the cost of all.
pub proof fn lemma_items_cost_take<T: AllocValue>(s: Seq<T>, upto: int)
    requires
        0 <= upto <= s.len(),
    ensures
        items_cost(s.take(upto)) <= items_cost(s),
    decreases s.len() - upto,
{
    if upto < s.len() {
        assert(s.take(upto + 1).drop_last() =~= s.take(upto));
        lemma_items_cost_take(s, upto + 1);
    } else {
        assert(s.take(upto) =~= s);
    }
}

impl<T: UnpackValue> UnpackValue for Vec<T> {
    open spec fn unpacks(value: Value, heap: &Heap, r: Option<Self>) -> bool {
        match r {
            Some(v) => heap.items_of(value@) matches Some(items) && v@.len() == items.len()
                && forall|i: int|
                0 <= i < items.len() ==> T::unpacks(#[trigger] items[i], heap, Some(v@[i])),
            None => heap.items_of(value@) is Some ==> exists|i: int|
                0 <= i < heap.items_of(value@)->0.len() && #[trigger] T::unpacks(
                    heap.items_of(value@)->0[i],
                    heap,
                    None,
                ),
        }
    }

    proof fn lemma_one_reading(value: Value, heap: &Heap, a: Option<Self>, b: Option<Self>) {
        if a is Some && b is None {
            let items = heap.items_of(value@)->0;
            let i = choose|i: int|
                0 <= i < items.len() && #[trigger] T::unpacks(items[i], heap, None);
            assert(T::unpacks(items[i], heap, Some(a->0@[i])));
            T::lemma_one_reading(items[i], heap, Some(a->0@[i]), None);
        }
        if b is Some && a is None {
            let items = heap.items_of(value@)->0;
            let i = choose|i: int|
                0 <= i < items.len() && #[trigger] T::unpacks(items[i], heap, None);
            assert(T::unpacks(items[i], heap, Some(b->0@[i])));
            T::lemma_one_reading(items[i], heap, Some(b->0@[i]), None);
        }
    }

    /// The elements of a value that can be iterated over, each read as a
    /// `T`. One that is no `T` spoils it all.
    fn unpack_value(value: Value, heap: &Heap) -> (r: Option<Self>) {
        let items = match heap.iterate(value) {
            Some(items) => items,
            None => {
                return None;
            },
        };
        let mut out: Vec<T> = Vec::with_capacity(items.len());
        let mut i: usize = 0;
        while i < items.len()
            invariant
                i <= items@.len(),
                out@.len() == i,
                heap.items_of(value@) == Some(items@),
                forall|j: int| 0 <= j < i ==> T::unpacks(#[trigger] items@[j], heap, Some(out@[j])),
            decreases items@.len() - i,
        {
            match T::unpack_value(items[i], heap) {
                Some(x) => {
                    out.push(x);
                },
                None => {
                    proof {
                        let all = heap.items_of(value@)->0;
                        assert(all == items@);
                        assert(0 <= i < all.len() && T::unpacks(all[i as int], heap, None::<T>));
                        assert(Vec::<T>::unpacks(value, heap, None::<Vec<T>>));
                    }
                    return None;
                },
            }
            i += 1;
        }
        Some(out)
    }
}

/// A value that was found to be a list of `T`s. The elements are not kept:
/// [`ListOf::to_vec`] reads them when they are wanted.
#[derive(Debug)]
pub struct ListOf<T> {
    value: Value,
    phantom: PhantomData<T>,
}

impl<T: UnpackValue> ListOf<T> {
    /// The value.
    pub closed spec fn value(&self) -> Value {
        self.value
    }

    /// The value is a list on `heap` whose elements can each be read as a
    /// `T`.
    pub open spec fn fits(value: Value, heap: &Heap) -> bool {
        heap.list_of(value@) matches Some(items) && forall|i: int|
            0 <= i < items.len() ==> !T::unpacks(#[trigger] items[i], heap, None)
    }

    /// The value.
    pub fn get(&self) -> (r: Value)
        ensures
            r == self.value(),
    {
        self.value
    }

    /// The elements, each read as a `T`; nothing where the heap has changed
    /// so that the value is no list of `T`s any more.
    pub fn to_vec(&self, heap: &Heap) -> (r: Option<Vec<T>>)
        ensures
            r is Some <==> Self::fits(self.value(), heap),
            r matches Some(v) ==> Vec::<T>::unpacks(self.value(), heap, Some(v)),
    {
        let is_list = match heap.get_aref(self.value) {
            Some(crate::values::layout::access::ARef::Live(ObjectGen::List(_))) => true,
            Some(crate::values::layout::access::ARef::Frozen(ObjectGen::List(_))) => true,
            _ => false,
        };
        if !is_list {
            return None;
        }
        let r = Vec::<T>::unpack_value(self.value, heap);
        proof {
            let items = heap.list_of(self.value@)->0;
            assert(heap.items_of(self.value@) == Some(items));
            if r is Some {
                let v = r->0;
                assert forall|i: int| 0 <= i < items.len() implies !T::unpacks(
                    #[trigger] items[i],
                    heap,
                    None,
                ) by {
                    assert(T::unpacks(items[i], heap, Some(v@[i])));
                    if T::unpacks(items[i], heap, None) {
                        T::lemma_one_reading(items[i], heap, Some(v@[i]), None);
                    }
                }
            }
        }
        r
    }
}

impl<T: UnpackValue> UnpackValue for ListOf<T> {
    open spec fn unpacks(value: Value, heap: &Heap, r: Option<Self>) -> bool {
        match r {
            Some(l) => l.value() == value && ListOf::<T>::fits(value, heap),
            None => !ListOf::<T>::fits(value, heap),
        }
    }

    proof fn lemma_one_reading(value: Value, heap: &Heap, a: Option<Self>, b: Option<Self>) {
    }

    /// The value, if it is a list of `T`s.
    fn unpack_value(value: Value, heap: &Heap) -> (r: Option<Self>) {
        let probe = ListOf { value, phantom: PhantomData };
        match probe.to_vec(heap) {
            Some(_) => Some(probe),
            None => None,
        }
    }
}

} // verus!
