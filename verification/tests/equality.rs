use core::hash::{BuildHasher, Hasher};
use starlark::collections::hash::{hash_text, Hashed};
use starlark::collections::idhasher::{BuildIdHasher, IdHasher};
use starlark::values::alloc_value::AllocValue;
use starlark::values::layout::heap::{FrozenHeap, Heap};
use starlark::values::layout::value::Value;
use starlark::values::types::containers::{DictGen, ObjectGen, TupleGen};
use starlark::values::types::structs::StructBuilder;

fn heap() -> Heap {
    Heap::new(FrozenHeap::new())
}

fn structure(heap: &mut Heap, fields: Vec<(&str, Value)>) -> Value {
    let mut builder = StructBuilder::new();
    for (k, v) in fields {
        builder.add(heap, k.to_owned(), v);
    }
    heap.alloc_complex(ObjectGen::Struct(builder.build()))
}

fn dict(heap: &mut Heap, entries: Vec<(&str, Value)>) -> Value {
    let content = entries
        .into_iter()
        .map(|(k, v)| (Hashed::new_unchecked(hash_text(k), heap.alloc_str(k)), v))
        .collect();
    heap.alloc_complex(ObjectGen::Dict(DictGen::new(content)))
}

#[test]
fn equality_looks_at_what_values_are() {
    let mut heap = heap();
    let h = &mut heap;
    let a = vec![1, 2].alloc_value(h);
    let b = vec![1, 2].alloc_value(h);
    let c = vec![1, 3].alloc_value(h);
    let short = vec![1].alloc_value(h);
    let t = h.alloc_complex(ObjectGen::Tuple(TupleGen::new(vec![Value::new_int(1), Value::new_int(2)])));
    assert_eq!(h.equals(a, b, 3), Some(true));
    assert_eq!(h.equals(a, a, 3), Some(true));
    assert_eq!(h.equals(a, c, 3), Some(false));
    assert_eq!(h.equals(a, short, 3), Some(false));
    assert_eq!(h.equals(a, t, 3), Some(false));
    assert_eq!(h.equals(a, b, 0), None);
    assert_eq!(h.equals(Value::new_int(1), Value::new_bool(true), 3), Some(false));
    assert_eq!(h.equals(Value::new_none(), Value::new_none(), 0), Some(true));
    assert_eq!(h.equals(Value::new_unassigned(), Value::new_none(), 3), None);
    let text_a = h.alloc_str("x");
    let text_b = h.alloc_str("x");
    let text_c = h.alloc_str("y");
    assert_eq!(h.equals(text_a, text_b, 0), Some(true));
    assert_eq!(h.equals(text_a, text_c, 0), Some(false));
    assert_eq!(h.equals(text_a, a, 3), Some(false));

    let p = structure(h, vec![("x", a), ("y", text_a)]);
    let q = structure(h, vec![("y", text_b), ("x", b)]);
    let r = structure(h, vec![("y", text_b), ("z", b)]);
    assert_eq!(h.equals(p, q, 4), Some(true));
    assert_eq!(h.equals(p, r, 4), Some(false));
    assert_eq!(h.equals(p, q, 1), None);

    let d1 = dict(h, vec![("k", a), ("l", text_a)]);
    let d2 = dict(h, vec![("l", text_b), ("k", b)]);
    let d3 = dict(h, vec![("l", text_b), ("k", c)]);
    assert_eq!(h.equals(d1, d2, 4), Some(true));
    assert_eq!(h.equals(d1, d3, 4), Some(false));
    assert_eq!(h.equals(d1, p, 4), Some(false));

    let frozen = h.freeze(p).unwrap();
    assert_eq!(h.equals(Value::new_frozen(frozen), q, 4), Some(true));
}

#[test]
fn membership_and_position() {
    let mut heap = heap();
    let h = &mut heap;
    let inner = vec![2].alloc_value(h);
    let other = vec![2].alloc_value(h);
    let xs = h.alloc_complex(ObjectGen::List(starlark::values::types::containers::ListGen::new(vec![
        Value::new_int(1),
        inner,
        Value::new_int(1),
    ])));
    assert_eq!(h.position(xs, Value::new_int(1), 3), Some(Some(0)));
    assert_eq!(h.position(xs, other, 3), Some(Some(1)));
    assert_eq!(h.position(xs, Value::new_int(5), 3), Some(None));
    assert_eq!(h.position(xs, other, 0), None);
    assert_eq!(h.position(Value::new_int(1), other, 3), Some(None));
    assert_eq!(h.is_in(xs, other, 3), Some(true));
    assert_eq!(h.is_in(xs, Value::new_none(), 3), Some(false));
    let d = dict(h, vec![("k", xs)]);
    let k = h.alloc_str("k");
    assert_eq!(h.is_in(d, k, 2), Some(true));
    assert_eq!(h.is_in(d, xs, 4), Some(false));
    assert_eq!(h.is_in(Value::new_int(3), k, 2), Some(false));
}

#[test]
fn hashes_of_texts() {
    assert_eq!(hash_text("abc"), hash_text("abc"));
    assert_ne!(hash_text("abc"), hash_text("abd"));
    assert_ne!(hash_text(""), hash_text("a"));
    let h = Hashed::new("abc".to_owned());
    assert_eq!(h.hash(), hash_text("abc"));
    assert_eq!(h.key(), "abc");
    assert_eq!(h.borrow().hash(), h.hash());
    let borrowed = starlark::collections::hash::BorrowHashed::new("abc");
    assert!(borrowed.to_hashed() == h);
    assert_eq!(borrowed.key(), "abc");
    assert_eq!(h.clone().into_key(), "abc");
    assert!(Hashed::new_unchecked(1, 'a') == Hashed::new_unchecked(1, 'a'));
    assert!(Hashed::new_unchecked(1, 'a') != Hashed::new_unchecked(2, 'a'));
    assert!(Hashed::new_unchecked(1, 'a') != Hashed::new_unchecked(1, 'b'));
}

#[test]
fn id_hasher_hands_the_hash_on() {
    let mut hasher = BuildIdHasher::new().build_hasher();
    hasher.write_u32(0xdead_beef);
    assert_eq!(hasher.finish(), 0xdead_beef);
    let mut hasher = IdHasher::new();
    hasher.fold_u32(5);
    hasher.fold_u32(6);
    assert_eq!(hasher.value(), 5 ^ 6);
    let mut hasher = IdHasher::new();
    hasher.write(&[1, 2, 3]);
    assert_eq!(hasher.finish(), 0x010203);
    let mut direct = IdHasher::new();
    direct.fold_bytes(&[1, 2, 3]);
    assert_eq!(direct.value(), 0x010203);
    let mut std_hasher = BuildIdHasher::new().build_hasher();
    core::hash::Hash::hash(&Hashed::new_unchecked(77, "ignored".to_owned()), &mut std_hasher);
    assert_eq!(std_hasher.finish(), 77);
}
