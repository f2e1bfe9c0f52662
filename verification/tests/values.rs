use starlark::values::alloc_value::AllocValue;
use starlark::eval::parameters::UnpackValue;
use starlark::values::layout::heap::{FrozenHeap, FrozenValueMem, Heap, ValueMem};
use starlark::values::types::list::ListOf;
use starlark::values::layout::pointer::PointerUnpack;
use starlark::values::layout::value::{FrozenValue, Value};
use starlark::values::types::containers::{ListGen, ObjectGen};
use starlark::values::types::structs::StructBuilder;

fn heap() -> Heap {
    Heap::new(FrozenHeap::new())
}

fn list(heap: &mut Heap, items: Vec<Value>) -> Value {
    heap.alloc_complex(ObjectGen::List(ListGen::new(items)))
}

fn one_field<A: AllocValue>(heap: &mut Heap, key: &str, val: A) -> Value {
    let mut builder = StructBuilder::new();
    builder.add(heap, key.to_owned(), val);
    heap.alloc_complex(ObjectGen::Struct(builder.build()))
}

fn json(heap: &Heap, v: Value) -> String {
    heap.to_json(v, 16).unwrap()
}

#[test]
fn test_to_json() {
    let mut heap = heap();
    let h = &mut heap;
    let v = one_field(h, "key", Value::new_none());
    assert_eq!(json(h, v), "{\"key\":null}");
    let v = one_field(h, "key", true);
    assert_eq!(json(h, v), "{\"key\":true}");
    let v = one_field(h, "key", false);
    assert_eq!(json(h, v), "{\"key\":false}");
    let v = one_field(h, "key", 42);
    assert_eq!(json(h, v), "{\"key\":42}");
    let v = one_field(h, "key", "value");
    assert_eq!(json(h, v), "{\"key\":\"value\"}");
    let v = one_field(h, "key", "value\"");
    assert_eq!(json(h, v), "{\"key\":\"value\\\"\"}");
    let v = one_field(h, "key", "value\\");
    assert_eq!(json(h, v), "{\"key\":\"value\\\\\"}");
    let v = one_field(h, "key", "value/");
    assert_eq!(json(h, v), "{\"key\":\"value\\/\"}");
    let v = one_field(h, "key", "value\u{0008}");
    assert_eq!(json(h, v), "{\"key\":\"value\\b\"}");
    let v = one_field(h, "key", "value\u{000C}");
    assert_eq!(json(h, v), "{\"key\":\"value\\f\"}");
    let v = one_field(h, "key", "value\n");
    assert_eq!(json(h, v), "{\"key\":\"value\\n\"}");
    let v = one_field(h, "key", "value\r");
    assert_eq!(json(h, v), "{\"key\":\"value\\r\"}");
    let v = one_field(h, "key", "value\t");
    assert_eq!(json(h, v), "{\"key\":\"value\\t\"}");

    let mut builder = StructBuilder::with_capacity(2);
    builder.add(h, "foo".to_owned(), 42);
    builder.add(h, "bar".to_owned(), "some");
    let v = h.alloc_complex(ObjectGen::Struct(builder.build()));
    assert_eq!(json(h, v), "{\"foo\":42,\"bar\":\"some\"}");

    let inner = one_field(h, "bar", "some");
    let v = one_field(h, "foo", inner);
    assert_eq!(json(h, v), "{\"foo\":{\"bar\":\"some\"}}");

    let a = h.alloc_str("bar/");
    let b = h.alloc_str("some");
    let items = list(h, vec![a, b]);
    let v = one_field(h, "foo", items);
    assert_eq!(json(h, v), "{\"foo\":[\"bar\\/\",\"some\"]}");

    let inner = one_field(h, "bar", "some");
    let items = list(h, vec![inner]);
    let v = one_field(h, "foo", items);
    assert_eq!(json(h, v), "{\"foo\":[{\"bar\":\"some\"}]}");
}

#[test]
fn json_of_plain_values() {
    let mut heap = heap();
    assert_eq!(json(&heap, Value::new_int(-17)), "-17");
    assert_eq!(json(&heap, Value::new_int(i32::MIN)), "-2147483648");
    assert_eq!(json(&heap, Value::new_int(i32::MAX)), "2147483647");
    assert_eq!(json(&heap, Value::new_int(0)), "0");
    let empty = list(&mut heap, vec![]);
    assert_eq!(json(&heap, empty), "[]");
    let nested = list(&mut heap, vec![Value::new_int(1), empty, Value::new_bool(false)]);
    assert_eq!(json(&heap, nested), "[1,[],false]");
    assert_eq!(heap.to_json(nested, 1), None);
    assert_eq!(heap.to_json(nested, 2), Some("[1,[],false]".to_owned()));
    assert_eq!(heap.to_json(Value::new_unassigned(), 3), None);
}

#[test]
fn immediates_round_trip() {
    assert!(Value::new_none().is_none());
    assert!(!Value::new_none().is_unassigned());
    assert!(Value::new_unassigned().is_unassigned());
    assert!(!Value::new_unassigned().is_none());
    assert_eq!(Value::new_bool(true).unpack_bool(), Some(true));
    assert_eq!(Value::new_bool(false).unpack_bool(), Some(false));
    assert_eq!(Value::new_bool(false).unpack_int(), None);
    for i in [0, 1, -1, 42, i32::MAX, i32::MIN] {
        assert_eq!(Value::new_int(i).unpack_int(), Some(i));
        assert_eq!(Value::new_int(i).unpack_bool(), None);
        assert_eq!(FrozenValue::new_int(i).unpack_int(), Some(i));
        assert_eq!(Value::new_int(i).unpack(), PointerUnpack::Int(i));
        assert!(Value::new_int(i).ptr_eq(Value::new_frozen(FrozenValue::new_int(i))));
    }
    assert_eq!(Value::new_none().ptr_value(), 2);
    assert_eq!(Value::new_unassigned().ptr_value(), 6);
    assert_eq!(Value::new_bool(false).ptr_value(), 3);
    assert_eq!(Value::new_bool(true).ptr_value(), 7);
    assert_eq!(Value::new_int(1).ptr_value(), (1u64 << 32) | 11);
    assert!(FrozenValue::new_none().is_none());
    assert_eq!(FrozenValue::new_bool(true).unpack_bool(), Some(true));
    assert!(Value::new_none().unpack_frozen().is_some());
    assert!(!Value::new_int(3).ptr_eq(Value::new_int(4)));
}

#[test]
fn pointers_tell_the_heaps_apart() {
    let mut frozen = FrozenHeap::new();
    let fs = frozen.alloc_str("frozen");
    assert_eq!(fs.unpack(), PointerUnpack::Frozen(0));
    let mut heap = Heap::new(frozen);
    let s = heap.alloc_str("live");
    assert_eq!(s.unpack(), PointerUnpack::Mutable(0));
    assert!(s.unpack_frozen().is_none());
    assert!(!s.get_user_tag());
    assert_eq!(heap.unpack_str(s), Some("live"));
    let v = Value::new_frozen(fs);
    assert_eq!(v.unpack_frozen().map(|x| x.unpack()), Some(PointerUnpack::Frozen(0)));
    assert_eq!(heap.unpack_str(v), Some("frozen"));
    assert_eq!(heap.unpack_str(Value::new_int(1)), None);
    assert_eq!(heap.frozen_heap().unpack_str(fs), Some("frozen"));
    assert_eq!(heap.len(), 1);
    assert_eq!(heap.into_frozen().len(), 1);
}

#[test]
fn value_test_send_sync() {
    fn check<T: Send + Sync>() {}
    check::<FrozenValue>();
}

#[test]
fn lists_of_host_values() {
    let mut heap = heap();
    let xs = vec![3, 1, 2].alloc_value(&mut heap);
    assert_eq!(json(&heap, xs), "[3,1,2]");
    let names = vec!["a", "b"].alloc_value(&mut heap);
    assert_eq!(json(&heap, names), "[\"a\",\"b\"]");
    assert_eq!(heap.len(), 4);
    let nested = vec![vec![true], vec![]].alloc_value(&mut heap);
    assert_eq!(json(&heap, nested), "[[true],[]]");
    assert_eq!(Vec::<i32>::unpack_value(xs, &heap), Some(vec![3, 1, 2]));
    assert_eq!(Vec::<String>::unpack_value(names, &heap), Some(vec!["a".to_owned(), "b".to_owned()]));
    assert_eq!(Vec::<i32>::unpack_value(names, &heap), None);
    assert_eq!(Vec::<i32>::unpack_value(Value::new_int(1), &heap), None);
    let of = ListOf::<i32>::unpack_value(xs, &heap).unwrap();
    assert!(of.get().ptr_eq(xs));
    assert_eq!(of.to_vec(&heap), Some(vec![3, 1, 2]));
    assert!(ListOf::<bool>::unpack_value(xs, &heap).is_none());
    assert!(ListOf::<i32>::unpack_value(Value::new_none(), &heap).is_none());
    heap.list_push(xs, Value::new_none()).unwrap();
    assert_eq!(of.to_vec(&heap), None);
}

#[test]
fn entries_name_their_variant() {
    assert_eq!(ValueMem::Blackhole.unexpected("get_ref"), "ValueMem::get_ref, unexpected variant Blackhole");
    assert_eq!(ValueMem::Ref(Value::new_none()).variant_name(), "Ref");
    assert_eq!(
        FrozenValueMem::Str("s".to_owned()).unexpected("get_ref"),
        "FrozenValueMem::get_ref, unexpected variant Str"
    );
}
