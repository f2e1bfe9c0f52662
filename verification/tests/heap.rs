use starlark::values::error::{ControlError, EvalError, ValueError};
use starlark::values::layout::heap::{FrozenHeap, Heap, ValueRef};
use starlark::values::layout::pointer::PointerUnpack;
use starlark::values::layout::value::{FrozenValue, Value};
use starlark::values::types::containers::{DictGen, ListGen, ObjectGen, TupleGen};
use starlark::values::types::structs::StructBuilder;
use starlark::collections::hash::{hash_text, Hashed};

fn ints(heap: &Heap, v: Value) -> Vec<i32> {
    heap.iterate(v).unwrap().into_iter().map(|x| x.unpack_int().unwrap()).collect()
}

fn list(heap: &mut Heap, items: &[i32]) -> Value {
    heap.alloc_complex(ObjectGen::List(ListGen::new(
        items.iter().map(|i| Value::new_int(*i)).collect(),
    )))
}

#[test]
fn freeze_then_read_and_refuse_writes() {
    // xs = [1, 2, 3]; xs[1] = 9
    let mut heap = Heap::new(FrozenHeap::new());
    let xs = list(&mut heap, &[1, 2, 3]);
    assert_eq!(heap.set_at(xs, Value::new_int(1), Value::new_int(9)), Ok(()));
    assert_eq!(ints(&heap, xs), vec![1, 9, 3]);

    // the module is frozen
    let frozen_xs = heap.freeze(xs).unwrap();
    assert_eq!(frozen_xs.unpack(), PointerUnpack::Frozen(0));
    assert_eq!(ints(&heap, xs), vec![1, 9, 3]);
    let frozen = heap.into_frozen();
    assert_eq!(frozen.len(), 1);

    // a new evaluation loads xs
    let mut heap = Heap::new(frozen);
    let xs = Value::new_frozen(frozen_xs);
    assert_eq!(heap.at(xs, Value::new_int(0)).unwrap().unpack_int(), Some(1));
    assert_eq!(heap.at(xs, Value::new_int(-1)).unwrap().unpack_int(), Some(3));
    assert_eq!(
        heap.at(xs, Value::new_int(3)).map(|v| v.ptr_value()),
        Err(ValueError::IndexOutOfBound(3))
    );
    assert_eq!(
        heap.set_at(xs, Value::new_int(0), Value::new_int(5)),
        Err(EvalError::Control(ControlError::CannotMutateImmutableValue))
    );
    assert_eq!(
        heap.list_push(xs, Value::new_int(5)),
        Err(EvalError::Control(ControlError::CannotMutateImmutableValue))
    );
    assert_eq!(ControlError::CannotMutateImmutableValue.message(), "Immutable");
    assert_eq!(ints(&heap, xs), vec![1, 9, 3]);
}

#[test]
fn thaw_on_write_leaves_the_frozen_list_alone() {
    let mut heap = Heap::new(FrozenHeap::new());
    let xs = list(&mut heap, &[1, 9, 3]);
    let frozen_xs = heap.freeze(xs).unwrap();
    let mut heap = Heap::new(heap.into_frozen());
    let xs = Value::new_frozen(frozen_xs);

    // ys = xs; ys.append(4)
    let ys = heap.alloc_thaw_on_write(frozen_xs);
    assert_eq!(ints(&heap, ys), vec![1, 9, 3]);
    assert_eq!(heap.get_ref_mut_already(ys), None);
    assert_eq!(heap.len(), 1);
    assert_eq!(heap.list_push(ys, Value::new_int(4)), Ok(()));
    assert_eq!(heap.len(), 2);
    assert_eq!(ints(&heap, ys), vec![1, 9, 3, 4]);
    assert_eq!(ints(&heap, xs), vec![1, 9, 3]);
    assert_eq!(heap.get_ref_mut_already(ys), Some(1));
    assert_eq!(heap.list_push(ys, Value::new_int(5)), Ok(()));
    assert_eq!(heap.len(), 2);
    assert_eq!(ints(&heap, ys), vec![1, 9, 3, 4, 5]);
    assert_eq!(ints(&heap, xs), vec![1, 9, 3]);
    assert_eq!(heap.frozen_heap().len(), 1);
}

#[test]
fn freezing_is_idempotent() {
    let mut heap = Heap::new(FrozenHeap::new());
    let inner = list(&mut heap, &[1]);
    let text = heap.alloc_str("t");
    let outer = heap.alloc_complex(ObjectGen::Tuple(TupleGen::new(vec![inner, inner, text])));
    let first = heap.freeze(outer).unwrap();
    let count = heap.frozen_heap().len();
    assert_eq!(count, 3);
    let second = heap.freeze(outer).unwrap();
    assert!(Value::new_frozen(first).ptr_eq(Value::new_frozen(second)));
    let third = heap.freeze(Value::new_frozen(first)).unwrap();
    assert!(Value::new_frozen(first).ptr_eq(Value::new_frozen(third)));
    assert_eq!(heap.frozen_heap().len(), count);
    for v in [Value::new_none(), Value::new_bool(true), Value::new_int(-3)] {
        assert!(Value::new_frozen(heap.freeze(v).unwrap()).ptr_eq(v));
    }
    assert_eq!(heap.frozen_heap().len(), count);
    assert_eq!(heap.to_json(outer, 5).unwrap(), "[[1],[1],\"t\"]");
    assert_eq!(heap.to_json(Value::new_frozen(first), 5).unwrap(), "[[1],[1],\"t\"]");
    assert_eq!(heap.to_repr(Value::new_frozen(first), 5).unwrap(), "([1], [1], \"t\")");
    // the shared list was copied once
    let kids = heap.iterate(Value::new_frozen(first)).unwrap();
    assert!(kids[0].ptr_eq(kids[1]));
}

#[test]
fn freezing_a_cycle_fails() {
    let mut heap = Heap::new(FrozenHeap::new());
    let xs = list(&mut heap, &[1]);
    assert_eq!(heap.list_push(xs, xs), Ok(()));
    assert_eq!(heap.freeze(xs).map(|x| x.unpack()), Err(ControlError::CyclicFreeze));
    assert_eq!(heap.to_json(xs, 50), None);
}

#[test]
fn freeze_module_freezes_every_root() {
    let mut heap = Heap::new(FrozenHeap::new());
    let a = list(&mut heap, &[1, 2]);
    let b = heap.alloc_str("b");
    let key = Hashed::new_unchecked(hash_text("k"), heap.alloc_str("k"));
    let d = heap.alloc_complex(ObjectGen::Dict(DictGen::new(vec![(key, a)])));
    let mut builder = StructBuilder::new();
    builder.add(&mut heap, "d".to_owned(), d);
    builder.add(&mut heap, "n".to_owned(), 7);
    let s = heap.alloc_complex(ObjectGen::Struct(builder.build()));
    let before = heap.to_repr(s, 9).unwrap();
    assert_eq!(before, "struct(d={\"k\": [1, 2]}, n=7)");
    let roots = heap.freeze_module(&vec![s, b, Value::new_int(1), a]).unwrap();
    assert_eq!(roots.len(), 4);
    let frozen = heap.into_frozen();
    let heap = Heap::new(frozen);
    assert_eq!(heap.to_repr(Value::new_frozen(roots[0]), 9).unwrap(), before);
    assert_eq!(heap.to_json(Value::new_frozen(roots[0]), 9).unwrap(), "{\"d\":{\"k\":[1,2]},\"n\":7}");
    assert_eq!(heap.unpack_str(Value::new_frozen(roots[1])), Some("b"));
    assert_eq!(roots[2].unpack_int(), Some(1));
    assert_eq!(ints(&heap, Value::new_frozen(roots[3])), vec![1, 2]);
}

#[test]
fn struct_fields_are_read_by_name() {
    // ip = struct(host="lh", port=80)
    let mut heap = Heap::new(FrozenHeap::new());
    let mut builder = StructBuilder::with_capacity(2);
    builder.add(&mut heap, "host".to_owned(), "lh");
    builder.add(&mut heap, "port".to_owned(), 80);
    let ip = heap.alloc_complex(ObjectGen::Struct(builder.build()));
    let frozen_ip = heap.freeze(ip).unwrap();
    let heap = Heap::new(heap.into_frozen());
    let ip = Value::new_frozen(frozen_ip);
    assert_eq!(heap.get_attr(ip, "port").unwrap().unpack_int(), Some(80));
    assert_eq!(heap.unpack_str(heap.get_attr(ip, "host").unwrap()), Some("lh"));
    match heap.get_attr(ip, "missing") {
        Err(ValueError::OperationNotSupported { op, typ }) => {
            assert_eq!(op, "missing");
            assert_eq!(typ, "struct(host=\"lh\", port=80)");
        }
        other => panic!("unexpected {:?}", other.map(|v| v.ptr_value())),
    }
    assert!(heap.has_attr(ip, "host"));
    assert!(!heap.has_attr(ip, "missing"));
    assert_eq!(heap.dir_attr(ip), vec!["host".to_owned(), "port".to_owned()]);
    assert_eq!(heap.length(ip), Ok(2));
    assert_eq!(heap.get_type(ip), "struct");
    assert!(heap.to_bool(ip));
    assert!(!heap.to_bool(Value::new_int(0)));
}

#[test]
fn list_arithmetic() {
    let mut heap = Heap::new(FrozenHeap::new());
    let a = list(&mut heap, &[1, 2, 3]);
    let b = list(&mut heap, &[2, 3]);
    let sum = heap.list_add(a, b).unwrap();
    assert_eq!(ints(&heap, sum), vec![1, 2, 3, 2, 3]);
    let product = heap.list_mul(a, Value::new_int(3)).unwrap();
    assert_eq!(ints(&heap, product), vec![1, 2, 3, 1, 2, 3, 1, 2, 3]);
    let none = heap.list_mul(a, Value::new_int(-1)).unwrap();
    assert_eq!(ints(&heap, none), Vec::<i32>::new());
    assert_eq!(heap.list_mul(a, Value::new_bool(true)).map(|v| v.ptr_value()), Err(ValueError::IncorrectParameterType));
    match heap.list_add(a, Value::new_int(1)) {
        Err(ValueError::OperationNotSupportedBinary { op, left, right }) => {
            assert_eq!((op.as_str(), left.as_str(), right.as_str()), ("+", "list", "int"));
        }
        other => panic!("unexpected {:?}", other.map(|v| v.ptr_value())),
    }
    assert_eq!(heap.to_repr(sum, 3).unwrap(), "[1, 2, 3, 2, 3]");
    assert_eq!(heap.length(sum), Ok(5));
    assert_eq!(heap.list_extend(b, vec![Value::new_int(8)]), Ok(()));
    assert_eq!(ints(&heap, b), vec![2, 3, 8]);
    assert_eq!(heap.list_clear(b), Ok(()));
    assert_eq!(ints(&heap, b), Vec::<i32>::new());
    assert_eq!(
        heap.set_at(a, Value::new_int(7), Value::new_none()),
        Err(EvalError::Value(ValueError::IndexOutOfBound(7)))
    );
    assert_eq!(
        heap.set_at(a, Value::new_none(), Value::new_none()),
        Err(EvalError::Value(ValueError::IncorrectParameterType))
    );
}

#[test]
fn no_write_while_somebody_reads() {
    let mut heap = Heap::new(FrozenHeap::new());
    let xs = list(&mut heap, &[1]);
    heap.count_reader(xs, true);
    assert_eq!(
        heap.list_push(xs, Value::new_int(2)),
        Err(EvalError::Control(ControlError::MutationDuringIteration))
    );
    assert_eq!(heap.get_ref_mut(xs), Err(ControlError::MutationDuringIteration));
    heap.count_reader(xs, false);
    assert_eq!(heap.list_push(xs, Value::new_int(2)), Ok(()));
    assert_eq!(ints(&heap, xs), vec![1, 2]);
    let t = heap.alloc_complex(ObjectGen::Tuple(TupleGen::new(vec![])));
    assert_eq!(heap.get_ref_mut(t), Err(ControlError::CannotMutateImmutableValue));
    assert_eq!(heap.get_ref_mut(Value::new_int(1)), Err(ControlError::CannotMutateImmutableValue));
}

#[test]
fn captured_slots_share_their_value() {
    let mut heap = Heap::new(FrozenHeap::new());
    let mut outer = ValueRef::new_unassigned();
    assert!(outer.is_unassigned(&heap));
    outer.set(&mut heap, Value::new_int(1));
    assert_eq!(outer.get(&heap).unwrap().unpack_int(), Some(1));
    let mut inner = outer.clone_reference(&mut heap);
    assert!(outer.get_raw().get_user_tag());
    assert!(inner.get_raw().ptr_eq(outer.get_raw()));
    inner.set(&mut heap, Value::new_int(2));
    assert_eq!(outer.get(&heap).unwrap().unpack_int(), Some(2));
    outer.set(&mut heap, Value::new_int(3));
    assert_eq!(inner.get(&heap).unwrap().unpack_int(), Some(3));
    let again = inner.clone_reference(&mut heap);
    assert!(again.get_raw().ptr_eq(outer.get_raw()));
    assert_eq!(heap.len(), 1);
    let frozen = ValueRef::new_frozen(FrozenValue::new_int(4));
    assert_eq!(frozen.get(&heap).unwrap().unpack_int(), Some(4));
}

#[test]
fn freezing_a_frozen_slot_allocates_nothing() {
    let mut heap = Heap::new(FrozenHeap::new());
    let xs = list(&mut heap, &[1, 9, 3]);
    let fx = heap.freeze(xs).unwrap();
    let sizes = (heap.len(), heap.frozen_heap().len());
    let once = ValueRef::new_frozen(fx).freeze(&mut heap).unwrap();
    assert!(Value::new_frozen(once).ptr_eq(Value::new_frozen(fx)));
    let twice = ValueRef::new_frozen(once).freeze(&mut heap).unwrap();
    assert!(Value::new_frozen(twice).ptr_eq(Value::new_frozen(once)));
    assert_eq!((heap.len(), heap.frozen_heap().len()), sizes);

    let ys = list(&mut heap, &[4]);
    let mut slot = ValueRef::new_unassigned();
    slot.set(&mut heap, ys);
    let fy = slot.freeze(&mut heap).unwrap();
    assert_eq!(heap.to_json(Value::new_frozen(fy), 3).unwrap(), "[4]");
    assert_eq!(heap.frozen_heap().len(), sizes.1 + 1);
    assert_eq!(
        heap.list_push(ys, ys),
        Err(EvalError::Control(ControlError::CannotMutateImmutableValue))
    );
}

#[test]
fn errors_of_reading_and_freezing() {
    let mut heap = Heap::new(FrozenHeap::new());
    let slot = ValueRef::new_unassigned();
    assert_eq!(slot.read(&heap).map(|v| v.ptr_value()), Err(ValueError::UnboundVariable));
    let mut slot = slot;
    slot.set(&mut heap, Value::new_int(3));
    assert_eq!(slot.read(&heap).map(|v| v.unpack_int()), Ok(Some(3)));
    let nowhere = Value::new_mutable(99, false);
    assert_eq!(heap.freeze(nowhere).map(|x| x.unpack()), Err(ControlError::NotAValue));
    assert_eq!(ControlError::NotAValue.message(), "The pointer leads to no value");
    assert_eq!(heap.to_json(nowhere, 3), None);
    assert_eq!(heap.get_type(nowhere), "unassigned");
    assert_eq!(heap.get_type(Value::new_none()), "NoneType");
    let s = heap.alloc_str("s");
    assert_eq!(heap.get_type(s), "string");
    assert_eq!(
        heap.length(s),
        Err(ValueError::OperationNotSupported { op: "len()".to_owned(), typ: "string".to_owned() })
    );
    assert_eq!(
        heap.at(s, Value::new_int(0)).map(|v| v.ptr_value()),
        Err(ValueError::OperationNotSupported { op: "[]".to_owned(), typ: "string".to_owned() })
    );
    assert_eq!(
        heap.at(s, s).map(|v| v.ptr_value()),
        Err(ValueError::IncorrectParameterType)
    );
}
