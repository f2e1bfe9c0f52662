use starlark::values::layout::heap::{FrozenHeap, Heap};
use starlark::values::layout::value::Value;
use starlark::values::types::containers::{ListGen, ObjectGen, TupleGen};

fn list(heap: &mut Heap, items: Vec<Value>) -> Value {
    heap.alloc_complex(ObjectGen::List(ListGen::new(items)))
}

#[test]
fn collection_keeps_what_the_roots_reach() {
    let mut frozen = FrozenHeap::new();
    let kept_frozen = Value::new_frozen(frozen.alloc_str("frozen"));
    let mut heap = Heap::new(frozen);
    let _garbage = heap.alloc_str("garbage");
    let a = heap.alloc_str("a");
    let _more = list(&mut heap, vec![a]);
    let inner = list(&mut heap, vec![a, Value::new_int(1), kept_frozen]);
    let outer = heap.alloc_complex(ObjectGen::Tuple(TupleGen::new(vec![inner, inner])));
    assert_eq!(heap.list_push(inner, outer), Ok(()));
    assert_eq!(heap.len(), 5);
    let before = heap.to_repr(a, 3);

    let roots = heap.garbage_collect(vec![outer, Value::new_int(7), a, kept_frozen]);
    assert_eq!(roots.len(), 4);
    assert_eq!(heap.len(), 3);
    assert_eq!(roots[1].unpack_int(), Some(7));
    assert!(roots[3].ptr_eq(kept_frozen));
    assert_eq!(heap.unpack_str(roots[2]), Some("a"));
    assert_eq!(heap.to_repr(roots[2], 3), before);
    let kids = heap.iterate(roots[0]).unwrap();
    assert_eq!(kids.len(), 2);
    assert!(kids[0].ptr_eq(kids[1]));
    let inner_kids = heap.iterate(kids[0]).unwrap();
    assert_eq!(inner_kids.len(), 4);
    assert!(inner_kids[0].ptr_eq(roots[2]));
    assert_eq!(inner_kids[1].unpack_int(), Some(1));
    assert_eq!(heap.unpack_str(inner_kids[2]), Some("frozen"));
    assert!(inner_kids[3].ptr_eq(roots[0]));
    assert_eq!(heap.frozen_heap().len(), 1);

    // once more: nothing is lost, nothing is garbage
    let again = heap.garbage_collect(roots);
    assert_eq!(heap.len(), 3);
    assert_eq!(heap.unpack_str(again[2]), Some("a"));
    assert_eq!(heap.garbage_collect(vec![]).len(), 0);
    assert_eq!(heap.len(), 0);
}

#[test]
fn collection_follows_what_was_frozen() {
    let mut heap = Heap::new(FrozenHeap::new());
    let xs = list(&mut heap, vec![Value::new_int(1)]);
    let frozen = heap.freeze(xs).unwrap();
    let roots = heap.garbage_collect(vec![xs]);
    assert!(roots[0].ptr_eq(Value::new_frozen(frozen)));
    assert_eq!(heap.len(), 0);
    assert_eq!(heap.to_json(roots[0], 3).unwrap(), "[1]");
}
