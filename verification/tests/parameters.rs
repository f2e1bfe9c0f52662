use starlark::collections::hash::{hash_text, Hashed};
use starlark::eval::parameters::{FunctionError, ParametersCollect, ParametersParser, ParametersSpec};
use starlark::values::error::{ControlError, ValueError};
use starlark::values::layout::access::ARef;
use starlark::values::layout::heap::{FrozenHeap, Heap};
use starlark::values::layout::value::Value;
use starlark::values::types::containers::{DictGen, ListGen, ObjectGen};

fn heap() -> Heap {
    Heap::new(FrozenHeap::new())
}

// def f(a, b=2, *args, **kw)
fn spec() -> ParametersSpec<Value> {
    let mut spec = ParametersSpec::new("f".to_owned());
    spec.required("a");
    spec.defaulted("b", Value::new_int(2));
    spec.args("args");
    spec.kwargs("kw");
    spec
}

fn name(heap: &mut Heap, text: &str) -> Hashed<Value> {
    Hashed::new_unchecked(hash_text(text), heap.alloc_str(text))
}

#[test]
fn signature_shows_the_parameters() {
    assert_eq!(spec().signature(), "f(a, b = ..., *args, **kwargs)");
    let mut other = ParametersSpec::<Value>::with_capacity("g".to_owned(), 3);
    other.required("$x");
    other.no_args();
    other.optional("$$y");
    assert_eq!(other.signature(), "g(x, y = ...)");
    assert_eq!(ParametersSpec::<Value>::new("h".to_owned()).signature(), "h()");
    let mut collector = "call ".to_owned();
    other.collect_repr(&mut collector);
    assert_eq!(collector, "call g(x, y = ...)");
}

#[test]
fn call_with_positional_and_extra_named() {
    // f(1, c=3)  =>  a=1, b=2, args=(), kw={"c": 3}
    let mut heap = heap();
    let spec = spec();
    let mut collect = ParametersCollect::collect(&spec, 0);
    collect.positional(Value::new_int(1));
    let c = name(&mut heap, "c");
    collect.named("c", c, Value::new_int(3));
    let slots = collect.done(&mut heap).unwrap();
    assert_eq!(slots.len(), 4);
    assert_eq!(slots[0].get(&heap).unwrap().unpack_int(), Some(1));
    assert_eq!(slots[1].get(&heap).unwrap().unpack_int(), Some(2));
    let args = slots[2].get(&heap).unwrap();
    assert_eq!(heap.iterate(args).unwrap().len(), 0);
    assert!(matches!(heap.get_aref(args), Some(ARef::Live(ObjectGen::Tuple(_)))));
    let kw = slots[3].get(&heap).unwrap();
    let entries = heap.dict_items(kw).unwrap();
    assert_eq!(entries.len(), 1);
    assert_eq!(entries[0].0, hash_text("c"));
    assert_eq!(heap.unpack_str(entries[0].1), Some("c"));
    assert_eq!(entries[0].2.unpack_int(), Some(3));
    assert_eq!(heap.to_json(kw, 4).unwrap(), "{\"c\":3}");
}

#[test]
fn call_with_repeated_by_name() {
    // f(1, 2, 3, 4, b=5)  =>  b occurs twice
    let mut heap = heap();
    let spec = spec();
    let mut collect = ParametersCollect::collect(&spec, 0);
    for i in 1..=4 {
        collect.positional(Value::new_int(i));
    }
    let b = name(&mut heap, "b");
    collect.named("b", b, Value::new_int(5));
    let err = collect.done(&mut heap).unwrap_err();
    assert_eq!(err, FunctionError::RepeatedParameter { name: "b".to_owned() });
    assert_eq!(err.message(), "Parameter `b` occurs both explicitly and in **kwargs");
}

#[test]
fn call_without_arguments() {
    // f()  =>  a is missing
    let mut heap = heap();
    let spec = spec();
    let collect = ParametersCollect::collect(&spec, 0);
    let err = collect.done(&mut heap).unwrap_err();
    assert_eq!(
        err,
        FunctionError::MissingParameter {
            name: "a".to_owned(),
            function: "f(a, b = ..., *args, **kwargs)".to_owned(),
        }
    );
    assert_eq!(
        err.message(),
        "Missing parameter `a` for call to f(a, b = ..., *args, **kwargs)"
    );
}

#[test]
fn call_with_repeated_in_double_splat() {
    // f(1, **{"a": 2})  =>  a occurs twice
    let mut heap = heap();
    let spec = spec();
    let a = name(&mut heap, "a");
    let dict = heap.alloc_complex(ObjectGen::Dict(DictGen::new(vec![(a, Value::new_int(2))])));
    let mut collect = ParametersCollect::collect(&spec, 0);
    collect.positional(Value::new_int(1));
    collect.kwargs(dict, &heap);
    let err = collect.done(&mut heap).unwrap_err();
    assert_eq!(err, FunctionError::RepeatedParameter { name: "a".to_owned() });
}

#[test]
fn splat_feeds_positional_parameters() {
    let mut heap = heap();
    let spec = spec();
    let list = heap.alloc_complex(ObjectGen::List(starlark::values::types::containers::ListGen::new(
        vec![Value::new_int(7), Value::new_int(8), Value::new_int(9)],
    )));
    let mut collect = ParametersCollect::collect(&spec, 6);
    collect.args(list, &heap);
    let slots = collect.done(&mut heap).unwrap();
    assert_eq!(slots.len(), 6);
    assert_eq!(slots[0].get(&heap).unwrap().unpack_int(), Some(7));
    assert_eq!(slots[1].get(&heap).unwrap().unpack_int(), Some(8));
    let rest = heap.iterate(slots[2].get(&heap).unwrap()).unwrap();
    assert_eq!(rest.len(), 1);
    assert_eq!(rest[0].unpack_int(), Some(9));
    assert_eq!(heap.dict_items(slots[3].get(&heap).unwrap()).unwrap().len(), 0);
    assert!(slots[4].is_unassigned(&heap));
    assert!(slots[5].get(&heap).is_none());
}

#[test]
fn splat_errors() {
    let mut heap = heap();
    let spec = spec();
    let mut collect = ParametersCollect::collect(&spec, 0);
    collect.args(Value::new_int(3), &heap);
    assert_eq!(collect.done(&mut heap).unwrap_err(), FunctionError::ArgsArrayIsNotIterable);

    let mut collect = ParametersCollect::collect(&spec, 0);
    collect.kwargs(Value::new_none(), &heap);
    let err = collect.done(&mut heap).unwrap_err();
    assert_eq!(err, FunctionError::KWArgsIsNotDict);
    assert_eq!(err.message(), "The argument provided for **kwargs is not a dictionary");

    let key = Hashed::new_unchecked(1, Value::new_int(1));
    let later = name(&mut heap, "a");
    let dict = heap.alloc_complex(ObjectGen::Dict(DictGen::new(vec![
        (key, Value::new_int(2)),
        (later, Value::new_int(3)),
    ])));
    let mut collect = ParametersCollect::collect(&spec, 0);
    collect.kwargs(dict, &heap);
    collect.positional(Value::new_int(1));
    assert_eq!(collect.done(&mut heap).unwrap_err(), FunctionError::ArgsValueIsNotString);
}

#[test]
fn extra_positional_arguments_come_before_extra_named_ones() {
    let mut heap = heap();
    let mut spec = ParametersSpec::<Value>::new("g".to_owned());
    spec.required("a");
    let mut collect = ParametersCollect::collect(&spec, 1);
    collect.positional(Value::new_int(1));
    collect.positional(Value::new_int(2));
    let c = name(&mut heap, "c");
    collect.named("c", c, Value::new_int(3));
    assert_eq!(
        collect.done(&mut heap).unwrap_err(),
        FunctionError::ExtraPositionalParameters { count: 1, function: "g(a)".to_owned() }
    );
}

#[test]
fn extra_arguments_are_reported() {
    let mut heap = heap();
    let mut spec = ParametersSpec::<Value>::new("g".to_owned());
    spec.required("x");
    let mut collect = ParametersCollect::collect(&spec, 0);
    collect.positional(Value::new_int(1));
    collect.positional(Value::new_int(2));
    collect.positional(Value::new_int(3));
    let err = collect.done(&mut heap).unwrap_err();
    assert_eq!(
        err,
        FunctionError::ExtraPositionalParameters { count: 2, function: "g(x)".to_owned() }
    );
    assert_eq!(err.message(), "Found 2 extra positional parameter(s) for call to g(x)");

    let mut collect = ParametersCollect::collect(&spec, 0);
    collect.positional(Value::new_int(1));
    let p = name(&mut heap, "p");
    let q = name(&mut heap, "q");
    collect.named("p", p, Value::new_int(2));
    collect.named("q", q, Value::new_int(3));
    let err = collect.done(&mut heap).unwrap_err();
    assert_eq!(
        err,
        FunctionError::ExtraNamedParameters {
            names: vec!["p".to_owned(), "q".to_owned()],
            function: "g(x)".to_owned(),
        }
    );
    assert_eq!(err.message(), "Found p q extra named parameter(s) for call to g(x)");
}

#[test]
fn positional_after_name_is_repeated() {
    // def f(a): f(a=1, *[2])
    let mut heap = heap();
    let mut spec = ParametersSpec::<Value>::new("f".to_owned());
    spec.required("a");
    let mut collect = ParametersCollect::collect(&spec, 0);
    let a = name(&mut heap, "a");
    collect.named("a", a, Value::new_int(1));
    collect.positional(Value::new_int(2));
    assert_eq!(
        collect.done(&mut heap).unwrap_err(),
        FunctionError::RepeatedParameter { name: "a".to_owned() }
    );
}

#[test]
fn positional_goes_to_args_when_none_is_positional() {
    // def f(*args, a): every positional argument is kept for *args
    let mut heap = heap();
    let mut spec = ParametersSpec::<Value>::new("f".to_owned());
    spec.args("args");
    spec.required("a");
    let mut collect = ParametersCollect::collect(&spec, 0);
    collect.positional(Value::new_int(5));
    let a = name(&mut heap, "a");
    collect.named("a", a, Value::new_int(6));
    let slots = collect.done(&mut heap).unwrap();
    let rest = heap.iterate(slots[0].get(&heap).unwrap()).unwrap();
    assert_eq!(rest.len(), 1);
    assert_eq!(rest[0].unpack_int(), Some(5));
    assert_eq!(slots[1].get(&heap).unwrap().unpack_int(), Some(6));
}

#[test]
fn parser_reads_the_slots() {
    let mut heap = heap();
    let text = heap.alloc_str("hi");
    let slots = vec![Some(Value::new_int(4)), None, Some(text), Some(Value::new_bool(true))];
    let mut parser = ParametersParser::new(&slots);
    assert_eq!(parser.next::<i32>("n", &heap), Ok(4));
    assert_eq!(parser.next_opt::<i32>("o", &heap), Ok(None));
    assert_eq!(parser.next_opt::<String>("s", &heap), Ok(Some("hi".to_owned())));
    assert_eq!(
        parser.next::<i32>("b", &heap),
        Err(ValueError::IncorrectParameterTypeNamed("b".to_owned()))
    );
}

#[test]
fn frozen_parameters_keep_their_shape() {
    let mut heap = heap();
    let mut spec = ParametersSpec::<Value>::new("f".to_owned());
    spec.required("a");
    let default = heap.alloc_str("dflt");
    spec.defaulted("b", default);
    spec.args("args");
    let frozen = spec.freeze(&mut heap).unwrap();
    assert_eq!(frozen.signature(), "f(a, b = ..., *args)");
    let mut collect = ParametersCollect::collect(&frozen, 0);
    collect.positional(Value::new_int(1));
    let slots = collect.done(&mut heap).unwrap();
    let b = slots[1].get(&heap).unwrap();
    assert!(b.unpack_frozen().is_some());
    assert_eq!(heap.unpack_str(b), Some("dflt"));
    assert_eq!(slots[1].freeze(&mut heap).map(|x| x.unpack()), Ok(b.unpack()));
}

#[test]
fn parameters_with_a_default_that_holds_itself_do_not_freeze() {
    let mut heap = heap();
    let xs = heap.alloc_complex(ObjectGen::List(ListGen::new(vec![Value::new_int(1)])));
    assert_eq!(heap.list_push(xs, xs), Ok(()));
    let mut spec = ParametersSpec::<Value>::new("f".to_owned());
    spec.required("a");
    spec.defaulted("b", xs);
    assert_eq!(spec.freeze(&mut heap).err(), Some(ControlError::CyclicFreeze));
}

#[test]
fn parameters_without_defaults_freeze() {
    let mut heap = heap();
    let mut spec = ParametersSpec::<Value>::new("g".to_owned());
    spec.required("a");
    spec.optional("b");
    spec.kwargs("kw");
    let frozen = spec.freeze(&mut heap).unwrap();
    assert_eq!(frozen.signature(), "g(a, b = ..., **kwargs)");
    assert_eq!(heap.len(), 0);
    assert_eq!(heap.frozen_heap().len(), 0);
}

#[test]
fn walked_parameters_follow_their_defaults() {
    let mut heap = heap();
    let _garbage = heap.alloc_str("garbage");
    let default = heap.alloc_str("dflt");
    let mut spec = ParametersSpec::<Value>::new("f".to_owned());
    spec.defaulted("a", default);
    spec.optional("b");
    let mut to = Vec::new();
    let spec = spec.walk(&mut heap, &mut to);
    heap.swap_entries(&mut to);
    assert_eq!(heap.len(), 1);
    assert_eq!(spec.signature(), "f(a = ..., b = ...)");
    let collect = ParametersCollect::collect(&spec, 0);
    let slots = collect.done(&mut heap).unwrap();
    assert_eq!(heap.unpack_str(slots[0].get(&heap).unwrap()), Some("dflt"));
    assert!(slots[1].is_unassigned(&heap));
}
