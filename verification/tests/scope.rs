use starlark::environment::names::MutableNames;
use starlark::eval::scope::{Scope, Slot, Visibility};

fn names(xs: &[&str]) -> Vec<String> {
    xs.iter().map(|x| x.to_string()).collect()
}

#[test]
fn parameters_take_the_leading_slots() {
    let mut scope = Scope::enter_module(MutableNames::new(), &vec![]);
    scope.enter_def(&names(&["a", "b", "c"]), &names(&["t", "b"]));
    assert_eq!(scope.get_name("a"), Some(Slot::Local(0)));
    assert_eq!(scope.get_name("b"), Some(Slot::Local(1)));
    assert_eq!(scope.get_name("c"), Some(Slot::Local(2)));
    assert_eq!(scope.get_name("t"), Some(Slot::Local(3)));
    assert_eq!(scope.get_name("missing"), None);
    let def = scope.exit_def();
    assert_eq!(def.used, 4);
    assert!(def.parent.is_empty());
    assert_eq!(scope.exit_module(), (0, 0));
}

#[test]
fn module_names_split_by_visibility() {
    let defines = vec![
        ("x".to_string(), Visibility::Public),
        ("_y".to_string(), Visibility::Private),
        ("z".to_string(), Visibility::Public),
        ("x".to_string(), Visibility::Public),
    ];
    let mut scope = Scope::enter_module(MutableNames::new(), &defines);
    assert_eq!(scope.get_name("x"), Some(Slot::Module(0)));
    assert_eq!(scope.get_name("z"), Some(Slot::Module(1)));
    assert_eq!(scope.get_name("_y"), Some(Slot::Local(0)));
    assert_eq!(scope.get_name_or_panic("z"), Slot::Module(1));
    assert_eq!(scope.exit_module(), (2, 1));
}

#[test]
fn upvalue_is_copied_down() {
    // def f():
    //     x = 1
    //     def g(): return x
    //     return g()
    let defines = vec![("f".to_string(), Visibility::Public)];
    let mut scope = Scope::enter_module(MutableNames::new(), &defines);
    scope.enter_def(&names(&[]), &names(&["x", "g"]));
    assert_eq!(scope.get_name("x"), Some(Slot::Local(0)));
    scope.enter_def(&names(&[]), &names(&[]));
    assert_eq!(scope.get_name("x"), Some(Slot::Local(0)));
    assert_eq!(scope.get_name("x"), Some(Slot::Local(0)));
    assert_eq!(scope.get_name("f"), Some(Slot::Module(0)));
    let g = scope.exit_def();
    assert_eq!(g.used, 1);
    assert_eq!(g.parent, vec![(0, 0)]);
    assert_eq!(g.get_name("x"), Some(0));
    let f = scope.exit_def();
    assert_eq!(f.used, 2);
    assert!(f.parent.is_empty());
    assert_eq!(scope.exit_module(), (1, 0));
}

#[test]
fn upvalue_passes_through_every_scope_between() {
    let mut scope = Scope::enter_module(MutableNames::new(), &vec![]);
    scope.enter_def(&names(&["p", "x"]), &names(&[]));
    scope.enter_def(&names(&["q"]), &names(&[]));
    scope.enter_def(&names(&["r", "s"]), &names(&[]));
    assert_eq!(scope.get_name("x"), Some(Slot::Local(2)));
    let inner = scope.exit_def();
    assert_eq!(inner.parent, vec![(1, 2)]);
    assert_eq!(inner.used, 3);
    let middle = scope.exit_def();
    assert_eq!(middle.parent, vec![(1, 1)]);
    assert_eq!(middle.used, 2);
    let outer = scope.exit_def();
    assert!(outer.parent.is_empty());
    assert_eq!(outer.used, 2);
}

#[test]
fn comprehension_shadows_and_restores() {
    let mut scope = Scope::enter_module(MutableNames::new(), &vec![]);
    scope.enter_def(&names(&["x"]), &names(&[]));
    assert_eq!(scope.get_name("x"), Some(Slot::Local(0)));
    scope.enter_compr();
    scope.add_compr(&names(&["x", "y"]));
    assert_eq!(scope.get_name("x"), Some(Slot::Local(1)));
    assert_eq!(scope.get_name("y"), Some(Slot::Local(2)));
    scope.enter_compr();
    scope.add_compr(&names(&["y"]));
    assert_eq!(scope.get_name("y"), Some(Slot::Local(3)));
    scope.exit_compr();
    assert_eq!(scope.get_name("y"), Some(Slot::Local(2)));
    scope.exit_compr();
    assert_eq!(scope.get_name("x"), Some(Slot::Local(0)));
    assert_eq!(scope.get_name("y"), None);
    let def = scope.exit_def();
    assert_eq!(def.used, 4);
}

#[test]
fn slots_stay_in_order_through_comprehensions_and_captures() {
    let mut scope = Scope::enter_module(MutableNames::new(), &vec![]);
    scope.enter_def(&names(&["a", "b"]), &names(&["c"]));
    scope.enter_def(&names(&["p"]), &names(&[]));
    scope.enter_compr();
    scope.add_compr(&names(&["p", "i"]));
    assert_eq!(scope.get_name("a"), Some(Slot::Local(3)));
    assert_eq!(scope.get_name("p"), Some(Slot::Local(1)));
    scope.exit_compr();
    assert_eq!(scope.get_name("b"), Some(Slot::Local(4)));
    let inner = scope.exit_def();
    assert_eq!(inner.used, 5);
    assert_eq!(inner.parent, vec![(0, 3), (1, 4)]);
    let slots = vec![inner.get_name("p"), inner.get_name("a"), inner.get_name("b")];
    assert_eq!(slots, [Some(0), Some(3), Some(4)]);
    assert_eq!(inner.get_name("i"), None);
    let outer = scope.exit_def();
    assert_eq!(outer.used, 3);
    assert!(outer.parent.is_empty());
}

#[test]
fn module_table_keeps_earlier_names() {
    let mut module = MutableNames::new();
    assert_eq!(module.add_name("a"), 0);
    assert_eq!(module.add_name("b"), 1);
    assert_eq!(module.add_name("a"), 0);
    assert_eq!(module.get_name("b"), Some(1));
    assert_eq!(module.get_name("c"), None);
    let defines = vec![("c".to_string(), Visibility::Public), ("a".to_string(), Visibility::Public)];
    let mut scope = Scope::enter_module(module, &defines);
    assert_eq!(scope.get_name("c"), Some(Slot::Module(2)));
    assert_eq!(scope.get_name("a"), Some(Slot::Module(0)));
    assert_eq!(scope.module().get_name("c"), Some(2));
    assert_eq!(scope.module().slot_count(), 3);
    assert_eq!(scope.exit_module(), (3, 0));
}
