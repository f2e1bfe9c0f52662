use starlark::environment::globals::{Globals, GlobalsBuilder, GlobalsStatic};
use starlark::values::layout::value::FrozenValue;

fn one_member(builder: GlobalsBuilder) -> GlobalsBuilder {
    let mut builder = builder;
    builder.set("answer", 42);
    builder
}

fn two_members(builder: GlobalsBuilder) -> GlobalsBuilder {
    let mut builder = builder;
    builder.set("host", "lh");
    builder.set("port", 80);
    builder
}

#[test]
fn globals_test_send_sync() {
    fn check<T: Send + Sync>() {}
    check::<Globals>();
}

#[test]
fn builder_sets_names_and_structs() {
    let mut builder = GlobalsBuilder::new();
    builder.set("True", true);
    builder.set("x", 1);
    let kept = builder.alloc_frozen("kept");
    builder.set("kept", kept);
    let builder = builder.struct_("ip", two_members).with(one_member);
    let globals = builder.build();
    assert_eq!(globals.names(), vec!["True", "x", "kept", "ip", "answer"]);
    assert_eq!(globals.len(), 5);
    assert_eq!(globals.get_frozen("x").unwrap().unpack_int(), Some(1));
    assert_eq!(globals.get("True").unwrap().unpack_bool(), Some(true));
    assert!(globals.get("host").is_none());
    assert_eq!(globals.heap().unpack_str(globals.get_frozen("kept").unwrap()), Some("kept"));
    assert_eq!(
        globals.describe(),
        "True = True\nx = 1\nkept = \"kept\"\nip = struct(host=\"lh\", port=80)\nanswer = 42"
    );
    let copy = globals.clone();
    assert_eq!(copy.names(), globals.names());
    assert_eq!(Globals::new().names(), Vec::<String>::new());
    assert_eq!(Globals::new().describe(), "");
}

#[test]
fn struct_by_hand() {
    let mut builder = GlobalsBuilder::new();
    builder.begin_struct();
    builder.set("a", FrozenValue::new_none());
    builder.end_struct("s");
    builder.set("b", 2);
    let globals = builder.with_struct("t", one_member).build();
    assert_eq!(globals.describe(), "s = struct(a=None)\nb = 2\nt = struct(answer=42)");
}

#[test]
fn only_member_is_the_one_there_is() {
    let none = GlobalsBuilder::new().build();
    assert!(none.only_member().is_none());
    let one = GlobalsBuilder::new().with(one_member).build();
    assert_eq!(one.only_member().unwrap().unpack_int(), Some(42));
    let two = GlobalsBuilder::new().with(two_members).build();
    assert!(two.only_member().is_none());
}

#[test]
fn members_are_built_once() {
    let cell = GlobalsStatic::new();
    let first = cell.members(two_members).unwrap().names();
    assert_eq!(first, vec!["host", "port"]);
    let second = cell.members(one_member).unwrap().names();
    assert_eq!(second, vec!["host", "port"]);
    assert_eq!(cell.function(one_member).map(|v| v.unpack_int()), None);
    let single = GlobalsStatic::new();
    assert_eq!(single.function(one_member).unwrap().unpack_int(), Some(42));
    assert_eq!(single.function(two_members).unwrap().unpack_int(), Some(42));
}
