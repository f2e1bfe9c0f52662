//! Values as text: the form that the language prints, and JSON.
//!
//! A value on the mutable heap can reach itself, and its text would never
//! end. So each walk gets a depth up to which it follows containers, and
//! gives nothing where that is not enough.

use vstd::prelude::*;
use crate::collections::entries::KeyModel;
use crate::text::{chars_of, decimal_int, joined, push_char, push_decimal_int, push_text};
use crate::values::layout::access::{as_values, dict_entries, ARef};
use crate::values::layout::heap::Heap;
use crate::values::layout::value::{Value, ValueLike};
use crate::values::types::containers::ObjectGen;

verus! {

/// What a container holds, whichever heap it is on.
pub enum Shape {
    List(Seq<Value>),
    Tuple(Seq<Value>),
    Dict(Seq<(u32, Value, Value)>),
    Struct(Seq<(Seq<char>, Value)>),
}

/// The fields of a struct: the name and the value of each.
pub open spec fn struct_fields<T: ValueLike>(s: Seq<(KeyModel, T)>) -> Seq<(Seq<char>, Value)> {
    s.map_values(|e: (KeyModel, T)| (e.0.1, e.1.spec_to_value()))
}

impl<T: ValueLike> ObjectGen<T> {
    /// What the container holds.
    pub open spec fn shape(&self) -> Shape {
        match self {
            ObjectGen::List(l) => Shape::List(as_values(l.content@)),
            ObjectGen::Tuple(t) => Shape::Tuple(as_values(t.content@)),
            ObjectGen::Dict(d) => Shape::Dict(dict_entries(d.content@)),
            ObjectGen::Struct(s) => Shape::Struct(struct_fields(s.fields@)),
        }
    }
}

impl Heap {
    /// What the container that a value is holds, if the value is one.
    pub open spec fn shape_of(&self, v: Value) -> Option<Shape> {
        match self.aref(v@) {
            Some(ARef::Frozen(obj)) => Some(obj.shape()),
            Some(ARef::Live(obj)) => Some(obj.shape()),
            _ => None,
        }
    }
}

/// One character of a string as JSON writes it.
pub open spec fn json_char(c: char) -> Seq<char> {
    if c == '"' {
        seq!['\\', '"']
    } else if c == '\\' {
        seq!['\\', '\\']
    } else if c == '/' {
        seq!['\\', '/']
    } else if c == '\u{8}' {
        seq!['\\', 'b']
    } else if c == '\u{c}' {
        seq!['\\', 'f']
    } else if c == '\n' {
        seq!['\\', 'n']
    } else if c == '\r' {
        seq!['\\', 'r']
    } else if c == '\t' {
        seq!['\\', 't']
    } else {
        seq![c]
    }
}

/// The characters of a string as JSON writes them, without the quotes.
pub open spec fn json_chars(s: Seq<char>) -> Seq<char>
    decreases s.len(),
{
    if s.len() == 0 {
        Seq::empty()
    } else {
        json_chars(s.drop_last()) + json_char(s.last())
    }
}

/// A string as JSON writes it.
pub open spec fn json_string(s: Seq<char>) -> Seq<char> {
    seq!['"'] + json_chars(s) + seq!['"']
}

/// Appends a string as JSON writes it.
pub fn push_json_string(out: &mut String, s: &str)
    ensures
        final(out)@ == old(out)@ + json_string(s@),
{
    let chars = chars_of(s);
    push_char(out, '"');
    let mut i: usize = 0;
    assert(chars@.take(0) =~= Seq::<char>::empty());
    while i < chars.len()
        invariant
            i <= chars@.len(),
            chars@ == s@,
            out@ == old(out)@ + seq!['"'] + json_chars(chars@.take(i as int)),
        decreases chars@.len() - i,
    {
        let c = chars[i];
        let ghost before = out@;
        proof {
            let now = chars@.take(i + 1);
            assert(now.drop_last() =~= chars@.take(i as int));
            assert(now.last() == c);
        }
        if c == '"' {
            push_char(out, '\\');
            push_char(out, '"');
        } else if c == '\\' {
            push_char(out, '\\');
            push_char(out, '\\');
        } else if c == '/' {
            push_char(out, '\\');
            push_char(out, '/');
        } else if c == '\u{8}' {
            push_char(out, '\\');
            push_char(out, 'b');
        } else if c == '\u{c}' {
            push_char(out, '\\');
            push_char(out, 'f');
        } else if c == '\n' {
            push_char(out, '\\');
            push_char(out, 'n');
        } else if c == '\r' {
            push_char(out, '\\');
            push_char(out, 'r');
        } else if c == '\t' {
            push_char(out, '\\');
            push_char(out, 't');
        } else {
            push_char(out, c);
        }
        assert(out@ =~= before + json_char(c));
        assert(out@ =~= old(out)@ + seq!['"'] + json_chars(chars@.take(i + 1)));
        i += 1;
    }
    assert(chars@.take(i as int) =~= chars@);
    push_char(out, '"');
    assert(out@ =~= old(out)@ + json_string(s@));
}

/// The two ways of writing a value down.
#[derive(Debug, Clone, Copy, PartialEq, Eq, Structural)]
pub enum Style {
    /// As JSON.
    Json,
    /// As the language prints it.
    Repr,
}

/// The kinds of container.
#[derive(Debug, Clone, Copy, PartialEq, Eq, Structural)]
pub enum Kind {
    List,
    Tuple,
    Dict,
    Struct,
}

/// One character of a string as the language prints it.
pub open spec fn repr_char(c: char) -> Seq<char> {
    if c == '"' {
        seq!['\\', '"']
    } else if c == '\\' {
        seq!['\\', '\\']
    } else if c == '\n' {
        seq!['\\', 'n']
    } else if c == '\r' {
        seq!['\\', 'r']
    } else if c == '\t' {
        seq!['\\', 't']
    } else {
        seq![c]
    }
}

/// The characters of a string as the language prints them, without the
/// quotes.
pub open spec fn repr_chars(s: Seq<char>) -> Seq<char>
    decreases s.len(),
{
    if s.len() == 0 {
        Seq::empty()
    } else {
        repr_chars(s.drop_last()) + repr_char(s.last())
    }
}

/// A string as the language prints it.
pub open spec fn repr_string(s: Seq<char>) -> Seq<char> {
    seq!['"'] + repr_chars(s) + seq!['"']
}

/// Appends a string as the language prints it.
pub fn push_repr_string(out: &mut String, s: &str)
    ensures
        final(out)@ == old(out)@ + repr_string(s@),
{
    let chars = chars_of(s);
    push_char(out, '"');
    let mut i: usize = 0;
    assert(chars@.take(0) =~= Seq::<char>::empty());
    while i < chars.len()
        invariant
            i <= chars@.len(),
            chars@ == s@,
            out@ == old(out)@ + seq!['"'] + repr_chars(chars@.take(i as int)),
        decreases chars@.len() - i,
    {
        let c = chars[i];
        let ghost before = out@;
        proof {
            let now = chars@.take(i + 1);
            assert(now.drop_last() =~= chars@.take(i as int));
            assert(now.last() == c);
        }
        if c == '"' {
            push_char(out, '\\');
            push_char(out, '"');
        } else if c == '\\' {
            push_char(out, '\\');
            push_char(out, '\\');
        } else if c == '\n' {
            push_char(out, '\\');
            push_char(out, 'n');
        } else if c == '\r' {
            push_char(out, '\\');
            push_char(out, 'r');
        } else if c == '\t' {
            push_char(out, '\\');
            push_char(out, 't');
        } else {
            push_char(out, c);
        }
        assert(out@ =~= before + repr_char(c));
        assert(out@ =~= old(out)@ + seq!['"'] + repr_chars(chars@.take(i + 1)));
        i += 1;
    }
    assert(chars@.take(i as int) =~= chars@);
    push_char(out, '"');
    assert(out@ =~= old(out)@ + repr_string(s@));
}

/// The value none, written down.
pub open spec fn none_text(style: Style) -> Seq<char> {
    match style {
        Style::Json => "null"@,
        Style::Repr => "None"@,
    }
}

/// A boolean, written down.
pub open spec fn bool_text(style: Style, b: bool) -> Seq<char> {
    match style {
        Style::Json => if b {
            "true"@
        } else {
            "false"@
        },
        Style::Repr => if b {
            "True"@
        } else {
            "False"@
        },
    }
}

/// A string, written down.
pub open spec fn string_text(style: Style, s: Seq<char>) -> Seq<char> {
    match style {
        Style::Json => json_string(s),
        Style::Repr => repr_string(s),
    }
}

/// What stands between the parts of a container.
pub open spec fn separator(style: Style) -> Seq<char> {
    match style {
        Style::Json => ","@,
        Style::Repr => ", "@,
    }
}

/// The parts of a container in their brackets. JSON writes lists and tuples
/// in square brackets and dicts and structs in curly ones. The language
/// prints a tuple in round brackets, with a comma behind a single element,
/// and a struct as `struct(...)`.
pub open spec fn wrapped(style: Style, kind: Kind, parts: Seq<Seq<char>>) -> Seq<char> {
    let inner = joined(parts, separator(style));
    match (style, kind) {
        (_, Kind::List) => seq!['['] + inner + seq![']'],
        (Style::Json, Kind::Tuple) => seq!['['] + inner + seq![']'],
        (Style::Repr, Kind::Tuple) => if parts.len() == 1 {
            seq!['('] + inner + seq![',', ')']
        } else {
            seq!['('] + inner + seq![')']
        },
        (_, Kind::Dict) => seq!['{'] + inner + seq!['}'],
        (Style::Json, Kind::Struct) => seq!['{'] + inner + seq!['}'],
        (Style::Repr, Kind::Struct) => "struct("@ + inner + seq![')'],
    }
}

/// An entry of a dict, written down.
pub open spec fn entry_text(style: Style, key: Seq<char>, value: Seq<char>) -> Seq<char> {
    match style {
        Style::Json => key + seq![':'] + value,
        Style::Repr => key + seq![':', ' '] + value,
    }
}

/// A field of a struct, written down.
pub open spec fn field_text(style: Style, name: Seq<char>, value: Seq<char>) -> Seq<char> {
    match style {
        Style::Json => seq!['"'] + name + seq!['"', ':'] + value,
        Style::Repr => name + seq!['='] + value,
    }
}

/// Computes [`wrapped`].
fn wrap(style: Style, kind: Kind, parts: &Vec<String>) -> (r: String)
    ensures
        r@ == wrapped(style, kind, crate::text::texts(parts@)),
{
    let mut out = String::new();
    let sep = match style {
        Style::Json => ",",
        Style::Repr => ", ",
    };
    let inner = crate::text::join_texts(parts, sep);
    match (style, kind) {
        (_, Kind::List) => {
            push_char(&mut out, '[');
            push_text(&mut out, inner.as_str());
            push_char(&mut out, ']');
        },
        (Style::Json, Kind::Tuple) => {
            push_char(&mut out, '[');
            push_text(&mut out, inner.as_str());
            push_char(&mut out, ']');
        },
        (Style::Repr, Kind::Tuple) => {
            push_char(&mut out, '(');
            push_text(&mut out, inner.as_str());
            if parts.len() == 1 {
                push_char(&mut out, ',');
            }
            push_char(&mut out, ')');
        },
        (_, Kind::Dict) => {
            push_char(&mut out, '{');
            push_text(&mut out, inner.as_str());
            push_char(&mut out, '}');
        },
        (Style::Json, Kind::Struct) => {
            push_char(&mut out, '{');
            push_text(&mut out, inner.as_str());
            push_char(&mut out, '}');
        },
        (Style::Repr, Kind::Struct) => {
            push_text(&mut out, "struct(");
            push_text(&mut out, inner.as_str());
            push_char(&mut out, ')');
        },
    }
    assert(out@ =~= wrapped(style, kind, crate::text::texts(parts@)));
    out
}

/// A value written down, following containers `fuel` deep. Nothing where
/// that is not deep enough, and nothing for what is no value.
pub open spec fn text_of(heap: &Heap, v: Value, fuel: nat, style: Style) -> Option<Seq<char>>
    decreases fuel, 0nat, 0nat,
{
    match heap.aref(v@) {
        None => None,
        Some(ARef::NoneValue) => Some(none_text(style)),
        Some(ARef::Bool(b)) => Some(bool_text(style, b)),
        Some(ARef::Int(i)) => Some(decimal_int(i as int)),
        Some(ARef::Str(s)) => Some(string_text(style, s@)),
        Some(_) => if fuel == 0 {
            None
        } else {
            match heap.shape_of(v) {
                Some(shape) => shape_text(heap, shape, (fuel - 1) as nat, style),
                None => None,
            }
        },
    }
}

/// What a container holds, written down.
pub open spec fn shape_text(heap: &Heap, shape: Shape, fuel: nat, style: Style) -> Option<
    Seq<char>,
>
    decreases fuel, 2nat, 0nat,
{
    match shape {
        Shape::List(items) => match items_text(heap, items, fuel, style) {
            Some(parts) => Some(wrapped(style, Kind::List, parts)),
            None => None,
        },
        Shape::Tuple(items) => match items_text(heap, items, fuel, style) {
            Some(parts) => Some(wrapped(style, Kind::Tuple, parts)),
            None => None,
        },
        Shape::Dict(entries) => match entries_text(heap, entries, fuel, style) {
            Some(parts) => Some(wrapped(style, Kind::Dict, parts)),
            None => None,
        },
        Shape::Struct(fields) => match fields_text(heap, fields, fuel, style) {
            Some(parts) => Some(wrapped(style, Kind::Struct, parts)),
            None => None,
        },
    }
}

/// Each of `items`, written down.
pub open spec fn items_text(heap: &Heap, items: Seq<Value>, fuel: nat, style: Style) -> Option<
    Seq<Seq<char>>,
>
    decreases fuel, 1nat, items.len(),
{
    if items.len() == 0 {
        Some(Seq::empty())
    } else {
        match (
            items_text(heap, items.drop_last(), fuel, style),
            text_of(heap, items.last(), fuel, style),
        ) {
            (Some(parts), Some(part)) => Some(parts.push(part)),
            _ => None,
        }
    }
}

/// Each entry of a dict, written down.
pub open spec fn entries_text(
    heap: &Heap,
    entries: Seq<(u32, Value, Value)>,
    fuel: nat,
    style: Style,
) -> Option<Seq<Seq<char>>>
    decreases fuel, 1nat, entries.len(),
{
    if entries.len() == 0 {
        Some(Seq::empty())
    } else {
        match (
            entries_text(heap, entries.drop_last(), fuel, style),
            text_of(heap, entries.last().1, fuel, style),
            text_of(heap, entries.last().2, fuel, style),
        ) {
            (Some(parts), Some(key), Some(value)) => Some(parts.push(entry_text(style, key, value))),
            _ => None,
        }
    }
}

/// Each field of a struct, written down.
pub open spec fn fields_text(
    heap: &Heap,
    fields: Seq<(Seq<char>, Value)>,
    fuel: nat,
    style: Style,
) -> Option<Seq<Seq<char>>>
    decreases fuel, 1nat, fields.len(),
{
    if fields.len() == 0 {
        Some(Seq::empty())
    } else {
        match (
            fields_text(heap, fields.drop_last(), fuel, style),
            text_of(heap, fields.last().1, fuel, style),
        ) {
            (Some(parts), Some(value)) => Some(
                parts.push(field_text(style, fields.last().0, value)),
            ),
            _ => None,
        }
    }
}

/// A value as JSON: `null`, `true`, `false`, the digits of an integer, a
/// quoted string, the elements of a list or tuple in square brackets, the
/// entries of a dict or the fields of a struct in curly brackets.
pub open spec fn json_of(heap: &Heap, v: Value, fuel: nat) -> Option<Seq<char>> {
    text_of(heap, v, fuel, Style::Json)
}

/// A value as the language prints it.
pub open spec fn repr_of(heap: &Heap, v: Value, fuel: nat) -> Option<Seq<char>> {
    text_of(heap, v, fuel, Style::Repr)
}

impl Heap {
    /// Computes [`json_of`].
    pub fn to_json(&self, v: Value, fuel: usize) -> (r: Option<String>)
        ensures
            match r {
                Some(s) => json_of(self, v, fuel as nat) == Some(s@),
                None => json_of(self, v, fuel as nat) is None,
            },
    {
        self.to_text(v, fuel, Style::Json)
    }

    /// Computes [`repr_of`].
    pub fn to_repr(&self, v: Value, fuel: usize) -> (r: Option<String>)
        ensures
            match r {
                Some(s) => repr_of(self, v, fuel as nat) == Some(s@),
                None => repr_of(self, v, fuel as nat) is None,
            },
    {
        self.to_text(v, fuel, Style::Repr)
    }

    /// Appends a value as the language prints it to `collector`. Where the
    /// value cannot be printed `fuel` deep, nothing is appended and the
    /// result is `false`.
    pub fn collect_repr(&self, v: Value, collector: &mut String, fuel: usize) -> (r: bool)
        ensures
            match repr_of(self, v, fuel as nat) {
                Some(text) => r && final(collector)@ == old(collector)@ + text,
                None => !r && final(collector)@ == old(collector)@,
            },
    {
        match self.to_text(v, fuel, Style::Repr) {
            Some(text) => {
                push_text(collector, text.as_str());
                true
            },
            None => false,
        }
    }

    /// Computes [`text_of`].
    pub fn to_text(&self, v: Value, fuel: usize, style: Style) -> (r: Option<String>)
        ensures
            match r {
                Some(s) => text_of(self, v, fuel as nat, style) == Some(s@),
                None => text_of(self, v, fuel as nat, style) is None,
            },
        decreases fuel, 0nat, 0nat,
    {
        match self.get_aref(v) {
            None => None,
            Some(ARef::NoneValue) => Some(
                match style {
                    Style::Json => "null".to_owned(),
                    Style::Repr => "None".to_owned(),
                },
            ),
            Some(ARef::Bool(b)) => Some(
                match style {
                    Style::Json => if b {
                        "true".to_owned()
                    } else {
                        "false".to_owned()
                    },
                    Style::Repr => if b {
                        "True".to_owned()
                    } else {
                        "False".to_owned()
                    },
                },
            ),
            Some(ARef::Int(i)) => {
                let mut out = String::new();
                push_decimal_int(&mut out, i);
                assert(out@ =~= decimal_int(i as int));
                Some(out)
            },
            Some(ARef::Str(s)) => {
                let mut out = String::new();
                match style {
                    Style::Json => push_json_string(&mut out, s.as_str()),
                    Style::Repr => push_repr_string(&mut out, s.as_str()),
                }
                assert(out@ =~= string_text(style, s@));
                Some(out)
            },
            Some(ARef::Frozen(obj)) => {
                if fuel == 0 {
                    None
                } else {
                    self.object_to_text(obj, fuel - 1, style)
                }
            },
            Some(ARef::Live(obj)) => {
                if fuel == 0 {
                    None
                } else {
                    self.object_to_text(obj, fuel - 1, style)
                }
            },
        }
    }

    /// A container, written down.
    fn object_to_text<T: ValueLike>(&self, obj: &ObjectGen<T>, fuel: usize, style: Style) -> (r:
        Option<String>)
        ensures
            match r {
                Some(s) => shape_text(self, obj.shape(), fuel as nat, style) == Some(s@),
                None => shape_text(self, obj.shape(), fuel as nat, style) is None,
            },
        decreases fuel, 2nat, 0nat,
    {
        match obj {
            ObjectGen::List(l) => {
                let items = crate::values::layout::access::to_values(&l.content);
                match self.items_to_text(&items, fuel, style) {
                    Some(parts) => Some(wrap(style, Kind::List, &parts)),
                    None => None,
                }
            },
            ObjectGen::Tuple(t) => {
                let items = crate::values::layout::access::to_values(&t.content);
                match self.items_to_text(&items, fuel, style) {
                    Some(parts) => Some(wrap(style, Kind::Tuple, &parts)),
                    None => None,
                }
            },
            ObjectGen::Dict(_) => {
                let entries = obj.dict_items().unwrap();
                let mut parts: Vec<String> = Vec::with_capacity(entries.len());
                let mut i: usize = 0;
                assert(entries@.take(0) =~= Seq::<(u32, Value, Value)>::empty());
                while i < entries.len()
                    invariant
                        i <= entries@.len(),
                        obj.shape() == Shape::Dict(entries@),
                        entries_text(self, entries@.take(i as int), fuel as nat, style) == Some(
                            crate::text::texts(parts@),
                        ),
                    decreases fuel, 1nat, entries@.len() - i,
                {
                    let ghost before = parts@;
                    proof {
                        let now = entries@.take(i + 1);
                        assert(now.drop_last() =~= entries@.take(i as int));
                        assert(now.last() == entries@[i as int]);
                    }
                    let key = self.to_text(entries[i].1, fuel, style);
                    let value = self.to_text(entries[i].2, fuel, style);
                    match (key, value) {
                        (Some(key), Some(value)) => {
                            let ghost key_text = key@;
                            let mut part = key;
                            push_char(&mut part, ':');
                            match style {
                                Style::Json => {},
                                Style::Repr => {
                                    push_char(&mut part, ' ');
                                },
                            }
                            push_text(&mut part, value.as_str());
                            assert(part@ =~= entry_text(style, key_text, value@));
                            parts.push(part);
                            assert(crate::text::texts(parts@) =~= crate::text::texts(before).push(
                                part@,
                            ));
                        },
                        _ => {
                            proof {
                                lemma_entries_text_fail(self, entries@, i + 1, fuel as nat, style);
                            }
                            return None;
                        },
                    }
                    i += 1;
                }
                assert(entries@.take(i as int) =~= entries@);
                Some(wrap(style, Kind::Dict, &parts))
            },
            ObjectGen::Struct(s) => {
                let fields = s.fields.iter();
                let ghost all = struct_fields(s.fields@);
                let mut parts: Vec<String> = Vec::with_capacity(fields.len());
                let mut i: usize = 0;
                assert(all.take(0) =~= Seq::<(Seq<char>, Value)>::empty());
                while i < fields.len()
                    invariant
                        i <= fields@.len(),
                        fields@.len() == all.len(),
                        all == struct_fields(s.fields@),
                        obj.shape() == Shape::Struct(all),
                        forall|j: int|
                            0 <= j < fields@.len() ==> (#[trigger] fields@[j]).0@ == all[j].0
                                && fields@[j].1.spec_to_value() == all[j].1,
                        fields_text(self, all.take(i as int), fuel as nat, style) == Some(
                            crate::text::texts(parts@),
                        ),
                    decreases fuel, 1nat, fields@.len() - i,
                {
                    let ghost before = parts@;
                    proof {
                        let now = all.take(i + 1);
                        assert(now.drop_last() =~= all.take(i as int));
                        assert(now.last() == all[i as int]);
                    }
                    match self.to_text(fields[i].1.to_value(), fuel, style) {
                        Some(value) => {
                            let mut part = String::new();
                            match style {
                                Style::Json => {
                                    push_char(&mut part, '"');
                                    push_text(&mut part, fields[i].0.as_str());
                                    push_char(&mut part, '"');
                                    push_char(&mut part, ':');
                                },
                                Style::Repr => {
                                    push_text(&mut part, fields[i].0.as_str());
                                    push_char(&mut part, '=');
                                },
                            }
                            push_text(&mut part, value.as_str());
                            assert(part@ =~= field_text(style, all[i as int].0, value@));
                            parts.push(part);
                            assert(crate::text::texts(parts@) =~= crate::text::texts(before).push(
                                part@,
                            ));
                        },
                        None => {
                            proof {
                                lemma_fields_text_fail(self, all, i + 1, fuel as nat, style);
                            }
                            return None;
                        },
                    }
                    i += 1;
                }
                assert(all.take(i as int) =~= all);
                Some(wrap(style, Kind::Struct, &parts))
            },
        }
    }

    /// Each of `items`, written down.
    fn items_to_text(&self, items: &Vec<Value>, fuel: usize, style: Style) -> (r: Option<
        Vec<String>,
    >)
        ensures
            match r {
                Some(parts) => items_text(self, items@, fuel as nat, style) == Some(
                    crate::text::texts(parts@),
                ),
                None => items_text(self, items@, fuel as nat, style) is None,
            },
        decreases fuel, 1nat, 0nat,
    {
        let mut parts: Vec<String> = Vec::with_capacity(items.len());
        let mut i: usize = 0;
        assert(items@.take(0) =~= Seq::<Value>::empty());
        while i < items.len()
            invariant
                i <= items@.len(),
                items_text(self, items@.take(i as int), fuel as nat, style) == Some(
                    crate::text::texts(parts@),
                ),
            decreases fuel, 0nat, items@.len() - i,
        {
            let ghost before = parts@;
            proof {
                let now = items@.take(i + 1);
                assert(now.drop_last() =~= items@.take(i as int));
                assert(now.last() == items@[i as int]);
            }
            match self.to_text(items[i], fuel, style) {
                Some(part) => {
                    parts.push(part);
                    assert(crate::text::texts(parts@) =~= crate::text::texts(before).push(part@));
                },
                None => {
                    proof {
                        lemma_items_text_fail(self, items@, i + 1, fuel as nat, style);
                    }
                    return None;
                },
            }
            i += 1;
        }
        assert(items@.take(i as int) =~= items@);
        Some(parts)
    }
}

/// Where some items cannot be written down, no more items make up for it.
pub proof fn lemma_items_text_fail(
    heap: &Heap,
    items: Seq<Value>,
    upto: int,
    fuel: nat,
    style: Style,
)
    requires
        0 <= upto <= items.len(),
        items_text(heap, items.take(upto), fuel, style) is None,
    ensures
        items_text(heap, items, fuel, style) is None,
    decreases items.len() - upto,
{
    if upto < items.len() {
        assert(items.take(upto + 1).drop_last() =~= items.take(upto));
        lemma_items_text_fail(heap, items, upto + 1, fuel, style);
    } else {
        assert(items.take(upto) =~= items);
    }
}

/// Where some entries cannot be written down, no more entries make up for
/// it.
pub proof fn lemma_entries_text_fail(
    heap: &Heap,
    entries: Seq<(u32, Value, Value)>,
    upto: int,
    fuel: nat,
    style: Style,
)
    requires
        0 <= upto <= entries.len(),
        entries_text(heap, entries.take(upto), fuel, style) is None,
    ensures
        entries_text(heap, entries, fuel, style) is None,
    decreases entries.len() - upto,
{
    if upto < entries.len() {
        assert(entries.take(upto + 1).drop_last() =~= entries.take(upto));
        lemma_entries_text_fail(heap, entries, upto + 1, fuel, style);
    } else {
        assert(entries.take(upto) =~= entries);
    }
}

/// Where some fields cannot be written down, no more fields make up for
/// it.
pub proof fn lemma_fields_text_fail(
    heap: &Heap,
    fields: Seq<(Seq<char>, Value)>,
    upto: int,
    fuel: nat,
    style: Style,
)
    requires
        0 <= upto <= fields.len(),
        fields_text(heap, fields.take(upto), fuel, style) is None,
    ensures
        fields_text(heap, fields, fuel, style) is None,
    decreases fields.len() - upto,
{
    if upto < fields.len() {
        assert(fields.take(upto + 1).drop_last() =~= fields.take(upto));
        lemma_fields_text_fail(heap, fields, upto + 1, fuel, style);
    } else {
        assert(fields.take(upto) =~= fields);
    }
}

} // verus!
