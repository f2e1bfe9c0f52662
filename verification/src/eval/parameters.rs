//! The call protocol: what parameters a function has, and how the
//! arguments of a call are bound to the slots of its frame.

use vstd::prelude::*;
use crate::collections::entries::{
    distinct_keys, has_key, index_of, inserted, key_at, lemma_inserted_distinct, KeyModel,
};
use crate::collections::hash::{BorrowHashed, Hashed};
use crate::collections::small_map::{text_key, SmallMap};
use crate::text::{
    decimal, join_texts, joined, push_char, push_decimal, push_text, skip_leading, texts, trim_start_char,
};
use crate::values::error::{ControlError, ValueError};
use crate::values::layout::value::FrozenValue;
use crate::values::layout::heap::{Heap, ValueMem, ValueRef};
use crate::values::layout::pointer::{PointerUnpack, WORD_UNASSIGNED};
use crate::values::layout::value::{Value, ValueLike};
use crate::values::types::containers::{DictGen, ObjectGen, TupleGen};

verus! {

/// Why the arguments of a call do not fit the parameters of the function.
#[derive(Debug, Clone, PartialEq, Eq)]
pub enum FunctionError {
    MissingParameter { name: String, function: String },
    ExtraPositionalParameters { count: usize, function: String },
    ExtraNamedParameters { names: Vec<String>, function: String },
    RepeatedParameter { name: String },
    ArgsValueIsNotString,
    ArgsArrayIsNotIterable,
    KWArgsIsNotDict,
}

/// A [`FunctionError`] with its texts as sequences of characters.
pub enum FunctionErrorModel {
    MissingParameter { name: Seq<char>, function: Seq<char> },
    ExtraPositionalParameters { count: usize, function: Seq<char> },
    ExtraNamedParameters { names: Seq<Seq<char>>, function: Seq<char> },
    RepeatedParameter { name: Seq<char> },
    ArgsValueIsNotString,
    ArgsArrayIsNotIterable,
    KWArgsIsNotDict,
}

impl View for FunctionError {
    type V = FunctionErrorModel;

    open spec fn view(&self) -> FunctionErrorModel {
        match self {
            FunctionError::MissingParameter { name, function } => FunctionErrorModel::MissingParameter {
                name: name@,
                function: function@,
            },
            FunctionError::ExtraPositionalParameters {
                count,
                function,
            } => FunctionErrorModel::ExtraPositionalParameters {
                count: *count,
                function: function@,
            },
            FunctionError::ExtraNamedParameters {
                names,
                function,
            } => FunctionErrorModel::ExtraNamedParameters {
                names: texts(names@),
                function: function@,
            },
            FunctionError::RepeatedParameter { name } => FunctionErrorModel::RepeatedParameter {
                name: name@,
            },
            FunctionError::ArgsValueIsNotString => FunctionErrorModel::ArgsValueIsNotString,
            FunctionError::ArgsArrayIsNotIterable => FunctionErrorModel::ArgsArrayIsNotIterable,
            FunctionError::KWArgsIsNotDict => FunctionErrorModel::KWArgsIsNotDict,
        }
    }
}

impl FunctionErrorModel {
    /// The text of the error.
    pub open spec fn message(self) -> Seq<char> {
        match self {
            FunctionErrorModel::MissingParameter { name, function } => "Missing parameter `"@ + name
                + "` for call to "@ + function,
            FunctionErrorModel::ExtraPositionalParameters { count, function } => "Found "@
                + decimal(count as nat) + " extra positional parameter(s) for call to "@ + function,
            FunctionErrorModel::ExtraNamedParameters { names, function } => "Found "@ + joined(
                names,
                " "@,
            ) + " extra named parameter(s) for call to "@ + function,
            FunctionErrorModel::RepeatedParameter { name } => "Parameter `"@ + name
                + "` occurs both explicitly and in **kwargs"@,
            FunctionErrorModel::ArgsValueIsNotString => "The argument provided for *args is not an identifier"@,
            FunctionErrorModel::ArgsArrayIsNotIterable => "The argument provided for *args is not iterable"@,
            FunctionErrorModel::KWArgsIsNotDict => "The argument provided for **kwargs is not a dictionary"@,
        }
    }
}

impl FunctionError {
    /// The text of the error.
    pub fn message(&self) -> (r: String)
        ensures
            r@ == self@.message(),
    {
        let mut out = String::new();
        match self {
            FunctionError::MissingParameter { name, function } => {
                push_text(&mut out, "Missing parameter `");
                push_text(&mut out, name.as_str());
                push_text(&mut out, "` for call to ");
                push_text(&mut out, function.as_str());
                assert(out@ =~= self@.message());
            },
            FunctionError::ExtraPositionalParameters { count, function } => {
                push_text(&mut out, "Found ");
                push_decimal(&mut out, *count as u64);
                push_text(&mut out, " extra positional parameter(s) for call to ");
                push_text(&mut out, function.as_str());
                assert(out@ =~= self@.message());
            },
            FunctionError::ExtraNamedParameters { names, function } => {
                push_text(&mut out, "Found ");
                let all = join_texts(names, " ");
                push_text(&mut out, all.as_str());
                push_text(&mut out, " extra named parameter(s) for call to ");
                push_text(&mut out, function.as_str());
                assert(out@ =~= self@.message());
            },
            FunctionError::RepeatedParameter { name } => {
                push_text(&mut out, "Parameter `");
                push_text(&mut out, name.as_str());
                push_text(&mut out, "` occurs both explicitly and in **kwargs");
                assert(out@ =~= self@.message());
            },
            FunctionError::ArgsValueIsNotString => {
                push_text(&mut out, "The argument provided for *args is not an identifier");
                assert(out@ =~= self@.message());
            },
            FunctionError::ArgsArrayIsNotIterable => {
                push_text(&mut out, "The argument provided for *args is not iterable");
                assert(out@ =~= self@.message());
            },
            FunctionError::KWArgsIsNotDict => {
                push_text(&mut out, "The argument provided for **kwargs is not a dictionary");
                assert(out@ =~= self@.message());
            },
        }
        out
    }
}

/// What a parameter gets when the call does not supply it.
#[derive(Debug, Clone)]
pub enum ParameterDefault<V> {
    /// The call must supply it.
    Required,
    /// It stays unassigned.
    Optional,
    /// It gets this value.
    Defaulted(V),
    /// It gets the positional arguments that no other parameter took.
    Args,
    /// It gets the named arguments that no other parameter took.
    KWargs,
}

/// How one parameter shows in a signature. A `$` at the front of a name
/// marks a parameter that takes no named argument; it is not shown.
pub open spec fn param_text<V>(p: (Seq<char>, ParameterDefault<V>)) -> Seq<char> {
    match p.1 {
        ParameterDefault::Required => skip_leading(p.0, '$'),
        ParameterDefault::Optional => skip_leading(p.0, '$') + " = ..."@,
        ParameterDefault::Defaulted(_) => skip_leading(p.0, '$') + " = ..."@,
        ParameterDefault::Args => "*args"@,
        ParameterDefault::KWargs => "**kwargs"@,
    }
}

/// The signature of a function: its name, and its parameters in round
/// brackets with `, ` between them.
pub open spec fn signature_text<V>(
    function_name: Seq<char>,
    names: Seq<(Seq<char>, ParameterDefault<V>)>,
) -> Seq<char> {
    function_name + seq!['('] + joined(
        names.map_values(|p: (Seq<char>, ParameterDefault<V>)| param_text(p)),
        ", "@,
    ) + seq![')']
}

/// The parameters of a function, in the order of their slots.
#[derive(Debug, Clone)]
pub struct ParametersSpec<V> {
    function_name: String,
    names: Vec<(String, ParameterDefault<V>)>,
    indices: SmallMap<usize>,
    positional: usize,
    no_args: bool,
    args: Option<usize>,
    kwargs: Option<usize>,
}

impl<V: ValueLike> ParametersSpec<V> {
    /// The name of the function.
    pub closed spec fn function_name(&self) -> Seq<char> {
        self.function_name@
    }

    /// The parameters: the name and the kind of each.
    pub closed spec fn names(&self) -> Seq<(Seq<char>, ParameterDefault<V>)> {
        self.names@.map_values(|p: (String, ParameterDefault<V>)| (p.0@, p.1))
    }

    /// The slot of each parameter that a named argument can fill.
    pub closed spec fn indices(&self) -> Seq<(KeyModel, usize)> {
        self.indices@
    }

    /// How many of the leading parameters a positional argument can fill.
    pub closed spec fn positional(&self) -> usize {
        self.positional
    }

    /// Whether a bare `*` has closed the positional parameters.
    pub closed spec fn has_no_args(&self) -> bool {
        self.no_args
    }

    /// The slot of the `*args` parameter.
    pub closed spec fn args_slot(&self) -> Option<usize> {
        self.args
    }

    /// The slot of the `**kwargs` parameter.
    pub closed spec fn kwargs_slot(&self) -> Option<usize> {
        self.kwargs
    }

    /// The parts fit together: the positional parameters are leading ones,
    /// the index holds the slot of every parameter but `*args` and
    /// `**kwargs` under its name, the two slots of those hold them, and no
    /// default is the mark "not assigned".
    pub open spec fn wf(&self) -> bool {
        &&& self.positional() <= self.names().len()
        &&& distinct_keys(self.indices())
        &&& forall|j: int|
            0 <= j < self.indices().len() ==> {
                let e = #[trigger] self.indices()[j];
                &&& e.1 < self.names().len()
                &&& e.0 == text_key(self.names()[e.1 as int].0)
            }
        &&& self.args_slot() matches Some(i) ==> i < self.names().len() && self.names()[i as int].1
            is Args
        &&& self.kwargs_slot() matches Some(i) ==> i < self.names().len()
            && self.names()[i as int].1 is KWargs
        &&& forall|i: int|
            0 <= i < self.names().len() ==> ((#[trigger] self.names()[i]).1 matches ParameterDefault::Defaulted(
                d,
            ) ==> !(d.spec_to_value()@ is Unassigned))
        &&& forall|i: int|
            0 <= i < self.names().len() ==> ((#[trigger] self.names()[i]).1 is Args
                ==> self.args_slot() is Some && self.args_slot()->0 == i)
        &&& forall|i: int|
            0 <= i < self.names().len() ==> ((#[trigger] self.names()[i]).1 is KWargs
                ==> self.kwargs_slot() is Some && self.kwargs_slot()->0 == i)
    }

    /// The parameters of a function of the given name: none yet.
    pub fn new(function_name: String) -> (r: Self)
        ensures
            r.wf(),
            r.function_name() == function_name@,
            r.names() == Seq::<(Seq<char>, ParameterDefault<V>)>::empty(),
            r.indices() == Seq::<(KeyModel, usize)>::empty(),
            r.positional() == 0,
            !r.has_no_args(),
            r.args_slot() is None,
            r.kwargs_slot() is None,
    {
        let r = ParametersSpec {
            function_name,
            names: Vec::new(),
            indices: SmallMap::new(),
            positional: 0,
            no_args: false,
            args: None,
            kwargs: None,
        };
        assert(r.names() =~= Seq::<(Seq<char>, ParameterDefault<V>)>::empty());
        r
    }

    /// As [`ParametersSpec::new`], with room for `capacity` parameters.
    pub fn with_capacity(function_name: String, capacity: usize) -> (r: Self)
        ensures
            r.wf(),
            r.function_name() == function_name@,
            r.names() == Seq::<(Seq<char>, ParameterDefault<V>)>::empty(),
            r.indices() == Seq::<(KeyModel, usize)>::empty(),
            r.positional() == 0,
            !r.has_no_args(),
            r.args_slot() is None,
            r.kwargs_slot() is None,
    {
        let r = ParametersSpec {
            function_name,
            names: Vec::with_capacity(capacity),
            indices: SmallMap::with_capacity(capacity),
            positional: 0,
            no_args: false,
            args: None,
            kwargs: None,
        };
        assert(r.names() =~= Seq::<(Seq<char>, ParameterDefault<V>)>::empty());
        r
    }

    /// The state after a parameter that is neither `*args` nor `**kwargs`
    /// was added.
    pub open spec fn added(&self, old: &Self, name: Seq<char>, val: ParameterDefault<V>) -> bool {
        &&& self.function_name() == old.function_name()
        &&& self.names() == old.names().push((name, val))
        &&& self.indices() == inserted(
            old.indices(),
            text_key(name),
            old.names().len() as usize,
        )
        &&& self.positional() == if old.args_slot() is None && !old.has_no_args() {
            (old.names().len() + 1) as usize
        } else {
            old.positional()
        }
        &&& self.has_no_args() == old.has_no_args()
        &&& self.args_slot() == old.args_slot()
        &&& self.kwargs_slot() == old.kwargs_slot()
    }

    fn add(&mut self, name: &str, val: ParameterDefault<V>)
        requires
            old(self).wf(),
            !has_key(old(self).indices(), text_key(name@)),
            !(val is Args),
            !(val is KWargs),
            val matches ParameterDefault::Defaulted(d) ==> !(d.spec_to_value()@ is Unassigned),
        ensures
            final(self).wf(),
            final(self).added(old(self), name@, val),
    {
        let i = self.names.len();
        let ghost names0 = self.names();
        let ghost indices0 = self.indices();
        self.names.push((name.to_owned(), val));
        let prior = self.indices.insert(name.to_owned(), i);
        if self.args.is_none() && !self.no_args {
            self.positional = self.names.len();
        }
        proof {
            assert(self.names() =~= names0.push((name@, val)));
            lemma_inserted_distinct(indices0, text_key(name@), i);
            assert forall|j: int| 0 <= j < self.indices().len() implies {
                let e = #[trigger] self.indices()[j];
                &&& e.1 < self.names().len()
                &&& e.0 == text_key(self.names()[e.1 as int].0)
            } by {
                if j < indices0.len() {
                    assert(self.indices()[j] == indices0[j]);
                    assert(self.names()[indices0[j].1 as int] == names0[indices0[j].1 as int]);
                }
            }
            assert forall|k: int| 0 <= k < self.names().len() implies ((
            #[trigger] self.names()[k]).1 matches ParameterDefault::Defaulted(d) ==> !(
            d.spec_to_value()@ is Unassigned)) by {
                if k < names0.len() {
                    assert(self.names()[k] == names0[k]);
                }
            }
            assert forall|k: int| 0 <= k < self.names().len() implies ((
            #[trigger] self.names()[k]).1 is Args ==> self.args_slot() is Some && self.args_slot()->0
                == k) by {
                if k < names0.len() {
                    assert(self.names()[k] == names0[k]);
                }
            }
            assert forall|k: int| 0 <= k < self.names().len() implies ((
            #[trigger] self.names()[k]).1 is KWargs ==> self.kwargs_slot() is Some
                && self.kwargs_slot()->0 == k) by {
                if k < names0.len() {
                    assert(self.names()[k] == names0[k]);
                }
            }
            if let Some(a) = self.args_slot() {
                assert(self.names()[a as int] == names0[a as int]);
            }
            if let Some(a) = self.kwargs_slot() {
                assert(self.names()[a as int] == names0[a as int]);
            }
        }
    }

    /// Adds a parameter that the call must supply.
    pub fn required(&mut self, name: &str)
        requires
            old(self).wf(),
            !has_key(old(self).indices(), text_key(name@)),
        ensures
            final(self).wf(),
            final(self).added(old(self), name@, ParameterDefault::Required),
    {
        self.add(name, ParameterDefault::Required);
    }

    /// Adds a parameter that stays unassigned when the call does not supply
    /// it.
    pub fn optional(&mut self, name: &str)
        requires
            old(self).wf(),
            !has_key(old(self).indices(), text_key(name@)),
        ensures
            final(self).wf(),
            final(self).added(old(self), name@, ParameterDefault::Optional),
    {
        self.add(name, ParameterDefault::Optional);
    }

    /// Adds a parameter that gets `val` when the call does not supply it.
    pub fn defaulted(&mut self, name: &str, val: V)
        requires
            old(self).wf(),
            !has_key(old(self).indices(), text_key(name@)),
            !(val.spec_to_value()@ is Unassigned),
        ensures
            final(self).wf(),
            final(self).added(old(self), name@, ParameterDefault::Defaulted(val)),
    {
        self.add(name, ParameterDefault::Defaulted(val));
    }

    /// Adds the `*args` parameter. The parameters after it take no
    /// positional argument.
    pub fn args(&mut self, name: &str)
        requires
            old(self).wf(),
            old(self).args_slot() is None,
            !old(self).has_no_args(),
        ensures
            final(self).wf(),
            final(self).function_name() == old(self).function_name(),
            final(self).names() == old(self).names().push((name@, ParameterDefault::Args)),
            final(self).indices() == old(self).indices(),
            final(self).positional() == old(self).positional(),
            final(self).has_no_args() == old(self).has_no_args(),
            final(self).args_slot() == Some(old(self).names().len() as usize),
            final(self).kwargs_slot() == old(self).kwargs_slot(),
    {
        let ghost names0 = self.names();
        self.names.push((name.to_owned(), ParameterDefault::Args));
        self.args = Some(self.names.len() - 1);
        proof {
            assert(self.names() =~= names0.push((name@, ParameterDefault::Args)));
            self.lemma_pushed(old(self), names0);
        }
    }

    /// Closes the positional parameters, as a bare `*` does: the parameters
    /// after it take no positional argument.
    pub fn no_args(&mut self)
        requires
            old(self).wf(),
            old(self).args_slot() is None,
            !old(self).has_no_args(),
        ensures
            final(self).wf(),
            final(self).function_name() == old(self).function_name(),
            final(self).names() == old(self).names(),
            final(self).indices() == old(self).indices(),
            final(self).positional() == old(self).positional(),
            final(self).has_no_args(),
            final(self).args_slot() == old(self).args_slot(),
            final(self).kwargs_slot() == old(self).kwargs_slot(),
    {
        self.no_args = true;
    }

    /// Adds the `**kwargs` parameter.
    pub fn kwargs(&mut self, name: &str)
        requires
            old(self).wf(),
            old(self).kwargs_slot() is None,
        ensures
            final(self).wf(),
            final(self).function_name() == old(self).function_name(),
            final(self).names() == old(self).names().push((name@, ParameterDefault::KWargs)),
            final(self).indices() == old(self).indices(),
            final(self).positional() == old(self).positional(),
            final(self).has_no_args() == old(self).has_no_args(),
            final(self).args_slot() == old(self).args_slot(),
            final(self).kwargs_slot() == Some(old(self).names().len() as usize),
    {
        let ghost names0 = self.names();
        self.names.push((name.to_owned(), ParameterDefault::KWargs));
        self.kwargs = Some(self.names.len() - 1);
        proof {
            assert(self.names() =~= names0.push((name@, ParameterDefault::KWargs)));
            self.lemma_pushed(old(self), names0);
        }
    }

    /// What stays true of the older parameters when one more is pushed.
    proof fn lemma_pushed(&self, old: &Self, names0: Seq<(Seq<char>, ParameterDefault<V>)>)
        requires
            old.wf(),
            names0 == old.names(),
            self.names().len() == names0.len() + 1,
            forall|k: int| 0 <= k < names0.len() ==> self.names()[k] == names0[k],
            self.indices() == old.indices(),
            self.positional() == old.positional(),
            !(self.names().last().1 is Defaulted),
            self.names().last().1 is Args ==> self.args_slot() is Some && self.args_slot()->0
                == names0.len() && self.kwargs_slot() == old.kwargs_slot() && old.args_slot()
                is None,
            self.names().last().1 is KWargs ==> self.kwargs_slot() is Some
                && self.kwargs_slot()->0 == names0.len() && self.args_slot() == old.args_slot()
                && old.kwargs_slot() is None,
            self.names().last().1 is Args || self.names().last().1 is KWargs,
        ensures
            self.wf(),
    {
        assert forall|j: int| 0 <= j < self.indices().len() implies {
            let e = #[trigger] self.indices()[j];
            &&& e.1 < self.names().len()
            &&& e.0 == text_key(self.names()[e.1 as int].0)
        } by {
            assert(self.indices()[j] == old.indices()[j]);
            assert(self.names()[old.indices()[j].1 as int] == names0[old.indices()[j].1 as int]);
        }
        assert forall|k: int| 0 <= k < self.names().len() implies ((
        #[trigger] self.names()[k]).1 matches ParameterDefault::Defaulted(d) ==> !(
        d.spec_to_value()@ is Unassigned)) by {
            if k < names0.len() {
                assert(self.names()[k] == names0[k]);
            }
        }
        assert forall|k: int| 0 <= k < self.names().len() implies ((
        #[trigger] self.names()[k]).1 is Args ==> self.args_slot() is Some && self.args_slot()->0
                == k) by {
            if k < names0.len() {
                assert(self.names()[k] == names0[k]);
            }
        }
        assert forall|k: int| 0 <= k < self.names().len() implies ((
        #[trigger] self.names()[k]).1 is KWargs ==> self.kwargs_slot() is Some
                && self.kwargs_slot()->0 == k) by {
            if k < names0.len() {
                assert(self.names()[k] == names0[k]);
            }
        }
        if let Some(a) = self.args_slot() {
            if a < names0.len() {
                assert(self.names()[a as int] == names0[a as int]);
            }
        }
        if let Some(a) = self.kwargs_slot() {
            if a < names0.len() {
                assert(self.names()[a as int] == names0[a as int]);
            }
        }
    }

    /// The signature of the function, for error messages.
    pub fn signature(&self) -> (r: String)
        ensures
            r@ == signature_text(self.function_name(), self.names()),
    {
        let mut collector = String::new();
        self.collect_repr(&mut collector);
        assert(collector@ =~= signature_text(self.function_name(), self.names()));
        collector
    }

    /// Appends the signature of the function to `collector`.
    pub fn collect_repr(&self, collector: &mut String)
        ensures
            final(collector)@ == old(collector)@ + signature_text(
                self.function_name(),
                self.names(),
            ),
    {
        let ghost shown = self.names().map_values(
            |p: (Seq<char>, ParameterDefault<V>)| param_text(p),
        );
        let ghost head = old(collector)@ + self.function_name() + seq!['('];
        push_text(collector, self.function_name.as_str());
        push_char(collector, '(');
        assert(collector@ =~= head);
        let mut i: usize = 0;
        while i < self.names.len()
            invariant
                i <= self.names@.len(),
                shown == self.names().map_values(
                    |p: (Seq<char>, ParameterDefault<V>)| param_text(p),
                ),
                collector@ == head + joined(shown.take(i as int), ", "@),
            decreases self.names@.len() - i,
        {
            let ghost before = collector@;
            if i != 0 {
                push_text(collector, ", ");
            }
            let name = self.names[i].0.as_str();
            match &self.names[i].1 {
                ParameterDefault::Required => {
                    push_text(collector, trim_start_char(name, '$'));
                },
                ParameterDefault::Optional => {
                    push_text(collector, trim_start_char(name, '$'));
                    push_text(collector, " = ...");
                },
                ParameterDefault::Defaulted(_) => {
                    push_text(collector, trim_start_char(name, '$'));
                    push_text(collector, " = ...");
                },
                ParameterDefault::Args => {
                    push_text(collector, "*args");
                },
                ParameterDefault::KWargs => {
                    push_text(collector, "**kwargs");
                },
            }
            proof {
                let now = shown.take(i + 1);
                assert(now.drop_last() =~= shown.take(i as int));
                assert(self.names()[i as int] == (self.names@[i as int].0@, self.names@[i as int].1));
                assert(now.last() == param_text(self.names()[i as int]));
                if i == 0 {
                    assert(now[0] == now.last());
                    assert(collector@ =~= head + now.last());
                } else {
                    assert(collector@ =~= before + ", "@ + now.last());
                    assert(collector@ =~= head + (joined(now.drop_last(), ", "@) + ", "@
                        + now.last()));
                }
            }
            i += 1;
        }
        assert(shown.take(i as int) =~= shown);
        push_char(collector, ')');
        assert(collector@ =~= old(collector)@ + signature_text(
            self.function_name(),
            self.names(),
        ));
    }
}

/// What a collector holds, as plain mathematics.
pub struct CollectModel {
    /// What each slot holds: a value, or the mark "not assigned".
    pub slots: Seq<Value>,
    /// Whether every argument so far was positional.
    pub only_positional: bool,
    /// The slot that the next positional argument goes to.
    pub next_position: usize,
    /// The positional arguments that found no slot.
    pub args: Seq<Value>,
    /// The named arguments that found no slot: under each name (with its
    /// hash) the name as a value, and the argument.
    pub kwargs: Seq<(KeyModel, (Value, Value))>,
    /// The first error, if there was one.
    pub err: Option<FunctionErrorModel>,
}

/// The first error stays: a later one is recorded only where none was.
pub open spec fn first_error(
    err: Option<FunctionErrorModel>,
    new: FunctionErrorModel,
) -> Option<FunctionErrorModel> {
    if err is Some {
        err
    } else {
        Some(new)
    }
}

/// The names of the named arguments that found no slot.
pub open spec fn kwargs_names(kwargs: Seq<(KeyModel, (Value, Value))>) -> Seq<Seq<char>> {
    kwargs.map_values(|e: (KeyModel, (Value, Value))| e.0.1)
}

/// The named arguments that found no slot as the entries of a dict.
pub open spec fn kwargs_entries(kwargs: Seq<(KeyModel, (Value, Value))>) -> Seq<
    (u32, Value, Value),
> {
    kwargs.map_values(|e: (KeyModel, (Value, Value))| (e.0.0, e.1.0, e.1.1))
}

impl<V: ValueLike> ParametersSpec<V> {
    /// A collector before the first argument: `max(slots, number of
    /// parameters)` slots, none of them assigned.
    pub open spec fn start(&self, slots: usize) -> CollectModel {
        CollectModel {
            slots: Seq::new(
                if slots >= self.names().len() {
                    slots as nat
                } else {
                    self.names().len()
                },
                |i: int| Value::of_word(WORD_UNASSIGNED),
            ),
            only_positional: true,
            next_position: 0,
            args: Seq::empty(),
            kwargs: Seq::empty(),
            err: None,
        }
    }

    /// The collector after a positional argument. While there is a
    /// positional parameter left, the argument goes to its slot; where that
    /// slot was filled by name before, the argument is dropped and the
    /// parameter is reported as repeated. After the last positional
    /// parameter, the argument is kept for `*args`.
    pub open spec fn after_positional(&self, m: CollectModel, val: Value) -> CollectModel {
        if m.next_position < self.positional() {
            if m.only_positional || m.slots[m.next_position as int]@ is Unassigned {
                CollectModel {
                    slots: m.slots.update(m.next_position as int, val),
                    next_position: (m.next_position + 1) as usize,
                    ..m
                }
            } else {
                CollectModel {
                    err: first_error(
                        m.err,
                        FunctionErrorModel::RepeatedParameter {
                            name: self.names()[m.next_position as int].0,
                        },
                    ),
                    ..m
                }
            }
        } else {
            CollectModel { args: m.args.push(val), ..m }
        }
    }

    /// The collector after each of `vals` came as a positional argument,
    /// first to last.
    pub open spec fn after_positionals(&self, m: CollectModel, vals: Seq<Value>) -> CollectModel
        decreases vals.len(),
    {
        if vals.len() == 0 {
            m
        } else {
            self.after_positional(self.after_positionals(m, vals.drop_last()), vals.last())
        }
    }

    /// The collector after a named argument. Where a parameter has the
    /// name, the argument goes to its slot, and the parameter is reported
    /// as repeated if the slot was filled. Else the argument is kept for
    /// `**kwargs` under its name, and the name is reported as repeated if
    /// it was kept before.
    pub open spec fn after_named(
        &self,
        m: CollectModel,
        name: Seq<char>,
        hash: u32,
        name_value: Value,
        val: Value,
    ) -> CollectModel {
        let repeated = FunctionErrorModel::RepeatedParameter { name };
        if has_key(self.indices(), (hash, name)) {
            let i = self.indices()[index_of(self.indices(), (hash, name))].1 as int;
            CollectModel {
                slots: m.slots.update(i, val),
                only_positional: false,
                err: if m.slots[i]@ is Unassigned {
                    m.err
                } else {
                    first_error(m.err, repeated)
                },
                ..m
            }
        } else {
            CollectModel {
                only_positional: false,
                kwargs: inserted(m.kwargs, (hash, name), (name_value, val)),
                err: if has_key(m.kwargs, (hash, name)) {
                    first_error(m.err, repeated)
                } else {
                    m.err
                },
                ..m
            }
        }
    }

    /// The collector after the entries of a dict came as named arguments,
    /// first to last, and whether a key that is no string has stopped
    /// them. Such a key is reported; the entries behind it are not looked
    /// at.
    pub open spec fn after_entries(
        &self,
        heap: &Heap,
        m: CollectModel,
        entries: Seq<(u32, Value, Value)>,
    ) -> (CollectModel, bool)
        decreases entries.len(),
    {
        if entries.len() == 0 {
            (m, false)
        } else {
            let prev = self.after_entries(heap, m, entries.drop_last());
            let e = entries.last();
            if prev.1 {
                prev
            } else {
                match heap.str_of(e.1@) {
                    Some(name) => (self.after_named(prev.0, name, e.0, e.1, e.2), false),
                    None => (
                        CollectModel {
                            err: first_error(prev.0.err, FunctionErrorModel::ArgsValueIsNotString),
                            ..prev.0
                        },
                        true,
                    ),
                }
            }
        }
    }

    /// Slot `i` belongs to a parameter and was not assigned.
    pub open spec fn unfilled(&self, m: CollectModel, i: int) -> bool {
        0 <= i < self.names().len() && i < m.slots.len() && m.slots[i]@ is Unassigned
    }

    /// Parameter `i` must be supplied and was not.
    pub open spec fn missing(&self, m: CollectModel, i: int) -> bool {
        self.unfilled(m, i) && self.names()[i].1 is Required
    }

    /// Parameter `i` is the first that must be supplied and was not.
    pub open spec fn first_missing(&self, m: CollectModel, i: int) -> bool {
        self.missing(m, i) && forall|j: int| 0 <= j < i ==> !self.missing(m, j)
    }

    /// The `*args` parameter is there to take the positional arguments
    /// that found no slot.
    pub open spec fn takes_args(&self, m: CollectModel) -> bool {
        exists|i: int| self.unfilled(m, i) && self.names()[i].1 is Args
    }

    /// The `**kwargs` parameter is there to take the named arguments that
    /// found no slot.
    pub open spec fn takes_kwargs(&self, m: CollectModel) -> bool {
        exists|i: int| self.unfilled(m, i) && self.names()[i].1 is KWargs
    }

    /// The error that a call ends with, if it ends with one: the first
    /// that was recorded; else the first parameter that must be supplied
    /// and was not; else the number of positional arguments that nothing
    /// takes; else the named arguments that nothing takes.
    pub open spec fn outcome_error(&self, m: CollectModel) -> Option<FunctionErrorModel> {
        let function = signature_text(self.function_name(), self.names());
        if m.err is Some {
            m.err
        } else if exists|i: int| self.first_missing(m, i) {
            Some(
                FunctionErrorModel::MissingParameter {
                    name: self.names()[choose|i: int| self.first_missing(m, i)].0,
                    function,
                },
            )
        } else if m.args.len() > 0 && !self.takes_args(m) {
            Some(
                FunctionErrorModel::ExtraPositionalParameters {
                    count: m.args.len() as usize,
                    function,
                },
            )
        } else if m.kwargs.len() > 0 && !self.takes_kwargs(m) {
            Some(
                FunctionErrorModel::ExtraNamedParameters { names: kwargs_names(m.kwargs), function },
            )
        } else {
            None
        }
    }

    /// What slot `i` holds when a call ends well: what it was assigned;
    /// else nothing for an optional parameter, the default for a defaulted
    /// one, a fresh tuple of the positional arguments that found no slot
    /// for `*args`, and a fresh dict of the named ones for `**kwargs`.
    pub open spec fn slot_done(&self, m: CollectModel, i: int, out: Value, heap: &Heap) -> bool {
        if self.unfilled(m, i) {
            match self.names()[i].1 {
                ParameterDefault::Required => false,
                ParameterDefault::Optional => out == m.slots[i],
                ParameterDefault::Defaulted(d) => out == d.spec_to_value(),
                ParameterDefault::Args => !out.is_ref() && (heap.target(out@) matches Some(
                    ValueMem::Immutable(ObjectGen::Tuple(t)),
                ) && t.content@ == m.args),
                ParameterDefault::KWargs => !out.is_ref() && (heap.target(out@) matches Some(
                    ValueMem::Mutable(cell),
                ) && cell.readers == 0 && cell.object.entries() == Some(kwargs_entries(m.kwargs))),
            }
        } else {
            out == m.slots[i]
        }
    }
}

/// Binds the arguments of one call to the slots of the frame.
#[derive(Debug)]
pub struct ParametersCollect<'a, V> {
    params: &'a ParametersSpec<V>,
    slots: Vec<ValueRef>,
    only_positional: bool,
    next_position: usize,
    args: Vec<Value>,
    kwargs: SmallMap<(Value, Value)>,
    err: Option<FunctionError>,
}

/// What each slot of a frame itself holds.
pub open spec fn raw_slots(slots: Seq<ValueRef>) -> Seq<Value> {
    slots.map_values(|s: ValueRef| s.raw())
}

impl<'a, V: ValueLike> View for ParametersCollect<'a, V> {
    type V = CollectModel;

    closed spec fn view(&self) -> CollectModel {
        CollectModel {
            slots: raw_slots(self.slots@),
            only_positional: self.only_positional,
            next_position: self.next_position,
            args: self.args@,
            kwargs: self.kwargs@,
            err: match self.err {
                Some(e) => Some(e@),
                None => None,
            },
        }
    }
}

impl<'a, V: ValueLike> ParametersCollect<'a, V> {
    /// The parameters that the arguments are bound to.
    pub closed spec fn params(&self) -> &'a ParametersSpec<V> {
        self.params
    }

    /// The collector fits its parameters: these are well formed, every
    /// parameter has its slot, and no slot points to a reference cell.
    pub closed spec fn wf(&self) -> bool {
        &&& self.params.wf()
        &&& self.kwargs.wf()
        &&& self.slots@.len() >= self.params.names().len()
        &&& forall|i: int| 0 <= i < self.slots@.len() ==> !(#[trigger] self.slots@[i]).raw().is_ref()
    }

    /// What well-formedness gives to the outside.
    pub proof fn lemma_wf(&self)
        requires
            self.wf(),
        ensures
            self.params().wf(),
            self@.slots.len() >= self.params().names().len(),
            distinct_keys(self@.kwargs),
    {
        self.kwargs.lemma_wf();
    }

    /// A collector for a call of the function with parameters `me`, into a
    /// frame of at least `slots` slots.
    pub fn collect(me: &'a ParametersSpec<V>, slots: usize) -> (r: Self)
        requires
            me.wf(),
        ensures
            r.wf(),
            r.params() == me,
            r@ == me.start(slots),
    {
        let len = me.names.len();
        let n = if slots >= len {
            slots
        } else {
            len
        };
        let mut all: Vec<ValueRef> = Vec::with_capacity(n);
        let mut i: usize = 0;
        while i < n
            invariant
                i <= n,
                all@.len() == i,
                forall|j: int|
                    0 <= j < i ==> (#[trigger] all@[j]).raw() == Value::of_word(WORD_UNASSIGNED)
                        && !all@[j].raw().is_ref(),
            decreases n - i,
        {
            all.push(ValueRef::new_unassigned());
            i += 1;
        }
        let r = ParametersCollect {
            params: me,
            slots: all,
            only_positional: true,
            next_position: 0,
            args: Vec::new(),
            kwargs: SmallMap::new(),
            err: None,
        };
        assert(r@.slots =~= me.start(slots).slots);
        r
    }

    fn set_err(&mut self, err: FunctionError)
        ensures
            final(self)@ == (CollectModel { err: first_error(old(self)@.err, err@), ..old(self)@ }),
            final(self).wf() == old(self).wf(),
            final(self).params() == old(self).params(),
    {
        if self.err.is_none() {
            self.err = Some(err);
        }
    }

    /// Takes a positional argument: see
    /// [`ParametersSpec::after_positional`].
    pub fn positional(&mut self, val: Value)
        requires
            old(self).wf(),
            val.is_proper(),
        ensures
            final(self).wf(),
            final(self).params() == old(self).params(),
            final(self)@ == old(self).params().after_positional(old(self)@, val),
    {
        if self.next_position < self.params.positional {
            let at = self.next_position;
            if self.only_positional || self.slots[at].is_unassigned_direct() {
                let mut slot = self.slots[at];
                slot.set_direct(val);
                self.slots[at] = slot;
                self.next_position = at + 1;
                assert(self@.slots =~= old(self)@.slots.update(at as int, val));
            } else {
                let name = self.params.names[at].0.clone();
                assert(name@ == self.params.names()[at as int].0);
                self.set_err(FunctionError::RepeatedParameter { name });
            }
        } else {
            self.args.push(val);
        }
    }

    /// Takes a named argument: see [`ParametersSpec::after_named`]. The
    /// name comes as text and as a value with its hash.
    pub fn named(&mut self, name: &str, name_value: Hashed<Value>, val: Value)
        requires
            old(self).wf(),
            val.is_proper(),
        ensures
            final(self).wf(),
            final(self).params() == old(self).params(),
            final(self)@ == old(self).params().after_named(
                old(self)@,
                name@,
                name_value.spec_hash(),
                name_value.spec_key(),
                val,
            ),
    {
        self.only_positional = false;
        let name_hash = BorrowHashed::new_unchecked(name_value.hash(), name);
        let ghost k: KeyModel = (name_value.spec_hash(), name@);
        let repeated = match self.params.indices.get_hashed(name_hash) {
            None => {
                let prior = self.kwargs.insert_hashed(
                    Hashed::new_unchecked(name_value.hash(), name.to_owned()),
                    (*name_value.key(), val),
                );
                prior.is_some()
            },
            Some(i) => {
                let at = *i;
                proof {
                    let j = index_of(self.params.indices(), k);
                    assert(key_at(self.params.indices(), j, k));
                    assert(self.params.indices()[j].1 == at);
                }
                let res = !self.slots[at].is_unassigned_direct();
                let mut slot = self.slots[at];
                slot.set_direct(val);
                self.slots[at] = slot;
                assert(self@.slots =~= old(self)@.slots.update(at as int, val));
                res
            },
        };
        if repeated {
            self.set_err(FunctionError::RepeatedParameter { name: name.to_owned() });
        }
    }

    /// Takes the elements of `val` as positional arguments, first to last.
    /// A value that cannot be iterated over is reported.
    pub fn args(&mut self, val: Value, heap: &Heap)
        requires
            old(self).wf(),
            heap.items_of(val@) matches Some(items) ==> forall|i: int|
                0 <= i < items.len() ==> (#[trigger] items[i]).is_proper(),
        ensures
            final(self).wf(),
            final(self).params() == old(self).params(),
            final(self)@ == match heap.items_of(val@) {
                Some(items) => old(self).params().after_positionals(old(self)@, items),
                None => CollectModel {
                    err: first_error(old(self)@.err, FunctionErrorModel::ArgsArrayIsNotIterable),
                    ..old(self)@
                },
            },
    {
        match heap.iterate(val) {
            None => self.set_err(FunctionError::ArgsArrayIsNotIterable),
            Some(items) => {
                let mut i: usize = 0;
                while i < items.len()
                    invariant
                        i <= items@.len(),
                        self.wf(),
                        self.params() == old(self).params(),
                        forall|j: int| 0 <= j < items@.len() ==> (#[trigger] items@[j]).is_proper(),
                        self@ == old(self).params().after_positionals(
                            old(self)@,
                            items@.take(i as int),
                        ),
                    decreases items@.len() - i,
                {
                    proof {
                        let now = items@.take(i + 1);
                        assert(now.drop_last() =~= items@.take(i as int));
                        assert(now.last() == items@[i as int]);
                    }
                    self.positional(items[i]);
                    i += 1;
                }
                assert(items@.take(i as int) =~= items@);
            },
        }
    }

    /// Takes the entries of the dict `val` as named arguments, first to
    /// last: see [`ParametersSpec::after_entries`]. A value that is no dict
    /// is reported.
    pub fn kwargs(&mut self, val: Value, heap: &Heap)
        requires
            old(self).wf(),
            heap.entries_of(val@) matches Some(entries) ==> forall|i: int|
                0 <= i < entries.len() ==> (#[trigger] entries[i]).2.is_proper(),
        ensures
            final(self).wf(),
            final(self).params() == old(self).params(),
            final(self)@ == match heap.entries_of(val@) {
                Some(entries) => old(self).params().after_entries(heap, old(self)@, entries).0,
                None => CollectModel {
                    err: first_error(old(self)@.err, FunctionErrorModel::KWArgsIsNotDict),
                    ..old(self)@
                },
            },
    {
        match heap.dict_items(val) {
            Some(y) => {
                if self.params.kwargs.is_some() && y.len() <= usize::MAX - self.kwargs.len() {
                    self.kwargs.reserve(y.len());
                }
                let mut i: usize = 0;
                let mut stopped = false;
                while i < y.len() && !stopped
                    invariant
                        i <= y@.len(),
                        self.wf(),
                        self.params() == old(self).params(),
                        forall|j: int| 0 <= j < y@.len() ==> (#[trigger] y@[j]).2.is_proper(),
                        stopped ==> old(self).params().after_entries(heap, old(self)@, y@)
                            == (self@, true),
                        !stopped ==> (self@, false) == old(self).params().after_entries(
                            heap,
                            old(self)@,
                            y@.take(i as int),
                        ),
                    decreases y@.len() - i,
                {
                    proof {
                        let now = y@.take(i + 1);
                        assert(now.drop_last() =~= y@.take(i as int));
                        assert(now.last() == y@[i as int]);
                    }
                    let (hash, key, v) = y[i];
                    match heap.unpack_str(key) {
                        None => {
                            self.set_err(FunctionError::ArgsValueIsNotString);
                            stopped = true;
                            proof {
                                old(self).params().lemma_stopped(
                                    heap,
                                    old(self)@,
                                    y@,
                                    i + 1,
                                );
                            }
                        },
                        Some(s) => {
                            self.named(s, Hashed::new_unchecked(hash, key), v);
                        },
                    }
                    i += 1;
                }
                assert(!stopped ==> y@.take(i as int) =~= y@);
            },
            None => self.set_err(FunctionError::KWArgsIsNotDict),
        }
    }

    /// Ends the call. Where an error was recorded or the arguments do not
    /// cover the parameters, the result is the error that
    /// [`ParametersSpec::outcome_error`] names. Else it is the slots of the
    /// frame, each as [`ParametersSpec::slot_done`] says. What was on the heap
    /// stays as it was; the tuple for `*args` and the dict for `**kwargs`
    /// are new entries.
    pub fn done(self, heap: &mut Heap) -> (r: Result<Vec<ValueRef>, FunctionError>)
        requires
            self.wf(),
            old(heap).can_alloc(2),
        ensures
            final(heap).frozen() == old(heap).frozen(),
            old(heap).entries().len() <= final(heap).entries().len() <= old(heap).entries().len()
                + 2,
            forall|j: int|
                0 <= j < old(heap).entries().len() ==> (#[trigger] final(heap).entries()[j]) == old(heap).entries()[j],
            self@.err is Some ==> final(heap).entries() == old(heap).entries(),
            match r {
                Err(e) => Some(e@) == self.params().outcome_error(self@),
                Ok(out) => {
                    &&& self.params().outcome_error(self@) is None
                    &&& out@.len() == self@.slots.len()
                    &&& forall|i: int|
                        0 <= i < out@.len() ==> self.params().slot_done(
                            self@,
                            i,
                            (#[trigger] out@[i]).raw(),
                            final(heap),
                        )
                },
            },
    {
        let ghost m = self@;
        let ghost heap0 = *heap;
        let ParametersCollect {
            params,
            slots,
            only_positional: _,
            next_position: _,
            args,
            kwargs,
            err,
        } = self;
        if let Some(e) = err {
            return Err(e);
        }
        let mut slots = slots;
        let mut args = args;
        let mut kwargs = kwargs;
        let ghost mut args_taken = false;
        let ghost mut kwargs_taken = false;
        let n = params.names.len();
        let mut i: usize = 0;
        while i < n
            invariant
                i <= n,
                n == params.names().len(),
                n == params.names@.len(),
                params.wf(),
                m == self@,
                params == self.params(),
                m.err is None,
                m.slots.len() >= n,
                slots@.len() == m.slots.len(),
                forall|j: int| 0 <= j < i ==> !params.missing(m, j),
                forall|j: int|
                    0 <= j < i ==> params.slot_done(m, j, (#[trigger] slots@[j]).raw(), heap),
                forall|j: int|
                    i <= j < slots@.len() ==> (#[trigger] slots@[j]).raw() == m.slots[j]
                        && !slots@[j].raw().is_ref(),
                args@ == if args_taken {
                    Seq::<Value>::empty()
                } else {
                    m.args
                },
                args_taken <==> exists|j: int|
                    0 <= j < i && params.unfilled(m, j) && params.names()[j].1 is Args,
                kwargs@ == if kwargs_taken {
                    Seq::<(KeyModel, (Value, Value))>::empty()
                } else {
                    m.kwargs
                },
                kwargs_taken <==> exists|j: int|
                    0 <= j < i && params.unfilled(m, j) && params.names()[j].1 is KWargs,
                heap.frozen() == heap0.frozen(),
                heap0 == *old(heap),
                heap0.can_alloc(2),
                heap.entries().len() == heap0.entries().len() + (if args_taken {
                    1int
                } else {
                    0int
                }) + (if kwargs_taken {
                    1int
                } else {
                    0int
                }),
                forall|j: int|
                    0 <= j < heap0.entries().len() ==> (#[trigger] heap.entries()[j])
                        == heap0.entries()[j],
            decreases n - i,
        {
            let ghost heap1 = *heap;
            let ghost slots1 = slots@;
            assert(params.names()[i as int] == (params.names@[i as int].0@, params.names@[i as int].1));
            if slots[i].is_unassigned_direct() {
                assert(params.unfilled(m, i as int));
                let mut slot = slots[i];
                match &params.names[i].1 {
                    ParameterDefault::Required => {
                        let name = params.names[i].0.clone();
                        let function = params.signature();
                        proof {
                            assert(params.first_missing(m, i as int));
                            params.lemma_first_missing(m, i as int);
                        }
                        return Err(FunctionError::MissingParameter { name, function });
                    },
                    ParameterDefault::Optional => {},
                    ParameterDefault::Defaulted(x) => {
                        slot.set_direct(x.to_value());
                        slots[i] = slot;
                    },
                    ParameterDefault::Args => {
                        let mut taken: Vec<Value> = Vec::new();
                        core::mem::swap(&mut args, &mut taken);
                        proof {
                            if args_taken {
                                let j = choose|j: int|
                                    0 <= j < i && params.unfilled(m, j) && params.names()[j].1
                                        is Args;
                                assert(params.names()[j].1 is Args);
                                assert(params.names()[i as int].1 is Args);
                                assert(false);
                            }
                        }
                        let v = heap.alloc_complex(ObjectGen::Tuple(TupleGen::new(taken)));
                        slot.set_direct(v);
                        slots[i] = slot;
                        proof {
                            args_taken = true;
                        }
                    },
                    ParameterDefault::KWargs => {
                        let mut taken: SmallMap<(Value, Value)> = SmallMap::new();
                        core::mem::swap(&mut kwargs, &mut taken);
                        proof {
                            if kwargs_taken {
                                let j = choose|j: int|
                                    0 <= j < i && params.unfilled(m, j) && params.names()[j].1
                                        is KWargs;
                                assert(params.names()[j].1 is KWargs);
                                assert(params.names()[i as int].1 is KWargs);
                                assert(false);
                            }
                        }
                        let content = dict_content(taken);
                        let v = heap.alloc_complex(ObjectGen::Dict(DictGen::new(content)));
                        slot.set_direct(v);
                        slots[i] = slot;
                        proof {
                            kwargs_taken = true;
                        }
                    },
                }
            }
            proof {
                assert forall|j: int| 0 <= j < i + 1 implies params.slot_done(
                    m,
                    j,
                    (#[trigger] slots@[j]).raw(),
                    heap,
                ) by {
                    if j < i {
                        assert(slots@[j] == slots1[j]);
                        assert(params.slot_done(m, j, slots1[j].raw(), &heap1));
                        if params.unfilled(m, j) {
                            let out = slots1[j].raw();
                            if params.names()[j].1 is Args || params.names()[j].1 is KWargs {
                                assert(heap1.target(out@) is Some);
                                assert(heap.target(out@) == heap1.target(out@));
                            }
                        }
                    }
                }
                assert forall|j: int| i + 1 <= j < slots@.len() implies (#[trigger] slots@[j]).raw()
                    == m.slots[j] && !slots@[j].raw().is_ref() by {
                    assert(slots@[j] == slots1[j]);
                }
                assert forall|j: int| 0 <= j < heap0.entries().len() implies (
                #[trigger] heap.entries()[j]) == heap0.entries()[j] by {
                    assert(heap1.entries()[j] == heap0.entries()[j]);
                }
            }
            i += 1;
        }
        let function = params.signature();
        proof {
            assert(!exists|j: int| params.first_missing(m, j));
        }
        if !args.is_empty() {
            assert(!params.takes_args(m));
            return Err(FunctionError::ExtraPositionalParameters { count: args.len(), function });
        }
        assert(!(m.args.len() > 0 && !params.takes_args(m)));
        if !kwargs.is_empty() {
            let names = key_texts(&kwargs);
            assert(!params.takes_kwargs(m));
            return Err(FunctionError::ExtraNamedParameters { names, function });
        }
        Ok(slots)
    }
}

/// The names under which a map holds its entries, copied out.
fn key_texts<T>(map: &SmallMap<T>) -> (r: Vec<String>)
    ensures
        texts(r@) == map@.map_values(|e: (KeyModel, T)| e.0.1),
{
    let keys = map.keys();
    let mut out: Vec<String> = Vec::with_capacity(keys.len());
    let mut i: usize = 0;
    while i < keys.len()
        invariant
            i <= keys@.len(),
            keys@.len() == map@.len(),
            forall|j: int| 0 <= j < keys@.len() ==> (#[trigger] keys@[j])@ == map@[j].0.1,
            texts(out@) == map@.map_values(|e: (KeyModel, T)| e.0.1).take(i as int),
        decreases keys@.len() - i,
    {
        let ghost before = out@;
        let key = keys[i].clone();
        out.push(key);
        proof {
            let all = map@.map_values(|e: (KeyModel, T)| e.0.1);
            assert(all[i as int] == map@[i as int].0.1);
            assert(texts(out@) =~= texts(before).push(key@));
            assert(all.take(i + 1) =~= all.take(i as int).push(all[i as int]));
        }
        i += 1;
    }
    assert(map@.map_values(|e: (KeyModel, T)| e.0.1).take(i as int) =~= map@.map_values(
        |e: (KeyModel, T)| e.0.1,
    ));
    out
}

/// The named arguments that found no slot as the content of a dict.
fn dict_content(kwargs: SmallMap<(Value, Value)>) -> (r: Vec<(Hashed<Value>, Value)>)
    ensures
        crate::values::layout::access::dict_entries(r@) == kwargs_entries(kwargs@),
{
    let entries = kwargs.into_iter_hashed();
    let mut out: Vec<(Hashed<Value>, Value)> = Vec::with_capacity(entries.len());
    let mut i: usize = 0;
    while i < entries.len()
        invariant
            i <= entries@.len(),
            entries@.len() == kwargs@.len(),
            forall|j: int|
                0 <= j < entries@.len() ==> (#[trigger] entries@[j]).0.model() == kwargs@[j].0
                    && entries@[j].1 == kwargs@[j].1,
            crate::values::layout::access::dict_entries(out@) == kwargs_entries(kwargs@).take(
                i as int,
            ),
        decreases entries@.len() - i,
    {
        let ghost before = out@;
        let e = &entries[i];
        let item = (Hashed::new_unchecked(e.0.hash(), e.1.0), e.1.1);
        out.push(item);
        proof {
            let all = kwargs_entries(kwargs@);
            assert(all[i as int] == (kwargs@[i as int].0.0, kwargs@[i as int].1.0, kwargs@[i as int].1.1));
            assert(crate::values::layout::access::dict_entries(out@)
                =~= crate::values::layout::access::dict_entries(before).push(
                (item.0.spec_hash(), item.0.spec_key(), item.1),
            ));
            assert(all.take(i + 1) =~= all.take(i as int).push(all[i as int]));
        }
        i += 1;
    }
    assert(kwargs_entries(kwargs@).take(i as int) =~= kwargs_entries(kwargs@));
    out
}

impl<V: ValueLike> ParametersSpec<V> {
    /// There is one first missing parameter at most.
    pub proof fn lemma_first_missing(&self, m: CollectModel, i: int)
        requires
            self.first_missing(m, i),
        ensures
            (choose|j: int| self.first_missing(m, j)) == i,
    {
        let c = choose|j: int| self.first_missing(m, j);
        assert(self.first_missing(m, c));
        if c < i {
            assert(!self.missing(m, c));
        }
        if i < c {
            assert(!self.missing(m, i));
        }
    }

    /// Once a key that is no string has stopped the entries, those behind
    /// it change nothing.
    pub proof fn lemma_stopped(
        &self,
        heap: &Heap,
        m: CollectModel,
        entries: Seq<(u32, Value, Value)>,
        upto: int,
    )
        requires
            0 <= upto <= entries.len(),
            self.after_entries(heap, m, entries.take(upto)).1,
        ensures
            self.after_entries(heap, m, entries) == self.after_entries(heap, m, entries.take(upto)),
        decreases entries.len() - upto,
    {
        if upto < entries.len() {
            let more = entries.take(upto + 1);
            assert(more.drop_last() =~= entries.take(upto));
            self.lemma_stopped(heap, m, entries, upto + 1);
        } else {
            assert(entries.take(upto) =~= entries);
        }
    }
}

impl<V: ValueLike> ParametersSpec<V> {
    /// Positional arguments, as long as there are positional parameters
    /// for them, fill the leading slots in their order: the `i`-th argument
    /// is in slot `i`, the other slots stay unassigned, and nothing is
    /// reported or kept for `*args`.
    pub proof fn law_positional_arguments_fill_in_order(&self, slots: usize, vals: Seq<Value>)
        requires
            self.wf(),
            vals.len() <= self.positional(),
        ensures
            ({
                let m = self.after_positionals(self.start(slots), vals);
                &&& m.err is None
                &&& m.args.len() == 0
                &&& m.kwargs.len() == 0
                &&& m.only_positional
                &&& m.next_position == vals.len()
                &&& m.slots.len() == self.start(slots).slots.len()
                &&& forall|i: int| 0 <= i < vals.len() ==> #[trigger] m.slots[i] == vals[i]
                &&& forall|i: int|
                    vals.len() <= i < m.slots.len() ==> #[trigger] m.slots[i] == Value::of_word(
                        WORD_UNASSIGNED,
                    )
            }),
        decreases vals.len(),
    {
        if vals.len() > 0 {
            self.law_positional_arguments_fill_in_order(slots, vals.drop_last());
            let prev = self.after_positionals(self.start(slots), vals.drop_last());
            let m = self.after_positional(prev, vals.last());
            assert(prev.next_position == vals.len() - 1);
            assert forall|i: int| 0 <= i < vals.len() implies #[trigger] m.slots[i] == vals[i] by {
                if i < vals.len() - 1 {
                    assert(prev.slots[i] == vals.drop_last()[i]);
                }
            }
        }
    }

    /// The first error wins: once one was recorded, no argument changes
    /// it, and the call ends with it.
    pub proof fn law_first_error_wins(
        &self,
        heap: &Heap,
        m: CollectModel,
        val: Value,
        name: Seq<char>,
        hash: u32,
        name_value: Value,
        entries: Seq<(u32, Value, Value)>,
    )
        requires
            m.err is Some,
        ensures
            self.after_positional(m, val).err == m.err,
            self.after_named(m, name, hash, name_value, val).err == m.err,
            self.after_entries(heap, m, entries).0.err == m.err,
            self.outcome_error(m) == m.err,
        decreases entries.len(),
    {
        if entries.len() > 0 {
            self.law_first_error_wins(heap, m, val, name, hash, name_value, entries.drop_last());
        }
    }

    /// A call ends well in one case only: nothing was reported, every
    /// parameter that must be supplied was, and whatever found no slot has
    /// its `*args` or `**kwargs` to go to. In every other case it ends with
    /// one error, which the state of the collector determines.
    pub proof fn law_one_outcome(&self, m: CollectModel)
        ensures
            self.outcome_error(m) is None <==> {
                &&& m.err is None
                &&& forall|i: int| !self.missing(m, i)
                &&& (m.kwargs.len() > 0 ==> self.takes_kwargs(m))
                &&& (m.args.len() > 0 ==> self.takes_args(m))
            },
    {
        if exists|i: int| self.missing(m, i) {
            let i = choose|i: int| self.missing(m, i);
            self.lemma_least_missing(m, i);
        }
        if exists|i: int| self.first_missing(m, i) {
            let i = choose|i: int| self.first_missing(m, i);
            assert(self.missing(m, i));
        }
    }

    /// Where a parameter is missing, one is the first.
    pub proof fn lemma_least_missing(&self, m: CollectModel, i: int)
        requires
            self.missing(m, i),
        ensures
            exists|j: int| self.first_missing(m, j),
        decreases i,
    {
        if exists|j: int| 0 <= j < i && self.missing(m, j) {
            let j = choose|j: int| 0 <= j < i && self.missing(m, j);
            self.lemma_least_missing(m, j);
        } else {
            assert(self.first_missing(m, i));
        }
    }
}

/// What can be read out of a value as a value of the host.
pub trait UnpackValue: Sized {
    /// Reading `value` may give `r`.
    spec fn unpacks(value: Value, heap: &Heap, r: Option<Self>) -> bool;

    /// Reads a value, if it has the right type.
    fn unpack_value(value: Value, heap: &Heap) -> (r: Option<Self>)
        ensures
            Self::unpacks(value, heap, r),
    ;

    /// A value is read as something or as nothing, never as both.
    proof fn lemma_one_reading(value: Value, heap: &Heap, a: Option<Self>, b: Option<Self>)
        requires
            Self::unpacks(value, heap, a),
            Self::unpacks(value, heap, b),
        ensures
            a is Some <==> b is Some,
    ;
}

impl UnpackValue for Value {
    open spec fn unpacks(value: Value, heap: &Heap, r: Option<Self>) -> bool {
        r == Some(value)
    }

    proof fn lemma_one_reading(value: Value, heap: &Heap, a: Option<Self>, b: Option<Self>) {
    }

    fn unpack_value(value: Value, heap: &Heap) -> (r: Option<Self>) {
        Some(value)
    }
}

impl UnpackValue for bool {
    open spec fn unpacks(value: Value, heap: &Heap, r: Option<Self>) -> bool {
        r == match value@ {
            PointerUnpack::Bool(b) => Some(b),
            _ => None,
        }
    }

    proof fn lemma_one_reading(value: Value, heap: &Heap, a: Option<Self>, b: Option<Self>) {
    }

    fn unpack_value(value: Value, heap: &Heap) -> (r: Option<Self>) {
        value.unpack_bool()
    }
}

impl UnpackValue for i32 {
    open spec fn unpacks(value: Value, heap: &Heap, r: Option<Self>) -> bool {
        r == match value@ {
            PointerUnpack::Int(i) => Some(i),
            _ => None,
        }
    }

    proof fn lemma_one_reading(value: Value, heap: &Heap, a: Option<Self>, b: Option<Self>) {
    }

    fn unpack_value(value: Value, heap: &Heap) -> (r: Option<Self>) {
        value.unpack_int()
    }
}

impl UnpackValue for String {
    open spec fn unpacks(value: Value, heap: &Heap, r: Option<Self>) -> bool {
        match r {
            Some(s) => heap.str_of(value@) == Some(s@),
            None => heap.str_of(value@) is None,
        }
    }

    proof fn lemma_one_reading(value: Value, heap: &Heap, a: Option<Self>, b: Option<Self>) {
    }

    fn unpack_value(value: Value, heap: &Heap) -> (r: Option<Self>) {
        match heap.unpack_str(value) {
            Some(s) => Some(s.to_owned()),
            None => None,
        }
    }
}

/// Reads the slots of a frame one after the other, each as the type that
/// the function wants it as.
#[derive(Debug)]
pub struct ParametersParser<'a> {
    slots: &'a Vec<Option<Value>>,
    position: usize,
}

impl<'a> ParametersParser<'a> {
    /// The slots that are read.
    pub closed spec fn slots(&self) -> Seq<Option<Value>> {
        self.slots@
    }

    /// The number of slots that were read.
    pub closed spec fn position(&self) -> usize {
        self.position
    }

    /// A reader at the first of `slots`.
    pub fn new(slots: &'a Vec<Option<Value>>) -> (r: Self)
        ensures
            r.slots() == slots@,
            r.position() == 0,
    {
        ParametersParser { slots, position: 0 }
    }

    fn named_err<T>(name: &str, x: Option<T>) -> (r: Result<T, ValueError>)
        ensures
            match r {
                Ok(v) => x == Some(v),
                Err(e) => x is None && (e matches ValueError::IncorrectParameterTypeNamed(n) && n@
                    == name@),
            },
    {
        match x {
            Some(v) => Ok(v),
            None => Err(ValueError::IncorrectParameterTypeNamed(name.to_owned())),
        }
    }

    /// Reads the next slot, which may be unassigned: that gives nothing.
    /// A value of the wrong type is an error that names the parameter.
    pub fn next_opt<T: UnpackValue>(&mut self, name: &str, heap: &Heap) -> (r: Result<
        Option<T>,
        ValueError,
    >)
        requires
            old(self).position() < old(self).slots().len(),
        ensures
            final(self).slots() == old(self).slots(),
            final(self).position() == old(self).position() + 1,
            match old(self).slots()[old(self).position() as int] {
                None => r == Ok::<Option<T>, ValueError>(None),
                Some(v) => match r {
                    Ok(x) => x is Some && T::unpacks(v, heap, x),
                    Err(e) => T::unpacks(v, heap, None) && (e matches ValueError::IncorrectParameterTypeNamed(
                        n,
                    ) && n@ == name@),
                },
            },
    {
        let n = self.slots.len();
        let v = self.slots[self.position];
        assert(self.position < n);
        self.position = self.position + 1;
        match v {
            None => Ok(None),
            Some(v) => match Self::named_err(name, T::unpack_value(v, heap)) {
                Ok(x) => Ok(Some(x)),
                Err(e) => Err(e),
            },
        }
    }

    /// Reads the next slot, which is assigned. A value of the wrong type is
    /// an error that names the parameter.
    pub fn next<T: UnpackValue>(&mut self, name: &str, heap: &Heap) -> (r: Result<T, ValueError>)
        requires
            old(self).position() < old(self).slots().len(),
            old(self).slots()[old(self).position() as int] is Some,
        ensures
            final(self).slots() == old(self).slots(),
            final(self).position() == old(self).position() + 1,
            match r {
                Ok(x) => T::unpacks(
                    old(self).slots()[old(self).position() as int]->0,
                    heap,
                    Some(x),
                ),
                Err(e) => T::unpacks(old(self).slots()[old(self).position() as int]->0, heap, None)
                    && (e matches ValueError::IncorrectParameterTypeNamed(n) && n@ == name@),
            },
    {
        let n = self.slots.len();
        let v = self.slots[self.position];
        assert(self.position < n);
        self.position = self.position + 1;
        let v = v.unwrap();
        Self::named_err(name, T::unpack_value(v, heap))
    }
}

/// The frozen default stands for the default.
pub open spec fn defaults_stand(
    heap: &Heap,
    a: ParameterDefault<Value>,
    b: ParameterDefault<FrozenValue>,
) -> bool {
    (a, b) matches (ParameterDefault::Defaulted(v), ParameterDefault::Defaulted(x))
        ==> heap.stands_for(v, Value::of_frozen(x))
}

/// Every default among the parameters can be read to the end.
pub open spec fn defaults_readable(
    heap: &Heap,
    names: Seq<(Seq<char>, ParameterDefault<Value>)>,
) -> bool {
    forall|i: int|
        0 <= i < names.len() ==> ((#[trigger] names[i]).1 matches ParameterDefault::Defaulted(v)
            ==> crate::values::structure::readable(heap, v))
}

/// The default after a collection is where the default lives since, or none
/// where it has become no value.
pub open spec fn defaults_moved(
    marks: Seq<ValueMem>,
    a: ParameterDefault<Value>,
    b: ParameterDefault<Value>,
) -> bool {
    (a, b) matches (ParameterDefault::Defaulted(v), ParameterDefault::Defaulted(w))
        ==> crate::values::moved::moved_to(marks, v, w) || w@ is NoneValue
}

/// The kind of a parameter, whatever its default is.
pub open spec fn same_kind<A, B>(a: ParameterDefault<A>, b: ParameterDefault<B>) -> bool {
    match (a, b) {
        (ParameterDefault::Required, ParameterDefault::Required) => true,
        (ParameterDefault::Optional, ParameterDefault::Optional) => true,
        (ParameterDefault::Defaulted(_), ParameterDefault::Defaulted(_)) => true,
        (ParameterDefault::Args, ParameterDefault::Args) => true,
        (ParameterDefault::KWargs, ParameterDefault::KWargs) => true,
        _ => false,
    }
}

impl ParameterDefault<Value> {
    /// The same with the default frozen.
    pub fn freeze(&self, heap: &mut Heap) -> (r: Result<ParameterDefault<FrozenValue>, ControlError>)
        requires
            old(heap).frozen().can_alloc(old(heap).live_count()),
        ensures
            final(heap).frozen_further(old(heap)),
            r matches Ok(frozen) ==> same_kind(*self, frozen) && final(heap).simulates(
                old(heap),
                -1,
            ) && defaults_stand(final(heap), *self, frozen),
            !(self is Defaulted) ==> r is Ok && final(heap).entries() == old(heap).entries()
                && final(heap).frozen() == old(heap).frozen(),
            self matches ParameterDefault::Defaulted(v) ==> (crate::values::structure::readable(
                old(heap),
                *v,
            ) ==> r is Ok),
    {
        proof {
            assert forall|j: int|
                0 <= j < old(heap).entries().len() && j != -1 implies #[trigger] heap.entry_kept_or_frozen(
                old(heap),
                j,
            ) by {}
        }
        match self {
            ParameterDefault::Defaulted(v) => match heap.freeze(*v) {
                Ok(x) => Ok(ParameterDefault::Defaulted(x)),
                Err(e) => Err(e),
            },
            ParameterDefault::Required => Ok(ParameterDefault::Required),
            ParameterDefault::Optional => Ok(ParameterDefault::Optional),
            ParameterDefault::Args => Ok(ParameterDefault::Args),
            ParameterDefault::KWargs => Ok(ParameterDefault::KWargs),
        }
    }

    /// The same with the default where a collection has moved it to.
    pub fn walk(&self, heap: &mut Heap, to: &mut Vec<ValueMem>) -> (r: ParameterDefault<Value>)
        requires
            to@.len() + old(heap).unmoved() <= crate::values::layout::pointer::MAX_INDEX + 1,
            crate::values::moved::marks_fit(old(heap).entries(), to@.len()),
        ensures
            final(heap).collected_further(final(to)@, old(heap), old(to)@),
            same_kind(*self, r),
            (*self, r) matches (ParameterDefault::Defaulted(v), ParameterDefault::Defaulted(w))
                ==> crate::values::moved::moved_to(final(heap).entries(), v, w),
    {
        proof {
            heap.lemma_collected_nothing(to@);
        }
        match self {
            ParameterDefault::Defaulted(v) => ParameterDefault::Defaulted(heap.walk(to, *v)),
            ParameterDefault::Required => ParameterDefault::Required,
            ParameterDefault::Optional => ParameterDefault::Optional,
            ParameterDefault::Args => ParameterDefault::Args,
            ParameterDefault::KWargs => ParameterDefault::KWargs,
        }
    }
}

impl ParametersSpec<Value> {
    /// The same parameters with every default frozen. A default that
    /// cannot be frozen, or freezes to no value, is an error; where every
    /// default can be read to the end, there is none.
    pub fn freeze(self, heap: &mut Heap) -> (r: Result<ParametersSpec<FrozenValue>, ControlError>)
        requires
            self.wf(),
            old(heap).frozen().can_alloc(old(heap).live_count()),
        ensures
            final(heap).frozen_further(old(heap)),
            defaults_readable(old(heap), self.names()) ==> r is Ok,
            r matches Ok(frozen) ==> {
                &&& frozen.wf()
                &&& frozen.function_name() == self.function_name()
                &&& frozen.indices() == self.indices()
                &&& frozen.positional() == self.positional()
                &&& frozen.has_no_args() == self.has_no_args()
                &&& frozen.args_slot() == self.args_slot()
                &&& frozen.kwargs_slot() == self.kwargs_slot()
                &&& frozen.names().len() == self.names().len()
                &&& forall|i: int|
                    0 <= i < self.names().len() ==> (#[trigger] frozen.names()[i]).0
                        == self.names()[i].0 && same_kind(self.names()[i].1, frozen.names()[i].1)
                        && defaults_stand(final(heap), self.names()[i].1, frozen.names()[i].1)
                &&& final(heap).simulates(old(heap), -1)
            },
    {
        let ParametersSpec { function_name, names, indices, positional, no_args, args, kwargs } =
            self;
        let mut frozen: Vec<(String, ParameterDefault<FrozenValue>)> = Vec::with_capacity(
            names.len(),
        );
        let mut i: usize = 0;
        proof {
            assert forall|j: int|
                0 <= j < old(heap).entries().len() && j != -1 implies #[trigger] heap.entry_kept_or_frozen(
                old(heap),
                j,
            ) by {}
            if defaults_readable(old(heap), self.names()) {
                assert forall|j: int| 0 <= j < names@.len() implies ((#[trigger] names@[j]).1
                    matches ParameterDefault::Defaulted(v)
                    ==> crate::values::structure::readable(&*heap, v)) by {
                    assert(self.names()[j] == (names@[j].0@, names@[j].1));
                }
            }
        }
        while i < names.len()
            invariant
                i <= names@.len(),
                frozen@.len() == i,
                heap.frozen_further(old(heap)),
                heap.frozen().can_alloc(heap.live_count()),
                heap.simulates(old(heap), -1),
                forall|j: int|
                    0 <= j < i ==> defaults_stand(&*heap, (#[trigger] names@[j]).1, frozen@[j].1),
                forall|j: int|
                    0 <= j < i ==> (#[trigger] frozen@[j]).0@ == names@[j].0@ && same_kind(
                        names@[j].1,
                        frozen@[j].1,
                    ) && (frozen@[j].1 matches ParameterDefault::Defaulted(d) ==> !(
                    d.spec_to_value()@ is Unassigned)),
                defaults_readable(old(heap), self.names()) ==> forall|j: int|
                    i <= j < names@.len() ==> ((#[trigger] names@[j]).1
                        matches ParameterDefault::Defaulted(v)
                        ==> crate::values::structure::readable(&*heap, v)),
            decreases names@.len() - i,
        {
            let ghost mid = *heap;
            let ghost frozen_mid = frozen@;
            let r = names[i].1.freeze(heap);
            let ghost outcome = r;
            proof {
                heap.lemma_frozen_further_transitive(&mid, old(heap), 0, 0);
                if defaults_readable(old(heap), self.names()) {
                    assert(names@[i as int].1 matches ParameterDefault::Defaulted(v)
                        ==> crate::values::structure::readable(&mid, v));
                    assert(r is Ok);
                }
                if r is Ok {
                    heap.lemma_further_extends(&mid, 0, -1);
                    if defaults_readable(old(heap), self.names()) {
                        assert forall|j: int| i < j < names@.len() implies ((
                        #[trigger] names@[j]).1 matches ParameterDefault::Defaulted(v)
                            ==> crate::values::structure::readable(&*heap, v)) by {
                            if let ParameterDefault::Defaulted(v) = names@[j].1 {
                                crate::values::structure::lemma_readable_kept(&*heap, &mid, v);
                            }
                        }
                        if let (
                            ParameterDefault::Defaulted(v),
                            Ok(ParameterDefault::Defaulted(x)),
                        ) = (names@[i as int].1, outcome) {
                            let f = choose|f: nat|
                                crate::values::structure::structure(&mid, v, f) is Some;
                            crate::values::structure::law_frozen_reads_as_before(
                                &*heap,
                                &mid,
                                v,
                                x,
                                f,
                            );
                            assert(!(Value::of_frozen(x)@ is Unassigned));
                        }
                    }
                    heap.lemma_simulates_transitive(&mid, old(heap), -1);
                    assert forall|j: int| 0 <= j < i implies defaults_stand(
                        &*heap,
                        (#[trigger] names@[j]).1,
                        frozen_mid[j].1,
                    ) by {
                        assert(defaults_stand(&mid, names@[j].1, frozen_mid[j].1));
                        if let (ParameterDefault::Defaulted(v), ParameterDefault::Defaulted(x)) = (
                            names@[j].1,
                            frozen_mid[j].1,
                        ) {
                            heap.lemma_stands_for_stable(&mid, v, Value::of_frozen(x));
                        }
                    }
                }
            }
            match r {
                Ok(kind) => {
                    if let ParameterDefault::Defaulted(d) = &kind {
                        proof {
                            Value::lemma_of_word(d.word());
                        }
                        if d.is_unassigned() {
                            return Err(ControlError::NotAValue);
                        }
                    }
                    frozen.push((names[i].0.clone(), kind));
                },
                Err(e) => {
                    return Err(e);
                },
            }
            i += 1;
        }
        let r = ParametersSpec {
            function_name,
            names: frozen,
            indices,
            positional,
            no_args,
            args,
            kwargs,
        };
        proof {
            assert forall|j: int| 0 <= j < self.names().len() implies (
            #[trigger] r.names()[j]).0 == self.names()[j].0 && same_kind(
                self.names()[j].1,
                r.names()[j].1,
            ) && defaults_stand(&*heap, self.names()[j].1, r.names()[j].1) by {
                assert(r.names()[j] == (frozen@[j].0@, frozen@[j].1));
                assert(self.names()[j] == (names@[j].0@, names@[j].1));
                assert(defaults_stand(&*heap, names@[j].1, frozen@[j].1));
            }
            assert forall|j: int| 0 <= j < r.indices().len() implies {
                let e = #[trigger] r.indices()[j];
                &&& e.1 < r.names().len()
                &&& e.0 == text_key(r.names()[e.1 as int].0)
            } by {
                let e = self.indices()[j];
                assert(r.names()[e.1 as int].0 == self.names()[e.1 as int].0);
            }
            assert forall|k: int| 0 <= k < r.names().len() implies ((
            #[trigger] r.names()[k]).1 matches ParameterDefault::Defaulted(d) ==> !(
            d.spec_to_value()@ is Unassigned)) by {
                assert(r.names()[k] == (frozen@[k].0@, frozen@[k].1));
            }
            assert forall|k: int| 0 <= k < r.names().len() implies ((
            #[trigger] r.names()[k]).1 is Args ==> r.args_slot() is Some && r.args_slot()->0
                == k) by {
                assert(same_kind(self.names()[k].1, r.names()[k].1));
            }
            assert forall|k: int| 0 <= k < r.names().len() implies ((
            #[trigger] r.names()[k]).1 is KWargs ==> r.kwargs_slot() is Some
                && r.kwargs_slot()->0 == k) by {
                assert(same_kind(self.names()[k].1, r.names()[k].1));
            }
            if let Some(a) = r.args_slot() {
                assert(same_kind(self.names()[a as int].1, r.names()[a as int].1));
            }
            if let Some(a) = r.kwargs_slot() {
                assert(same_kind(self.names()[a as int].1, r.names()[a as int].1));
            }
        }
        Ok(r)
    }
}

impl ParametersSpec<Value> {
    /// The same parameters with every default where a collection has moved
    /// it to. A default that has become no value is replaced by none.
    pub fn walk(self, heap: &mut Heap, to: &mut Vec<ValueMem>) -> (r: ParametersSpec<Value>)
        requires
            self.wf(),
            to@.len() + old(heap).unmoved() <= crate::values::layout::pointer::MAX_INDEX + 1,
            crate::values::moved::marks_fit(old(heap).entries(), to@.len()),
        ensures
            final(heap).collected_further(final(to)@, old(heap), old(to)@),
            r.wf(),
            r.function_name() == self.function_name(),
            r.indices() == self.indices(),
            r.positional() == self.positional(),
            r.has_no_args() == self.has_no_args(),
            r.args_slot() == self.args_slot(),
            r.kwargs_slot() == self.kwargs_slot(),
            r.names().len() == self.names().len(),
            forall|i: int|
                0 <= i < self.names().len() ==> (#[trigger] r.names()[i]).0 == self.names()[i].0
                    && same_kind(self.names()[i].1, r.names()[i].1) && defaults_moved(
                    final(heap).entries(),
                    self.names()[i].1,
                    r.names()[i].1,
                ),
    {
        let ParametersSpec { function_name, names, indices, positional, no_args, args, kwargs } =
            self;
        let mut walked: Vec<(String, ParameterDefault<Value>)> = Vec::with_capacity(names.len());
        let mut i: usize = 0;
        proof {
            heap.lemma_collected_nothing(to@);
        }
        while i < names.len()
            invariant
                i <= names@.len(),
                walked@.len() == i,
                heap.collected_further(to@, old(heap), old(to)@),
                old(to)@.len() + old(heap).unmoved() <= crate::values::layout::pointer::MAX_INDEX
                    + 1,
                forall|j: int|
                    0 <= j < i ==> (#[trigger] walked@[j]).0@ == names@[j].0@ && same_kind(
                        names@[j].1,
                        walked@[j].1,
                    ) && (walked@[j].1 matches ParameterDefault::Defaulted(d) ==> !(
                    d.spec_to_value()@ is Unassigned)) && defaults_moved(
                        heap.entries(),
                        names@[j].1,
                        walked@[j].1,
                    ),
            decreases names@.len() - i,
        {
            let ghost mid = *heap;
            let ghost to_mid = to@;
            let ghost walked_mid = walked@;
            let kind = names[i].1.walk(heap, to);
            proof {
                heap.lemma_collected_transitive(to@, &mid, to_mid, old(heap), old(to)@);
                crate::values::moved::lemma_relocated_grows(
                    heap.entries(),
                    to@,
                    mid.entries(),
                    to_mid.len(),
                );
                assert forall|j: int| 0 <= j < i implies defaults_moved(
                    heap.entries(),
                    (#[trigger] names@[j]).1,
                    walked_mid[j].1,
                ) by {
                    assert(defaults_moved(mid.entries(), names@[j].1, walked_mid[j].1));
                    if let (ParameterDefault::Defaulted(v), ParameterDefault::Defaulted(w)) = (
                        names@[j].1,
                        walked_mid[j].1,
                    ) {
                        if crate::values::moved::moved_to(mid.entries(), v, w) {
                            crate::values::moved::lemma_moved_to_stable(
                                heap.entries(),
                                mid.entries(),
                                v,
                                w,
                            );
                        }
                    }
                }
            }
            let kind = match kind {
                ParameterDefault::Defaulted(d) => {
                    if d.is_unassigned() {
                        ParameterDefault::Defaulted(Value::new_none())
                    } else {
                        ParameterDefault::Defaulted(d)
                    }
                },
                other => other,
            };
            walked.push((names[i].0.clone(), kind));
            i += 1;
        }
        let r = ParametersSpec {
            function_name,
            names: walked,
            indices,
            positional,
            no_args,
            args,
            kwargs,
        };
        proof {
            assert forall|j: int| 0 <= j < self.names().len() implies (
            #[trigger] r.names()[j]).0 == self.names()[j].0 && same_kind(
                self.names()[j].1,
                r.names()[j].1,
            ) && defaults_moved(heap.entries(), self.names()[j].1, r.names()[j].1) by {
                assert(r.names()[j] == (walked@[j].0@, walked@[j].1));
                assert(self.names()[j] == (names@[j].0@, names@[j].1));
                assert(defaults_moved(heap.entries(), names@[j].1, walked@[j].1));
            }
            assert forall|j: int| 0 <= j < r.indices().len() implies {
                let e = #[trigger] r.indices()[j];
                &&& e.1 < r.names().len()
                &&& e.0 == text_key(r.names()[e.1 as int].0)
            } by {
                let e = self.indices()[j];
                assert(r.names()[e.1 as int].0 == self.names()[e.1 as int].0);
            }
            assert forall|k: int| 0 <= k < r.names().len() implies ((
            #[trigger] r.names()[k]).1 matches ParameterDefault::Defaulted(d) ==> !(
            d.spec_to_value()@ is Unassigned)) by {
                assert(r.names()[k] == (walked@[k].0@, walked@[k].1));
            }
            assert forall|k: int| 0 <= k < r.names().len() implies ((
            #[trigger] r.names()[k]).1 is Args ==> r.args_slot() is Some && r.args_slot()->0
                == k) by {
                assert(same_kind(self.names()[k].1, r.names()[k].1));
            }
            assert forall|k: int| 0 <= k < r.names().len() implies ((
            #[trigger] r.names()[k]).1 is KWargs ==> r.kwargs_slot() is Some
                && r.kwargs_slot()->0 == k) by {
                assert(same_kind(self.names()[k].1, r.names()[k].1));
            }
            if let Some(a) = r.args_slot() {
                assert(same_kind(self.names()[a as int].1, r.names()[a as int].1));
            }
            if let Some(a) = r.kwargs_slot() {
                assert(same_kind(self.names()[a as int].1, r.names()[a as int].1));
            }
        }
        r
    }
}

impl ValueRef {
    /// The frozen value that stands for the value of the slot from now on:
    /// what [`Heap::freeze`] gives for the content of the slot. A content
    /// that is frozen already is the result, and nothing is allocated or
    /// overwritten; so it is where the content forwards to a frozen value.
    /// A content that can be read to the end is frozen; one that is being
    /// frozen right now holds itself.
    pub fn freeze(&self, heap: &mut Heap) -> (r: Result<FrozenValue, ControlError>)
        requires
            old(heap).frozen().can_alloc(old(heap).live_count()),
        ensures
            final(heap).frozen_further(old(heap)),
            !(self.content(old(heap))@ is Mutable) ==> (r matches Ok(x) && Value::of_frozen(x)
                == self.content(old(heap))) && final(heap).entries() == old(heap).entries()
                && final(heap).frozen() == old(heap).frozen(),
            old(heap).target(self.content(old(heap))@) matches Some(ValueMem::Forward(x)) ==> r
                == Ok::<FrozenValue, ControlError>(x) && final(heap).entries() == old(heap).entries() && final(heap).frozen() == old(heap).frozen(),
            old(heap).target(self.content(old(heap))@) matches Some(ValueMem::Blackhole) ==> r
                == Err::<FrozenValue, ControlError>(ControlError::CyclicFreeze),
            r matches Ok(x) ==> (self.content(old(heap))@ is Mutable ==> final(heap).target(
                self.content(old(heap))@,
            ) == Some(ValueMem::Forward(x))),
            r matches Ok(x) ==> final(heap).simulates(old(heap), -1) && final(heap).stands_for(
                self.content(old(heap)),
                Value::of_frozen(x),
            ),
            crate::values::structure::readable(old(heap), self.content(old(heap))) ==> r is Ok,
    {
        let v = match heap.read_ref(self.get_raw()) {
            Some(inner) => inner,
            None => self.get_raw(),
        };
        heap.freeze(v)
    }
}

} // verus!
