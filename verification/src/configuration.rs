//! What an expression is evaluated against: the bindings of its names.

use vstd::prelude::*;
use vstd::hash_map::StringHashMap;

use crate::error::{Error, ErrorView};
use crate::value::{outcome_view, Value, ValueView};

verus! {

/// What an expression is evaluated against: the values of its variables
/// and the functions that it calls. Variables and functions are looked up
/// apart from each other, so one name can be both.
///
/// A configuration is only read during evaluation, and what it answers
/// depends on the question alone.
pub trait Configuration {
    /// Whether the configuration is fit for use.
    spec fn well_formed(&self) -> bool;

    /// The value of the variable `name`, if it has one.
    spec fn variable(&self, name: Seq<char>) -> Option<ValueView>;

    /// What the function `name` makes of the tuple `arguments`. A name that
    /// is no function gives [`Error::UnknownFunction`](ErrorView::UnknownFunction).
    spec fn function_outcome(&self, name: Seq<char>, arguments: ValueView) -> Result<ValueView, ErrorView>;

    /// Looks up a variable.
    fn resolve_variable(&self, name: &str) -> (r: Option<Value>)
        requires
            self.well_formed(),
        ensures
            option_view(r) == self.variable(name@),
    ;

    /// Calls a function on the tuple of its arguments.
    fn call_function(&self, name: &str, arguments: Value) -> (r: Result<Value, Error>)
        requires
            self.well_formed(),
            arguments is Tuple,
        ensures
            outcome_view(r) == self.function_outcome(name@, arguments@),
    ;
}

/// The content of a value that may be absent.
pub open spec fn option_view(value: Option<Value>) -> Option<ValueView> {
    match value {
        Some(v) => Some(v@),
        None => None,
    }
}

/// The configuration without variables and functions.
#[derive(Clone, Copy, Debug, PartialEq, Eq, Default)]
pub struct EmptyConfiguration;

impl Configuration for EmptyConfiguration {
    open spec fn well_formed(&self) -> bool {
        true
    }

    open spec fn variable(&self, name: Seq<char>) -> Option<ValueView> {
        None
    }

    open spec fn function_outcome(
        &self,
        name: Seq<char>,
        arguments: ValueView,
    ) -> Result<ValueView, ErrorView> {
        Err(ErrorView::UnknownFunction(name))
    }

    fn resolve_variable(&self, name: &str) -> (r: Option<Value>) {
        None
    }

    fn call_function(&self, name: &str, arguments: Value) -> (r: Result<Value, Error>) {
        Err(Error::UnknownFunction(name.to_owned()))
    }
}

/// Whether `function` can be bound to a name: it takes every tuple, and
/// what it returns depends on the content of the tuple alone.
pub open spec fn is_function<F: Fn(Value) -> Result<Value, Error>>(function: &F) -> bool {
    &&& forall|arguments: Value|
        arguments is Tuple ==> #[trigger] call_requires(*function, (arguments,))
    &&& forall|first: Value, second: Value, a: Result<Value, Error>, b: Result<Value, Error>|
        first@ == second@ && #[trigger] call_ensures(*function, (first,), a) && #[trigger] call_ensures(
            *function,
            (second,),
            b,
        ) ==> outcome_view(a) == outcome_view(b)
}

/// Whether `call` is a tuple with this content together with something
/// that `function` may return for it.
pub open spec fn answered<F: Fn(Value) -> Result<Value, Error>>(
    function: &F,
    arguments: ValueView,
    call: (Value, Result<Value, Error>),
) -> bool {
    call.0@ == arguments && call_ensures(*function, (call.0,), call.1)
}

/// What `function` makes of a tuple with this content.
pub open spec fn outcome_of<F: Fn(Value) -> Result<Value, Error>>(
    function: &F,
    arguments: ValueView,
) -> Result<
    ValueView,
    ErrorView,
> {
    outcome_view((choose|call: (Value, Result<Value, Error>)| answered(function, arguments, call)).1)
}

/// A configuration that keeps its variables and functions in two maps by name.
#[verifier::reject_recursive_types(F)]
pub struct MapConfiguration<F: Fn(Value) -> Result<Value, Error>> {
    variables: StringHashMap<Value>,
    functions: StringHashMap<F>,
}

impl<F: Fn(Value) -> Result<Value, Error>> MapConfiguration<F> {
    /// The values of the variables, by name.
    pub closed spec fn variables(&self) -> Map<Seq<char>, ValueView> {
        Map::new(|name: Seq<char>| self.variables@.contains_key(name), |name: Seq<char>| self.variables@[name]@)
    }

    /// The functions, by name.
    pub closed spec fn functions(&self) -> Map<Seq<char>, F> {
        self.functions@
    }

    /// Whether every function of the configuration is one that can be bound to a name.
    pub open spec fn functions_behave(&self) -> bool {
        forall|name: Seq<char>| #[trigger]
            self.functions().contains_key(name) ==> is_function(&self.functions()[name])
    }

    /// The configuration that binds nothing.
    pub fn new() -> (r: Self)
        ensures
            r.variables() == Map::<Seq<char>, ValueView>::empty(),
            r.functions() == Map::<Seq<char>, F>::empty(),
            r.well_formed(),
    {
        let r = MapConfiguration { variables: StringHashMap::new(), functions: StringHashMap::new() };
        assert(r.variables() =~= Map::<Seq<char>, ValueView>::empty());
        r
    }

    /// Binds a variable, in place of what the name was bound to before.
    pub fn insert_variable(&mut self, name: String, value: Value)
        ensures
            final(self).variables() == old(self).variables().insert(name@, value@),
            final(self).functions() == old(self).functions(),
            old(self).well_formed() ==> final(self).well_formed(),
    {
        let ghost content = value@;
        let ghost key = name@;
        self.variables.insert(name, value);
        assert(self.variables() =~= old(self).variables().insert(key, content));
    }

    /// Binds a function, in place of what the name was bound to before.
    pub fn insert_function(&mut self, name: String, function: F)
        ensures
            final(self).functions() == old(self).functions().insert(name@, function),
            final(self).variables() == old(self).variables(),
            old(self).well_formed() && is_function(&function) ==> final(self).well_formed(),
    {
        self.functions.insert(name, function);
    }
}

impl<F: Fn(Value) -> Result<Value, Error>> Configuration for MapConfiguration<F> {
    open spec fn well_formed(&self) -> bool {
        self.functions_behave()
    }

    open spec fn variable(&self, name: Seq<char>) -> Option<ValueView> {
        if self.variables().contains_key(name) {
            Some(self.variables()[name])
        } else {
            None
        }
    }

    open spec fn function_outcome(
        &self,
        name: Seq<char>,
        arguments: ValueView,
    ) -> Result<ValueView, ErrorView> {
        if self.functions().contains_key(name) {
            outcome_of(&self.functions()[name], arguments)
        } else {
            Err(ErrorView::UnknownFunction(name))
        }
    }

    fn resolve_variable(&self, name: &str) -> (r: Option<Value>) {
        match self.variables.get(name) {
            Some(value) => Some(value.clone()),
            None => None,
        }
    }

    fn call_function(&self, name: &str, arguments: Value) -> (r: Result<Value, Error>) {
        match self.functions.get(name) {
            Some(function) => {
                let ghost content = arguments@;
                let ghost given = arguments;
                let outcome = function(arguments);
                proof {
                    assert(self.functions().contains_key(name@));
                    assert(answered(function, content, (given, outcome)));
                    let chosen = choose|call: (Value, Result<Value, Error>)| answered(function, content, call);
                    assert(call_ensures(*function, (chosen.0,), chosen.1));
                }
                outcome
            },
            None => Err(Error::UnknownFunction(name.to_owned())),
        }
    }
}

} // verus!
