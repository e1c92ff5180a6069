//! The values of the language and their kinds.

use vstd::prelude::*;

use crate::error::{Error, ErrorView};
use crate::float::Float;

verus! {

/// The kinds of value.
#[derive(Clone, Copy, Debug, PartialEq, Eq, Structural)]
pub enum Kind {
    Int,
    Float,
    Boolean,
    String,
    Tuple,
    Empty,
}

/// A value of the language.
///
/// `==` on values of this type compares them part by part, numbers with a
/// fraction by their bits. The language's own `==` is [`equal`](crate::compute::equal).
#[derive(Debug, PartialEq)]
pub enum Value {
    Int(i64),
    Float(Float),
    Boolean(bool),
    String(String),
    Tuple(Vec<Value>),
    Empty,
}

/// The mathematical content of a [`Value`].
pub enum ValueView {
    Int(int),
    Float(Float),
    Boolean(bool),
    String(Seq<char>),
    Tuple(Seq<ValueView>),
    Empty,
}

impl ValueView {
    /// The error for this value where one of kind `expected` was due.
    pub open spec fn unexpected(self, expected: Kind) -> ErrorView {
        ErrorView::TypeMismatch { expected, actual: self.kind() }
    }

    /// The integer that this value is, if it is one.
    pub open spec fn narrow_int(self) -> Result<int, ErrorView> {
        match self {
            ValueView::Int(i) => Ok(i),
            _ => Err(self.unexpected(Kind::Int)),
        }
    }

    /// The number with a fraction that this value is, if it is one.
    pub open spec fn narrow_float(self) -> Result<Float, ErrorView> {
        match self {
            ValueView::Float(f) => Ok(f),
            _ => Err(self.unexpected(Kind::Float)),
        }
    }

    /// The truth value that this value is, if it is one.
    pub open spec fn narrow_boolean(self) -> Result<bool, ErrorView> {
        match self {
            ValueView::Boolean(b) => Ok(b),
            _ => Err(self.unexpected(Kind::Boolean)),
        }
    }

    /// The text that this value is, if it is one.
    pub open spec fn narrow_string(self) -> Result<Seq<char>, ErrorView> {
        match self {
            ValueView::String(s) => Ok(s),
            _ => Err(self.unexpected(Kind::String)),
        }
    }

    /// The items of the tuple that this value is, if it is one.
    pub open spec fn narrow_tuple(self) -> Result<Seq<ValueView>, ErrorView> {
        match self {
            ValueView::Tuple(items) => Ok(items),
            _ => Err(self.unexpected(Kind::Tuple)),
        }
    }

    /// The kind of this value.
    pub open spec fn kind(self) -> Kind {
        match self {
            ValueView::Int(_) => Kind::Int,
            ValueView::Float(_) => Kind::Float,
            ValueView::Boolean(_) => Kind::Boolean,
            ValueView::String(_) => Kind::String,
            ValueView::Tuple(_) => Kind::Tuple,
            ValueView::Empty => Kind::Empty,
        }
    }
}

impl View for Value {
    type V = ValueView;

    open spec fn view(&self) -> ValueView
        decreases self,
    {
        match self {
            Value::Int(i) => ValueView::Int(*i as int),
            Value::Float(f) => ValueView::Float(*f),
            Value::Boolean(b) => ValueView::Boolean(*b),
            Value::String(s) => ValueView::String(s@),
            Value::Tuple(items) => ValueView::Tuple(
                Seq::new(
                    items@.len(),
                    |i: int|
                        if 0 <= i < items@.len() {
                            items@[i]@
                        } else {
                            ValueView::Empty
                        },
                ),
            ),
            Value::Empty => ValueView::Empty,
        }
    }
}

/// The contents of a sequence of values.
pub open spec fn value_views(values: Seq<Value>) -> Seq<ValueView> {
    Seq::new(values.len(), |i: int| values[i]@)
}

/// The content of the outcome of a computation.
pub open spec fn outcome_view(outcome: Result<Value, Error>) -> Result<ValueView, ErrorView> {
    match outcome {
        Ok(value) => Ok(value@),
        Err(error) => Err(error@),
    }
}

/// A tuple holds the contents of its items, in their order.
pub proof fn lemma_tuple_view(items: Vec<Value>)
    ensures
        Value::Tuple(items)@ == ValueView::Tuple(value_views(items@)),
{
    reveal_with_fuel(<Value as View>::view, 2);
    assert(Value::Tuple(items)@->Tuple_0 =~= value_views(items@));
}

impl Clone for Value {
    fn clone(&self) -> (r: Self)
        ensures
            r@ == self@,
        decreases self,
    {
        match self {
            Value::Int(i) => Value::Int(*i),
            Value::Float(f) => Value::Float(*f),
            Value::Boolean(b) => Value::Boolean(*b),
            Value::String(s) => Value::String(s.clone()),
            Value::Tuple(items) => {
                let mut copies: Vec<Value> = Vec::new();
                let mut i: usize = 0;
                while i < items.len()
                    invariant
                        i <= items.len(),
                        copies@.len() == i,
                        *self == Value::Tuple(*items),
                        forall|j: int| 0 <= j < i ==> copies@[j]@ == items@[j]@,
                    decreases items.len() - i,
                {
                    assert(decreases_to!(self => self->Tuple_0));
                    copies.push(items[i].clone());
                    i += 1;
                }
                proof {
                    lemma_tuple_view(copies);
                    lemma_tuple_view(*items);
                    assert(value_views(copies@) =~= value_views(items@));
                }
                Value::Tuple(copies)
            },
            Value::Empty => Value::Empty,
        }
    }
}

/// The content of a text or an error.
pub open spec fn text_view(r: Result<String, Error>) -> Result<Seq<char>, ErrorView> {
    match r {
        Ok(text) => Ok(text@),
        Err(e) => Err(e@),
    }
}

/// The content of an integer or an error.
pub open spec fn int_view(r: Result<i64, Error>) -> Result<int, ErrorView> {
    match r {
        Ok(i) => Ok(i as int),
        Err(e) => Err(e@),
    }
}

/// The content of a plain value or an error.
pub open spec fn plain_view<T>(r: Result<T, Error>) -> Result<T, ErrorView> {
    match r {
        Ok(v) => Ok(v),
        Err(e) => Err(e@),
    }
}

/// The content of a sequence of values or an error.
pub open spec fn values_view(r: Result<Vec<Value>, Error>) -> Result<Seq<ValueView>, ErrorView> {
    match r {
        Ok(values) => Ok(value_views(values@)),
        Err(e) => Err(e@),
    }
}

impl Value {
    /// The integer that this value is, or an error that names both kinds.
    pub fn expect_int(&self) -> (r: Result<i64, Error>)
        ensures
            int_view(r) == self@.narrow_int(),
    {
        match self {
            Value::Int(i) => Ok(*i),
            _ => Err(Error::TypeMismatch { expected: Kind::Int, actual: self.kind() }),
        }
    }

    /// The number with a fraction that this value is, or an error that names both kinds.
    pub fn expect_float(&self) -> (r: Result<Float, Error>)
        ensures
            plain_view(r) == self@.narrow_float(),
    {
        match self {
            Value::Float(f) => Ok(*f),
            _ => Err(Error::TypeMismatch { expected: Kind::Float, actual: self.kind() }),
        }
    }

    /// The truth value that this value is, or an error that names both kinds.
    pub fn expect_boolean(&self) -> (r: Result<bool, Error>)
        ensures
            plain_view(r) == self@.narrow_boolean(),
    {
        match self {
            Value::Boolean(b) => Ok(*b),
            _ => Err(Error::TypeMismatch { expected: Kind::Boolean, actual: self.kind() }),
        }
    }

    /// The text that this value is, or an error that names both kinds.
    pub fn expect_string(self) -> (r: Result<String, Error>)
        ensures
            text_view(r) == self@.narrow_string(),
    {
        match self {
            Value::String(s) => Ok(s),
            other => Err(Error::TypeMismatch { expected: Kind::String, actual: other.kind() }),
        }
    }

    /// The items of the tuple that this value is, or an error that names both kinds.
    pub fn expect_tuple(self) -> (r: Result<Vec<Value>, Error>)
        ensures
            values_view(r) == self@.narrow_tuple(),
    {
        match self {
            Value::Tuple(items) => {
                proof {
                    lemma_tuple_view(items);
                }
                Ok(items)
            },
            other => Err(Error::TypeMismatch { expected: Kind::Tuple, actual: other.kind() }),
        }
    }

    /// The kind of this value.
    pub fn kind(&self) -> (k: Kind)
        ensures
            k == self@.kind(),
    {
        match self {
            Value::Int(_) => Kind::Int,
            Value::Float(_) => Kind::Float,
            Value::Boolean(_) => Kind::Boolean,
            Value::String(_) => Kind::String,
            Value::Tuple(_) => Kind::Tuple,
            Value::Empty => Kind::Empty,
        }
    }
}

} // verus!
