//! What the operators make of values: arithmetic, order, equality and logic.

use vstd::prelude::*;
use vstd::string::*;

use crate::error::{Error, ErrorView};
use crate::float::{
    ask, float_arithmetic, int_order, is_float_unit, model_of, promoted, ArithmeticOp, Float, FloatModel,
    FloatRequest, Order,
};
use crate::integer::{bounded, int_arithmetic, integer_arithmetic};
use crate::operator::{BinaryOp, ComparisonOp, LogicOp, UnaryOp};
use crate::text::characters;
use crate::value::{lemma_tuple_view, outcome_view, plain_view, value_views, Kind, Value, ValueView};

verus! {

/// The error for a value of one kind where another was due.
pub open spec fn mismatch(expected: Kind, actual: Kind) -> ErrorView {
    ErrorView::TypeMismatch { expected, actual }
}

/// The error for a pair of operands that an arithmetic operator does not
/// take. Where the left operand is one that the operator takes, the right
/// one should have been of its kind; else the left one should have been an
/// integer.
pub open spec fn arithmetic_mismatch(op: ArithmeticOp, a: ValueView, b: ValueView) -> ErrorView {
    if a is Int || a is Float || (a is String && op == ArithmeticOp::Add) {
        mismatch(a.kind(), b.kind())
    } else {
        mismatch(Kind::Int, a.kind())
    }
}

/// What an arithmetic operator makes of two values. Two integers give an
/// integer. An integer beside a number with a fraction is promoted first.
/// `+` joins two strings.
pub open spec fn arithmetic_outcome(
    floats: FloatModel,
    op: ArithmeticOp,
    a: ValueView,
    b: ValueView,
) -> Result<ValueView, ErrorView> {
    match (a, b) {
        (ValueView::Int(x), ValueView::Int(y)) => int_arithmetic(op, x, y),
        (ValueView::Int(x), ValueView::Float(g)) => Ok(
            ValueView::Float(float_arithmetic(floats, op, promoted(floats, x), g)),
        ),
        (ValueView::Float(f), ValueView::Int(y)) => Ok(
            ValueView::Float(float_arithmetic(floats, op, f, promoted(floats, y))),
        ),
        (ValueView::Float(f), ValueView::Float(g)) => Ok(ValueView::Float(float_arithmetic(floats, op, f, g))),
        (ValueView::String(s), ValueView::String(t)) => if op == ArithmeticOp::Add {
            Ok(ValueView::String(s + t))
        } else {
            Err(mismatch(Kind::Int, Kind::String))
        },
        _ => Err(arithmetic_mismatch(op, a, b)),
    }
}

/// The order of two texts from `from` on, given that they agree before:
/// the first place where they differ decides, by code point; where one
/// ends first, the shorter comes first.
pub open spec fn text_order(s: Seq<char>, t: Seq<char>, from: int) -> Order
    decreases s.len() - from,
{
    if from >= s.len() || from >= t.len() {
        int_order(s.len() as int, t.len() as int)
    } else if s[from] != t[from] {
        int_order(s[from] as int, t[from] as int)
    } else {
        text_order(s, t, from + 1)
    }
}

/// The order of two truth values: false comes before true.
pub open spec fn truth_order(p: bool, q: bool) -> Order {
    int_order(if p { 1 } else { 0 }, if q { 1 } else { 0 })
}

/// The order of two values. Numbers are ordered as numbers, an integer
/// beside a number with a fraction being promoted first; texts by code
/// point; tuples of one length item by item, the first pair that is not
/// equal deciding. Values of different kinds have no order.
pub open spec fn order_of(floats: FloatModel, a: ValueView, b: ValueView) -> Result<Order, ErrorView>
    decreases a, 0nat,
{
    match (a, b) {
        (ValueView::Int(x), ValueView::Int(y)) => Ok(int_order(x, y)),
        (ValueView::Int(x), ValueView::Float(g)) => Ok(promoted(floats, x).order(g)),
        (ValueView::Float(f), ValueView::Int(y)) => Ok(f.order(promoted(floats, y))),
        (ValueView::Float(f), ValueView::Float(g)) => Ok(f.order(g)),
        (ValueView::Boolean(p), ValueView::Boolean(q)) => Ok(truth_order(p, q)),
        (ValueView::String(s), ValueView::String(t)) => Ok(text_order(s, t, 0)),
        (ValueView::Empty, ValueView::Empty) => Ok(Order::Equal),
        (ValueView::Tuple(s), ValueView::Tuple(t)) => if s.len() != t.len() {
            Err(ErrorView::TupleLengthMismatch)
        } else {
            order_of_items(floats, s, t, 0)
        },
        _ => Err(mismatch(a.kind(), b.kind())),
    }
}

/// The order of two sequences of one length from `from` on, given that the
/// items before are equal.
pub open spec fn order_of_items(
    floats: FloatModel,
    s: Seq<ValueView>,
    t: Seq<ValueView>,
    from: nat,
) -> Result<Order, ErrorView>
    decreases s, s.len() - from,
{
    if from >= s.len() {
        Ok(Order::Equal)
    } else {
        match order_of(floats, s[from as int], t[from as int]) {
            Err(e) => Err(e),
            Ok(Order::Equal) => order_of_items(floats, s, t, from + 1),
            Ok(o) => Ok(o),
        }
    }
}

/// Whether two values are equal. Tuples of different lengths are not;
/// tuples of one length are equal if their items are, pair by pair from the
/// left. Any other two values are equal if their order says so.
pub open spec fn same(floats: FloatModel, a: ValueView, b: ValueView) -> Result<bool, ErrorView>
    decreases a, 0nat,
{
    match (a, b) {
        (ValueView::Tuple(s), ValueView::Tuple(t)) => if s.len() != t.len() {
            Ok(false)
        } else {
            same_items(floats, s, t, 0)
        },
        _ => match order_of(floats, a, b) {
            Ok(o) => Ok(o == Order::Equal),
            Err(e) => Err(e),
        },
    }
}

/// Whether two sequences of one length are equal from `from` on.
pub open spec fn same_items(
    floats: FloatModel,
    s: Seq<ValueView>,
    t: Seq<ValueView>,
    from: nat,
) -> Result<bool, ErrorView>
    decreases s, s.len() - from,
{
    if from >= s.len() {
        Ok(true)
    } else {
        match same(floats, s[from as int], t[from as int]) {
            Err(e) => Err(e),
            Ok(true) => same_items(floats, s, t, from + 1),
            Ok(false) => Ok(false),
        }
    }
}

/// Whether an order is the one that a comparison operator asks for.
pub open spec fn satisfies(op: ComparisonOp, o: Order) -> bool {
    match op {
        ComparisonOp::Eq => o == Order::Equal,
        ComparisonOp::Neq => o != Order::Equal,
        ComparisonOp::Lt => o == Order::Less,
        ComparisonOp::Leq => o == Order::Less || o == Order::Equal,
        ComparisonOp::Gt => o == Order::Greater,
        ComparisonOp::Geq => o == Order::Greater || o == Order::Equal,
    }
}

/// What a comparison operator makes of two values. `==` and `!=` go by
/// equality, the others by order.
pub open spec fn comparison_outcome(
    floats: FloatModel,
    op: ComparisonOp,
    a: ValueView,
    b: ValueView,
) -> Result<ValueView, ErrorView> {
    match op {
        ComparisonOp::Eq => match same(floats, a, b) {
            Ok(r) => Ok(ValueView::Boolean(r)),
            Err(e) => Err(e),
        },
        ComparisonOp::Neq => match same(floats, a, b) {
            Ok(r) => Ok(ValueView::Boolean(!r)),
            Err(e) => Err(e),
        },
        _ => match order_of(floats, a, b) {
            Ok(o) => Ok(ValueView::Boolean(satisfies(op, o))),
            Err(e) => Err(e),
        },
    }
}

/// What a logical operator makes of two values, both of which are looked at.
pub open spec fn logic_outcome(op: LogicOp, a: ValueView, b: ValueView) -> Result<ValueView, ErrorView> {
    match (a, b) {
        (ValueView::Boolean(p), ValueView::Boolean(q)) => Ok(
            ValueView::Boolean(
                match op {
                    LogicOp::And => p && q,
                    LogicOp::Or => p || q,
                },
            ),
        ),
        (ValueView::Boolean(_), _) => Err(mismatch(Kind::Boolean, b.kind())),
        _ => Err(mismatch(Kind::Boolean, a.kind())),
    }
}

/// What an operator with two operands makes of two values.
pub open spec fn binary_outcome(
    floats: FloatModel,
    op: BinaryOp,
    a: ValueView,
    b: ValueView,
) -> Result<ValueView, ErrorView> {
    match op {
        BinaryOp::Arithmetic(o) => arithmetic_outcome(floats, o, a, b),
        BinaryOp::Comparison(o) => comparison_outcome(floats, o, a, b),
        BinaryOp::Logic(o) => logic_outcome(o, a, b),
    }
}

/// What a prefix operator makes of a value.
pub open spec fn unary_outcome(op: UnaryOp, a: ValueView) -> Result<ValueView, ErrorView> {
    match op {
        UnaryOp::Neg => match a {
            ValueView::Int(x) => bounded(-x),
            ValueView::Float(f) => Ok(ValueView::Float(f.negated())),
            _ => Err(mismatch(Kind::Int, a.kind())),
        },
        UnaryOp::Plus => match a {
            ValueView::Int(_) | ValueView::Float(_) => Ok(a),
            _ => Err(mismatch(Kind::Int, a.kind())),
        },
        UnaryOp::Not => match a {
            ValueView::Boolean(p) => Ok(ValueView::Boolean(!p)),
            _ => Err(mismatch(Kind::Boolean, a.kind())),
        },
    }
}

/// Promotes an integer.
pub fn promote<U: Fn(FloatRequest) -> Float>(unit: &U, value: i64) -> (r: Float)
    requires
        is_float_unit(unit),
    ensures
        r == promoted(model_of(unit), value as int),
{
    ask(unit, FloatRequest::FromInt(value))
}

/// Applies an arithmetic operator.
pub fn arithmetic<U: Fn(FloatRequest) -> Float>(
    unit: &U,
    op: ArithmeticOp,
    a: &Value,
    b: &Value,
) -> (r: Result<Value, Error>)
    requires
        is_float_unit(unit),
    ensures
        outcome_view(r) == arithmetic_outcome(model_of(unit), op, a@, b@),
{
    match a {
        Value::Int(x) => match b {
            Value::Int(y) => integer_arithmetic(op, *x, *y),
            Value::Float(g) => {
                let left = promote(unit, *x);
                Ok(Value::Float(ask(unit, FloatRequest::Arithmetic(op, left, *g))))
            },
            _ => Err(Error::TypeMismatch { expected: Kind::Int, actual: b.kind() }),
        },
        Value::Float(f) => match b {
            Value::Int(y) => {
                let right = promote(unit, *y);
                Ok(Value::Float(ask(unit, FloatRequest::Arithmetic(op, *f, right))))
            },
            Value::Float(g) => Ok(Value::Float(ask(unit, FloatRequest::Arithmetic(op, *f, *g)))),
            _ => Err(Error::TypeMismatch { expected: Kind::Float, actual: b.kind() }),
        },
        Value::String(s) => match op {
            ArithmeticOp::Add => match b {
                Value::String(t) => {
                    let mut joined = s.clone();
                    joined.append(t.as_str());
                    Ok(Value::String(joined))
                },
                _ => Err(Error::TypeMismatch { expected: Kind::String, actual: b.kind() }),
            },
            _ => Err(Error::TypeMismatch { expected: Kind::Int, actual: Kind::String }),
        },
        _ => Err(Error::TypeMismatch { expected: Kind::Int, actual: a.kind() }),
    }
}

/// Puts two integers in order.
pub fn compare_integers(x: i64, y: i64) -> (r: Order)
    ensures
        r == int_order(x as int, y as int),
{
    if x < y {
        Order::Less
    } else if x == y {
        Order::Equal
    } else {
        Order::Greater
    }
}

/// Puts two texts in order, by code point.
pub fn compare_texts(s: &str, t: &str) -> (r: Order)
    ensures
        r == text_order(s@, t@, 0),
{
    let left = characters(s);
    let right = characters(t);
    let mut i: usize = 0;
    while i < left.len() && i < right.len()
        invariant
            i <= left.len(),
            i <= right.len(),
            left@ == s@,
            right@ == t@,
            text_order(s@, t@, 0) == text_order(s@, t@, i as int),
        decreases left.len() - i,
    {
        let c = left[i];
        let d = right[i];
        if c != d {
            return if c < d {
                Order::Less
            } else {
                Order::Greater
            };
        }
        i += 1;
    }
    if left.len() < right.len() {
        Order::Less
    } else if left.len() == right.len() {
        Order::Equal
    } else {
        Order::Greater
    }
}

/// Puts two values in order.
pub fn compare<U: Fn(FloatRequest) -> Float>(unit: &U, a: &Value, b: &Value) -> (r: Result<Order, Error>)
    requires
        is_float_unit(unit),
    ensures
        plain_view(r) == order_of(model_of(unit), a@, b@),
    decreases a,
{
    match a {
        Value::Int(x) => match b {
            Value::Int(y) => Ok(compare_integers(*x, *y)),
            Value::Float(g) => Ok(promote(unit, *x).compare(g)),
            _ => Err(Error::TypeMismatch { expected: Kind::Int, actual: b.kind() }),
        },
        Value::Float(f) => match b {
            Value::Int(y) => {
                let right = promote(unit, *y);
                Ok(f.compare(&right))
            },
            Value::Float(g) => Ok(f.compare(g)),
            _ => Err(Error::TypeMismatch { expected: Kind::Float, actual: b.kind() }),
        },
        Value::Boolean(p) => match b {
            Value::Boolean(q) => Ok(
                if *p == *q {
                    Order::Equal
                } else if *q {
                    Order::Less
                } else {
                    Order::Greater
                },
            ),
            _ => Err(Error::TypeMismatch { expected: Kind::Boolean, actual: b.kind() }),
        },
        Value::String(s) => match b {
            Value::String(t) => Ok(compare_texts(s.as_str(), t.as_str())),
            _ => Err(Error::TypeMismatch { expected: Kind::String, actual: b.kind() }),
        },
        Value::Empty => match b {
            Value::Empty => Ok(Order::Equal),
            _ => Err(Error::TypeMismatch { expected: Kind::Empty, actual: b.kind() }),
        },
        Value::Tuple(s) => match b {
            Value::Tuple(t) => {
                proof {
                    lemma_tuple_view(*s);
                    lemma_tuple_view(*t);
                }
                if s.len() != t.len() {
                    return Err(Error::TupleLengthMismatch);
                }
                let mut i: usize = 0;
                while i < s.len()
                    invariant
                        i <= s.len(),
                        s.len() == t.len(),
                        is_float_unit(unit),
                        *a == Value::Tuple(*s),
                        order_of(model_of(unit), a@, b@) == order_of_items(
                            model_of(unit),
                            value_views(s@),
                            value_views(t@),
                            i as nat,
                        ),
                    decreases s.len() - i,
                {
                    assert(decreases_to!(a => a->Tuple_0));
                    match compare(unit, &s[i], &t[i]) {
                        Err(e) => {
                            return Err(e);
                        },
                        Ok(Order::Equal) => {},
                        Ok(o) => {
                            return Ok(o);
                        },
                    }
                    i += 1;
                }
                Ok(Order::Equal)
            },
            _ => Err(Error::TypeMismatch { expected: Kind::Tuple, actual: b.kind() }),
        },
    }
}

/// Tells whether two values are equal.
pub fn equal<U: Fn(FloatRequest) -> Float>(unit: &U, a: &Value, b: &Value) -> (r: Result<bool, Error>)
    requires
        is_float_unit(unit),
    ensures
        plain_view(r) == same(model_of(unit), a@, b@),
    decreases a,
{
    match a {
        Value::Tuple(s) => match b {
            Value::Tuple(t) => {
                proof {
                    lemma_tuple_view(*s);
                    lemma_tuple_view(*t);
                }
                if s.len() != t.len() {
                    return Ok(false);
                }
                let mut i: usize = 0;
                while i < s.len()
                    invariant
                        i <= s.len(),
                        s.len() == t.len(),
                        is_float_unit(unit),
                        *a == Value::Tuple(*s),
                        same(model_of(unit), a@, b@) == same_items(model_of(unit), value_views(s@), value_views(t@), i as nat),
                    decreases s.len() - i,
                {
                    assert(decreases_to!(a => a->Tuple_0));
                    match equal(unit, &s[i], &t[i]) {
                        Err(e) => {
                            return Err(e);
                        },
                        Ok(true) => {},
                        Ok(false) => {
                            return Ok(false);
                        },
                    }
                    i += 1;
                }
                Ok(true)
            },
            _ => Err(Error::TypeMismatch { expected: Kind::Tuple, actual: b.kind() }),
        },
        _ => match compare(unit, a, b) {
            Ok(o) => Ok(
                match o {
                    Order::Equal => true,
                    _ => false,
                },
            ),
            Err(e) => Err(e),
        },
    }
}

/// Applies a comparison operator.
pub fn comparison<U: Fn(FloatRequest) -> Float>(
    unit: &U,
    op: ComparisonOp,
    a: &Value,
    b: &Value,
) -> (r: Result<Value, Error>)
    requires
        is_float_unit(unit),
    ensures
        outcome_view(r) == comparison_outcome(model_of(unit), op, a@, b@),
{
    match op {
        ComparisonOp::Eq => match equal(unit, a, b) {
            Ok(r) => Ok(Value::Boolean(r)),
            Err(e) => Err(e),
        },
        ComparisonOp::Neq => match equal(unit, a, b) {
            Ok(r) => Ok(Value::Boolean(!r)),
            Err(e) => Err(e),
        },
        _ => match compare(unit, a, b) {
            Ok(o) => Ok(
                Value::Boolean(
                    match (op, o) {
                        (ComparisonOp::Lt, Order::Less) => true,
                        (ComparisonOp::Leq, Order::Less) => true,
                        (ComparisonOp::Leq, Order::Equal) => true,
                        (ComparisonOp::Gt, Order::Greater) => true,
                        (ComparisonOp::Geq, Order::Greater) => true,
                        (ComparisonOp::Geq, Order::Equal) => true,
                        _ => false,
                    },
                ),
            ),
            Err(e) => Err(e),
        },
    }
}

/// Applies a logical operator to two values.
pub fn logic(op: LogicOp, a: &Value, b: &Value) -> (r: Result<Value, Error>)
    ensures
        outcome_view(r) == logic_outcome(op, a@, b@),
{
    match a {
        Value::Boolean(p) => match b {
            Value::Boolean(q) => Ok(
                Value::Boolean(
                    match op {
                        LogicOp::And => *p && *q,
                        LogicOp::Or => *p || *q,
                    },
                ),
            ),
            _ => Err(Error::TypeMismatch { expected: Kind::Boolean, actual: b.kind() }),
        },
        _ => Err(Error::TypeMismatch { expected: Kind::Boolean, actual: a.kind() }),
    }
}

/// Applies an operator with two operands.
pub fn apply_binary<U: Fn(FloatRequest) -> Float>(
    unit: &U,
    op: BinaryOp,
    a: &Value,
    b: &Value,
) -> (r: Result<Value, Error>)
    requires
        is_float_unit(unit),
    ensures
        outcome_view(r) == binary_outcome(model_of(unit), op, a@, b@),
{
    match op {
        BinaryOp::Arithmetic(o) => arithmetic(unit, o, a, b),
        BinaryOp::Comparison(o) => comparison(unit, o, a, b),
        BinaryOp::Logic(o) => logic(o, a, b),
    }
}

/// Applies a prefix operator.
pub fn apply_unary(op: UnaryOp, a: &Value) -> (r: Result<Value, Error>)
    ensures
        outcome_view(r) == unary_outcome(op, a@),
{
    match op {
        UnaryOp::Neg => match a {
            Value::Int(x) => if *x == i64::MIN {
                Err(Error::Overflow)
            } else {
                Ok(Value::Int(-*x))
            },
            Value::Float(f) => Ok(Value::Float(f.negate())),
            _ => Err(Error::TypeMismatch { expected: Kind::Int, actual: a.kind() }),
        },
        UnaryOp::Plus => match a {
            Value::Int(x) => Ok(Value::Int(*x)),
            Value::Float(f) => Ok(Value::Float(*f)),
            _ => Err(Error::TypeMismatch { expected: Kind::Int, actual: a.kind() }),
        },
        UnaryOp::Not => match a {
            Value::Boolean(p) => Ok(Value::Boolean(!*p)),
            _ => Err(Error::TypeMismatch { expected: Kind::Boolean, actual: a.kind() }),
        },
    }
}

} // verus!
