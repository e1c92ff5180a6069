//! Numbers with a fraction: their bits, their order, and the host that computes them.

use vstd::prelude::*;

verus! {

/// The bit that holds the sign of a binary64 number.
pub const SIGN_BIT: u64 = 0x8000_0000_0000_0000;

/// The bit pattern of positive infinity; every larger magnitude is not a number.
pub const INFINITY_BITS: u64 = 0x7ff0_0000_0000_0000;

/// A binary64 number, held by its bit pattern.
///
/// The library orders and negates such numbers itself, on the bits. Their
/// arithmetic comes from the host, which answers each [`FloatRequest`].
#[derive(Clone, Copy, Debug, PartialEq, Eq, Structural)]
pub struct Float {
    pub bits: u64,
}

/// How two values stand to each other. Numbers of which one is not a number
/// are unordered.
#[derive(Clone, Copy, Debug, PartialEq, Eq, Structural)]
pub enum Order {
    Less,
    Equal,
    Greater,
    Unordered,
}

impl Order {
    /// The order of the same two values taken the other way round.
    pub open spec fn reversed(self) -> Order {
        match self {
            Order::Less => Order::Greater,
            Order::Greater => Order::Less,
            _ => self,
        }
    }
}

/// The arithmetic operators.
#[derive(Clone, Copy, Debug, PartialEq, Eq, Structural)]
pub enum ArithmeticOp {
    Add,
    Sub,
    Mul,
    Div,
    Mod,
    Pow,
}

/// The order of two integers.
pub open spec fn int_order(a: int, b: int) -> Order {
    if a < b {
        Order::Less
    } else if a == b {
        Order::Equal
    } else {
        Order::Greater
    }
}

impl Float {
    /// Whether the sign bit is set.
    pub open spec fn negative(self) -> bool {
        self.bits >= SIGN_BIT
    }

    /// The bits without the sign bit.
    pub open spec fn magnitude(self) -> int {
        if self.negative() {
            self.bits - SIGN_BIT
        } else {
            self.bits as int
        }
    }

    /// Whether the bits stand for no number: the exponent is all ones and the
    /// fraction is not zero.
    pub open spec fn nan(self) -> bool {
        self.magnitude() > INFINITY_BITS
    }

    /// The place of a number on the line of integers: magnitudes of negative
    /// numbers are mirrored below zero, and both zeros fall on zero.
    pub open spec fn rank(self) -> int {
        if self.negative() {
            -self.magnitude()
        } else {
            self.magnitude()
        }
    }

    /// The order of two numbers as IEEE 754 defines it: unordered if either
    /// is not a number, else by sign and magnitude, with the two zeros equal.
    pub open spec fn order(self, other: Float) -> Order {
        if self.nan() || other.nan() {
            Order::Unordered
        } else {
            int_order(self.rank(), other.rank())
        }
    }

    /// The number with the opposite sign.
    pub open spec fn negated(self) -> Float {
        if self.negative() {
            Float { bits: (self.bits - SIGN_BIT) as u64 }
        } else {
            Float { bits: (self.bits + SIGN_BIT) as u64 }
        }
    }

    /// The number with these bits.
    pub fn from_bits(bits: u64) -> (r: Float)
        ensures
            r.bits == bits,
    {
        Float { bits }
    }

    /// The bits of this number.
    pub fn to_bits(&self) -> (r: u64)
        ensures
            r == self.bits,
    {
        self.bits
    }

    /// Whether this is not a number.
    pub fn is_nan(&self) -> (r: bool)
        ensures
            r == self.nan(),
    {
        if self.bits >= SIGN_BIT {
            self.bits - SIGN_BIT > INFINITY_BITS
        } else {
            self.bits > INFINITY_BITS
        }
    }

    /// Flips the sign.
    pub fn negate(&self) -> (r: Float)
        ensures
            r == self.negated(),
    {
        if self.bits >= SIGN_BIT {
            Float { bits: self.bits - SIGN_BIT }
        } else {
            Float { bits: self.bits + SIGN_BIT }
        }
    }

    /// Puts two numbers in order.
    pub fn compare(&self, other: &Float) -> (r: Order)
        ensures
            r == self.order(*other),
    {
        if self.is_nan() || other.is_nan() {
            return Order::Unordered;
        }
        let left_negative = self.bits >= SIGN_BIT;
        let right_negative = other.bits >= SIGN_BIT;
        let left: u64 = if left_negative { self.bits - SIGN_BIT } else { self.bits };
        let right: u64 = if right_negative { other.bits - SIGN_BIT } else { other.bits };
        if left == 0 && right == 0 {
            Order::Equal
        } else if left_negative && !right_negative {
            Order::Less
        } else if !left_negative && right_negative {
            Order::Greater
        } else if left == right {
            Order::Equal
        } else if (left < right) != left_negative {
            Order::Less
        } else {
            Order::Greater
        }
    }
}

/// Whether every character from `from` on is a decimal digit.
pub open spec fn digits_only(text: Seq<char>, from: int) -> bool {
    forall|i: int| from <= i < text.len() ==> '0' <= #[trigger] text[i] <= '9'
}

/// Whether `text` is digits up to `point`, then, if `point` is before
/// `exponent`, a decimal point and digits up to `exponent`, then, if `exponent`
/// is before the end, `e` or `E`, an optional sign and at least one digit.
pub open spec fn float_shape(text: Seq<char>, point: int, exponent: int) -> bool {
    &&& 0 < point <= exponent <= text.len()
    &&& point < text.len()
    &&& forall|i: int| 0 <= i < point ==> '0' <= #[trigger] text[i] <= '9'
    &&& point < exponent ==> text[point] == '.'
    &&& forall|i: int| point < i < exponent ==> '0' <= #[trigger] text[i] <= '9'
    &&& exponent < text.len() ==> {
        &&& text[exponent] == 'e' || text[exponent] == 'E'
        &&& exponent + 1 < text.len()
        &&& if text[exponent + 1] == '+' || text[exponent + 1] == '-' {
            exponent + 2 < text.len() && digits_only(text, exponent + 2)
        } else {
            digits_only(text, exponent + 1)
        }
    }
}

/// Whether `text` is a number with a decimal point or an exponent, as the
/// lexer accepts it. No other text is ever put in a
/// [`FloatRequest::Literal`].
pub open spec fn is_float_literal(text: Seq<char>) -> bool {
    exists|point: int, exponent: int| #[trigger] float_shape(text, point, exponent)
}

/// What the library asks of the host's binary64 arithmetic.
#[derive(Clone, Debug, PartialEq)]
pub enum FloatRequest {
    /// The number that a literal denotes. The text is always a number with a
    /// decimal point or an exponent, as [`is_float_literal`] says.
    Literal(String),
    /// The number that an integer is promoted to.
    FromInt(i64),
    /// The result of an arithmetic operator on two numbers.
    Arithmetic(ArithmeticOp, Float, Float),
}

/// The mathematical content of a [`FloatRequest`].
pub enum FloatRequestView {
    Literal(Seq<char>),
    FromInt(int),
    Arithmetic(ArithmeticOp, Float, Float),
}

impl View for FloatRequest {
    type V = FloatRequestView;

    open spec fn view(&self) -> FloatRequestView {
        match self {
            FloatRequest::Literal(text) => FloatRequestView::Literal(text@),
            FloatRequest::FromInt(value) => FloatRequestView::FromInt(*value as int),
            FloatRequest::Arithmetic(op, left, right) => FloatRequestView::Arithmetic(*op, *left, *right),
        }
    }
}

impl FloatRequestView {
    /// Whether the library may make this request: a literal has the shape of
    /// a number with a decimal point or an exponent.
    pub open spec fn well_formed(self) -> bool {
        self matches FloatRequestView::Literal(text) ==> is_float_literal(text)
    }
}

/// What binary64 arithmetic answers to each request, as a mathematical function.
pub type FloatModel = spec_fn(FloatRequestView) -> Float;

/// Whether `unit` can serve as the host's binary64 arithmetic: it takes
/// every well-formed request, and its answer depends on the content of the
/// request alone.
pub open spec fn is_float_unit<U: Fn(FloatRequest) -> Float>(unit: &U) -> bool {
    &&& forall|request: FloatRequest| #[trigger]
        request@.well_formed() ==> call_requires(*unit, (request,))
    &&& forall|first: FloatRequest, second: FloatRequest, a: Float, b: Float|
        first@ == second@ && #[trigger] call_ensures(*unit, (first,), a) && #[trigger] call_ensures(
            *unit,
            (second,),
            b,
        ) ==> a == b
}

/// Whether `exchange` is a request with this content together with an
/// answer that `unit` may give to it.
pub open spec fn answers<U: Fn(FloatRequest) -> Float>(
    unit: &U,
    request: FloatRequestView,
    exchange: (FloatRequest, Float),
) -> bool {
    exchange.0@ == request && call_ensures(*unit, (exchange.0,), exchange.1)
}

/// What `unit` answers to a request with this content.
pub open spec fn answer_of<U: Fn(FloatRequest) -> Float>(unit: &U, request: FloatRequestView) -> Float {
    (choose|exchange: (FloatRequest, Float)| answers(unit, request, exchange)).1
}

/// The arithmetic of `unit` as a mathematical function.
pub open spec fn model_of<U: Fn(FloatRequest) -> Float>(unit: &U) -> FloatModel {
    |request: FloatRequestView| answer_of(unit, request)
}

/// The number that a literal denotes.
pub open spec fn literal_value(floats: FloatModel, text: Seq<char>) -> Float {
    floats(FloatRequestView::Literal(text))
}

/// The number that an integer is promoted to.
pub open spec fn promoted(floats: FloatModel, value: int) -> Float {
    floats(FloatRequestView::FromInt(value))
}

/// The result of an arithmetic operator on two numbers.
pub open spec fn float_arithmetic(floats: FloatModel, op: ArithmeticOp, left: Float, right: Float) -> Float {
    floats(FloatRequestView::Arithmetic(op, left, right))
}

/// Puts a request to the host's arithmetic.
pub fn ask<U: Fn(FloatRequest) -> Float>(unit: &U, request: FloatRequest) -> (r: Float)
    requires
        is_float_unit(unit),
        request@.well_formed(),
    ensures
        r == model_of(unit)(request@),
{
    let ghost content = request@;
    let ghost asked = request;
    let answer = unit(request);
    proof {
        assert(answers(unit, content, (asked, answer)));
        let chosen = choose|exchange: (FloatRequest, Float)| answers(unit, content, exchange);
        assert(call_ensures(*unit, (chosen.0,), chosen.1));
    }
    answer
}

} // verus!
