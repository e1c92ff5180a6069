//! The operators of the language and how tightly each binds.

use vstd::prelude::*;

use crate::float::ArithmeticOp;

verus! {

/// The operators that put two values in relation.
#[derive(Clone, Copy, Debug, PartialEq, Eq, Structural)]
pub enum ComparisonOp {
    Eq,
    Neq,
    Lt,
    Leq,
    Gt,
    Geq,
}

/// The operators on truth values.
#[derive(Clone, Copy, Debug, PartialEq, Eq, Structural)]
pub enum LogicOp {
    And,
    Or,
}

/// The operators with two operands.
#[derive(Clone, Copy, Debug, PartialEq, Eq, Structural)]
pub enum BinaryOp {
    Arithmetic(ArithmeticOp),
    Comparison(ComparisonOp),
    Logic(LogicOp),
}

/// The operators with one operand, written in front of it.
#[derive(Clone, Copy, Debug, PartialEq, Eq, Structural)]
pub enum UnaryOp {
    Neg,
    Plus,
    Not,
}

/// The lowest precedence of an operator.
pub const LOWEST_PRECEDENCE: u8 = 2;

/// The precedence of the prefix operators.
pub const PREFIX_PRECEDENCE: u8 = 9;

impl BinaryOp {
    /// How tightly the operator binds; a higher number binds tighter.
    pub open spec fn precedence(self) -> u8 {
        match self {
            BinaryOp::Logic(LogicOp::Or) => 2,
            BinaryOp::Logic(LogicOp::And) => 3,
            BinaryOp::Comparison(ComparisonOp::Eq) | BinaryOp::Comparison(ComparisonOp::Neq) => 4,
            BinaryOp::Comparison(_) => 5,
            BinaryOp::Arithmetic(ArithmeticOp::Add) | BinaryOp::Arithmetic(ArithmeticOp::Sub) => 6,
            BinaryOp::Arithmetic(ArithmeticOp::Pow) => 8,
            BinaryOp::Arithmetic(_) => 7,
        }
    }

    /// Whether a chain of this operator groups from the right.
    pub open spec fn right_associative(self) -> bool {
        self == BinaryOp::Arithmetic(ArithmeticOp::Pow)
    }

    /// The least precedence that an operator in the right operand may have.
    pub open spec fn right_operand_precedence(self) -> u8 {
        if self.right_associative() {
            self.precedence()
        } else {
            (self.precedence() + 1) as u8
        }
    }

    #[verifier::when_used_as_spec(precedence)]
    pub fn binding(self) -> (r: u8)
        ensures
            r == self.precedence(),
            LOWEST_PRECEDENCE <= r < PREFIX_PRECEDENCE,
    {
        match self {
            BinaryOp::Logic(LogicOp::Or) => 2,
            BinaryOp::Logic(LogicOp::And) => 3,
            BinaryOp::Comparison(ComparisonOp::Eq) | BinaryOp::Comparison(ComparisonOp::Neq) => 4,
            BinaryOp::Comparison(_) => 5,
            BinaryOp::Arithmetic(ArithmeticOp::Add) | BinaryOp::Arithmetic(ArithmeticOp::Sub) => 6,
            BinaryOp::Arithmetic(ArithmeticOp::Pow) => 8,
            BinaryOp::Arithmetic(_) => 7,
        }
    }

    /// The least precedence that an operator in the right operand may have:
    /// the operator's own where it groups from the right, one more where it
    /// groups from the left.
    pub fn right_binding(self) -> (r: u8)
        ensures
            r == self.right_operand_precedence(),
    {
        match self {
            BinaryOp::Arithmetic(ArithmeticOp::Pow) => 8,
            _ => self.binding() + 1,
        }
    }
}

} // verus!
