//! Everything that can go wrong, and the stage that it belongs to.

use vstd::prelude::*;

use crate::value::Kind;

verus! {

/// Everything that can go wrong between a text and its value.
#[derive(Debug, PartialEq)]
pub enum Error {
    /// A character at this offset starts no token.
    UnknownCharacter { position: usize },
    /// The number that starts at this offset has a second decimal point, an
    /// exponent without digits, or is an integer too large for 64 bits.
    MalformedNumber { position: usize },
    /// The string literal that starts at this offset has no closing quote.
    UnterminatedString { position: usize },
    /// The backslash at this offset is followed by a character that is no escape.
    InvalidEscape { position: usize },
    /// There are no tokens at all.
    EmptyExpression,
    /// A parenthesis has no partner.
    UnmatchedParenthesis,
    /// An operator, a comma or an opening parenthesis is not followed by an operand.
    MissingOperand,
    /// A token stands where it cannot.
    UnexpectedToken,
    /// Tokens are left over behind a complete expression.
    TrailingTokens,
    /// The configuration binds no variable of this name.
    UnknownVariable(String),
    /// The configuration binds no function of this name.
    UnknownFunction(String),
    /// An operand or a result has another kind than the one asked for.
    TypeMismatch { expected: Kind, actual: Kind },
    /// Two tuples of different lengths were put in order.
    TupleLengthMismatch,
    /// An integer result does not fit in 64 bits.
    Overflow,
    /// An integer was divided by zero, or its remainder by zero was asked for.
    DivisionByZero,
    /// An integer was raised to a negative integer power.
    NegativeExponent,
    /// The tree is nested deeper than the evaluator descends.
    ExpressionTooDeep,
    /// A function of the configuration failed with this message.
    Custom(String),
}

/// The mathematical content of an [`Error`].
pub enum ErrorView {
    UnknownCharacter { position: usize },
    MalformedNumber { position: usize },
    UnterminatedString { position: usize },
    InvalidEscape { position: usize },
    EmptyExpression,
    UnmatchedParenthesis,
    MissingOperand,
    UnexpectedToken,
    TrailingTokens,
    UnknownVariable(Seq<char>),
    UnknownFunction(Seq<char>),
    TypeMismatch { expected: Kind, actual: Kind },
    TupleLengthMismatch,
    Overflow,
    DivisionByZero,
    NegativeExponent,
    ExpressionTooDeep,
    Custom(Seq<char>),
}

/// The stage that an error belongs to.
#[derive(Clone, Copy, Debug, PartialEq, Eq, Structural)]
pub enum Category {
    Lexical,
    Syntax,
    Lookup,
    Type,
    Arithmetic,
    Depth,
    Custom,
}

impl View for Error {
    type V = ErrorView;

    open spec fn view(&self) -> ErrorView {
        match self {
            Error::UnknownCharacter { position } => ErrorView::UnknownCharacter { position: *position },
            Error::MalformedNumber { position } => ErrorView::MalformedNumber { position: *position },
            Error::UnterminatedString { position } => ErrorView::UnterminatedString {
                position: *position,
            },
            Error::InvalidEscape { position } => ErrorView::InvalidEscape { position: *position },
            Error::EmptyExpression => ErrorView::EmptyExpression,
            Error::UnmatchedParenthesis => ErrorView::UnmatchedParenthesis,
            Error::MissingOperand => ErrorView::MissingOperand,
            Error::UnexpectedToken => ErrorView::UnexpectedToken,
            Error::TrailingTokens => ErrorView::TrailingTokens,
            Error::UnknownVariable(name) => ErrorView::UnknownVariable(name@),
            Error::UnknownFunction(name) => ErrorView::UnknownFunction(name@),
            Error::TypeMismatch { expected, actual } => ErrorView::TypeMismatch {
                expected: *expected,
                actual: *actual,
            },
            Error::TupleLengthMismatch => ErrorView::TupleLengthMismatch,
            Error::Overflow => ErrorView::Overflow,
            Error::DivisionByZero => ErrorView::DivisionByZero,
            Error::NegativeExponent => ErrorView::NegativeExponent,
            Error::ExpressionTooDeep => ErrorView::ExpressionTooDeep,
            Error::Custom(message) => ErrorView::Custom(message@),
        }
    }
}

impl ErrorView {
    /// The stage that this error belongs to.
    pub open spec fn category(self) -> Category {
        match self {
            ErrorView::UnknownCharacter { .. }
            | ErrorView::MalformedNumber { .. }
            | ErrorView::UnterminatedString { .. }
            | ErrorView::InvalidEscape { .. } => Category::Lexical,
            ErrorView::EmptyExpression
            | ErrorView::UnmatchedParenthesis
            | ErrorView::MissingOperand
            | ErrorView::UnexpectedToken
            | ErrorView::TrailingTokens => Category::Syntax,
            ErrorView::UnknownVariable(_) | ErrorView::UnknownFunction(_) => Category::Lookup,
            ErrorView::TypeMismatch { .. } | ErrorView::TupleLengthMismatch => Category::Type,
            ErrorView::Overflow | ErrorView::DivisionByZero | ErrorView::NegativeExponent => Category::Arithmetic,
            ErrorView::ExpressionTooDeep => Category::Depth,
            ErrorView::Custom(_) => Category::Custom,
        }
    }
}

impl Error {
    /// The stage that this error belongs to.
    pub fn category(&self) -> (c: Category)
        ensures
            c == self@.category(),
    {
        match self {
            Error::UnknownCharacter { .. }
            | Error::MalformedNumber { .. }
            | Error::UnterminatedString { .. }
            | Error::InvalidEscape { .. } => Category::Lexical,
            Error::EmptyExpression
            | Error::UnmatchedParenthesis
            | Error::MissingOperand
            | Error::UnexpectedToken
            | Error::TrailingTokens => Category::Syntax,
            Error::UnknownVariable(_) | Error::UnknownFunction(_) => Category::Lookup,
            Error::TypeMismatch { .. } | Error::TupleLengthMismatch => Category::Type,
            Error::Overflow | Error::DivisionByZero | Error::NegativeExponent => Category::Arithmetic,
            Error::ExpressionTooDeep => Category::Depth,
            Error::Custom(_) => Category::Custom,
        }
    }
}

impl Clone for Error {
    fn clone(&self) -> (r: Self)
        ensures
            r@ == self@,
    {
        match self {
            Error::UnknownCharacter { position } => Error::UnknownCharacter { position: *position },
            Error::MalformedNumber { position } => Error::MalformedNumber { position: *position },
            Error::UnterminatedString { position } => Error::UnterminatedString { position: *position },
            Error::InvalidEscape { position } => Error::InvalidEscape { position: *position },
            Error::EmptyExpression => Error::EmptyExpression,
            Error::UnmatchedParenthesis => Error::UnmatchedParenthesis,
            Error::MissingOperand => Error::MissingOperand,
            Error::UnexpectedToken => Error::UnexpectedToken,
            Error::TrailingTokens => Error::TrailingTokens,
            Error::UnknownVariable(name) => Error::UnknownVariable(name.clone()),
            Error::UnknownFunction(name) => Error::UnknownFunction(name.clone()),
            Error::TypeMismatch { expected, actual } => Error::TypeMismatch {
                expected: *expected,
                actual: *actual,
            },
            Error::TupleLengthMismatch => Error::TupleLengthMismatch,
            Error::Overflow => Error::Overflow,
            Error::DivisionByZero => Error::DivisionByZero,
            Error::NegativeExponent => Error::NegativeExponent,
            Error::ExpressionTooDeep => Error::ExpressionTooDeep,
            Error::Custom(message) => Error::Custom(message.clone()),
        }
    }
}

} // verus!
