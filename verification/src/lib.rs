//! A small expression language: text is split into tokens, tokens are built
//! into an operator tree, and the tree is evaluated against a configuration
//! that binds variable and function names.
//!
//! Every function here is verified against a mathematical model of what it
//! computes. Binary64 arithmetic is not modelled: values of that kind are
//! carried by their bit patterns and the host supplies the arithmetic
//! as a function from [`FloatRequest`] to [`Float`].

pub mod compute;
pub mod configuration;
pub mod convert;
pub mod depth;
pub mod error;
pub mod eval;
pub mod float;
pub mod integer;
pub mod interface;
pub mod laws;
pub mod operator;
pub mod parts;
pub mod plain;
pub mod spelling;
pub mod text;
pub mod token;
pub mod tree;
pub mod value;
pub mod writing;

pub use configuration::{is_function, Configuration, EmptyConfiguration, MapConfiguration};
pub use error::{Category, Error, ErrorView};
pub use eval::MAX_DEPTH;
pub use float::{is_float_unit, model_of, ArithmeticOp, Float, FloatModel, FloatRequest, FloatRequestView, Order};
pub use interface::{
    build_operator_tree, eval, eval_boolean, eval_boolean_with_configuration, eval_float,
    eval_float_with_configuration, eval_int, eval_int_with_configuration, eval_string,
    eval_string_with_configuration, eval_tuple, eval_tuple_with_configuration, eval_with_configuration,
};
pub use operator::{BinaryOp, ComparisonOp, LogicOp, UnaryOp};
pub use token::{tokenize, Token, TokenView};
pub use tree::{tokens_to_operator_tree, Node, NodeView};
pub use value::{Kind, Value, ValueView};
