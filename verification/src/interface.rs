//! From a text to its tree or its value in one call.

use vstd::prelude::*;

use crate::configuration::{Configuration, EmptyConfiguration};
use crate::error::{Error, ErrorView};
use crate::eval::{value_of, MAX_DEPTH};
use crate::float::{is_float_unit, model_of, Float, FloatModel, FloatRequest};
use crate::token::{tokenize, tokens_of};
use crate::tree::{tokens_to_operator_tree, tree_of, tree_view, Node, NodeView};
use crate::value::{int_view, outcome_view, plain_view, text_view, values_view, Value, ValueView};

verus! {

/// The operator tree of a text: that of its tokens.
pub open spec fn tree_of_text(floats: FloatModel, text: Seq<char>) -> Result<NodeView, ErrorView> {
    match tokens_of(floats, text) {
        Err(e) => Err(e),
        Ok(tokens) => tree_of(tokens),
    }
}

/// The value of a text under a configuration: that of its operator tree.
pub open spec fn value_of_text<C: Configuration>(
    text: Seq<char>,
    configuration: &C,
    floats: FloatModel,
) -> Result<
    ValueView,
    ErrorView,
> {
    match tree_of_text(floats, text) {
        Err(e) => Err(e),
        Ok(node) => value_of(node, configuration, floats, MAX_DEPTH as nat),
    }
}

/// An outcome narrowed to a text.
pub open spec fn as_string(outcome: Result<ValueView, ErrorView>) -> Result<Seq<char>, ErrorView> {
    match outcome {
        Ok(value) => value.narrow_string(),
        Err(e) => Err(e),
    }
}

/// An outcome narrowed to an integer.
pub open spec fn as_int(outcome: Result<ValueView, ErrorView>) -> Result<int, ErrorView> {
    match outcome {
        Ok(value) => value.narrow_int(),
        Err(e) => Err(e),
    }
}

/// An outcome narrowed to a number with a fraction.
pub open spec fn as_float(outcome: Result<ValueView, ErrorView>) -> Result<Float, ErrorView> {
    match outcome {
        Ok(value) => value.narrow_float(),
        Err(e) => Err(e),
    }
}

/// An outcome narrowed to a truth value.
pub open spec fn as_boolean(outcome: Result<ValueView, ErrorView>) -> Result<bool, ErrorView> {
    match outcome {
        Ok(value) => value.narrow_boolean(),
        Err(e) => Err(e),
    }
}

/// An outcome narrowed to the items of a tuple.
pub open spec fn as_tuple(outcome: Result<ValueView, ErrorView>) -> Result<Seq<ValueView>, ErrorView> {
    match outcome {
        Ok(value) => value.narrow_tuple(),
        Err(e) => Err(e),
    }
}

/// Builds the operator tree of an expression.
///
/// The tree can be evaluated any number of times, which saves reading the
/// text again where one expression is evaluated against many configurations.
pub fn build_operator_tree<U: Fn(FloatRequest) -> Float>(string: &str, unit: &U) -> (r: Result<Node, Error>)
    requires
        is_float_unit(unit),
    ensures
        tree_view(r) == tree_of_text(model_of(unit), string@),
{
    match tokenize(string, unit) {
        Err(e) => Err(e),
        Ok(tokens) => tokens_to_operator_tree(tokens),
    }
}

/// Evaluates an expression against a configuration.
pub fn eval_with_configuration<C: Configuration, U: Fn(FloatRequest) -> Float>(
    string: &str,
    configuration: &C,
    unit: &U,
) -> (r: Result<Value, Error>)
    requires
        is_float_unit(unit),
        configuration.well_formed(),
    ensures
        outcome_view(r) == value_of_text(string@, configuration, model_of(unit)),
{
    match build_operator_tree(string, unit) {
        Err(e) => Err(e),
        Ok(tree) => tree.eval_with_configuration(configuration, unit),
    }
}

/// Evaluates an expression that names no variable and no function.
pub fn eval<U: Fn(FloatRequest) -> Float>(string: &str, unit: &U) -> (r: Result<Value, Error>)
    requires
        is_float_unit(unit),
    ensures
        outcome_view(r) == value_of_text(string@, &EmptyConfiguration, model_of(unit)),
{
    eval_with_configuration(string, &EmptyConfiguration, unit)
}

/// Evaluates an expression into a text.
pub fn eval_string<U: Fn(FloatRequest) -> Float>(string: &str, unit: &U) -> (r: Result<String, Error>)
    requires
        is_float_unit(unit),
    ensures
        text_view(r) == as_string(value_of_text(string@, &EmptyConfiguration, model_of(unit))),
{
    eval_string_with_configuration(string, &EmptyConfiguration, unit)
}

/// Evaluates an expression into an integer.
pub fn eval_int<U: Fn(FloatRequest) -> Float>(string: &str, unit: &U) -> (r: Result<i64, Error>)
    requires
        is_float_unit(unit),
    ensures
        int_view(r) == as_int(value_of_text(string@, &EmptyConfiguration, model_of(unit))),
{
    eval_int_with_configuration(string, &EmptyConfiguration, unit)
}

/// Evaluates an expression into a number with a fraction.
pub fn eval_float<U: Fn(FloatRequest) -> Float>(string: &str, unit: &U) -> (r: Result<Float, Error>)
    requires
        is_float_unit(unit),
    ensures
        plain_view(r) == as_float(value_of_text(string@, &EmptyConfiguration, model_of(unit))),
{
    eval_float_with_configuration(string, &EmptyConfiguration, unit)
}

/// Evaluates an expression into a truth value.
pub fn eval_boolean<U: Fn(FloatRequest) -> Float>(string: &str, unit: &U) -> (r: Result<bool, Error>)
    requires
        is_float_unit(unit),
    ensures
        plain_view(r) == as_boolean(value_of_text(string@, &EmptyConfiguration, model_of(unit))),
{
    eval_boolean_with_configuration(string, &EmptyConfiguration, unit)
}

/// Evaluates an expression into the items of a tuple.
pub fn eval_tuple<U: Fn(FloatRequest) -> Float>(string: &str, unit: &U) -> (r: Result<Vec<Value>, Error>)
    requires
        is_float_unit(unit),
    ensures
        values_view(r) == as_tuple(value_of_text(string@, &EmptyConfiguration, model_of(unit))),
{
    eval_tuple_with_configuration(string, &EmptyConfiguration, unit)
}

/// Evaluates an expression against a configuration into a text.
pub fn eval_string_with_configuration<C: Configuration, U: Fn(FloatRequest) -> Float>(
    string: &str,
    configuration: &C,
    unit: &U,
) -> (r: Result<String, Error>)
    requires
        is_float_unit(unit),
        configuration.well_formed(),
    ensures
        text_view(r) == as_string(value_of_text(string@, configuration, model_of(unit))),
{
    match eval_with_configuration(string, configuration, unit) {
        Ok(value) => value.expect_string(),
        Err(error) => Err(error),
    }
}

/// Evaluates an expression against a configuration into an integer.
pub fn eval_int_with_configuration<C: Configuration, U: Fn(FloatRequest) -> Float>(
    string: &str,
    configuration: &C,
    unit: &U,
) -> (r: Result<i64, Error>)
    requires
        is_float_unit(unit),
        configuration.well_formed(),
    ensures
        int_view(r) == as_int(value_of_text(string@, configuration, model_of(unit))),
{
    match eval_with_configuration(string, configuration, unit) {
        Ok(value) => value.expect_int(),
        Err(error) => Err(error),
    }
}

/// Evaluates an expression against a configuration into a number with a fraction.
pub fn eval_float_with_configuration<C: Configuration, U: Fn(FloatRequest) -> Float>(
    string: &str,
    configuration: &C,
    unit: &U,
) -> (r: Result<Float, Error>)
    requires
        is_float_unit(unit),
        configuration.well_formed(),
    ensures
        plain_view(r) == as_float(value_of_text(string@, configuration, model_of(unit))),
{
    match eval_with_configuration(string, configuration, unit) {
        Ok(value) => value.expect_float(),
        Err(error) => Err(error),
    }
}

/// Evaluates an expression against a configuration into a truth value.
pub fn eval_boolean_with_configuration<C: Configuration, U: Fn(FloatRequest) -> Float>(
    string: &str,
    configuration: &C,
    unit: &U,
) -> (r: Result<bool, Error>)
    requires
        is_float_unit(unit),
        configuration.well_formed(),
    ensures
        plain_view(r) == as_boolean(value_of_text(string@, configuration, model_of(unit))),
{
    match eval_with_configuration(string, configuration, unit) {
        Ok(value) => value.expect_boolean(),
        Err(error) => Err(error),
    }
}

/// Evaluates an expression against a configuration into the items of a tuple.
pub fn eval_tuple_with_configuration<C: Configuration, U: Fn(FloatRequest) -> Float>(
    string: &str,
    configuration: &C,
    unit: &U,
) -> (r: Result<Vec<Value>, Error>)
    requires
        is_float_unit(unit),
        configuration.well_formed(),
    ensures
        values_view(r) == as_tuple(value_of_text(string@, configuration, model_of(unit))),
{
    match eval_with_configuration(string, configuration, unit) {
        Ok(value) => value.expect_tuple(),
        Err(error) => Err(error),
    }
}

} // verus!
