//! The value of an operator tree under a configuration.

use vstd::prelude::*;

use crate::compute::{apply_binary, apply_unary, binary_outcome, logic, logic_outcome, mismatch, unary_outcome};
use crate::configuration::Configuration;
use crate::error::{Error, ErrorView};
use crate::float::{is_float_unit, model_of, Float, FloatModel, FloatRequest};
use crate::operator::{BinaryOp, LogicOp};
use crate::tree::{lemma_call_node_view, lemma_tuple_node_view, node_views, Node, NodeView};
use crate::value::{lemma_tuple_view, outcome_view, value_views, values_view, Kind, Value, ValueView};

verus! {

/// How many nodes deep the evaluator descends. A tree with a longer path
/// from its root is not evaluated along that path.
pub const MAX_DEPTH: usize = 256;

/// Whether the left operand settles what a logical operator gives: false
/// settles `&&`, true settles `||`.
pub open spec fn settles(op: LogicOp, left: bool) -> bool {
    match op {
        LogicOp::And => !left,
        LogicOp::Or => left,
    }
}

/// The value of a tree under a configuration, descending at most `depth` nodes.
///
/// A literal is its value, a variable what the configuration binds it to.
/// The arguments of a call and the items of a tuple are evaluated from the
/// left, and the first error among them is the outcome. A logical operator
/// whose left operand settles it does not look at the right one.
pub open spec fn value_of<C: Configuration>(
    node: NodeView,
    configuration: &C,
    floats: FloatModel,
    depth: nat,
) -> Result<ValueView, ErrorView>
    decreases depth, 0nat,
{
    if depth == 0 {
        Err(ErrorView::ExpressionTooDeep)
    } else {
        let below = (depth - 1) as nat;
        match node {
            NodeView::Literal(value) => Ok(value),
            NodeView::Variable(name) => match configuration.variable(name) {
                Some(value) => Ok(value),
                None => Err(ErrorView::UnknownVariable(name)),
            },
            NodeView::Call(name, arguments) => match values_of(arguments, configuration, floats, below, 0) {
                Err(e) => Err(e),
                Ok(values) => configuration.function_outcome(name, ValueView::Tuple(values)),
            },
            NodeView::Unary(op, operand) => match value_of(*operand, configuration, floats, below) {
                Err(e) => Err(e),
                Ok(value) => unary_outcome(op, value),
            },
            NodeView::Binary(BinaryOp::Logic(op), left, right) => match value_of(
                *left,
                configuration,
                floats,
                below,
            ) {
                Err(e) => Err(e),
                Ok(ValueView::Boolean(p)) => if settles(op, p) {
                    Ok(ValueView::Boolean(p))
                } else {
                    match value_of(*right, configuration, floats, below) {
                        Err(e) => Err(e),
                        Ok(value) => logic_outcome(op, ValueView::Boolean(p), value),
                    }
                },
                Ok(value) => Err(mismatch(Kind::Boolean, value.kind())),
            },
            NodeView::Binary(op, left, right) => match value_of(*left, configuration, floats, below) {
                Err(e) => Err(e),
                Ok(first) => match value_of(*right, configuration, floats, below) {
                    Err(e) => Err(e),
                    Ok(second) => binary_outcome(floats, op, first, second),
                },
            },
            NodeView::Tuple(items) => match values_of(items, configuration, floats, below, 0) {
                Err(e) => Err(e),
                Ok(values) => Ok(ValueView::Tuple(values)),
            },
        }
    }
}

/// The values of the trees from `from` on, in their order, or the first error among them.
pub open spec fn values_of<C: Configuration>(
    nodes: Seq<NodeView>,
    configuration: &C,
    floats: FloatModel,
    depth: nat,
    from: nat,
) -> Result<Seq<ValueView>, ErrorView>
    decreases depth, nodes.len() - from + 1,
{
    if from >= nodes.len() {
        Ok(Seq::empty())
    } else {
        match value_of(nodes[from as int], configuration, floats, depth) {
            Err(e) => Err(e),
            Ok(value) => match values_of(nodes, configuration, floats, depth, from + 1) {
                Err(e) => Err(e),
                Ok(rest) => Ok(seq![value] + rest),
            },
        }
    }
}

/// Values behind the values found so far.
pub open spec fn appended(found: Seq<ValueView>, rest: Result<Seq<ValueView>, ErrorView>) -> Result<
    Seq<ValueView>,
    ErrorView,
> {
    match rest {
        Ok(more) => Ok(found + more),
        Err(e) => Err(e),
    }
}

/// Evaluates trees from the left.
fn evaluate_all<C: Configuration, U: Fn(FloatRequest) -> Float>(
    nodes: &Vec<Node>,
    configuration: &C,
    unit: &U,
    depth: usize,
) -> (r: Result<Vec<Value>, Error>)
    requires
        is_float_unit(unit),
        configuration.well_formed(),
    ensures
        values_view(r) == values_of(node_views(nodes@), configuration, model_of(unit), depth as nat, 0),
    decreases depth, nodes.len() + 1,
{
    let ghost views = node_views(nodes@);
    let ghost floats = model_of(unit);
    let mut values: Vec<Value> = Vec::new();
    let mut i: usize = 0;
    assert(appended(value_views(values@), values_of(views, configuration, floats, depth as nat, 0)) == values_of(
        views,
        configuration,
        floats,
        depth as nat,
        0,
    )) by {
        if let Ok(more) = values_of(views, configuration, floats, depth as nat, 0) {
            assert(value_views(values@) + more =~= more);
        }
    }
    while i < nodes.len()
        invariant
            i <= nodes.len(),
            is_float_unit(unit),
            configuration.well_formed(),
            views == node_views(nodes@),
            floats == model_of(unit),
            values_of(views, configuration, floats, depth as nat, 0) == appended(
                value_views(values@),
                values_of(views, configuration, floats, depth as nat, i as nat),
            ),
        decreases nodes.len() - i,
    {
        match evaluate(&nodes[i], configuration, unit, depth) {
            Err(e) => {
                return Err(e);
            },
            Ok(value) => {
                proof {
                    let found = value_views(values@);
                    assert(value_views(values@.push(value)) =~= found.push(value@));
                    if let Ok(more) = values_of(views, configuration, floats, depth as nat, (i + 1) as nat) {
                        assert(found + (seq![value@] + more) =~= found.push(value@) + more);
                    }
                }
                values.push(value);
                i += 1;
            },
        }
    }
    assert(value_views(values@) + Seq::<ValueView>::empty() =~= value_views(values@));
    Ok(values)
}

/// Evaluates a tree, descending at most `depth` nodes.
fn evaluate<C: Configuration, U: Fn(FloatRequest) -> Float>(
    node: &Node,
    configuration: &C,
    unit: &U,
    depth: usize,
) -> (r: Result<Value, Error>)
    requires
        is_float_unit(unit),
        configuration.well_formed(),
    ensures
        outcome_view(r) == value_of(node@, configuration, model_of(unit), depth as nat),
    decreases depth, 0nat,
{
    if depth == 0 {
        return Err(Error::ExpressionTooDeep);
    }
    let below = depth - 1;
    match node {
        Node::Literal(value) => Ok(value.clone()),
        Node::Variable(name) => match configuration.resolve_variable(name.as_str()) {
            Some(value) => Ok(value),
            None => Err(Error::UnknownVariable(name.clone())),
        },
        Node::Call(name, arguments) => {
            proof {
                lemma_call_node_view(*name, *arguments);
            }
            match evaluate_all(arguments, configuration, unit, below) {
                Err(e) => Err(e),
                Ok(values) => {
                    proof {
                        lemma_tuple_view(values);
                    }
                    configuration.call_function(name.as_str(), Value::Tuple(values))
                },
            }
        },
        Node::Unary(op, operand) => match evaluate(operand, configuration, unit, below) {
            Err(e) => Err(e),
            Ok(value) => apply_unary(*op, &value),
        },
        Node::Binary(op, left, right) => {
            let first = match evaluate(left, configuration, unit, below) {
                Err(e) => {
                    return Err(e);
                },
                Ok(value) => value,
            };
            if let BinaryOp::Logic(connective) = op {
                match first {
                    Value::Boolean(p) => {
                        let settled = match connective {
                            LogicOp::And => !p,
                            LogicOp::Or => p,
                        };
                        if settled {
                            return Ok(Value::Boolean(p));
                        }
                        match evaluate(right, configuration, unit, below) {
                            Err(e) => Err(e),
                            Ok(second) => logic(*connective, &Value::Boolean(p), &second),
                        }
                    },
                    other => Err(Error::TypeMismatch { expected: Kind::Boolean, actual: other.kind() }),
                }
            } else {
                match evaluate(right, configuration, unit, below) {
                    Err(e) => Err(e),
                    Ok(second) => apply_binary(unit, *op, &first, &second),
                }
            }
        },
        Node::Tuple(items) => {
            proof {
                lemma_tuple_node_view(*items);
            }
            match evaluate_all(items, configuration, unit, below) {
                Err(e) => Err(e),
                Ok(values) => {
                    proof {
                        lemma_tuple_view(values);
                    }
                    Ok(Value::Tuple(values))
                },
            }
        },
    }
}

impl Node {
    /// Evaluates the tree against a configuration.
    ///
    /// The tree and the configuration are only read, so the same tree can be
    /// evaluated any number of times, against any configurations. The
    /// evaluator descends at most [`MAX_DEPTH`] nodes; below that it gives
    /// [`Error::ExpressionTooDeep`].
    pub fn eval_with_configuration<C: Configuration, U: Fn(FloatRequest) -> Float>(
        &self,
        configuration: &C,
        unit: &U,
    ) -> (r: Result<Value, Error>)
        requires
            is_float_unit(unit),
            configuration.well_formed(),
        ensures
            outcome_view(r) == value_of(self@, configuration, model_of(unit), MAX_DEPTH as nat),
    {
        evaluate(self, configuration, unit, MAX_DEPTH)
    }
}

} // verus!
