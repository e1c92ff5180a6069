//! What holds of the library as a whole, proved from the contracts of its parts.

use vstd::prelude::*;

use crate::compute::{order_of, order_of_items, same, same_items, text_order};
use crate::configuration::{Configuration, EmptyConfiguration};
use crate::error::{Error, ErrorView};
use crate::eval::{settles, value_of, values_of, MAX_DEPTH};
use crate::float::{FloatModel, Order};
use crate::interface::{tree_of_text, value_of_text};
use crate::operator::{BinaryOp, LogicOp};
use crate::token::TokenView;
use crate::tree::{tree_of, tree_view, Node, NodeView};
use crate::value::{outcome_view, Value, ValueView};

verus! {

/// Building the tree of an expression first and evaluating it then gives
/// what evaluating the expression at once gives: the error of the build
/// where the text is no expression, else the value of the tree.
pub proof fn lemma_prebuilding_changes_nothing<C: Configuration>(
    text: Seq<char>,
    configuration: &C,
    floats: FloatModel,
    built: Result<Node, Error>,
    evaluated: Result<Value, Error>,
    direct: Result<Value, Error>,
)
    requires
        tree_view(built) == tree_of_text(floats, text),
        built matches Ok(tree) ==> outcome_view(evaluated) == value_of(
            tree@,
            configuration,
            floats,
            MAX_DEPTH as nat,
        ),
        outcome_view(direct) == value_of_text(text, configuration, floats),
    ensures
        match built {
            Ok(_) => outcome_view(direct) == outcome_view(evaluated),
            Err(e) => outcome_view(direct) == Err::<ValueView, ErrorView>(e@),
        },
{
}

/// Evaluating one tree twice against one configuration gives the same
/// twice, and so does evaluating two trees with the same content.
pub proof fn lemma_evaluation_repeats<C: Configuration>(
    tree: Node,
    again: Node,
    configuration: &C,
    floats: FloatModel,
    first: Result<Value, Error>,
    second: Result<Value, Error>,
)
    requires
        tree@ == again@,
        outcome_view(first) == value_of(tree@, configuration, floats, MAX_DEPTH as nat),
        outcome_view(second) == value_of(again@, configuration, floats, MAX_DEPTH as nat),
    ensures
        outcome_view(first) == outcome_view(second),
{
}

/// The tree with an operator over two operands.
pub open spec fn joined(op: BinaryOp, left: NodeView, right: NodeView) -> NodeView {
    NodeView::Binary(op, Box::new(left), Box::new(right))
}

/// The tree of an integer literal.
pub open spec fn literal(value: int) -> NodeView {
    NodeView::Literal(ValueView::Int(value))
}

/// Of two operators in a row the one that binds tighter is applied first.
/// Where both bind alike the left one is applied first, unless they group
/// from the right.
pub proof fn lemma_tighter_operator_binds_first(x: int, y: int, z: int, first: BinaryOp, second: BinaryOp)
    ensures
        tree_of(
            seq![
                TokenView::Int(x),
                TokenView::Binary(first),
                TokenView::Int(y),
                TokenView::Binary(second),
                TokenView::Int(z),
            ],
        ) == Ok::<NodeView, ErrorView>(
            if second.precedence() > first.precedence() || (second.precedence() == first.precedence()
                && first.right_associative()) {
                joined(first, literal(x), joined(second, literal(y), literal(z)))
            } else {
                joined(second, joined(first, literal(x), literal(y)), literal(z))
            },
        ),
{
    let ts = seq![
        TokenView::Int(x),
        TokenView::Binary(first),
        TokenView::Int(y),
        TokenView::Binary(second),
        TokenView::Int(z),
    ];
    reveal_with_fuel(crate::tree::expression, 4);
    reveal_with_fuel(crate::tree::extended, 4);
    reveal_with_fuel(crate::tree::prefixed, 2);
    reveal_with_fuel(crate::tree::primary, 2);
    reveal_with_fuel(crate::tree::sequence, 2);
    reveal_with_fuel(crate::tree::continued_sequence, 2);
    assert(crate::tree::prefixed(ts, 0) == Ok::<(NodeView, int), ErrorView>((literal(x), 1)));
    assert(crate::tree::prefixed(ts, 2) == Ok::<(NodeView, int), ErrorView>((literal(y), 3)));
    assert(crate::tree::prefixed(ts, 4) == Ok::<(NodeView, int), ErrorView>((literal(z), 5)));
    assert(crate::tree::expression(ts, 4, second.right_operand_precedence()) == Ok::<(NodeView, int), ErrorView>(
        (literal(z), 5),
    ));
    if second.precedence() >= first.right_operand_precedence() {
        assert(crate::tree::expression(ts, 2, first.right_operand_precedence()) == Ok::<
            (NodeView, int),
            ErrorView,
        >((joined(second, literal(y), literal(z)), 5)));
    } else {
        assert(crate::tree::expression(ts, 2, first.right_operand_precedence()) == Ok::<
            (NodeView, int),
            ErrorView,
        >((literal(y), 3)));
    }
    assert(crate::tree::grouped(seq![joined(first, literal(x), joined(second, literal(y), literal(z)))]) == joined(
        first,
        literal(x),
        joined(second, literal(y), literal(z)),
    ));
}

/// Where the left operand settles a logical operator, the right operand
/// has no say: whatever it is, and whether or not it has a value, the
/// outcome is the left operand's.
pub proof fn lemma_settled_logic_ignores_the_right<C: Configuration>(
    op: LogicOp,
    left: NodeView,
    right: NodeView,
    configuration: &C,
    floats: FloatModel,
    depth: nat,
    p: bool,
)
    requires
        depth > 0,
        value_of(left, configuration, floats, (depth - 1) as nat) == Ok::<ValueView, ErrorView>(
            ValueView::Boolean(p),
        ),
        settles(op, p),
    ensures
        value_of(joined(BinaryOp::Logic(op), left, right), configuration, floats, depth) == Ok::<
            ValueView,
            ErrorView,
        >(ValueView::Boolean(p)),
{
}

/// Against the empty configuration every variable is unknown, and every
/// call whose arguments have values is a call of an unknown function.
pub proof fn lemma_empty_configuration_binds_nothing(
    name: Seq<char>,
    arguments: Seq<NodeView>,
    floats: FloatModel,
    depth: nat,
)
    requires
        depth > 0,
    ensures
        value_of(NodeView::Variable(name), &EmptyConfiguration, floats, depth) == Err::<ValueView, ErrorView>(
            ErrorView::UnknownVariable(name),
        ),
        values_of(arguments, &EmptyConfiguration, floats, (depth - 1) as nat, 0) is Ok ==> value_of(
            NodeView::Call(name, arguments),
            &EmptyConfiguration,
            floats,
            depth,
        ) == Err::<ValueView, ErrorView>(ErrorView::UnknownFunction(name)),
{
}

/// Tuples of different lengths are not equal, whatever they hold, and have no order.
pub proof fn lemma_lengths_of_tuples_matter(floats: FloatModel, s: Seq<ValueView>, t: Seq<ValueView>)
    requires
        s.len() != t.len(),
    ensures
        same(floats, ValueView::Tuple(s), ValueView::Tuple(t)) == Ok::<bool, ErrorView>(false),
        order_of(floats, ValueView::Tuple(s), ValueView::Tuple(t)) == Err::<Order, ErrorView>(
            ErrorView::TupleLengthMismatch,
        ),
{
}

/// Two texts taken the other way round have the reversed order.
pub proof fn lemma_text_order_reverses(s: Seq<char>, t: Seq<char>, from: int)
    requires
        0 <= from,
    ensures
        text_order(t, s, from) == text_order(s, t, from).reversed(),
    decreases s.len() - from,
{
    if from < s.len() && from < t.len() && s[from] == t[from] {
        lemma_text_order_reverses(s, t, from + 1);
    }
}

/// Two values that have an order have the reversed order when taken the
/// other way round: `a < b` says what `b > a` says.
pub proof fn lemma_order_reverses(floats: FloatModel, a: ValueView, b: ValueView)
    ensures
        order_of(floats, a, b) matches Ok(o) ==> order_of(floats, b, a) == Ok::<Order, ErrorView>(o.reversed()),
    decreases a, 0nat,
{
    match (a, b) {
        (ValueView::String(s), ValueView::String(t)) => {
            lemma_text_order_reverses(s, t, 0);
        },
        (ValueView::Tuple(s), ValueView::Tuple(t)) => {
            if s.len() == t.len() {
                lemma_order_of_items_reverses(floats, s, t, 0);
            }
        },
        _ => {},
    }
}

/// The same of two sequences of one length.
pub proof fn lemma_order_of_items_reverses(
    floats: FloatModel,
    s: Seq<ValueView>,
    t: Seq<ValueView>,
    from: nat,
)
    requires
        s.len() == t.len(),
    ensures
        order_of_items(floats, s, t, from) matches Ok(o) ==> order_of_items(floats, t, s, from) == Ok::<
            Order,
            ErrorView,
        >(o.reversed()),
    decreases s, s.len() - from,
{
    if from < s.len() {
        lemma_order_reverses(floats, s[from as int], t[from as int]);
        lemma_order_of_items_reverses(floats, s, t, from + 1);
    }
}

/// Whether two values are equal does not depend on which is taken first.
pub proof fn lemma_same_is_symmetric(floats: FloatModel, a: ValueView, b: ValueView)
    ensures
        same(floats, a, b) matches Ok(r) ==> same(floats, b, a) == Ok::<bool, ErrorView>(r),
    decreases a, 0nat,
{
    match (a, b) {
        (ValueView::Tuple(s), ValueView::Tuple(t)) => {
            if s.len() == t.len() {
                lemma_same_items_is_symmetric(floats, s, t, 0);
            }
        },
        _ => {
            lemma_order_reverses(floats, a, b);
        },
    }
}

/// The same of two sequences of one length.
pub proof fn lemma_same_items_is_symmetric(
    floats: FloatModel,
    s: Seq<ValueView>,
    t: Seq<ValueView>,
    from: nat,
)
    requires
        s.len() == t.len(),
    ensures
        same_items(floats, s, t, from) matches Ok(r) ==> same_items(floats, t, s, from) == Ok::<
            bool,
            ErrorView,
        >(r),
    decreases s, s.len() - from,
{
    if from < s.len() {
        lemma_same_is_symmetric(floats, s[from as int], t[from as int]);
        lemma_same_items_is_symmetric(floats, s, t, from + 1);
    }
}

} // verus!
