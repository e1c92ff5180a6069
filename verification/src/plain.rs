//! Expressions without numbers with a fraction: their values do not depend on the host.

use vstd::prelude::*;

use crate::compute::{binary_outcome, order_of, order_of_items, same, same_items, unary_outcome};
use crate::configuration::{Configuration, EmptyConfiguration};
use crate::error::ErrorView;
use crate::eval::{value_of, values_of};
use crate::interface::value_of_text;
use crate::float::FloatModel;
use crate::operator::{BinaryOp, UnaryOp, LOWEST_PRECEDENCE};
use crate::token::{is_space, next_token, scan, tokens_of, TokenView};
use crate::tree::{
    continued_sequence, expression, extended, prefixed, primary, sequence, tree_of, within, NodeView,
};
use crate::value::ValueView;

verus! {

/// Whether a value holds no number with a fraction, itself or in its items.
pub open spec fn plain(value: ValueView) -> bool
    decreases value, 0nat,
{
    match value {
        ValueView::Float(_) => false,
        ValueView::Tuple(items) => all_plain(items, 0),
        _ => true,
    }
}

/// Whether the values from `from` on are all plain.
pub open spec fn all_plain(values: Seq<ValueView>, from: nat) -> bool
    decreases values, values.len() - from,
{
    from >= values.len() || (plain(values[from as int]) && all_plain(values, from + 1))
}

/// Whether an outcome, if it is a value, is a plain one.
pub open spec fn plain_outcome(outcome: Result<ValueView, ErrorView>) -> bool {
    outcome matches Ok(value) ==> plain(value)
}

/// Whether a tree holds no literal with a fraction.
pub open spec fn plain_tree(node: NodeView) -> bool
    decreases node, 0nat,
{
    match node {
        NodeView::Literal(value) => plain(value),
        NodeView::Variable(_) => true,
        NodeView::Call(_, arguments) => all_plain_trees(arguments, 0),
        NodeView::Unary(_, operand) => plain_tree(*operand),
        NodeView::Binary(_, left, right) => plain_tree(*left) && plain_tree(*right),
        NodeView::Tuple(items) => all_plain_trees(items, 0),
    }
}

/// Whether the trees from `from` on are all plain.
pub open spec fn all_plain_trees(nodes: Seq<NodeView>, from: nat) -> bool
    decreases nodes, nodes.len() - from,
{
    from >= nodes.len() || (plain_tree(nodes[from as int]) && all_plain_trees(nodes, from + 1))
}

/// Whether a configuration binds its variables to plain values, and its
/// functions make plain values of plain arguments.
pub open spec fn plain_configuration<C: Configuration>(configuration: &C) -> bool {
    &&& forall|name: Seq<char>| (#[trigger] configuration.variable(name)) matches Some(value) ==> plain(value)
    &&& forall|name: Seq<char>, arguments: ValueView|
        plain(arguments) ==> plain_outcome(#[trigger] configuration.function_outcome(name, arguments))
}

/// The configuration that binds nothing is plain.
pub proof fn lemma_empty_configuration_is_plain()
    ensures
        plain_configuration(&EmptyConfiguration),
{
}

/// Values are all plain if and only if each is.
pub proof fn lemma_all_plain(values: Seq<ValueView>, from: nat)
    ensures
        all_plain(values, from) <==> forall|i: int| from <= i < values.len() ==> plain(#[trigger] values[i]),
    decreases values.len() - from,
{
    if from < values.len() {
        lemma_all_plain(values, from + 1);
        if all_plain(values, from) {
            assert forall|i: int| from <= i < values.len() implies plain(#[trigger] values[i]) by {
                if i > from {
                    assert(from + 1 <= i);
                }
            }
        }
    }
}

/// The order of two plain values does not depend on the host's arithmetic.
pub proof fn lemma_order_of_plain(first: FloatModel, second: FloatModel, a: ValueView, b: ValueView)
    requires
        plain(a),
        plain(b),
    ensures
        order_of(first, a, b) == order_of(second, a, b),
    decreases a, 0nat,
{
    match (a, b) {
        (ValueView::Tuple(s), ValueView::Tuple(t)) => {
            if s.len() == t.len() {
                lemma_order_of_plain_items(first, second, s, t, 0);
            }
        },
        _ => {},
    }
}

/// The same of two sequences of one length.
pub proof fn lemma_order_of_plain_items(
    first: FloatModel,
    second: FloatModel,
    s: Seq<ValueView>,
    t: Seq<ValueView>,
    from: nat,
)
    requires
        s.len() == t.len(),
        all_plain(s, from),
        all_plain(t, from),
    ensures
        order_of_items(first, s, t, from) == order_of_items(second, s, t, from),
    decreases s, s.len() - from,
{
    if from < s.len() {
        lemma_order_of_plain(first, second, s[from as int], t[from as int]);
        lemma_order_of_plain_items(first, second, s, t, from + 1);
    }
}

/// Whether two plain values are equal does not depend on the host's arithmetic.
pub proof fn lemma_same_of_plain(first: FloatModel, second: FloatModel, a: ValueView, b: ValueView)
    requires
        plain(a),
        plain(b),
    ensures
        same(first, a, b) == same(second, a, b),
    decreases a, 0nat,
{
    match (a, b) {
        (ValueView::Tuple(s), ValueView::Tuple(t)) => {
            if s.len() == t.len() {
                lemma_same_of_plain_items(first, second, s, t, 0);
            }
        },
        _ => {
            lemma_order_of_plain(first, second, a, b);
        },
    }
}

/// The same of two sequences of one length.
pub proof fn lemma_same_of_plain_items(
    first: FloatModel,
    second: FloatModel,
    s: Seq<ValueView>,
    t: Seq<ValueView>,
    from: nat,
)
    requires
        s.len() == t.len(),
        all_plain(s, from),
        all_plain(t, from),
    ensures
        same_items(first, s, t, from) == same_items(second, s, t, from),
    decreases s, s.len() - from,
{
    if from < s.len() {
        lemma_same_of_plain(first, second, s[from as int], t[from as int]);
        lemma_same_of_plain_items(first, second, s, t, from + 1);
    }
}

/// What an operator makes of two plain values does not depend on the
/// host's arithmetic, and is plain again.
pub proof fn lemma_binary_of_plain(
    first: FloatModel,
    second: FloatModel,
    op: BinaryOp,
    a: ValueView,
    b: ValueView,
)
    requires
        plain(a),
        plain(b),
    ensures
        binary_outcome(first, op, a, b) == binary_outcome(second, op, a, b),
        plain_outcome(binary_outcome(first, op, a, b)),
{
    lemma_order_of_plain(first, second, a, b);
    lemma_same_of_plain(first, second, a, b);
}

/// What a prefix operator makes of a plain value is plain again.
pub proof fn lemma_unary_of_plain(op: UnaryOp, a: ValueView)
    requires
        plain(a),
    ensures
        plain_outcome(unary_outcome(op, a)),
{
}

/// The value of a plain tree under a plain configuration does not depend
/// on the host's arithmetic, and is plain again.
pub proof fn lemma_value_of_plain<C: Configuration>(
    node: NodeView,
    configuration: &C,
    first: FloatModel,
    second: FloatModel,
    depth: nat,
)
    requires
        plain_tree(node),
        plain_configuration(configuration),
    ensures
        value_of(node, configuration, first, depth) == value_of(node, configuration, second, depth),
        plain_outcome(value_of(node, configuration, first, depth)),
    decreases depth, 0nat,
{
    if depth > 0 {
        let below = (depth - 1) as nat;
        match node {
            NodeView::Literal(_) => {},
            NodeView::Variable(_) => {},
            NodeView::Call(_, arguments) => {
                lemma_values_of_plain(arguments, configuration, first, second, below, 0);
            },
            NodeView::Unary(op, operand) => {
                lemma_value_of_plain(*operand, configuration, first, second, below);
                if let Ok(value) = value_of(*operand, configuration, first, below) {
                    lemma_unary_of_plain(op, value);
                }
            },
            NodeView::Binary(op, left, right) => {
                lemma_value_of_plain(*left, configuration, first, second, below);
                lemma_value_of_plain(*right, configuration, first, second, below);
                if let Ok(a) = value_of(*left, configuration, first, below) {
                    if let Ok(b) = value_of(*right, configuration, first, below) {
                        lemma_binary_of_plain(first, second, op, a, b);
                    }
                }
            },
            NodeView::Tuple(items) => {
                lemma_values_of_plain(items, configuration, first, second, below, 0);
            },
        }
    }
}

/// The same of a sequence of trees.
pub proof fn lemma_values_of_plain<C: Configuration>(
    nodes: Seq<NodeView>,
    configuration: &C,
    first: FloatModel,
    second: FloatModel,
    depth: nat,
    from: nat,
)
    requires
        all_plain_trees(nodes, from),
        plain_configuration(configuration),
    ensures
        values_of(nodes, configuration, first, depth, from) == values_of(
            nodes,
            configuration,
            second,
            depth,
            from,
        ),
        values_of(nodes, configuration, first, depth, from) matches Ok(values) ==> all_plain(values, 0),
    decreases depth, nodes.len() - from + 1,
{
    if from < nodes.len() {
        lemma_value_of_plain(nodes[from as int], configuration, first, second, depth);
        lemma_values_of_plain(nodes, configuration, first, second, depth, from + 1);
        if let Ok(value) = value_of(nodes[from as int], configuration, first, depth) {
            if let Ok(others) = values_of(nodes, configuration, first, depth, from + 1) {
                let values = seq![value] + others;
                lemma_all_plain(others, 0);
                lemma_all_plain(values, 0);
                assert forall|i: int| 0 <= i < values.len() implies plain(#[trigger] values[i]) by {
                    if i > 0 {
                        assert(values[i] == others[i - 1]);
                    }
                }
            }
        }
    } else {
        assert(all_plain(Seq::<ValueView>::empty(), 0));
    }
}

/// Whether none of the tokens is a number with a fraction.
pub open spec fn no_fraction(ts: Seq<TokenView>) -> bool {
    forall|i: int| 0 <= i < ts.len() ==> !(#[trigger] ts[i] is Float)
}

/// A token that is no number with a fraction does not depend on the host's
/// arithmetic, and where a token ends never does.
pub proof fn lemma_next_token_needs_no_host(
    first: FloatModel,
    second: FloatModel,
    s: Seq<char>,
    pos: int,
    after_operand: bool,
)
    requires
        0 <= pos < s.len(),
    ensures
        match next_token(first, s, pos, after_operand) {
            Err(e) => next_token(second, s, pos, after_operand) == Err::<(TokenView, int), ErrorView>(e),
            Ok((token, end)) => {
                &&& next_token(second, s, pos, after_operand) matches Ok((other, there))
                &&& there == end
                &&& other is Float <==> token is Float
                &&& !(token is Float) ==> other == token
            },
        },
{
}

/// Tokens among which there is no number with a fraction do not depend on
/// the host's arithmetic, and neither does an error of the lexer.
pub proof fn lemma_scan_needs_no_host(
    first: FloatModel,
    second: FloatModel,
    s: Seq<char>,
    pos: int,
    after_operand: bool,
)
    ensures
        match scan(first, s, pos, after_operand) {
            Err(e) => scan(second, s, pos, after_operand) == Err::<Seq<TokenView>, ErrorView>(e),
            Ok(ts) => no_fraction(ts) ==> scan(second, s, pos, after_operand) == Ok::<
                Seq<TokenView>,
                ErrorView,
            >(ts),
        },
    decreases s.len() - pos,
{
    if 0 <= pos < s.len() {
        if is_space(s[pos]) {
            lemma_scan_needs_no_host(first, second, s, pos + 1, after_operand);
        } else {
            lemma_next_token_needs_no_host(first, second, s, pos, after_operand);
            if let Ok((token, end)) = next_token(first, s, pos, after_operand) {
                if pos < end <= s.len() {
                    lemma_scan_needs_no_host(first, second, s, end, token.ends_operand());
                    if let Ok(others) = scan(first, s, end, token.ends_operand()) {
                        let ts = seq![token] + others;
                        if no_fraction(ts) {
                            assert(ts[0] == token);
                            assert forall|i: int| 0 <= i < others.len() implies !(#[trigger] others[i] is Float) by {
                                assert(ts[i + 1] == others[i]);
                            }
                        }
                    }
                } else {
                    if no_fraction(seq![token]) {
                        assert(seq![token][0] == token);
                    }
                }
            }
        }
    }
}

/// Trees are all plain if and only if each is.
pub proof fn lemma_all_plain_trees(nodes: Seq<NodeView>, from: nat)
    ensures
        all_plain_trees(nodes, from) <==> forall|i: int|
            from <= i < nodes.len() ==> plain_tree(#[trigger] nodes[i]),
    decreases nodes.len() - from,
{
    if from < nodes.len() {
        lemma_all_plain_trees(nodes, from + 1);
        if all_plain_trees(nodes, from) {
            assert forall|i: int| from <= i < nodes.len() implies plain_tree(#[trigger] nodes[i]) by {
                if i > from {
                    assert(from + 1 <= i);
                }
            }
        }
    }
}

/// Whether what was read is a plain tree.
pub open spec fn reads_plain(read: Result<(NodeView, int), ErrorView>) -> bool {
    read matches Ok((node, _)) ==> plain_tree(node)
}

/// Whether what was read are plain trees.
pub open spec fn reads_all_plain(read: Result<(Seq<NodeView>, int), ErrorView>) -> bool {
    read matches Ok((nodes, _)) ==> all_plain_trees(nodes, 0)
}

/// An operand read from tokens without a number with a fraction is a plain tree.
pub proof fn lemma_primary_reads_plain(ts: Seq<TokenView>, pos: int)
    requires
        no_fraction(ts),
        0 <= pos,
    ensures
        reads_plain(primary(ts, pos)),
    decreases ts.len() - pos, 1nat,
{
    if within(ts, pos) {
        match ts[pos] {
            TokenView::Identifier(name) => {
                if within(ts, pos + 1) && ts[pos + 1] is LeftParenthesis {
                    if within(ts, pos + 2) && ts[pos + 2] is RightParenthesis {
                        assert(all_plain_trees(Seq::<NodeView>::empty(), 0));
                        assert(plain_tree(NodeView::Call(name, Seq::empty())));
                    } else {
                        lemma_sequence_reads_plain(ts, pos + 2);
                        if let Ok((arguments, _)) = sequence(ts, pos + 2) {
                            assert(plain_tree(NodeView::Call(name, arguments)));
                        }
                    }
                } else {
                    assert(plain_tree(NodeView::Variable(name)));
                }
            },
            TokenView::LeftParenthesis => {
                if within(ts, pos + 1) && ts[pos + 1] is RightParenthesis {
                    assert(plain_tree(NodeView::Literal(ValueView::Empty)));
                } else {
                    lemma_sequence_reads_plain(ts, pos + 1);
                    if let Ok((items, _)) = sequence(ts, pos + 1) {
                        if items.len() == 1 {
                            assert(plain_tree(items[0]));
                        } else {
                            assert(plain_tree(NodeView::Tuple(items)));
                        }
                    }
                }
            },
            TokenView::Int(i) => {
                assert(plain_tree(NodeView::Literal(ValueView::Int(i))));
            },
            TokenView::Boolean(b) => {
                assert(plain_tree(NodeView::Literal(ValueView::Boolean(b))));
            },
            TokenView::String(text) => {
                assert(plain_tree(NodeView::Literal(ValueView::String(text))));
            },
            _ => {},
        }
    }
}

/// So is an operand with prefix operators.
pub proof fn lemma_prefixed_reads_plain(ts: Seq<TokenView>, pos: int)
    requires
        no_fraction(ts),
        0 <= pos,
    ensures
        reads_plain(prefixed(ts, pos)),
    decreases ts.len() - pos, 2nat,
{
    if within(ts, pos) && ts[pos] is Unary {
        lemma_prefixed_reads_plain(ts, pos + 1);
    } else {
        lemma_primary_reads_plain(ts, pos);
    }
}

/// So is an expression.
pub proof fn lemma_expression_reads_plain(ts: Seq<TokenView>, pos: int, least: u8)
    requires
        no_fraction(ts),
        0 <= pos,
    ensures
        reads_plain(expression(ts, pos, least)),
    decreases ts.len() - pos, 3nat,
{
    lemma_prefixed_reads_plain(ts, pos);
    if let Ok((left, end)) = prefixed(ts, pos) {
        if pos < end <= ts.len() {
            lemma_extended_reads_plain(ts, left, end, least);
        }
    }
}

/// So is what a plain tree grows into.
pub proof fn lemma_extended_reads_plain(ts: Seq<TokenView>, left: NodeView, pos: int, least: u8)
    requires
        no_fraction(ts),
        0 <= pos <= ts.len(),
        plain_tree(left),
    ensures
        reads_plain(extended(ts, left, pos, least)),
    decreases ts.len() - pos, 0nat,
{
    if within(ts, pos) && ts[pos] is Binary && ts[pos]->Binary_0.precedence() >= least {
        let op = ts[pos]->Binary_0;
        lemma_expression_reads_plain(ts, pos + 1, op.right_operand_precedence());
        if let Ok((right, end)) = expression(ts, pos + 1, op.right_operand_precedence()) {
            if pos < end <= ts.len() {
                lemma_extended_reads_plain(ts, NodeView::Binary(op, Box::new(left), Box::new(right)), end, least);
            }
        }
    }
}

/// A sequence read from such tokens is made of plain trees.
pub proof fn lemma_sequence_reads_plain(ts: Seq<TokenView>, pos: int)
    requires
        no_fraction(ts),
        0 <= pos,
    ensures
        reads_all_plain(sequence(ts, pos)),
    decreases ts.len() - pos, 4nat,
{
    lemma_expression_reads_plain(ts, pos, LOWEST_PRECEDENCE);
    if let Ok((first, end)) = expression(ts, pos, LOWEST_PRECEDENCE) {
        lemma_all_plain_trees(seq![first], 0);
        if pos < end <= ts.len() {
            lemma_continued_sequence_reads_plain(ts, seq![first], end);
        }
    }
}

/// So is what such a sequence grows into.
pub proof fn lemma_continued_sequence_reads_plain(ts: Seq<TokenView>, items: Seq<NodeView>, pos: int)
    requires
        no_fraction(ts),
        0 <= pos <= ts.len(),
        all_plain_trees(items, 0),
    ensures
        reads_all_plain(continued_sequence(ts, items, pos)),
    decreases ts.len() - pos, 0nat,
{
    if within(ts, pos) && ts[pos] is Comma {
        lemma_expression_reads_plain(ts, pos + 1, LOWEST_PRECEDENCE);
        if let Ok((item, end)) = expression(ts, pos + 1, LOWEST_PRECEDENCE) {
            lemma_all_plain_trees(items, 0);
            lemma_all_plain_trees(items.push(item), 0);
            if pos < end <= ts.len() {
                lemma_continued_sequence_reads_plain(ts, items.push(item), end);
            }
        }
    }
}

/// The tree of tokens without a number with a fraction is plain.
pub proof fn lemma_tree_of_plain_tokens(ts: Seq<TokenView>)
    requires
        no_fraction(ts),
    ensures
        tree_of(ts) matches Ok(node) ==> plain_tree(node),
{
    if ts.len() > 0 {
        lemma_sequence_reads_plain(ts, 0);
        if let Ok((items, _)) = sequence(ts, 0) {
            if items.len() == 1 {
                assert(plain_tree(items[0]));
            } else {
                assert(plain_tree(NodeView::Tuple(items)));
            }
        }
    }
}

/// An expression in which no number has a fraction, under a plain
/// configuration, has a value that does not depend on the host's
/// arithmetic: whatever the host answers, the outcome is the same.
pub proof fn lemma_plain_text_needs_no_host<C: Configuration>(
    text: Seq<char>,
    configuration: &C,
    first: FloatModel,
    second: FloatModel,
)
    requires
        plain_configuration(configuration),
        tokens_of(first, text) matches Ok(ts) ==> no_fraction(ts),
    ensures
        value_of_text(text, configuration, first) == value_of_text(text, configuration, second),
{
    lemma_scan_needs_no_host(first, second, text, 0, false);
    if let Ok(ts) = tokens_of(first, text) {
        lemma_tree_of_plain_tokens(ts);
        if let Ok(node) = tree_of(ts) {
            lemma_value_of_plain(node, configuration, first, second, crate::eval::MAX_DEPTH as nat);
        }
    }
}

} // verus!
