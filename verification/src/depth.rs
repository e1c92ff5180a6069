//! How deep a tree is, and that the evaluator's limit leaves shallow trees alone.

use vstd::prelude::*;

use crate::configuration::Configuration;
use crate::error::ErrorView;
use crate::eval::{value_of, values_of, MAX_DEPTH};
use crate::float::FloatModel;
use crate::operator::LOWEST_PRECEDENCE;
use crate::token::TokenView;
use crate::tree::{
    continued_sequence, expression, extended, grouped, lemma_sequence_moves_on, prefixed, primary, sequence,
    tree_of, within, NodeView,
};

verus! {

/// The larger of two numbers.
pub open spec fn larger(a: nat, b: nat) -> nat {
    if a >= b {
        a
    } else {
        b
    }
}

/// The number of nodes on the longest path from the root of a tree to a leaf.
pub open spec fn depth(node: NodeView) -> nat
    decreases node, 0nat,
{
    match node {
        NodeView::Literal(_) | NodeView::Variable(_) => 1,
        NodeView::Unary(_, operand) => 1 + depth(*operand),
        NodeView::Binary(_, left, right) => 1 + larger(depth(*left), depth(*right)),
        NodeView::Call(_, arguments) => 1 + deepest(arguments, 0),
        NodeView::Tuple(items) => 1 + deepest(items, 0),
    }
}

/// The depth of the deepest of the trees from `from` on.
pub open spec fn deepest(nodes: Seq<NodeView>, from: nat) -> nat
    decreases nodes, nodes.len() - from,
{
    if from >= nodes.len() {
        0
    } else {
        larger(depth(nodes[from as int]), deepest(nodes, from + 1))
    }
}

/// A tree that is no deeper than the evaluator descends has the value that
/// it would have if the evaluator descended further: the limit changes
/// nothing of what it lets through.
pub proof fn lemma_depth_suffices<C: Configuration>(
    node: NodeView,
    configuration: &C,
    floats: FloatModel,
    limit: nat,
    further: nat,
)
    requires
        depth(node) <= limit <= further,
    ensures
        value_of(node, configuration, floats, limit) == value_of(node, configuration, floats, further),
    decreases limit, 0nat,
{
    let below = (limit - 1) as nat;
    let beyond = (further - 1) as nat;
    match node {
        NodeView::Literal(_) | NodeView::Variable(_) => {},
        NodeView::Unary(_, operand) => {
            lemma_depth_suffices(*operand, configuration, floats, below, beyond);
        },
        NodeView::Binary(_, left, right) => {
            lemma_depth_suffices(*left, configuration, floats, below, beyond);
            lemma_depth_suffices(*right, configuration, floats, below, beyond);
        },
        NodeView::Call(_, arguments) => {
            lemma_depth_suffices_for_all(arguments, configuration, floats, below, beyond, 0);
        },
        NodeView::Tuple(items) => {
            lemma_depth_suffices_for_all(items, configuration, floats, below, beyond, 0);
        },
    }
}

/// The same of a sequence of trees.
pub proof fn lemma_depth_suffices_for_all<C: Configuration>(
    nodes: Seq<NodeView>,
    configuration: &C,
    floats: FloatModel,
    limit: nat,
    further: nat,
    from: nat,
)
    requires
        deepest(nodes, from) <= limit <= further,
    ensures
        values_of(nodes, configuration, floats, limit, from) == values_of(
            nodes,
            configuration,
            floats,
            further,
            from,
        ),
    decreases limit, nodes.len() - from + 1,
{
    if from < nodes.len() {
        lemma_depth_suffices(nodes[from as int], configuration, floats, limit, further);
        lemma_depth_suffices_for_all(nodes, configuration, floats, limit, further, from + 1);
    }
}

/// With one more tree behind them, the deepest of some trees is as deep
/// as the deepest before or as the new one, whichever is deeper.
pub proof fn lemma_deepest_with_one_more(nodes: Seq<NodeView>, node: NodeView, from: nat)
    requires
        from <= nodes.len(),
    ensures
        deepest(nodes.push(node), from) == larger(deepest(nodes, from), depth(node)),
    decreases nodes.len() - from,
{
    if from < nodes.len() {
        lemma_deepest_with_one_more(nodes, node, from + 1);
        assert(nodes.push(node)[from as int] == nodes[from as int]);
    } else {
        assert(nodes.push(node)[from as int] == node);
        assert(deepest(nodes.push(node), from + 1) == 0);
    }
}

/// Whether the tree that was read from `start` on is no deeper than its tokens are many.
pub open spec fn shallow(read: Result<(NodeView, int), ErrorView>, start: int) -> bool {
    read matches Ok((node, end)) ==> depth(node) <= end - start
}

/// Whether the trees that were read from `start` on, with the commas
/// between them, are no deeper than the tokens are many.
pub open spec fn all_shallow(read: Result<(Seq<NodeView>, int), ErrorView>, start: int) -> bool {
    read matches Ok((items, end)) ==> items.len() >= 1 && deepest(items, 0) + items.len() - 1 <= end - start
}

/// Trees with parentheses around them make a tree that is no deeper than all their tokens are many.
proof fn lemma_grouped_is_shallow(items: Seq<NodeView>, tokens: int)
    requires
        items.len() >= 1,
        deepest(items, 0) + items.len() - 1 <= tokens,
    ensures
        depth(grouped(items)) <= tokens + 1,
        items.len() >= 2 ==> depth(grouped(items)) <= tokens,
        items.len() == 1 ==> depth(grouped(items)) <= tokens,
{
    if items.len() == 1 {
        assert(deepest(items, 1) == 0);
    }
}

/// An operand is no deeper than its tokens are many.
pub proof fn lemma_primary_is_shallow(ts: Seq<TokenView>, pos: int)
    requires
        0 <= pos,
    ensures
        shallow(primary(ts, pos), pos),
    decreases ts.len() - pos, 1nat,
{
    if within(ts, pos) {
        match ts[pos] {
            TokenView::Identifier(name) => {
                if within(ts, pos + 1) && ts[pos + 1] is LeftParenthesis {
                    if within(ts, pos + 2) && ts[pos + 2] is RightParenthesis {
                        assert(deepest(Seq::<NodeView>::empty(), 0) == 0);
                    } else {
                        lemma_sequence_is_shallow(ts, pos + 2);
                    }
                }
            },
            TokenView::LeftParenthesis => {
                if !(within(ts, pos + 1) && ts[pos + 1] is RightParenthesis) {
                    lemma_sequence_is_shallow(ts, pos + 1);
                    if let Ok((items, end)) = sequence(ts, pos + 1) {
                        lemma_grouped_is_shallow(items, end - (pos + 1));
                    }
                }
            },
            _ => {},
        }
    }
}

/// So is an operand with prefix operators.
pub proof fn lemma_prefixed_is_shallow(ts: Seq<TokenView>, pos: int)
    requires
        0 <= pos,
    ensures
        shallow(prefixed(ts, pos), pos),
    decreases ts.len() - pos, 2nat,
{
    if within(ts, pos) && ts[pos] is Unary {
        lemma_prefixed_is_shallow(ts, pos + 1);
    } else {
        lemma_primary_is_shallow(ts, pos);
    }
}

/// So is an expression.
pub proof fn lemma_expression_is_shallow(ts: Seq<TokenView>, pos: int, least: u8)
    requires
        0 <= pos,
    ensures
        shallow(expression(ts, pos, least), pos),
    decreases ts.len() - pos, 3nat,
{
    lemma_prefixed_is_shallow(ts, pos);
    if let Ok((left, end)) = prefixed(ts, pos) {
        if pos < end <= ts.len() {
            lemma_extended_is_shallow(ts, left, pos, end, least);
        }
    }
}

/// So is what an expression that began at `start` grows into.
pub proof fn lemma_extended_is_shallow(ts: Seq<TokenView>, left: NodeView, start: int, pos: int, least: u8)
    requires
        0 <= start <= pos <= ts.len(),
        depth(left) <= pos - start,
    ensures
        shallow(extended(ts, left, pos, least), start),
    decreases ts.len() - pos, 0nat,
{
    if within(ts, pos) && ts[pos] is Binary && ts[pos]->Binary_0.precedence() >= least {
        let op = ts[pos]->Binary_0;
        lemma_expression_is_shallow(ts, pos + 1, op.right_operand_precedence());
        if let Ok((right, end)) = expression(ts, pos + 1, op.right_operand_precedence()) {
            if pos < end <= ts.len() {
                lemma_extended_is_shallow(
                    ts,
                    NodeView::Binary(op, Box::new(left), Box::new(right)),
                    start,
                    end,
                    least,
                );
            }
        }
    }
}

/// The trees of a sequence are no deeper than the tokens of the sequence are many.
pub proof fn lemma_sequence_is_shallow(ts: Seq<TokenView>, pos: int)
    requires
        0 <= pos,
    ensures
        all_shallow(sequence(ts, pos), pos),
    decreases ts.len() - pos, 4nat,
{
    lemma_expression_is_shallow(ts, pos, LOWEST_PRECEDENCE);
    if let Ok((first, end)) = expression(ts, pos, LOWEST_PRECEDENCE) {
        assert(deepest(seq![first], 1) == 0);
        assert(deepest(seq![first], 0) == depth(first));
        if pos < end <= ts.len() {
            lemma_continued_sequence_is_shallow(ts, seq![first], pos, end);
        }
    }
}

/// So are those of what a sequence that began at `start` grows into.
pub proof fn lemma_continued_sequence_is_shallow(
    ts: Seq<TokenView>,
    items: Seq<NodeView>,
    start: int,
    pos: int,
)
    requires
        0 <= start <= pos <= ts.len(),
        items.len() >= 1,
        deepest(items, 0) + items.len() - 1 <= pos - start,
    ensures
        all_shallow(continued_sequence(ts, items, pos), start),
    decreases ts.len() - pos, 0nat,
{
    if within(ts, pos) && ts[pos] is Comma {
        lemma_expression_is_shallow(ts, pos + 1, LOWEST_PRECEDENCE);
        if let Ok((item, end)) = expression(ts, pos + 1, LOWEST_PRECEDENCE) {
            lemma_deepest_with_one_more(items, item, 0);
            if pos < end <= ts.len() {
                lemma_continued_sequence_is_shallow(ts, items.push(item), start, end);
            }
        }
    }
}

/// The tree of some tokens is no deeper than the tokens are many.
pub proof fn lemma_built_tree_is_shallow(ts: Seq<TokenView>)
    ensures
        tree_of(ts) matches Ok(node) ==> depth(node) <= ts.len(),
{
    if ts.len() > 0 {
        lemma_sequence_is_shallow(ts, 0);
        lemma_sequence_moves_on(ts, 0);
        if let Ok((items, end)) = sequence(ts, 0) {
            lemma_grouped_is_shallow(items, end);
        }
    }
}

/// An expression of no more tokens than the evaluator descends nodes is
/// never too deep for it: the tree of the tokens has the value that it
/// would have without the limit, however far beyond it one looks.
pub proof fn lemma_short_expressions_are_not_too_deep<C: Configuration>(
    ts: Seq<TokenView>,
    configuration: &C,
    floats: FloatModel,
    further: nat,
)
    requires
        ts.len() <= MAX_DEPTH,
        MAX_DEPTH <= further,
    ensures
        tree_of(ts) matches Ok(node) ==> value_of(node, configuration, floats, MAX_DEPTH as nat) == value_of(
            node,
            configuration,
            floats,
            further,
        ),
{
    lemma_built_tree_is_shallow(ts);
    if let Ok(node) = tree_of(ts) {
        lemma_depth_suffices(node, configuration, floats, MAX_DEPTH as nat, further);
    }
}

} // verus!
