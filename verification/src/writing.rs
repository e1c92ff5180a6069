//! Trees written out as tokens: the builder reads back what was written.

use vstd::prelude::*;

use crate::error::ErrorView;
use crate::operator::LOWEST_PRECEDENCE;
use crate::parts::{lemma_parts_stand, stands_at};
use crate::token::TokenView;
use crate::tree::{
    continued_sequence, expression, extended, grouped, prefixed, primary, sequence, tree_of, within, NodeView,
};
use crate::value::ValueView;

verus! {

/// Whether the builder can give this tree: a literal is no tuple, and a
/// tuple has two items at least.
pub open spec fn writable(node: NodeView) -> bool
    decreases node, 0nat,
{
    match node {
        NodeView::Literal(value) => !(value is Tuple),
        NodeView::Variable(_) => true,
        NodeView::Call(_, arguments) => all_writable(arguments, 0),
        NodeView::Unary(_, operand) => writable(*operand),
        NodeView::Binary(_, left, right) => writable(*left) && writable(*right),
        NodeView::Tuple(items) => items.len() >= 2 && all_writable(items, 0),
    }
}

/// Whether the builder can give each of the trees from `from` on.
pub open spec fn all_writable(nodes: Seq<NodeView>, from: nat) -> bool
    decreases nodes, nodes.len() - from,
{
    from >= nodes.len() || (writable(nodes[from as int]) && all_writable(nodes, from + 1))
}

/// A tree written out in tokens, with parentheses around every operator
/// and its operands.
pub open spec fn written(node: NodeView) -> Seq<TokenView>
    decreases node, 0nat,
{
    match node {
        NodeView::Literal(value) => match value {
            ValueView::Int(i) => seq![TokenView::Int(i)],
            ValueView::Float(f) => seq![TokenView::Float(f)],
            ValueView::Boolean(b) => seq![TokenView::Boolean(b)],
            ValueView::String(s) => seq![TokenView::String(s)],
            _ => seq![TokenView::LeftParenthesis, TokenView::RightParenthesis],
        },
        NodeView::Variable(name) => seq![TokenView::Identifier(name)],
        NodeView::Call(name, arguments) => seq![TokenView::Identifier(name), TokenView::LeftParenthesis]
            + listed(arguments) + seq![TokenView::RightParenthesis],
        NodeView::Unary(op, operand) => seq![TokenView::LeftParenthesis, TokenView::Unary(op)] + written(
            *operand,
        ) + seq![TokenView::RightParenthesis],
        NodeView::Binary(op, left, right) => seq![TokenView::LeftParenthesis] + written(*left)
            + seq![TokenView::Binary(op)] + written(*right) + seq![TokenView::RightParenthesis],
        NodeView::Tuple(items) => seq![TokenView::LeftParenthesis] + listed(items)
            + seq![TokenView::RightParenthesis],
    }
}

/// Trees written out with commas between them.
pub open spec fn listed(nodes: Seq<NodeView>) -> Seq<TokenView>
    decreases nodes, nodes.len() + 1,
{
    if nodes.len() == 0 {
        Seq::empty()
    } else {
        written(nodes[0]) + rest(nodes, 1)
    }
}

/// The trees from `from` on written out, each with a comma in front.
pub open spec fn rest(nodes: Seq<NodeView>, from: nat) -> Seq<TokenView>
    decreases nodes, nodes.len() - from,
{
    if from >= nodes.len() {
        Seq::empty()
    } else {
        seq![TokenView::Comma] + written(nodes[from as int]) + rest(nodes, from + 1)
    }
}

/// Whether an operand that ends before `pos` ends there for good: no
/// opening parenthesis follows, which would make a name a call.
pub open spec fn closes_at(ts: Seq<TokenView>, pos: int) -> bool {
    within(ts, pos) ==> !(ts[pos] is LeftParenthesis)
}

/// Whether an expression that ends before `pos` ends there for good:
/// neither an opening parenthesis follows nor an operator between operands.
pub open spec fn ends_at(ts: Seq<TokenView>, pos: int) -> bool {
    within(ts, pos) ==> !(ts[pos] is Binary) && !(ts[pos] is LeftParenthesis)
}

/// A tree written out begins with a token that begins an operand.
proof fn lemma_written_begins_an_operand(node: NodeView)
    requires
        writable(node),
    ensures
        written(node).len() > 0,
        !(written(node)[0] is Unary),
        !(written(node)[0] is Binary),
        !(written(node)[0] is Comma),
        !(written(node)[0] is RightParenthesis),
{
}

/// A call that is written out in the tokens is read back as it was.
proof fn lemma_call_is_read(ts: Seq<TokenView>, pos: int, node: NodeView)
    requires
        writable(node),
        stands_at(ts, pos, written(node)),
        closes_at(ts, pos + written(node).len()),
        node is Call,
    ensures
        primary(ts, pos) == Ok::<(NodeView, int), ErrorView>((node, pos + written(node).len())),
    decreases node, 0nat,
{
    let text = written(node);
    lemma_written_begins_an_operand(node);
    assert(ts[pos] == text[0]);
    let name = node->Call_0;
    let arguments = node->Call_1;

    let head = seq![TokenView::Identifier(name), TokenView::LeftParenthesis];
    let tail = seq![TokenView::RightParenthesis];
    lemma_parts_stand(ts, pos, head + listed(arguments), tail);
    lemma_parts_stand(ts, pos, head, listed(arguments));
    assert(ts[pos + 1] == head[1]);
    assert(ts[pos + 2 + listed(arguments).len()] == tail[0]);
    if arguments.len() == 0 {
        assert(arguments =~= Seq::<NodeView>::empty());
    } else {
        assert(all_writable(arguments, 0));
        assert(writable(arguments[0]));
        lemma_written_begins_an_operand(arguments[0]);
        assert(ts[pos + 2] == listed(arguments)[0]);
        assert(listed(arguments)[0] == written(arguments[0])[0]);
        lemma_list_is_read(ts, pos + 2, arguments);
    }
}

/// A prefix operator with its operand that is written out in the tokens is read back as it was.
proof fn lemma_unary_is_read(ts: Seq<TokenView>, pos: int, node: NodeView)
    requires
        writable(node),
        stands_at(ts, pos, written(node)),
        closes_at(ts, pos + written(node).len()),
        node is Unary,
    ensures
        primary(ts, pos) == Ok::<(NodeView, int), ErrorView>((node, pos + written(node).len())),
    decreases node, 0nat,
{
    let text = written(node);
    lemma_written_begins_an_operand(node);
    assert(ts[pos] == text[0]);
    let op = node->Unary_0;
    let operand = node->Unary_1;

    let head = seq![TokenView::LeftParenthesis, TokenView::Unary(op)];
    let tail = seq![TokenView::RightParenthesis];
    lemma_parts_stand(ts, pos, head + written(*operand), tail);
    lemma_parts_stand(ts, pos, head, written(*operand));
    assert(ts[pos + 1] == head[1]);
    let close = pos + 2 + written(*operand).len();
    assert(ts[close] == tail[0]);
    lemma_written_begins_an_operand(*operand);
    assert(ts[pos + 2] == written(*operand)[0]);
    lemma_operand_is_read(ts, pos + 2, *operand);
    let inner = NodeView::Unary(op, Box::new(*operand));
    assert(prefixed(ts, pos + 2) == Ok::<(NodeView, int), ErrorView>((*operand, close)));
    assert(prefixed(ts, pos + 1) == Ok::<(NodeView, int), ErrorView>((inner, close)));
    assert(extended(ts, inner, close, LOWEST_PRECEDENCE) == Ok::<(NodeView, int), ErrorView>(
        (inner, close),
    ));
    assert(expression(ts, pos + 1, LOWEST_PRECEDENCE) == Ok::<(NodeView, int), ErrorView>(
        (inner, close),
    ));
    assert(continued_sequence(ts, seq![inner], close) == Ok::<(Seq<NodeView>, int), ErrorView>(
        (seq![inner], close),
    ));
    assert(sequence(ts, pos + 1) == Ok::<(Seq<NodeView>, int), ErrorView>((seq![inner], close)));
    assert(grouped(seq![inner]) == inner);
}

/// An operator with its two operands that is written out in the tokens is read back as it was.
proof fn lemma_binary_is_read(ts: Seq<TokenView>, pos: int, node: NodeView)
    requires
        writable(node),
        stands_at(ts, pos, written(node)),
        closes_at(ts, pos + written(node).len()),
        node is Binary,
    ensures
        primary(ts, pos) == Ok::<(NodeView, int), ErrorView>((node, pos + written(node).len())),
    decreases node, 0nat,
{
    let text = written(node);
    lemma_written_begins_an_operand(node);
    assert(ts[pos] == text[0]);
    let op = node->Binary_0;
    let left = node->Binary_1;
    let right = node->Binary_2;

    let open = seq![TokenView::LeftParenthesis];
    let sign = seq![TokenView::Binary(op)];
    let tail = seq![TokenView::RightParenthesis];
    lemma_parts_stand(ts, pos, open + written(*left) + sign + written(*right), tail);
    lemma_parts_stand(ts, pos, open + written(*left) + sign, written(*right));
    lemma_parts_stand(ts, pos, open + written(*left), sign);
    lemma_parts_stand(ts, pos, open, written(*left));
    let middle = pos + 1 + written(*left).len();
    let close = middle + 1 + written(*right).len();
    assert(ts[middle] == sign[0]);
    assert(ts[close] == tail[0]);
    lemma_written_begins_an_operand(*left);
    lemma_written_begins_an_operand(*right);
    assert(ts[pos + 1] == written(*left)[0]);
    assert(ts[middle + 1] == written(*right)[0]);
    lemma_operand_is_read(ts, pos + 1, *left);
    lemma_expression_is_read(ts, middle + 1, *right, op.right_operand_precedence());
    let inner = NodeView::Binary(op, Box::new(*left), Box::new(*right));
    assert(prefixed(ts, pos + 1) == Ok::<(NodeView, int), ErrorView>((*left, middle)));
    assert(extended(ts, inner, close, LOWEST_PRECEDENCE) == Ok::<(NodeView, int), ErrorView>(
        (inner, close),
    ));
    assert(extended(ts, *left, middle, LOWEST_PRECEDENCE) == Ok::<(NodeView, int), ErrorView>(
        (inner, close),
    ));
    assert(expression(ts, pos + 1, LOWEST_PRECEDENCE) == Ok::<(NodeView, int), ErrorView>(
        (inner, close),
    ));
    assert(continued_sequence(ts, seq![inner], close) == Ok::<(Seq<NodeView>, int), ErrorView>(
        (seq![inner], close),
    ));
    assert(sequence(ts, pos + 1) == Ok::<(Seq<NodeView>, int), ErrorView>((seq![inner], close)));
    assert(grouped(seq![inner]) == inner);
}

/// A tuple that is written out in the tokens is read back as it was.
proof fn lemma_tuple_is_read(ts: Seq<TokenView>, pos: int, node: NodeView)
    requires
        writable(node),
        stands_at(ts, pos, written(node)),
        closes_at(ts, pos + written(node).len()),
        node is Tuple,
    ensures
        primary(ts, pos) == Ok::<(NodeView, int), ErrorView>((node, pos + written(node).len())),
    decreases node, 0nat,
{
    let text = written(node);
    lemma_written_begins_an_operand(node);
    assert(ts[pos] == text[0]);
    let items = node->Tuple_0;

    let open = seq![TokenView::LeftParenthesis];
    let tail = seq![TokenView::RightParenthesis];
    lemma_parts_stand(ts, pos, open + listed(items), tail);
    lemma_parts_stand(ts, pos, open, listed(items));
    assert(ts[pos + 1 + listed(items).len()] == tail[0]);
    assert(all_writable(items, 0));
    assert(writable(items[0]));
    lemma_written_begins_an_operand(items[0]);
    assert(ts[pos + 1] == listed(items)[0]);
    assert(listed(items)[0] == written(items[0])[0]);
    lemma_list_is_read(ts, pos + 1, items);
}

/// An operand that is written out in the tokens is read back as it was.
proof fn lemma_operand_is_read(ts: Seq<TokenView>, pos: int, node: NodeView)
    requires
        writable(node),
        stands_at(ts, pos, written(node)),
        closes_at(ts, pos + written(node).len()),
    ensures
        primary(ts, pos) == Ok::<(NodeView, int), ErrorView>((node, pos + written(node).len())),
    decreases node, 1nat,
{
    let text = written(node);
    lemma_written_begins_an_operand(node);
    assert(ts[pos] == text[0]);
    match node {
        NodeView::Literal(value) => {
            if value is Empty {
                assert(ts[pos + 1] == text[1]);
            }
        },
        NodeView::Variable(_) => {},
        NodeView::Call(_, _) => {
            lemma_call_is_read(ts, pos, node);
        },
        NodeView::Unary(_, _) => {
            lemma_unary_is_read(ts, pos, node);
        },
        NodeView::Binary(_, _, _) => {
            lemma_binary_is_read(ts, pos, node);
        },
        NodeView::Tuple(_) => {
            lemma_tuple_is_read(ts, pos, node);
        },
    }
}

/// An operand that is written out is an expression of any precedence.
proof fn lemma_expression_is_read(ts: Seq<TokenView>, pos: int, node: NodeView, least: u8)
    requires
        writable(node),
        stands_at(ts, pos, written(node)),
        ends_at(ts, pos + written(node).len()),
    ensures
        expression(ts, pos, least) == Ok::<(NodeView, int), ErrorView>((node, pos + written(node).len())),
    decreases node, 2nat,
{
    lemma_written_begins_an_operand(node);
    assert(ts[pos] == written(node)[0]);
    lemma_operand_is_read(ts, pos, node);
    let end = pos + written(node).len();
    assert(prefixed(ts, pos) == primary(ts, pos));
    assert(extended(ts, node, end, least) == Ok::<(NodeView, int), ErrorView>((node, end)));
}

/// Trees that are written out with commas in front and a closing
/// parenthesis behind are read back behind the trees before them.
proof fn lemma_rest_is_read(ts: Seq<TokenView>, pos: int, nodes: Seq<NodeView>, from: nat)
    requires
        1 <= from <= nodes.len(),
        all_writable(nodes, from),
        stands_at(ts, pos, rest(nodes, from)),
        within(ts, pos + rest(nodes, from).len()),
        ts[pos + rest(nodes, from).len()] is RightParenthesis,
    ensures
        continued_sequence(ts, nodes.take(from as int), pos) == Ok::<(Seq<NodeView>, int), ErrorView>(
            (nodes, pos + rest(nodes, from).len()),
        ),
    decreases nodes, nodes.len() - from,
{
    if from >= nodes.len() {
        assert(nodes.take(from as int) =~= nodes);
    } else {
        let node = nodes[from as int];
        let comma = seq![TokenView::Comma];
        let after = rest(nodes, from + 1);
        lemma_parts_stand(ts, pos, comma + written(node), after);
        lemma_parts_stand(ts, pos, comma, written(node));
        assert(ts[pos] == comma[0]);
        let next = pos + 1 + written(node).len();
        if from + 1 < nodes.len() {
            assert(ts[next] == after[0]);
            assert(after[0] == TokenView::Comma);
        }
        lemma_expression_is_read(ts, pos + 1, node, LOWEST_PRECEDENCE);
        assert(nodes.take(from as int).push(node) =~= nodes.take((from + 1) as int));
        lemma_rest_is_read(ts, next, nodes, from + 1);
    }
}

/// Trees that are written out with commas between them and a closing
/// parenthesis behind are read back as they were.
proof fn lemma_list_is_read(ts: Seq<TokenView>, pos: int, nodes: Seq<NodeView>)
    requires
        nodes.len() >= 1,
        all_writable(nodes, 0),
        stands_at(ts, pos, listed(nodes)),
        within(ts, pos + listed(nodes).len()),
        ts[pos + listed(nodes).len()] is RightParenthesis,
    ensures
        sequence(ts, pos) == Ok::<(Seq<NodeView>, int), ErrorView>((nodes, pos + listed(nodes).len())),
    decreases nodes, nodes.len() + 1,
{
    let first = nodes[0];
    let after = rest(nodes, 1);
    lemma_parts_stand(ts, pos, written(first), after);
    let next = pos + written(first).len();
    if 1 < nodes.len() {
        assert(ts[next] == after[0]);
        assert(after[0] == TokenView::Comma);
    }
    lemma_expression_is_read(ts, pos, first, LOWEST_PRECEDENCE);
    assert(seq![first] =~= nodes.take(1));
    lemma_rest_is_read(ts, next, nodes, 1);
}

/// Every tree that the builder can give is the tree of its tokens written
/// out: the builder reads operands, operators, calls and tuples as they
/// are written, and no tree is out of its reach.
pub proof fn lemma_written_tree_is_built(node: NodeView)
    requires
        writable(node),
    ensures
        tree_of(written(node)) == Ok::<NodeView, ErrorView>(node),
{
    let ts = written(node);
    lemma_written_begins_an_operand(node);
    assert(stands_at(ts, 0, ts));
    lemma_expression_is_read(ts, 0, node, LOWEST_PRECEDENCE);
    assert(continued_sequence(ts, seq![node], ts.len() as int) == Ok::<(Seq<NodeView>, int), ErrorView>(
        (seq![node], ts.len() as int),
    ));
    assert(grouped(seq![node]) == node);
}

/// The trees from `from` on are all within the builder's reach if and only if each is.
proof fn lemma_all_writable(nodes: Seq<NodeView>, from: nat)
    ensures
        all_writable(nodes, from) <==> forall|i: int| from <= i < nodes.len() ==> writable(#[trigger] nodes[i]),
    decreases nodes.len() - from,
{
    if from < nodes.len() {
        lemma_all_writable(nodes, from + 1);
        if all_writable(nodes, from) {
            assert forall|i: int| from <= i < nodes.len() implies writable(#[trigger] nodes[i]) by {
                if i > from {
                    assert(from + 1 <= i);
                }
            }
        }
    }
}

/// Whether what was read is a tree that the builder can give.
pub open spec fn reads_writable(read: Result<(NodeView, int), ErrorView>) -> bool {
    read matches Ok((node, _)) ==> writable(node)
}

/// Whether what was read are trees that the builder can give, one at least.
pub open spec fn reads_all_writable(read: Result<(Seq<NodeView>, int), ErrorView>) -> bool {
    read matches Ok((nodes, _)) ==> nodes.len() >= 1 && all_writable(nodes, 0)
}

/// One tree, or two at least, grouped: a tree that the builder can give.
proof fn lemma_grouped_is_writable(items: Seq<NodeView>)
    requires
        items.len() >= 1,
        all_writable(items, 0),
    ensures
        writable(grouped(items)),
{
}

/// An operand that is read is a tree that the builder can give.
proof fn lemma_primary_reads_writable(ts: Seq<TokenView>, pos: int)
    requires
        0 <= pos,
    ensures
        reads_writable(primary(ts, pos)),
    decreases ts.len() - pos, 1nat,
{
    if within(ts, pos) {
        match ts[pos] {
            TokenView::Identifier(name) => {
                if within(ts, pos + 1) && ts[pos + 1] is LeftParenthesis {
                    if within(ts, pos + 2) && ts[pos + 2] is RightParenthesis {
                        assert(all_writable(Seq::<NodeView>::empty(), 0));
                        assert(writable(NodeView::Call(name, Seq::empty())));
                    } else {
                        lemma_sequence_reads_writable(ts, pos + 2);
                        if let Ok((arguments, _)) = sequence(ts, pos + 2) {
                            assert(writable(NodeView::Call(name, arguments)));
                        }
                    }
                } else {
                    assert(writable(NodeView::Variable(name)));
                }
            },
            TokenView::LeftParenthesis => {
                if within(ts, pos + 1) && ts[pos + 1] is RightParenthesis {
                    assert(writable(NodeView::Literal(ValueView::Empty)));
                } else {
                    lemma_sequence_reads_writable(ts, pos + 1);
                    if let Ok((items, _)) = sequence(ts, pos + 1) {
                        lemma_grouped_is_writable(items);
                    }
                }
            },
            TokenView::Int(i) => {
                assert(writable(NodeView::Literal(ValueView::Int(i))));
            },
            TokenView::Float(f) => {
                assert(writable(NodeView::Literal(ValueView::Float(f))));
            },
            TokenView::Boolean(b) => {
                assert(writable(NodeView::Literal(ValueView::Boolean(b))));
            },
            TokenView::String(s) => {
                assert(writable(NodeView::Literal(ValueView::String(s))));
            },
            _ => {},
        }
    }
}

/// So is an operand with prefix operators.
proof fn lemma_prefixed_reads_writable(ts: Seq<TokenView>, pos: int)
    requires
        0 <= pos,
    ensures
        reads_writable(prefixed(ts, pos)),
    decreases ts.len() - pos, 2nat,
{
    if within(ts, pos) && ts[pos] is Unary {
        lemma_prefixed_reads_writable(ts, pos + 1);
    } else {
        lemma_primary_reads_writable(ts, pos);
    }
}

/// So is an expression.
proof fn lemma_expression_reads_writable(ts: Seq<TokenView>, pos: int, least: u8)
    requires
        0 <= pos,
    ensures
        reads_writable(expression(ts, pos, least)),
    decreases ts.len() - pos, 3nat,
{
    lemma_prefixed_reads_writable(ts, pos);
    if let Ok((left, end)) = prefixed(ts, pos) {
        if pos < end <= ts.len() {
            lemma_extended_reads_writable(ts, left, end, least);
        }
    }
}

/// So is what such a tree grows into.
proof fn lemma_extended_reads_writable(ts: Seq<TokenView>, left: NodeView, pos: int, least: u8)
    requires
        0 <= pos <= ts.len(),
        writable(left),
    ensures
        reads_writable(extended(ts, left, pos, least)),
    decreases ts.len() - pos, 0nat,
{
    if within(ts, pos) && ts[pos] is Binary && ts[pos]->Binary_0.precedence() >= least {
        let op = ts[pos]->Binary_0;
        lemma_expression_reads_writable(ts, pos + 1, op.right_operand_precedence());
        if let Ok((right, end)) = expression(ts, pos + 1, op.right_operand_precedence()) {
            if pos < end <= ts.len() {
                lemma_extended_reads_writable(
                    ts,
                    NodeView::Binary(op, Box::new(left), Box::new(right)),
                    end,
                    least,
                );
            }
        }
    }
}

/// A sequence that is read is made of such trees.
proof fn lemma_sequence_reads_writable(ts: Seq<TokenView>, pos: int)
    requires
        0 <= pos,
    ensures
        reads_all_writable(sequence(ts, pos)),
    decreases ts.len() - pos, 4nat,
{
    lemma_expression_reads_writable(ts, pos, LOWEST_PRECEDENCE);
    if let Ok((first, end)) = expression(ts, pos, LOWEST_PRECEDENCE) {
        lemma_all_writable(seq![first], 0);
        if pos < end <= ts.len() {
            lemma_continued_sequence_reads_writable(ts, seq![first], end);
        }
    }
}

/// So is what such a sequence grows into.
proof fn lemma_continued_sequence_reads_writable(ts: Seq<TokenView>, items: Seq<NodeView>, pos: int)
    requires
        0 <= pos <= ts.len(),
        items.len() >= 1,
        all_writable(items, 0),
    ensures
        reads_all_writable(continued_sequence(ts, items, pos)),
    decreases ts.len() - pos, 0nat,
{
    if within(ts, pos) && ts[pos] is Comma {
        lemma_expression_reads_writable(ts, pos + 1, LOWEST_PRECEDENCE);
        if let Ok((item, end)) = expression(ts, pos + 1, LOWEST_PRECEDENCE) {
            lemma_all_writable(items, 0);
            lemma_all_writable(items.push(item), 0);
            if pos < end <= ts.len() {
                lemma_continued_sequence_reads_writable(ts, items.push(item), end);
            }
        }
    }
}

/// Every tree that the builder gives is one that [`writable`] describes:
/// together with [`lemma_written_tree_is_built`], the builder gives these
/// trees and no others.
pub proof fn lemma_built_tree_is_writable(ts: Seq<TokenView>)
    ensures
        tree_of(ts) matches Ok(node) ==> writable(node),
{
    if ts.len() > 0 {
        lemma_sequence_reads_writable(ts, 0);
        if let Ok((items, _)) = sequence(ts, 0) {
            lemma_grouped_is_writable(items);
        }
    }
}

} // verus!
