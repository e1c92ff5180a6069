//! The builder: from tokens to an operator tree.

use vstd::prelude::*;

use crate::error::{Error, ErrorView};
use crate::operator::{BinaryOp, UnaryOp, LOWEST_PRECEDENCE};
use crate::token::{token_views, Token, TokenView};
use crate::value::{Value, ValueView};

verus! {

/// A node of an operator tree. The number of operands is fixed by the
/// variant: a tree with an operator that lacks an operand cannot be built.
#[derive(Debug, PartialEq)]
pub enum Node {
    /// A value written out in the expression.
    Literal(Value),
    /// The name of a variable.
    Variable(String),
    /// The name of a function and its arguments.
    Call(String, Vec<Node>),
    /// A prefix operator and its operand.
    Unary(UnaryOp, Box<Node>),
    /// An operator and its left and right operands.
    Binary(BinaryOp, Box<Node>, Box<Node>),
    /// The items of a tuple.
    Tuple(Vec<Node>),
}

/// The mathematical content of a [`Node`].
pub enum NodeView {
    Literal(ValueView),
    Variable(Seq<char>),
    Call(Seq<char>, Seq<NodeView>),
    Unary(UnaryOp, Box<NodeView>),
    Binary(BinaryOp, Box<NodeView>, Box<NodeView>),
    Tuple(Seq<NodeView>),
}

impl Node {
    /// The content of this node: that of its operands under its operator.
    pub open spec fn content(&self) -> NodeView
        decreases self,
    {
        match self {
            Node::Literal(value) => NodeView::Literal(value@),
            Node::Variable(name) => NodeView::Variable(name@),
            Node::Call(name, arguments) => NodeView::Call(
                name@,
                Seq::new(
                    arguments@.len(),
                    |i: int|
                        if 0 <= i < arguments@.len() {
                            arguments@[i].content()
                        } else {
                            NodeView::Literal(ValueView::Empty)
                        },
                ),
            ),
            Node::Unary(op, operand) => NodeView::Unary(*op, Box::new(operand.content())),
            Node::Binary(op, left, right) => NodeView::Binary(
                *op,
                Box::new(left.content()),
                Box::new(right.content()),
            ),
            Node::Tuple(items) => NodeView::Tuple(
                Seq::new(
                    items@.len(),
                    |i: int|
                        if 0 <= i < items@.len() {
                            items@[i].content()
                        } else {
                            NodeView::Literal(ValueView::Empty)
                        },
                ),
            ),
        }
    }
}

impl View for Node {
    type V = NodeView;

    open spec fn view(&self) -> NodeView {
        self.content()
    }
}

/// The contents of a sequence of nodes.
pub open spec fn node_views(nodes: Seq<Node>) -> Seq<NodeView> {
    Seq::new(nodes.len(), |i: int| nodes[i]@)
}

/// A tuple holds the contents of its items, in their order.
pub proof fn lemma_tuple_node_view(nodes: Vec<Node>)
    ensures
        Node::Tuple(nodes)@ == NodeView::Tuple(node_views(nodes@)),
{
    reveal_with_fuel(Node::content, 2);
    assert(Node::Tuple(nodes)@->Tuple_0 =~= node_views(nodes@));
}

/// A call holds the contents of its arguments, in their order.
pub proof fn lemma_call_node_view(name: String, nodes: Vec<Node>)
    ensures
        Node::Call(name, nodes)@ == NodeView::Call(name@, node_views(nodes@)),
{
    reveal_with_fuel(Node::content, 2);
    assert(Node::Call(name, nodes)@->Call_1 =~= node_views(nodes@));
}

/// Copies of nodes, in their order.
fn clone_all(nodes: &Vec<Node>) -> (r: Vec<Node>)
    ensures
        node_views(r@) == node_views(nodes@),
    decreases nodes, 1nat,
{
    let mut copies: Vec<Node> = Vec::new();
    let mut i: usize = 0;
    while i < nodes.len()
        invariant
            i <= nodes.len(),
            copies@.len() == i,
            forall|j: int| 0 <= j < i ==> copies@[j]@ == nodes@[j]@,
        decreases nodes.len() - i,
    {
        copies.push(nodes[i].clone());
        i += 1;
    }
    assert(node_views(copies@) =~= node_views(nodes@));
    copies
}

impl Clone for Node {
    fn clone(&self) -> (r: Self)
        ensures
            r@ == self@,
        decreases self, 0nat,
    {
        match self {
            Node::Literal(value) => Node::Literal(value.clone()),
            Node::Variable(name) => Node::Variable(name.clone()),
            Node::Call(name, arguments) => {
                let copies = clone_all(arguments);
                proof {
                    lemma_call_node_view(*name, *arguments);
                    lemma_call_node_view(*name, copies);
                }
                Node::Call(name.clone(), copies)
            },
            Node::Unary(op, operand) => Node::Unary(*op, Box::new((**operand).clone())),
            Node::Binary(op, left, right) => Node::Binary(
                *op,
                Box::new((**left).clone()),
                Box::new((**right).clone()),
            ),
            Node::Tuple(items) => {
                let copies = clone_all(items);
                proof {
                    lemma_tuple_node_view(*items);
                    lemma_tuple_node_view(copies);
                }
                Node::Tuple(copies)
            },
        }
    }
}

/// The content of what the builder returns.
pub open spec fn tree_view(r: Result<Node, Error>) -> Result<NodeView, ErrorView> {
    match r {
        Ok(node) => Ok(node@),
        Err(e) => Err(e@),
    }
}

/// A node and the place behind its last token, or an error.
pub type Parsed = Result<(NodeView, int), ErrorView>;

/// Nodes and the place behind the last token of the last one.
pub type ParsedList = Result<(Seq<NodeView>, int), ErrorView>;

/// What a sequence of expressions between commas stands for: the
/// expression itself where there is one, else the tuple of all.
pub open spec fn grouped(items: Seq<NodeView>) -> NodeView {
    if items.len() == 1 {
        items[0]
    } else {
        NodeView::Tuple(items)
    }
}

/// The closing parenthesis that is due at `pos` behind `node`.
pub open spec fn closed(ts: Seq<TokenView>, pos: int, node: NodeView) -> Parsed {
    if pos < 0 || pos >= ts.len() {
        Err(ErrorView::UnmatchedParenthesis)
    } else if ts[pos] is RightParenthesis {
        Ok((node, pos + 1))
    } else {
        Err(ErrorView::UnexpectedToken)
    }
}

/// Whether `ts` has a token at `pos` and `pos` is a place in it.
pub open spec fn within(ts: Seq<TokenView>, pos: int) -> bool {
    0 <= pos < ts.len()
}

/// An operand at `pos`: a literal, a variable, a call with its arguments
/// in parentheses, or parentheses around a sequence of expressions. Empty
/// parentheses stand for the empty value.
pub open spec fn primary(ts: Seq<TokenView>, pos: int) -> Parsed
    decreases ts.len() - pos, 1nat,
{
    if !within(ts, pos) {
        Err(ErrorView::MissingOperand)
    } else {
        match ts[pos] {
            TokenView::Int(i) => Ok((NodeView::Literal(ValueView::Int(i)), pos + 1)),
            TokenView::Float(f) => Ok((NodeView::Literal(ValueView::Float(f)), pos + 1)),
            TokenView::Boolean(b) => Ok((NodeView::Literal(ValueView::Boolean(b)), pos + 1)),
            TokenView::String(s) => Ok((NodeView::Literal(ValueView::String(s)), pos + 1)),
            TokenView::Identifier(name) => if within(ts, pos + 1) && ts[pos + 1] is LeftParenthesis {
                if within(ts, pos + 2) && ts[pos + 2] is RightParenthesis {
                    Ok((NodeView::Call(name, Seq::empty()), pos + 3))
                } else {
                    match sequence(ts, pos + 2) {
                        Err(e) => Err(e),
                        Ok((arguments, end)) => closed(ts, end, NodeView::Call(name, arguments)),
                    }
                }
            } else {
                Ok((NodeView::Variable(name), pos + 1))
            },
            TokenView::LeftParenthesis => if within(ts, pos + 1) && ts[pos + 1] is RightParenthesis {
                Ok((NodeView::Literal(ValueView::Empty), pos + 2))
            } else {
                match sequence(ts, pos + 1) {
                    Err(e) => Err(e),
                    Ok((items, end)) => closed(ts, end, grouped(items)),
                }
            },
            TokenView::Binary(_) | TokenView::Comma | TokenView::RightParenthesis => Err(
                ErrorView::MissingOperand,
            ),
            TokenView::Unary(_) | TokenView::Assign => Err(ErrorView::UnexpectedToken),
        }
    }
}

/// An operand at `pos` with the prefix operators in front of it. They bind
/// tighter than any operator between operands, and the one nearest to the
/// operand is applied first.
pub open spec fn prefixed(ts: Seq<TokenView>, pos: int) -> Parsed
    decreases ts.len() - pos, 2nat,
{
    if within(ts, pos) && ts[pos] is Unary {
        match prefixed(ts, pos + 1) {
            Err(e) => Err(e),
            Ok((operand, end)) => Ok((NodeView::Unary(ts[pos]->Unary_0, Box::new(operand)), end)),
        }
    } else {
        primary(ts, pos)
    }
}

/// The expression at `pos` made of operators that bind at least as tightly as `least`.
///
/// What is read always ends behind where it began and within the tokens
/// ([`lemma_expression_moves_on`], [`lemma_sequence_moves_on`]); the tests
/// for it here and below are there to show that the reading comes to an end.
pub open spec fn expression(ts: Seq<TokenView>, pos: int, least: u8) -> Parsed
    decreases ts.len() - pos, 3nat,
{
    match prefixed(ts, pos) {
        Err(e) => Err(e),
        Ok((left, end)) => if pos < end <= ts.len() {
            extended(ts, left, end, least)
        } else {
            Ok((left, end))
        },
    }
}

/// The expression that `left`, which ends before `pos`, grows into: as
/// long as an operator that binds at least as tightly as `least` follows,
/// what is there becomes its left operand. Its right operand is made of
/// operators that bind tighter, or as tightly where the operator groups
/// from the right.
pub open spec fn extended(ts: Seq<TokenView>, left: NodeView, pos: int, least: u8) -> Parsed
    decreases ts.len() - pos, 0nat,
{
    if within(ts, pos) && ts[pos] is Binary && ts[pos]->Binary_0.precedence() >= least {
        let op = ts[pos]->Binary_0;
        match expression(ts, pos + 1, op.right_operand_precedence()) {
            Err(e) => Err(e),
            Ok((right, end)) => {
                let node = NodeView::Binary(op, Box::new(left), Box::new(right));
                if pos < end <= ts.len() {
                    extended(ts, node, end, least)
                } else {
                    Ok((node, end))
                }
            },
        }
    } else {
        Ok((left, pos))
    }
}

/// The expressions from `pos` on that commas separate.
pub open spec fn sequence(ts: Seq<TokenView>, pos: int) -> ParsedList
    decreases ts.len() - pos, 4nat,
{
    match expression(ts, pos, LOWEST_PRECEDENCE) {
        Err(e) => Err(e),
        Ok((first, end)) => if pos < end <= ts.len() {
            continued_sequence(ts, seq![first], end)
        } else {
            Ok((seq![first], end))
        },
    }
}

/// The sequence that `items`, which end before `pos`, grow into: as long
/// as a comma follows, the expression behind it is one more item.
pub open spec fn continued_sequence(ts: Seq<TokenView>, items: Seq<NodeView>, pos: int) -> ParsedList
    decreases ts.len() - pos, 0nat,
{
    if within(ts, pos) && ts[pos] is Comma {
        match expression(ts, pos + 1, LOWEST_PRECEDENCE) {
            Err(e) => Err(e),
            Ok((item, end)) => if pos < end <= ts.len() {
                continued_sequence(ts, items.push(item), end)
            } else {
                Ok((items.push(item), end))
            },
        }
    } else {
        Ok((items, pos))
    }
}

/// The tree of a sequence of tokens: the tokens are one sequence of
/// expressions, and nothing is left over.
pub open spec fn tree_of(ts: Seq<TokenView>) -> Result<NodeView, ErrorView> {
    if ts.len() == 0 {
        Err(ErrorView::EmptyExpression)
    } else {
        match sequence(ts, 0) {
            Err(e) => Err(e),
            Ok((items, end)) => if within(ts, end) {
                if ts[end] is RightParenthesis {
                    Err(ErrorView::UnmatchedParenthesis)
                } else {
                    Err(ErrorView::TrailingTokens)
                }
            } else {
                Ok(grouped(items))
            },
        }
    }
}

/// Whether what was read from `pos` on ends behind `pos` and within the tokens.
pub open spec fn moves_on<T>(read: Result<(T, int), ErrorView>, ts: Seq<TokenView>, pos: int) -> bool {
    read matches Ok((_, end)) ==> pos < end <= ts.len()
}

/// An operand ends behind its first token and within the tokens.
pub proof fn lemma_primary_moves_on(ts: Seq<TokenView>, pos: int)
    requires
        0 <= pos,
    ensures
        moves_on(primary(ts, pos), ts, pos),
    decreases ts.len() - pos, 1nat,
{
    if within(ts, pos) {
        match ts[pos] {
            TokenView::Identifier(_) => {
                if within(ts, pos + 1) && ts[pos + 1] is LeftParenthesis && !(within(ts, pos + 2) && ts[pos
                    + 2] is RightParenthesis) {
                    lemma_sequence_moves_on(ts, pos + 2);
                }
            },
            TokenView::LeftParenthesis => {
                if !(within(ts, pos + 1) && ts[pos + 1] is RightParenthesis) {
                    lemma_sequence_moves_on(ts, pos + 1);
                }
            },
            _ => {},
        }
    }
}

/// So does an operand with prefix operators.
pub proof fn lemma_prefixed_moves_on(ts: Seq<TokenView>, pos: int)
    requires
        0 <= pos,
    ensures
        moves_on(prefixed(ts, pos), ts, pos),
    decreases ts.len() - pos, 2nat,
{
    if within(ts, pos) && ts[pos] is Unary {
        lemma_prefixed_moves_on(ts, pos + 1);
    } else {
        lemma_primary_moves_on(ts, pos);
    }
}

/// So does an expression: the test in [`expression`] and [`extended`]
/// that reading has moved on never fails.
pub proof fn lemma_expression_moves_on(ts: Seq<TokenView>, pos: int, least: u8)
    requires
        0 <= pos,
    ensures
        moves_on(expression(ts, pos, least), ts, pos),
    decreases ts.len() - pos, 3nat,
{
    lemma_prefixed_moves_on(ts, pos);
    if let Ok((left, end)) = prefixed(ts, pos) {
        lemma_extended_stays_within(ts, left, end, least);
    }
}

/// What an expression grows into ends no earlier than the expression and within the tokens.
pub proof fn lemma_extended_stays_within(ts: Seq<TokenView>, left: NodeView, pos: int, least: u8)
    requires
        0 <= pos <= ts.len(),
    ensures
        extended(ts, left, pos, least) matches Ok((_, end)) ==> pos <= end <= ts.len(),
    decreases ts.len() - pos, 0nat,
{
    if within(ts, pos) && ts[pos] is Binary && ts[pos]->Binary_0.precedence() >= least {
        let op = ts[pos]->Binary_0;
        lemma_expression_moves_on(ts, pos + 1, op.right_operand_precedence());
        if let Ok((right, end)) = expression(ts, pos + 1, op.right_operand_precedence()) {
            lemma_extended_stays_within(ts, NodeView::Binary(op, Box::new(left), Box::new(right)), end, least);
        }
    }
}

/// A sequence of expressions ends behind its first token and within the
/// tokens: the test in [`sequence`] and [`continued_sequence`] never fails.
pub proof fn lemma_sequence_moves_on(ts: Seq<TokenView>, pos: int)
    requires
        0 <= pos,
    ensures
        moves_on(sequence(ts, pos), ts, pos),
    decreases ts.len() - pos, 4nat,
{
    lemma_expression_moves_on(ts, pos, LOWEST_PRECEDENCE);
    if let Ok((first, end)) = expression(ts, pos, LOWEST_PRECEDENCE) {
        lemma_continued_sequence_stays_within(ts, seq![first], end);
    }
}

/// What a sequence grows into ends no earlier than the sequence and within the tokens.
pub proof fn lemma_continued_sequence_stays_within(ts: Seq<TokenView>, items: Seq<NodeView>, pos: int)
    requires
        0 <= pos <= ts.len(),
    ensures
        continued_sequence(ts, items, pos) matches Ok((_, end)) ==> pos <= end <= ts.len(),
    decreases ts.len() - pos, 0nat,
{
    if within(ts, pos) && ts[pos] is Comma {
        lemma_expression_moves_on(ts, pos + 1, LOWEST_PRECEDENCE);
        if let Ok((item, end)) = expression(ts, pos + 1, LOWEST_PRECEDENCE) {
            lemma_continued_sequence_stays_within(ts, items.push(item), end);
        }
    }
}

/// What the builder returns for one node: the node and the place behind it.
pub open spec fn parsed_view(r: Result<(Node, usize), Error>) -> Parsed {
    match r {
        Ok((node, end)) => Ok((node@, end as int)),
        Err(e) => Err(e@),
    }
}

/// What the builder returns for a sequence of nodes.
pub open spec fn parsed_list_view(r: Result<(Vec<Node>, usize), Error>) -> ParsedList {
    match r {
        Ok((nodes, end)) => Ok((node_views(nodes@), end as int)),
        Err(e) => Err(e@),
    }
}

/// Whether what the builder returns ends behind `pos` and within the tokens.
pub open spec fn advanced<T>(r: Result<(T, usize), Error>, pos: usize, len: usize) -> bool {
    r matches Ok((_, end)) ==> pos < end <= len
}

/// The expression itself where there is one, else the tuple of all.
fn group(mut items: Vec<Node>) -> (r: Node)
    ensures
        r@ == grouped(node_views(items@)),
{
    if items.len() == 1 {
        let only = items.pop();
        match only {
            Some(node) => node,
            None => Node::Tuple(items),
        }
    } else {
        proof {
            lemma_tuple_node_view(items);
        }
        Node::Tuple(items)
    }
}

/// Takes the closing parenthesis that is due at `pos` behind `node`.
fn close(tokens: &Vec<Token>, pos: usize, node: Node) -> (r: Result<(Node, usize), Error>)
    ensures
        parsed_view(r) == closed(token_views(tokens@), pos as int, node@),
        advanced(r, pos, tokens.len()),
{
    if pos >= tokens.len() {
        return Err(Error::UnmatchedParenthesis);
    }
    match &tokens[pos] {
        Token::RightParenthesis => Ok((node, pos + 1)),
        _ => Err(Error::UnexpectedToken),
    }
}

/// Whether the token at `pos` is an opening parenthesis.
fn opens(tokens: &Vec<Token>, pos: usize) -> (r: bool)
    ensures
        r == (within(token_views(tokens@), pos as int) && token_views(tokens@)[pos as int] is LeftParenthesis),
{
    pos < tokens.len() && match &tokens[pos] {
        Token::LeftParenthesis => true,
        _ => false,
    }
}

/// Whether the token at `pos` is a closing parenthesis.
fn closes(tokens: &Vec<Token>, pos: usize) -> (r: bool)
    ensures
        r == (within(token_views(tokens@), pos as int) && token_views(tokens@)[pos as int] is RightParenthesis),
{
    pos < tokens.len() && match &tokens[pos] {
        Token::RightParenthesis => true,
        _ => false,
    }
}

/// Builds the operand at `pos`.
fn build_primary(tokens: &Vec<Token>, pos: usize) -> (r: Result<(Node, usize), Error>)
    ensures
        parsed_view(r) == primary(token_views(tokens@), pos as int),
        advanced(r, pos, tokens.len()),
    decreases tokens.len() - pos, 1nat,
{
    let ghost ts = token_views(tokens@);
    if pos >= tokens.len() {
        return Err(Error::MissingOperand);
    }
    match &tokens[pos] {
        Token::Int(i) => Ok((Node::Literal(Value::Int(*i)), pos + 1)),
        Token::Float(f) => Ok((Node::Literal(Value::Float(*f)), pos + 1)),
        Token::Boolean(b) => Ok((Node::Literal(Value::Boolean(*b)), pos + 1)),
        Token::String(s) => Ok((Node::Literal(Value::String(s.clone())), pos + 1)),
        Token::Identifier(name) => {
            if opens(tokens, pos + 1) {
                if closes(tokens, pos + 2) {
                    let arguments: Vec<Node> = Vec::new();
                    proof {
                        lemma_call_node_view(*name, arguments);
                        assert(node_views(arguments@) =~= Seq::<NodeView>::empty());
                    }
                    Ok((Node::Call(name.clone(), arguments), pos + 3))
                } else {
                    match build_sequence(tokens, pos + 2) {
                        Err(e) => Err(e),
                        Ok((arguments, end)) => {
                            proof {
                                lemma_call_node_view(*name, arguments);
                            }
                            close(tokens, end, Node::Call(name.clone(), arguments))
                        },
                    }
                }
            } else {
                Ok((Node::Variable(name.clone()), pos + 1))
            }
        },
        Token::LeftParenthesis => {
            if closes(tokens, pos + 1) {
                Ok((Node::Literal(Value::Empty), pos + 2))
            } else {
                match build_sequence(tokens, pos + 1) {
                    Err(e) => Err(e),
                    Ok((items, end)) => close(tokens, end, group(items)),
                }
            }
        },
        Token::Binary(_) | Token::Comma | Token::RightParenthesis => Err(Error::MissingOperand),
        Token::Unary(_) | Token::Assign => Err(Error::UnexpectedToken),
    }
}

/// Builds the operand at `pos` with the prefix operators in front of it.
fn build_prefixed(tokens: &Vec<Token>, pos: usize) -> (r: Result<(Node, usize), Error>)
    ensures
        parsed_view(r) == prefixed(token_views(tokens@), pos as int),
        advanced(r, pos, tokens.len()),
    decreases tokens.len() - pos, 2nat,
{
    if pos < tokens.len() {
        if let Token::Unary(op) = &tokens[pos] {
            return match build_prefixed(tokens, pos + 1) {
                Err(e) => Err(e),
                Ok((operand, end)) => Ok((Node::Unary(*op, Box::new(operand)), end)),
            };
        }
    }
    build_primary(tokens, pos)
}

/// Builds the expression at `pos` from operators that bind at least as tightly as `least`.
fn build_expression(tokens: &Vec<Token>, pos: usize, least: u8) -> (r: Result<(Node, usize), Error>)
    ensures
        parsed_view(r) == expression(token_views(tokens@), pos as int, least),
        advanced(r, pos, tokens.len()),
    decreases tokens.len() - pos, 3nat,
{
    let ghost ts = token_views(tokens@);
    let (mut left, mut at) = match build_prefixed(tokens, pos) {
        Err(e) => {
            return Err(e);
        },
        Ok(found) => found,
    };
    while at < tokens.len()
        invariant
            pos < at <= tokens.len(),
            ts == token_views(tokens@),
            expression(ts, pos as int, least) == extended(ts, left@, at as int, least),
        decreases tokens.len() - at,
    {
        let op = match &tokens[at] {
            Token::Binary(op) => *op,
            _ => {
                return Ok((left, at));
            },
        };
        if op.binding() < least {
            return Ok((left, at));
        }
        match build_expression(tokens, at + 1, op.right_binding()) {
            Err(e) => {
                return Err(e);
            },
            Ok((right, end)) => {
                left = Node::Binary(op, Box::new(left), Box::new(right));
                at = end;
            },
        }
    }
    Ok((left, at))
}

/// Builds the expressions from `pos` on that commas separate.
fn build_sequence(tokens: &Vec<Token>, pos: usize) -> (r: Result<(Vec<Node>, usize), Error>)
    ensures
        parsed_list_view(r) == sequence(token_views(tokens@), pos as int),
        advanced(r, pos, tokens.len()),
    decreases tokens.len() - pos, 4nat,
{
    let ghost ts = token_views(tokens@);
    let (first, mut at) = match build_expression(tokens, pos, LOWEST_PRECEDENCE) {
        Err(e) => {
            return Err(e);
        },
        Ok(found) => found,
    };
    let mut items: Vec<Node> = Vec::new();
    items.push(first);
    assert(node_views(items@) =~= seq![first@]);
    while at < tokens.len()
        invariant
            pos < at <= tokens.len(),
            ts == token_views(tokens@),
            sequence(ts, pos as int) == continued_sequence(ts, node_views(items@), at as int),
        decreases tokens.len() - at,
    {
        match &tokens[at] {
            Token::Comma => {},
            _ => {
                return Ok((items, at));
            },
        }
        match build_expression(tokens, at + 1, LOWEST_PRECEDENCE) {
            Err(e) => {
                return Err(e);
            },
            Ok((item, end)) => {
                assert(node_views(items@.push(item)) =~= node_views(items@).push(item@));
                items.push(item);
                at = end;
            },
        }
    }
    Ok((items, at))
}

/// Builds the operator tree of a sequence of tokens.
///
/// Operators group by precedence, from the loosest: `||`, `&&`, `==` and
/// `!=`, the four orderings, `+` and `-`, `*` `/` and `%`, `^`, and the
/// prefix operators. Chains of one precedence group from the left, those of
/// `^` from the right. Commas make a tuple, or the arguments of a call.
/// The tokens have to be exactly one expression or one sequence of them.
pub fn tokens_to_operator_tree(tokens: Vec<Token>) -> (r: Result<Node, Error>)
    ensures
        tree_view(r) == tree_of(token_views(tokens@)),
{
    if tokens.len() == 0 {
        return Err(Error::EmptyExpression);
    }
    match build_sequence(&tokens, 0) {
        Err(e) => Err(e),
        Ok((items, end)) => {
            if end < tokens.len() {
                match &tokens[end] {
                    Token::RightParenthesis => Err(Error::UnmatchedParenthesis),
                    _ => Err(Error::TrailingTokens),
                }
            } else {
                Ok(group(items))
            }
        },
    }
}

} // verus!
