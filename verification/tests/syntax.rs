use evalexpr::{
    tokenize, tokens_to_operator_tree, ArithmeticOp, BinaryOp, Category, ComparisonOp, Error, Float,
    FloatRequest, LogicOp, Node, Token, UnaryOp, Value,
};

fn number(f: Float) -> f64 {
    f64::from_bits(f.to_bits())
}

fn float(x: f64) -> Float {
    Float::from_bits(x.to_bits())
}

fn ieee(request: FloatRequest) -> Float {
    match request {
        FloatRequest::Literal(text) => float(text.parse::<f64>().unwrap()),
        FloatRequest::FromInt(value) => float(value as f64),
        FloatRequest::Arithmetic(op, left, right) => {
            let (a, b) = (number(left), number(right));
            float(match op {
                ArithmeticOp::Add => a + b,
                ArithmeticOp::Sub => a - b,
                ArithmeticOp::Mul => a * b,
                ArithmeticOp::Div => a / b,
                ArithmeticOp::Mod => a % b,
                ArithmeticOp::Pow => a.powf(b),
            })
        }
    }
}

fn binary(op: ArithmeticOp) -> Token {
    Token::Binary(BinaryOp::Arithmetic(op))
}

fn relation(op: ComparisonOp) -> Token {
    Token::Binary(BinaryOp::Comparison(op))
}

fn word(name: &str) -> Token {
    Token::Identifier(name.to_string())
}

fn whole(value: i64) -> Node {
    Node::Literal(Value::Int(value))
}

fn join(op: ArithmeticOp, left: Node, right: Node) -> Node {
    Node::Binary(BinaryOp::Arithmetic(op), Box::new(left), Box::new(right))
}

fn build(text: &str) -> Result<Node, Error> {
    tokens_to_operator_tree(tokenize(text, &ieee)?)
}

#[test]
fn every_symbol_is_a_token() {
    assert_eq!(
        tokenize("a + b - c * d / e % f ^ g", &ieee),
        Ok(vec![
            word("a"),
            binary(ArithmeticOp::Add),
            word("b"),
            binary(ArithmeticOp::Sub),
            word("c"),
            binary(ArithmeticOp::Mul),
            word("d"),
            binary(ArithmeticOp::Div),
            word("e"),
            binary(ArithmeticOp::Mod),
            word("f"),
            binary(ArithmeticOp::Pow),
            word("g"),
        ])
    );
    assert_eq!(
        tokenize("== != < <= > >= && || ! ( ) , =", &ieee),
        Ok(vec![
            relation(ComparisonOp::Eq),
            relation(ComparisonOp::Neq),
            relation(ComparisonOp::Lt),
            relation(ComparisonOp::Leq),
            relation(ComparisonOp::Gt),
            relation(ComparisonOp::Geq),
            Token::Binary(BinaryOp::Logic(LogicOp::And)),
            Token::Binary(BinaryOp::Logic(LogicOp::Or)),
            Token::Unary(UnaryOp::Not),
            Token::LeftParenthesis,
            Token::RightParenthesis,
            Token::Comma,
            Token::Assign,
        ])
    );
    assert_eq!(
        tokenize("a<=b", &ieee),
        Ok(vec![word("a"), relation(ComparisonOp::Leq), word("b")])
    );
    assert_eq!(tokenize("a=b", &ieee), Ok(vec![word("a"), Token::Assign, word("b")]));
    assert_eq!(tokenize("", &ieee), Ok(vec![]));
    assert_eq!(tokenize(" \t\r\n", &ieee), Ok(vec![]));
}

#[test]
fn signs_are_told_from_operators() {
    assert_eq!(
        tokenize("-1 - -1", &ieee),
        Ok(vec![
            Token::Unary(UnaryOp::Neg),
            Token::Int(1),
            binary(ArithmeticOp::Sub),
            Token::Unary(UnaryOp::Neg),
            Token::Int(1),
        ])
    );
    assert_eq!(
        tokenize("(+a) + +\"s\"", &ieee),
        Ok(vec![
            Token::LeftParenthesis,
            Token::Unary(UnaryOp::Plus),
            word("a"),
            Token::RightParenthesis,
            binary(ArithmeticOp::Add),
            Token::Unary(UnaryOp::Plus),
            Token::String("s".to_string()),
        ])
    );
    assert_eq!(
        tokenize("true - 1.5 - x", &ieee),
        Ok(vec![
            Token::Boolean(true),
            binary(ArithmeticOp::Sub),
            Token::Float(float(1.5)),
            binary(ArithmeticOp::Sub),
            word("x"),
        ])
    );
    assert_eq!(
        tokenize("1, -1", &ieee),
        Ok(vec![Token::Int(1), Token::Comma, Token::Unary(UnaryOp::Neg), Token::Int(1)])
    );
    assert_eq!(
        tokenize("!-x", &ieee),
        Ok(vec![Token::Unary(UnaryOp::Not), Token::Unary(UnaryOp::Neg), word("x")])
    );
}

#[test]
fn words_are_names_or_truth_values() {
    assert_eq!(
        tokenize("true false truer _x x1 True", &ieee),
        Ok(vec![
            Token::Boolean(true),
            Token::Boolean(false),
            word("truer"),
            word("_x"),
            word("x1"),
            word("True"),
        ])
    );
    assert_eq!(tokenize("tru", &ieee), Ok(vec![word("tru")]));
    assert_eq!(tokenize("fals", &ieee), Ok(vec![word("fals")]));
    assert_eq!(tokenize("falsy", &ieee), Ok(vec![word("falsy")]));
}

#[test]
fn numbers_are_integers_or_have_a_fraction() {
    assert_eq!(tokenize("0", &ieee), Ok(vec![Token::Int(0)]));
    assert_eq!(tokenize("007", &ieee), Ok(vec![Token::Int(7)]));
    assert_eq!(tokenize("9223372036854775807", &ieee), Ok(vec![Token::Int(i64::MAX)]));
    assert_eq!(tokenize("1.25", &ieee), Ok(vec![Token::Float(float(1.25))]));
    assert_eq!(tokenize("1.", &ieee), Ok(vec![Token::Float(float(1.0))]));
    assert_eq!(tokenize("1e2", &ieee), Ok(vec![Token::Float(float(100.0))]));
    assert_eq!(tokenize("1E+2", &ieee), Ok(vec![Token::Float(float(100.0))]));
    assert_eq!(tokenize("12.5e-1", &ieee), Ok(vec![Token::Float(float(1.25))]));
    assert_eq!(tokenize("1.e1", &ieee), Ok(vec![Token::Float(float(10.0))]));
    assert_eq!(tokenize("1x", &ieee), Ok(vec![Token::Int(1), word("x")]));
    assert_eq!(
        tokenize("0.1", &ieee),
        Ok(vec![Token::Float(Float::from_bits(0x3fb999999999999a))])
    );
}

#[test]
fn malformed_numbers_are_an_error() {
    assert_eq!(tokenize("1.2.3", &ieee), Err(Error::MalformedNumber { position: 0 }));
    assert_eq!(tokenize("x + 1..2", &ieee), Err(Error::MalformedNumber { position: 4 }));
    assert_eq!(tokenize("1e", &ieee), Err(Error::MalformedNumber { position: 0 }));
    assert_eq!(tokenize("1e+", &ieee), Err(Error::MalformedNumber { position: 0 }));
    assert_eq!(tokenize("1.5e-x", &ieee), Err(Error::MalformedNumber { position: 0 }));
    assert_eq!(tokenize("1e5.5", &ieee), Err(Error::MalformedNumber { position: 0 }));
    assert_eq!(tokenize(" 9223372036854775808", &ieee), Err(Error::MalformedNumber { position: 1 }));
    assert_eq!(
        tokenize("99999999999999999999999999", &ieee),
        Err(Error::MalformedNumber { position: 0 })
    );
    assert_eq!(tokenize("1e", &ieee).unwrap_err().category(), Category::Lexical);
}

#[test]
fn strings_take_escapes() {
    assert_eq!(tokenize("\"\"", &ieee), Ok(vec![Token::String(String::new())]));
    assert_eq!(tokenize("\"a b\"", &ieee), Ok(vec![Token::String("a b".to_string())]));
    assert_eq!(
        tokenize(r#""a\"b\\c\nd\te\rf""#, &ieee),
        Ok(vec![Token::String("a\"b\\c\nd\te\rf".to_string())])
    );
    assert_eq!(tokenize("\"é\" x", &ieee), Ok(vec![Token::String("é".to_string()), word("x")]));
    assert_eq!(tokenize("\"1 + 2\"", &ieee), Ok(vec![Token::String("1 + 2".to_string())]));
}

#[test]
fn malformed_strings_are_an_error() {
    assert_eq!(tokenize("\"abc", &ieee), Err(Error::UnterminatedString { position: 0 }));
    assert_eq!(tokenize("x + \"abc\\", &ieee), Err(Error::UnterminatedString { position: 4 }));
    assert_eq!(tokenize("x + \"abc\\\"", &ieee), Err(Error::UnterminatedString { position: 4 }));
    assert_eq!(tokenize("\"a\\qb\"", &ieee), Err(Error::InvalidEscape { position: 2 }));
    assert_eq!(tokenize("\"", &ieee), Err(Error::UnterminatedString { position: 0 }));
}

#[test]
fn unknown_characters_are_an_error() {
    assert_eq!(tokenize("1 # 2", &ieee), Err(Error::UnknownCharacter { position: 2 }));
    assert_eq!(tokenize("a & b", &ieee), Err(Error::UnknownCharacter { position: 2 }));
    assert_eq!(tokenize("a | b", &ieee), Err(Error::UnknownCharacter { position: 2 }));
    assert_eq!(tokenize("é", &ieee), Err(Error::UnknownCharacter { position: 0 }));
    assert_eq!(tokenize("\"é\" $", &ieee), Err(Error::UnknownCharacter { position: 4 }));
    assert_eq!(tokenize(".5", &ieee), Err(Error::UnknownCharacter { position: 0 }));
    assert_eq!(tokenize("a &", &ieee), Err(Error::UnknownCharacter { position: 2 }));
}

#[test]
fn operators_group_by_precedence() {
    assert_eq!(
        build("1 + 2 * 3"),
        Ok(join(ArithmeticOp::Add, whole(1), join(ArithmeticOp::Mul, whole(2), whole(3))))
    );
    assert_eq!(
        build("1 * 2 + 3"),
        Ok(join(ArithmeticOp::Add, join(ArithmeticOp::Mul, whole(1), whole(2)), whole(3)))
    );
    assert_eq!(
        build("1 - 2 - 3"),
        Ok(join(ArithmeticOp::Sub, join(ArithmeticOp::Sub, whole(1), whole(2)), whole(3)))
    );
    assert_eq!(
        build("1 ^ 2 ^ 3"),
        Ok(join(ArithmeticOp::Pow, whole(1), join(ArithmeticOp::Pow, whole(2), whole(3))))
    );
    assert_eq!(
        build("(1 + 2) * 3"),
        Ok(join(ArithmeticOp::Mul, join(ArithmeticOp::Add, whole(1), whole(2)), whole(3)))
    );
    assert_eq!(
        build("-1 ^ 2"),
        Ok(join(ArithmeticOp::Pow, Node::Unary(UnaryOp::Neg, Box::new(whole(1))), whole(2)))
    );
    assert_eq!(
        build("1 < 2 == true || x"),
        Ok(Node::Binary(
            BinaryOp::Logic(LogicOp::Or),
            Box::new(Node::Binary(
                BinaryOp::Comparison(ComparisonOp::Eq),
                Box::new(Node::Binary(
                    BinaryOp::Comparison(ComparisonOp::Lt),
                    Box::new(whole(1)),
                    Box::new(whole(2))
                )),
                Box::new(Node::Literal(Value::Boolean(true)))
            )),
            Box::new(Node::Variable("x".to_string()))
        ))
    );
}

#[test]
fn commas_make_tuples_and_arguments() {
    assert_eq!(build("1, 2"), Ok(Node::Tuple(vec![whole(1), whole(2)])));
    assert_eq!(build("(1, 2)"), Ok(Node::Tuple(vec![whole(1), whole(2)])));
    assert_eq!(build("((1))"), Ok(whole(1)));
    assert_eq!(build("()"), Ok(Node::Literal(Value::Empty)));
    assert_eq!(build("f()"), Ok(Node::Call("f".to_string(), vec![])));
    assert_eq!(build("f(1)"), Ok(Node::Call("f".to_string(), vec![whole(1)])));
    assert_eq!(build("f(1, 2)"), Ok(Node::Call("f".to_string(), vec![whole(1), whole(2)])));
    assert_eq!(
        build("f((1, 2))"),
        Ok(Node::Call("f".to_string(), vec![Node::Tuple(vec![whole(1), whole(2)])]))
    );
    assert_eq!(
        build("f(g(1), 2) + 3"),
        Ok(join(
            ArithmeticOp::Add,
            Node::Call(
                "f".to_string(),
                vec![Node::Call("g".to_string(), vec![whole(1)]), whole(2)]
            ),
            whole(3)
        ))
    );
    assert_eq!(
        build("1 + 2, 3"),
        Ok(Node::Tuple(vec![join(ArithmeticOp::Add, whole(1), whole(2)), whole(3)]))
    );
    assert_eq!(
        build("f (1)"),
        Ok(Node::Call("f".to_string(), vec![whole(1)]))
    );
}

#[test]
fn malformed_expressions_are_an_error() {
    assert_eq!(build(""), Err(Error::EmptyExpression));
    assert_eq!(build("   "), Err(Error::EmptyExpression));
    assert_eq!(build("1 +"), Err(Error::MissingOperand));
    assert_eq!(build("* 2"), Err(Error::MissingOperand));
    assert_eq!(build("1 + * 2"), Err(Error::MissingOperand));
    assert_eq!(build("(1 + )"), Err(Error::MissingOperand));
    assert_eq!(build("1,"), Err(Error::MissingOperand));
    assert_eq!(build(", 1"), Err(Error::MissingOperand));
    assert_eq!(build("f(1,)"), Err(Error::MissingOperand));
    assert_eq!(build("-"), Err(Error::MissingOperand));
    assert_eq!(build("("), Err(Error::MissingOperand));
    assert_eq!(build("(1"), Err(Error::UnmatchedParenthesis));
    assert_eq!(build("(1 + 2"), Err(Error::UnmatchedParenthesis));
    assert_eq!(build("f(1"), Err(Error::UnmatchedParenthesis));
    assert_eq!(build("1)"), Err(Error::UnmatchedParenthesis));
    assert_eq!(build("(1))"), Err(Error::UnmatchedParenthesis));
    assert_eq!(build("1 2"), Err(Error::TrailingTokens));
    assert_eq!(build("1 x"), Err(Error::TrailingTokens));
    assert_eq!(build("1 !x"), Err(Error::TrailingTokens));
    assert_eq!(build("x = 1"), Err(Error::TrailingTokens));
    assert_eq!(build("(1 2)"), Err(Error::UnexpectedToken));
    assert_eq!(build("(x = 1)"), Err(Error::UnexpectedToken));
    assert_eq!(build("= 1"), Err(Error::UnexpectedToken));
    assert_eq!(build("1 + = 1"), Err(Error::UnexpectedToken));
    assert_eq!(build("1 +").unwrap_err().category(), Category::Syntax);
    assert_eq!(tokens_to_operator_tree(vec![]), Err(Error::EmptyExpression));
    assert_eq!(
        tokens_to_operator_tree(vec![Token::Int(1), Token::Unary(UnaryOp::Neg), Token::Int(1)]),
        Err(Error::TrailingTokens)
    );
    assert_eq!(
        tokens_to_operator_tree(vec![binary(ArithmeticOp::Sub), Token::Int(1)]),
        Err(Error::MissingOperand)
    );
}

#[test]
fn trees_and_values_can_be_copied() {
    let tree = build("f(1, (2, \"a\")) + -x * 2.5").unwrap();
    assert_eq!(tree.clone(), tree);
    let value = Value::Tuple(vec![Value::Int(1), Value::Tuple(vec![Value::String("a".to_string())])]);
    assert_eq!(value.clone(), value);
    let error = Error::UnknownVariable("x".to_string());
    assert_eq!(error.clone(), error);
    assert_eq!(Error::InvalidEscape { position: 3 }.clone(), Error::InvalidEscape { position: 3 });
}
