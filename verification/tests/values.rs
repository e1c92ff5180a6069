use evalexpr::compute::{apply_binary, compare, compare_texts, equal};
use evalexpr::{
    ArithmeticOp, BinaryOp, Category, ComparisonOp, Configuration, EmptyConfiguration, Error, Float,
    FloatRequest, Kind, LogicOp, MapConfiguration, Order, Value,
};

type Function = Box<dyn Fn(Value) -> Result<Value, Error>>;

fn number(f: Float) -> f64 {
    f64::from_bits(f.to_bits())
}

fn float(x: f64) -> Float {
    Float::from_bits(x.to_bits())
}

fn ieee(request: FloatRequest) -> Float {
    match request {
        FloatRequest::Literal(text) => float(text.parse::<f64>().unwrap()),
        FloatRequest::FromInt(value) => float(value as f64),
        FloatRequest::Arithmetic(op, left, right) => {
            let (a, b) = (number(left), number(right));
            float(match op {
                ArithmeticOp::Add => a + b,
                ArithmeticOp::Sub => a - b,
                ArithmeticOp::Mul => a * b,
                ArithmeticOp::Div => a / b,
                ArithmeticOp::Mod => a % b,
                ArithmeticOp::Pow => a.powf(b),
            })
        }
    }
}

fn text(s: &str) -> Value {
    Value::String(s.to_string())
}

#[test]
fn values_are_made_from_plain_values() {
    assert_eq!(Value::from(6), Value::Int(6));
    assert_eq!(Value::from(true), Value::Boolean(true));
    assert_eq!(Value::from("a".to_string()), text("a"));
    assert_eq!(Value::from(float(0.5)), Value::Float(float(0.5)));
    assert_eq!(Value::from(vec![Value::from(1)]), Value::Tuple(vec![Value::Int(1)]));
}

#[test]
fn every_value_has_its_kind() {
    assert_eq!(Value::Int(1).kind(), Kind::Int);
    assert_eq!(Value::Float(float(1.0)).kind(), Kind::Float);
    assert_eq!(Value::Boolean(true).kind(), Kind::Boolean);
    assert_eq!(text("").kind(), Kind::String);
    assert_eq!(Value::Tuple(vec![]).kind(), Kind::Tuple);
    assert_eq!(Value::Empty.kind(), Kind::Empty);
}

#[test]
fn values_are_taken_out_by_kind() {
    assert_eq!(Value::Int(3).expect_int(), Ok(3));
    assert_eq!(Value::Float(float(0.5)).expect_float(), Ok(float(0.5)));
    assert_eq!(Value::Boolean(false).expect_boolean(), Ok(false));
    assert_eq!(text("a").expect_string(), Ok("a".to_string()));
    assert_eq!(Value::Tuple(vec![Value::Int(1)]).expect_tuple(), Ok(vec![Value::Int(1)]));
    assert_eq!(
        text("a").expect_int(),
        Err(Error::TypeMismatch { expected: Kind::Int, actual: Kind::String })
    );
    assert_eq!(
        Value::Int(1).expect_float(),
        Err(Error::TypeMismatch { expected: Kind::Float, actual: Kind::Int })
    );
    assert_eq!(
        Value::Empty.expect_boolean(),
        Err(Error::TypeMismatch { expected: Kind::Boolean, actual: Kind::Empty })
    );
    assert_eq!(
        Value::Tuple(vec![]).expect_string(),
        Err(Error::TypeMismatch { expected: Kind::String, actual: Kind::Tuple })
    );
    assert_eq!(
        Value::Float(float(1.0)).expect_tuple(),
        Err(Error::TypeMismatch { expected: Kind::Tuple, actual: Kind::Float })
    );
}

#[test]
fn bits_are_ordered_as_numbers() {
    let samples = [
        f64::NEG_INFINITY,
        -1.0e300,
        -2.5,
        -1.0,
        -f64::MIN_POSITIVE,
        -5e-324,
        -0.0,
        0.0,
        5e-324,
        f64::MIN_POSITIVE,
        1.0,
        2.5,
        1.0e300,
        f64::INFINITY,
        f64::NAN,
        -f64::NAN,
    ];
    for a in samples {
        for b in samples {
            let expected = match a.partial_cmp(&b) {
                Some(std::cmp::Ordering::Less) => Order::Less,
                Some(std::cmp::Ordering::Equal) => Order::Equal,
                Some(std::cmp::Ordering::Greater) => Order::Greater,
                None => Order::Unordered,
            };
            assert_eq!(float(a).compare(&float(b)), expected, "{} and {}", a, b);
        }
        assert_eq!(float(a).is_nan(), a.is_nan());
        assert_eq!(float(a).negate().to_bits(), (-a).to_bits());
    }
    assert_eq!(Float::from_bits(0x3ff0000000000000).to_bits(), 1.0f64.to_bits());
}

#[test]
fn values_are_put_in_order() {
    assert_eq!(compare(&ieee, &Value::Int(1), &Value::Int(2)), Ok(Order::Less));
    assert_eq!(compare(&ieee, &Value::Int(2), &Value::Int(2)), Ok(Order::Equal));
    assert_eq!(compare(&ieee, &Value::Int(3), &Value::Float(float(2.5))), Ok(Order::Greater));
    assert_eq!(compare(&ieee, &Value::Float(float(f64::NAN)), &Value::Int(1)), Ok(Order::Unordered));
    assert_eq!(compare(&ieee, &Value::Boolean(true), &Value::Boolean(false)), Ok(Order::Greater));
    assert_eq!(compare(&ieee, &Value::Empty, &Value::Empty), Ok(Order::Equal));
    assert_eq!(compare(&ieee, &text("a"), &text("b")), Ok(Order::Less));
    assert_eq!(
        compare(&ieee, &Value::Empty, &Value::Int(1)),
        Err(Error::TypeMismatch { expected: Kind::Empty, actual: Kind::Int })
    );
    assert_eq!(
        compare(&ieee, &Value::Tuple(vec![]), &Value::Int(1)),
        Err(Error::TypeMismatch { expected: Kind::Tuple, actual: Kind::Int })
    );
    assert_eq!(compare(&ieee, &Value::Tuple(vec![]), &Value::Tuple(vec![])), Ok(Order::Equal));
    assert_eq!(
        compare(
            &ieee,
            &Value::Tuple(vec![Value::Int(1), Value::Float(float(f64::NAN))]),
            &Value::Tuple(vec![Value::Int(1), Value::Int(1)])
        ),
        Ok(Order::Unordered)
    );
    assert_eq!(equal(&ieee, &Value::Float(float(f64::NAN)), &Value::Float(float(f64::NAN))), Ok(false));
    assert_eq!(equal(&ieee, &Value::Tuple(vec![]), &Value::Tuple(vec![])), Ok(true));
    assert_eq!(
        equal(&ieee, &Value::Tuple(vec![]), &Value::Empty),
        Err(Error::TypeMismatch { expected: Kind::Tuple, actual: Kind::Empty })
    );
    assert_eq!(compare_texts("", ""), Order::Equal);
    assert_eq!(compare_texts("", "a"), Order::Less);
    assert_eq!(compare_texts("b", "a"), Order::Greater);
    assert_eq!(compare_texts("ab", "a"), Order::Greater);
    assert_eq!(compare_texts("z", "é"), Order::Less);
}

#[test]
fn order_reverses_with_the_operands() {
    let samples = [
        Value::Int(1),
        Value::Int(2),
        Value::Float(float(1.5)),
        Value::Float(float(f64::NAN)),
        Value::Boolean(true),
        text("a"),
        text("ab"),
        Value::Empty,
        Value::Tuple(vec![Value::Int(1), text("a")]),
        Value::Tuple(vec![Value::Int(1), text("b")]),
        Value::Tuple(vec![Value::Int(1)]),
    ];
    for a in &samples {
        for b in &samples {
            if let Ok(order) = compare(&ieee, a, b) {
                let reversed = match order {
                    Order::Less => Order::Greater,
                    Order::Greater => Order::Less,
                    other => other,
                };
                assert_eq!(compare(&ieee, b, a), Ok(reversed));
            }
            if let Ok(same) = equal(&ieee, a, b) {
                assert_eq!(equal(&ieee, b, a), Ok(same));
            }
        }
    }
}

#[test]
fn logic_takes_truth_values_only() {
    let and = BinaryOp::Logic(LogicOp::And);
    let or = BinaryOp::Logic(LogicOp::Or);
    assert_eq!(apply_binary(&ieee, and, &Value::Boolean(true), &Value::Boolean(false)), Ok(Value::Boolean(false)));
    assert_eq!(apply_binary(&ieee, or, &Value::Boolean(true), &Value::Boolean(false)), Ok(Value::Boolean(true)));
    assert_eq!(
        apply_binary(&ieee, and, &Value::Boolean(false), &Value::Int(1)),
        Err(Error::TypeMismatch { expected: Kind::Boolean, actual: Kind::Int })
    );
    assert_eq!(
        apply_binary(&ieee, or, &text("a"), &Value::Boolean(true)),
        Err(Error::TypeMismatch { expected: Kind::Boolean, actual: Kind::String })
    );
    assert_eq!(
        apply_binary(&ieee, BinaryOp::Comparison(ComparisonOp::Geq), &Value::Int(2), &Value::Int(2)),
        Ok(Value::Boolean(true))
    );
    assert_eq!(
        apply_binary(&ieee, BinaryOp::Arithmetic(ArithmeticOp::Add), &text("a"), &text("b")),
        Ok(text("ab"))
    );
}

#[test]
fn errors_fall_into_categories() {
    assert_eq!(Error::UnknownCharacter { position: 0 }.category(), Category::Lexical);
    assert_eq!(Error::InvalidEscape { position: 0 }.category(), Category::Lexical);
    assert_eq!(Error::UnterminatedString { position: 0 }.category(), Category::Lexical);
    assert_eq!(Error::EmptyExpression.category(), Category::Syntax);
    assert_eq!(Error::UnmatchedParenthesis.category(), Category::Syntax);
    assert_eq!(Error::UnexpectedToken.category(), Category::Syntax);
    assert_eq!(Error::TrailingTokens.category(), Category::Syntax);
    assert_eq!(Error::UnknownFunction("f".to_string()).category(), Category::Lookup);
    assert_eq!(Error::TupleLengthMismatch.category(), Category::Type);
    assert_eq!(Error::Overflow.category(), Category::Arithmetic);
    assert_eq!(Error::NegativeExponent.category(), Category::Arithmetic);
    assert_eq!(Error::Custom("x".to_string()).category(), Category::Custom);
}

#[test]
fn a_map_binds_what_was_put_in_last() {
    let mut configuration: MapConfiguration<Function> = MapConfiguration::new();
    assert_eq!(configuration.resolve_variable("x"), None);
    configuration.insert_variable("x".to_string(), Value::Int(1));
    configuration.insert_variable("y".to_string(), text("a"));
    assert_eq!(configuration.resolve_variable("x"), Some(Value::Int(1)));
    assert_eq!(configuration.resolve_variable("y"), Some(text("a")));
    configuration.insert_variable("x".to_string(), Value::Int(2));
    assert_eq!(configuration.resolve_variable("x"), Some(Value::Int(2)));
    assert_eq!(configuration.resolve_variable("z"), None);
    assert_eq!(
        configuration.call_function("x", Value::Tuple(vec![])),
        Err(Error::UnknownFunction("x".to_string()))
    );
    configuration.insert_function("x".to_string(), Box::new(|_| Ok(Value::Int(1))));
    configuration.insert_function("x".to_string(), Box::new(|_| Ok(Value::Int(7))));
    assert_eq!(configuration.call_function("x", Value::Tuple(vec![])), Ok(Value::Int(7)));
    assert_eq!(configuration.resolve_variable("x"), Some(Value::Int(2)));
    assert_eq!(
        EmptyConfiguration.call_function("x", Value::Tuple(vec![])),
        Err(Error::UnknownFunction("x".to_string()))
    );
}
