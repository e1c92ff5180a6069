use evalexpr::{
    build_operator_tree, eval, eval_boolean, eval_boolean_with_configuration, eval_float,
    eval_float_with_configuration, eval_int, eval_int_with_configuration, eval_string,
    eval_string_with_configuration, eval_tuple, eval_tuple_with_configuration, eval_with_configuration,
    ArithmeticOp, Category, Configuration, EmptyConfiguration, Error, Float, FloatRequest, Kind, MapConfiguration,
    Value, MAX_DEPTH,
};

type Function = Box<dyn Fn(Value) -> Result<Value, Error>>;

fn number(f: Float) -> f64 {
    f64::from_bits(f.to_bits())
}

fn float(x: f64) -> Float {
    Float::from_bits(x.to_bits())
}

fn ieee(request: FloatRequest) -> Float {
    match request {
        FloatRequest::Literal(text) => float(text.parse::<f64>().unwrap()),
        FloatRequest::FromInt(value) => float(value as f64),
        FloatRequest::Arithmetic(op, left, right) => {
            let (a, b) = (number(left), number(right));
            float(match op {
                ArithmeticOp::Add => a + b,
                ArithmeticOp::Sub => a - b,
                ArithmeticOp::Mul => a * b,
                ArithmeticOp::Div => a / b,
                ArithmeticOp::Mod => a % b,
                ArithmeticOp::Pow => a.powf(b),
            })
        }
    }
}

fn text(s: &str) -> Value {
    Value::String(s.to_string())
}

fn variables(pairs: &[(&str, i64)]) -> MapConfiguration<Function> {
    let mut configuration = MapConfiguration::new();
    for (name, value) in pairs {
        configuration.insert_variable(name.to_string(), Value::Int(*value));
    }
    configuration
}

fn sum(arguments: Value) -> Result<Value, Error> {
    let mut total: i64 = 0;
    for item in arguments.expect_tuple()? {
        total = total.checked_add(item.expect_int()?).ok_or(Error::Overflow)?;
    }
    Ok(Value::Int(total))
}

#[test]
fn sums_are_evaluated() {
    assert_eq!(eval("1 + 2 + 3", &ieee), Ok(Value::Int(6)));
}

#[test]
fn variables_are_resolved() {
    let configuration = variables(&[("one", 1), ("two", 2), ("three", 3)]);
    assert_eq!(eval_with_configuration("one + two + three", &configuration, &ieee), Ok(Value::Int(6)));
}

#[test]
fn a_tree_follows_its_configuration() {
    let precomputed = build_operator_tree("one + two + three", &ieee).unwrap();
    let mut configuration = variables(&[("one", 1), ("two", 2), ("three", 3)]);
    assert_eq!(precomputed.eval_with_configuration(&configuration, &ieee), Ok(Value::Int(6)));
    configuration.insert_variable("three".to_string(), Value::Int(5));
    assert_eq!(precomputed.eval_with_configuration(&configuration, &ieee), Ok(Value::Int(8)));
}

#[test]
fn a_tree_is_reusable_across_configurations() {
    let tree = build_operator_tree("a + b", &ieee).unwrap();
    let first = variables(&[("a", 1), ("b", 2)]);
    let second = variables(&[("a", 10), ("b", 20)]);
    assert_eq!(tree.eval_with_configuration(&first, &ieee), Ok(Value::Int(3)));
    assert_eq!(tree.eval_with_configuration(&second, &ieee), Ok(Value::Int(30)));
    assert_eq!(tree.eval_with_configuration(&first, &ieee), Ok(Value::Int(3)));
}

#[test]
fn building_first_changes_nothing() {
    let configuration = variables(&[("a", 4), ("b", 5)]);
    for expression in ["a * b - 1", "a +", "c", "(a, b) == (4, 5)", "1.5 * a", "a / 0"] {
        let direct = eval_with_configuration(expression, &configuration, &ieee);
        let prebuilt = build_operator_tree(expression, &ieee)
            .and_then(|tree| tree.eval_with_configuration(&configuration, &ieee));
        assert_eq!(direct, prebuilt);
    }
}

#[test]
fn evaluating_twice_gives_the_same() {
    let configuration = variables(&[("a", 4)]);
    let tree = build_operator_tree("(a ^ 2, a / 3, a % 3, \"x\" + \"y\", a < 5)", &ieee).unwrap();
    let once = tree.eval_with_configuration(&configuration, &ieee);
    let twice = tree.eval_with_configuration(&configuration, &ieee);
    assert_eq!(once, twice);
    assert_eq!(
        once,
        Ok(Value::Tuple(vec![
            Value::Int(16),
            Value::Int(1),
            Value::Int(1),
            text("xy"),
            Value::Boolean(true)
        ]))
    );
}

#[test]
fn precedence_is_respected() {
    assert_eq!(eval("1 + 2 * 3", &ieee), Ok(Value::Int(7)));
    assert_eq!(eval("(1 + 2) * 3", &ieee), Ok(Value::Int(9)));
    assert_eq!(eval("2 ^ 3 ^ 2", &ieee), Ok(Value::Int(512)));
    assert_eq!(eval("10 - 4 - 3", &ieee), Ok(Value::Int(3)));
    assert_eq!(eval("2 * 3 % 4", &ieee), Ok(Value::Int(2)));
    assert_eq!(eval("1 + 2 < 4 == true", &ieee), Ok(Value::Boolean(true)));
    assert_eq!(eval("true || false && false", &ieee), Ok(Value::Boolean(true)));
    assert_eq!(eval("-2 ^ 2", &ieee), Ok(Value::Int(4)));
    assert_eq!(eval("2 ^ -1 + 1", &ieee), Err(Error::NegativeExponent));
    assert_eq!(eval("!true == false", &ieee), Ok(Value::Boolean(true)));
    assert_eq!(eval("1 - -1", &ieee), Ok(Value::Int(2)));
    assert_eq!(eval("1 - - + -1", &ieee), Ok(Value::Int(0)));
}

#[test]
fn logic_short_circuits() {
    assert_eq!(eval("false && (1 / 0 == 0)", &ieee), Ok(Value::Boolean(false)));
    assert_eq!(eval("true || (1 / 0 == 0)", &ieee), Ok(Value::Boolean(true)));
    assert_eq!(eval("true && (1 / 0 == 0)", &ieee), Err(Error::DivisionByZero));
    assert_eq!(eval("false || (1 / 0 == 0)", &ieee), Err(Error::DivisionByZero));
    assert_eq!(eval("false && x", &ieee), Ok(Value::Boolean(false)));
    assert_eq!(eval("false && 1", &ieee), Ok(Value::Boolean(false)));
    assert_eq!(
        eval("true && 1", &ieee),
        Err(Error::TypeMismatch { expected: Kind::Boolean, actual: Kind::Int })
    );
    assert_eq!(
        eval("1 && true", &ieee),
        Err(Error::TypeMismatch { expected: Kind::Boolean, actual: Kind::Int })
    );
}

#[test]
fn kinds_that_do_not_fit_are_an_error() {
    let error = eval("1 + \"a\"", &ieee).unwrap_err();
    assert_eq!(error, Error::TypeMismatch { expected: Kind::Int, actual: Kind::String });
    assert_eq!(error.category(), Category::Type);
    assert_eq!(
        eval("\"a\" + 1", &ieee),
        Err(Error::TypeMismatch { expected: Kind::String, actual: Kind::Int })
    );
    assert_eq!(
        eval("\"a\" - \"b\"", &ieee),
        Err(Error::TypeMismatch { expected: Kind::Int, actual: Kind::String })
    );
    assert_eq!(
        eval("true < 1", &ieee),
        Err(Error::TypeMismatch { expected: Kind::Boolean, actual: Kind::Int })
    );
    assert_eq!(
        eval("-true", &ieee),
        Err(Error::TypeMismatch { expected: Kind::Int, actual: Kind::Boolean })
    );
    assert_eq!(
        eval("!1", &ieee),
        Err(Error::TypeMismatch { expected: Kind::Boolean, actual: Kind::Int })
    );
}

#[test]
fn unknown_names_are_an_error() {
    let error = eval("x", &ieee).unwrap_err();
    assert_eq!(error, Error::UnknownVariable("x".to_string()));
    assert_eq!(error.category(), Category::Lookup);
    assert_eq!(
        eval_with_configuration("x", &EmptyConfiguration, &ieee),
        Err(Error::UnknownVariable("x".to_string()))
    );
    assert_eq!(eval("f(1)", &ieee), Err(Error::UnknownFunction("f".to_string())));
    assert_eq!(EmptyConfiguration.resolve_variable("x"), None);
}

#[test]
fn tuples_are_compared_item_by_item() {
    assert_eq!(eval("(1,2) == (1,2)", &ieee), Ok(Value::Boolean(true)));
    assert_eq!(eval("(1,2) == (1,2,3)", &ieee), Ok(Value::Boolean(false)));
    assert_eq!(eval("(1,2) != (1,2,3)", &ieee), Ok(Value::Boolean(true)));
    assert_eq!(eval("(1,2) != (1,3)", &ieee), Ok(Value::Boolean(true)));
    assert_eq!(eval("(1,2) < (1,3)", &ieee), Ok(Value::Boolean(true)));
    assert_eq!(eval("(2,2) < (1,3)", &ieee), Ok(Value::Boolean(false)));
    assert_eq!(eval("(1,2) <= (1,2)", &ieee), Ok(Value::Boolean(true)));
    assert_eq!(eval("(1,2) < (1,2,3)", &ieee), Err(Error::TupleLengthMismatch));
    assert_eq!(eval("((1,2),3) == ((1,2,3),3)", &ieee), Ok(Value::Boolean(false)));
    assert_eq!(
        eval("(1,\"a\") == (1,2)", &ieee),
        Err(Error::TypeMismatch { expected: Kind::String, actual: Kind::Int })
    );
    assert_eq!(eval("(2,\"a\") == (1,2)", &ieee), Ok(Value::Boolean(false)));
}

#[test]
fn values_are_compared_within_their_kind() {
    assert_eq!(eval("\"abc\" < \"abd\"", &ieee), Ok(Value::Boolean(true)));
    assert_eq!(eval("\"ab\" < \"abc\"", &ieee), Ok(Value::Boolean(true)));
    assert_eq!(eval("\"b\" > \"abc\"", &ieee), Ok(Value::Boolean(true)));
    assert_eq!(eval("\"é\" > \"z\"", &ieee), Ok(Value::Boolean(true)));
    assert_eq!(eval("\"\" == \"\"", &ieee), Ok(Value::Boolean(true)));
    assert_eq!(eval("false < true", &ieee), Ok(Value::Boolean(true)));
    assert_eq!(eval("true <= false", &ieee), Ok(Value::Boolean(false)));
    assert_eq!(eval("() == ()", &ieee), Ok(Value::Boolean(true)));
    assert_eq!(eval("3 >= 3", &ieee), Ok(Value::Boolean(true)));
    assert_eq!(eval("1 == 1.0", &ieee), Ok(Value::Boolean(true)));
    assert_eq!(eval("1 < 1.5", &ieee), Ok(Value::Boolean(true)));
    assert_eq!(eval("-1.5 < -1", &ieee), Ok(Value::Boolean(true)));
    assert_eq!(eval("0.0 == -0.0", &ieee), Ok(Value::Boolean(true)));
    assert_eq!(eval("-2.5 < -1.5", &ieee), Ok(Value::Boolean(true)));
    assert_eq!(eval("-2.5 > 1.5", &ieee), Ok(Value::Boolean(false)));
    assert_eq!(eval("0.0 / 0.0 == 0.0 / 0.0", &ieee), Ok(Value::Boolean(false)));
    assert_eq!(eval("0.0 / 0.0 != 0.0 / 0.0", &ieee), Ok(Value::Boolean(true)));
    assert_eq!(eval("0.0 / 0.0 <= 1.0", &ieee), Ok(Value::Boolean(false)));
    assert_eq!(eval("1.0 / 0.0 > 1e308", &ieee), Ok(Value::Boolean(true)));
}

#[test]
fn numbers_with_fractions_go_through_the_host() {
    assert_eq!(eval("1.5 + 2", &ieee), Ok(Value::Float(float(3.5))));
    assert_eq!(eval("2 * 0.25", &ieee), Ok(Value::Float(float(0.5))));
    assert_eq!(eval("1e3", &ieee), Ok(Value::Float(float(1000.0))));
    assert_eq!(eval("2.5E-1", &ieee), Ok(Value::Float(float(0.25))));
    assert_eq!(eval("1. + 1", &ieee), Ok(Value::Float(float(2.0))));
    assert_eq!(eval("7.5 % 2", &ieee), Ok(Value::Float(float(1.5))));
    assert_eq!(eval("2.0 ^ 0.5", &ieee), Ok(Value::Float(float(2.0f64.powf(0.5)))));
    assert_eq!(eval("-1.5", &ieee), Ok(Value::Float(float(-1.5))));
    assert_eq!(eval("+1.5", &ieee), Ok(Value::Float(float(1.5))));
    assert_eq!(eval("1 / 0.0", &ieee), Ok(Value::Float(float(f64::INFINITY))));
    assert_eq!(eval_float("0.1 + 0.2", &ieee).map(number), Ok(0.1 + 0.2));
}

#[test]
fn integers_stay_integers() {
    assert_eq!(eval("7 / 2", &ieee), Ok(Value::Int(3)));
    assert_eq!(eval("-7 / 2", &ieee), Ok(Value::Int(-3)));
    assert_eq!(eval("-7 % 2", &ieee), Ok(Value::Int(-1)));
    assert_eq!(eval("7 % -2", &ieee), Ok(Value::Int(1)));
    assert_eq!(eval("0 ^ 0", &ieee), Ok(Value::Int(1)));
    assert_eq!(eval("0 ^ 5", &ieee), Ok(Value::Int(0)));
    assert_eq!(eval("(-1) ^ 9223372036854775807", &ieee), Ok(Value::Int(-1)));
    assert_eq!(eval("1 ^ 9223372036854775807", &ieee), Ok(Value::Int(1)));
    assert_eq!(eval("3 ^ 39", &ieee), Ok(Value::Int(4052555153018976267)));
    assert_eq!(eval("3 ^ 40", &ieee), Err(Error::Overflow));
    assert_eq!(eval("9223372036854775807 + 1", &ieee), Err(Error::Overflow));
    assert_eq!(eval("-9223372036854775807 - 2", &ieee), Err(Error::Overflow));
    assert_eq!(eval("4611686018427387904 * 2", &ieee), Err(Error::Overflow));
    assert_eq!(eval("(-9223372036854775807 - 1) / -1", &ieee), Err(Error::Overflow));
    assert_eq!(eval("(-9223372036854775807 - 1) % -1", &ieee), Ok(Value::Int(0)));
    assert_eq!(eval("-(-9223372036854775807 - 1)", &ieee), Err(Error::Overflow));
    assert_eq!(eval("1 / 0", &ieee), Err(Error::DivisionByZero));
    assert_eq!(eval("1 % 0", &ieee), Err(Error::DivisionByZero));
    assert_eq!(eval("1 / 0", &ieee).unwrap_err().category(), Category::Arithmetic);
}

#[test]
fn functions_get_their_arguments_as_a_tuple() {
    let mut configuration: MapConfiguration<Function> = MapConfiguration::new();
    configuration.insert_function("sum".to_string(), Box::new(sum));
    configuration.insert_function("same".to_string(), Box::new(|arguments| Ok(arguments)));
    configuration.insert_function(
        "fail".to_string(),
        Box::new(|_| Err(Error::Custom("no".to_string()))),
    );
    configuration.insert_variable("sum".to_string(), Value::Int(100));
    assert_eq!(eval_with_configuration("sum(1, 2, 3) * 2", &configuration, &ieee), Ok(Value::Int(12)));
    assert_eq!(eval_with_configuration("sum()", &configuration, &ieee), Ok(Value::Int(0)));
    assert_eq!(eval_with_configuration("sum + sum(1)", &configuration, &ieee), Ok(Value::Int(101)));
    assert_eq!(
        eval_with_configuration("same((1, 2))", &configuration, &ieee),
        Ok(Value::Tuple(vec![Value::Tuple(vec![Value::Int(1), Value::Int(2)])]))
    );
    assert_eq!(
        eval_with_configuration("same(1, 2)", &configuration, &ieee),
        Ok(Value::Tuple(vec![Value::Int(1), Value::Int(2)]))
    );
    assert_eq!(
        eval_with_configuration("1 + fail(2)", &configuration, &ieee),
        Err(Error::Custom("no".to_string()))
    );
    assert_eq!(
        eval_with_configuration("sum(1, x, fail())", &configuration, &ieee),
        Err(Error::UnknownVariable("x".to_string()))
    );
    assert_eq!(
        eval_with_configuration("other(1)", &configuration, &ieee),
        Err(Error::UnknownFunction("other".to_string()))
    );
    assert_eq!(
        eval_with_configuration("same", &configuration, &ieee),
        Err(Error::UnknownVariable("same".to_string()))
    );
}

#[test]
fn tuples_keep_their_order() {
    assert_eq!(
        eval("1, \"a\", true", &ieee),
        Ok(Value::Tuple(vec![Value::Int(1), text("a"), Value::Boolean(true)]))
    );
    assert_eq!(eval("(1)", &ieee), Ok(Value::Int(1)));
    assert_eq!(eval("()", &ieee), Ok(Value::Empty));
    assert_eq!(
        eval("(1, 2), 3", &ieee),
        Ok(Value::Tuple(vec![Value::Tuple(vec![Value::Int(1), Value::Int(2)]), Value::Int(3)]))
    );
    assert_eq!(eval("1, 1 / 0, x", &ieee), Err(Error::DivisionByZero));
}

#[test]
fn results_are_narrowed_to_a_kind() {
    assert_eq!(eval_string("\"a\" + \"b\"", &ieee), Ok("ab".to_string()));
    assert_eq!(eval_int("2 * 21", &ieee), Ok(42));
    assert_eq!(eval_float("0.5", &ieee), Ok(float(0.5)));
    assert_eq!(eval_boolean("1 < 2", &ieee), Ok(true));
    assert_eq!(eval_tuple("1, 2", &ieee), Ok(vec![Value::Int(1), Value::Int(2)]));
    assert_eq!(
        eval_string("1", &ieee),
        Err(Error::TypeMismatch { expected: Kind::String, actual: Kind::Int })
    );
    assert_eq!(
        eval_int("1.0", &ieee),
        Err(Error::TypeMismatch { expected: Kind::Int, actual: Kind::Float })
    );
    assert_eq!(
        eval_float("1", &ieee),
        Err(Error::TypeMismatch { expected: Kind::Float, actual: Kind::Int })
    );
    assert_eq!(
        eval_boolean("()", &ieee),
        Err(Error::TypeMismatch { expected: Kind::Boolean, actual: Kind::Empty })
    );
    assert_eq!(
        eval_tuple("true", &ieee),
        Err(Error::TypeMismatch { expected: Kind::Tuple, actual: Kind::Boolean })
    );
    assert_eq!(eval_int("1 +", &ieee), Err(Error::MissingOperand));
    assert_eq!(eval_int("x", &ieee), Err(Error::UnknownVariable("x".to_string())));
}

#[test]
fn results_are_narrowed_under_a_configuration() {
    let mut configuration = variables(&[("n", 2)]);
    configuration.insert_variable("s".to_string(), text("a"));
    configuration.insert_variable("f".to_string(), Value::Float(float(0.5)));
    configuration.insert_variable("b".to_string(), Value::Boolean(true));
    assert_eq!(eval_string_with_configuration("s + s", &configuration, &ieee), Ok("aa".to_string()));
    assert_eq!(eval_int_with_configuration("n * n", &configuration, &ieee), Ok(4));
    assert_eq!(eval_float_with_configuration("f * n", &configuration, &ieee), Ok(float(1.0)));
    assert_eq!(eval_boolean_with_configuration("b && n == 2", &configuration, &ieee), Ok(true));
    assert_eq!(
        eval_tuple_with_configuration("n, s", &configuration, &ieee),
        Ok(vec![Value::Int(2), text("a")])
    );
    assert_eq!(
        eval_int_with_configuration("s", &configuration, &ieee),
        Err(Error::TypeMismatch { expected: Kind::Int, actual: Kind::String })
    );
    assert_eq!(
        eval_string_with_configuration("n", &configuration, &ieee),
        Err(Error::TypeMismatch { expected: Kind::String, actual: Kind::Int })
    );
    assert_eq!(
        eval_float_with_configuration("b", &configuration, &ieee),
        Err(Error::TypeMismatch { expected: Kind::Float, actual: Kind::Boolean })
    );
    assert_eq!(
        eval_boolean_with_configuration("f", &configuration, &ieee),
        Err(Error::TypeMismatch { expected: Kind::Boolean, actual: Kind::Float })
    );
    assert_eq!(
        eval_tuple_with_configuration("missing", &configuration, &ieee),
        Err(Error::UnknownVariable("missing".to_string()))
    );
}

#[test]
fn deep_trees_are_refused() {
    let shallow = format!("{}1{}", "(".repeat(1000), ")".repeat(1000));
    assert_eq!(eval(&shallow, &ieee), Ok(Value::Int(1)));
    let fits = format!("{}1", "-".repeat(MAX_DEPTH - 1));
    assert_eq!(eval(&fits, &ieee), Ok(Value::Int(-1)));
    let deep = format!("{}1", "-".repeat(MAX_DEPTH));
    assert_eq!(eval(&deep, &ieee), Err(Error::ExpressionTooDeep));
    assert_eq!(eval(&deep, &ieee).unwrap_err().category(), Category::Depth);
    let chain = format!("1{}", " + 1".repeat(MAX_DEPTH));
    assert_eq!(eval(&chain, &ieee), Err(Error::ExpressionTooDeep));
    let unseen = format!("false && {}", deep);
    assert_eq!(eval(&unseen, &ieee), Ok(Value::Boolean(false)));
}

fn silent(_: FloatRequest) -> Float {
    Float::from_bits(0)
}

#[test]
fn whole_numbers_need_no_host() {
    let configuration = variables(&[("a", 4), ("b", 5)]);
    for expression in [
        "1 + 2 * 3",
        "a ^ b % 7 - (a, b) == (4, 5)",
        "\"x\" + \"y\" < \"xz\" && !(a >= b)",
        "a / 0",
        "a +",
        "(a, \"s\", true, ())",
        "9223372036854775807 + a",
    ] {
        assert_eq!(
            eval_with_configuration(expression, &configuration, &ieee),
            eval_with_configuration(expression, &configuration, &silent)
        );
    }
    assert_eq!(eval("1.5 + 1", &silent), Ok(Value::Float(Float::from_bits(0))));
}

#[test]
fn short_expressions_are_never_too_deep() {
    let long = format!("1{}", " + 1".repeat((MAX_DEPTH - 1) / 2));
    assert_eq!(eval(&long, &ieee), Ok(Value::Int(1 + ((MAX_DEPTH - 1) / 2) as i64)));
    let nested = format!("{}1", "!-".repeat((MAX_DEPTH - 1) / 2));
    assert_eq!(
        eval(&nested, &ieee),
        Err(Error::TypeMismatch { expected: Kind::Boolean, actual: Kind::Int })
    );
}
