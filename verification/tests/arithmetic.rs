use evalexpr::compute::{apply_binary, apply_unary};
use evalexpr::{ArithmeticOp, BinaryOp, ComparisonOp, Error, Float, FloatRequest, Kind, UnaryOp, Value};

fn number(f: Float) -> f64 {
    f64::from_bits(f.to_bits())
}

fn float(x: f64) -> Float {
    Float::from_bits(x.to_bits())
}

fn ieee(request: FloatRequest) -> Float {
    match request {
        FloatRequest::Literal(text) => float(text.parse::<f64>().unwrap()),
        FloatRequest::FromInt(value) => float(value as f64),
        FloatRequest::Arithmetic(op, left, right) => {
            let (a, b) = (number(left), number(right));
            float(match op {
                ArithmeticOp::Add => a + b,
                ArithmeticOp::Sub => a - b,
                ArithmeticOp::Mul => a * b,
                ArithmeticOp::Div => a / b,
                ArithmeticOp::Mod => a % b,
                ArithmeticOp::Pow => a.powf(b),
            })
        }
    }
}

fn arith(op: ArithmeticOp, a: Value, b: Value) -> Result<Value, Error> {
    apply_binary(&ieee, BinaryOp::Arithmetic(op), &a, &b)
}

#[test]
fn integer_division_rounds_towards_zero() {
    assert_eq!(arith(ArithmeticOp::Div, Value::Int(-7), Value::Int(2)), Ok(Value::Int(-3)));
    assert_eq!(arith(ArithmeticOp::Div, Value::Int(7), Value::Int(-2)), Ok(Value::Int(-3)));
    assert_eq!(arith(ArithmeticOp::Mod, Value::Int(-7), Value::Int(2)), Ok(Value::Int(-1)));
    assert_eq!(arith(ArithmeticOp::Mod, Value::Int(7), Value::Int(-2)), Ok(Value::Int(1)));
    assert_eq!(arith(ArithmeticOp::Mod, Value::Int(i64::MIN), Value::Int(-1)), Ok(Value::Int(0)));
}

#[test]
fn integer_overflow_is_an_error() {
    assert_eq!(arith(ArithmeticOp::Add, Value::Int(i64::MAX), Value::Int(1)), Err(Error::Overflow));
    assert_eq!(arith(ArithmeticOp::Div, Value::Int(i64::MIN), Value::Int(-1)), Err(Error::Overflow));
    assert_eq!(arith(ArithmeticOp::Pow, Value::Int(2), Value::Int(63)), Err(Error::Overflow));
    assert_eq!(arith(ArithmeticOp::Pow, Value::Int(-2), Value::Int(63)), Ok(Value::Int(i64::MIN)));
    assert_eq!(apply_unary(UnaryOp::Neg, &Value::Int(i64::MIN)), Err(Error::Overflow));
}

#[test]
fn mixed_operands_are_promoted() {
    assert_eq!(
        arith(ArithmeticOp::Add, Value::Int(1), Value::Float(float(0.5))),
        Ok(Value::Float(float(1.5)))
    );
    assert_eq!(
        apply_binary(
            &ieee,
            BinaryOp::Comparison(ComparisonOp::Lt),
            &Value::Float(float(-0.5)),
            &Value::Int(0)
        ),
        Ok(Value::Boolean(true))
    );
}

#[test]
fn kinds_that_do_not_fit_are_named() {
    assert_eq!(
        arith(ArithmeticOp::Add, Value::Int(1), Value::String("a".to_string())),
        Err(Error::TypeMismatch { expected: Kind::Int, actual: Kind::String })
    );
}
