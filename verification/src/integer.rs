//! Integer arithmetic that reports what does not fit in 64 bits.

use vstd::prelude::*;
use vstd::arithmetic::div_mod::{lemma_div_basics, lemma_div_of0, lemma_fundamental_div_mod, lemma_mod_pos_bound};
use vstd::arithmetic::power::{lemma0_pow, lemma1_pow, pow};

use crate::error::{Error, ErrorView};
use crate::float::ArithmeticOp;
use crate::value::{outcome_view, Value, ValueView};

verus! {

/// Whether an integer fits in 64 bits.
pub open spec fn in_range(x: int) -> bool {
    i64::MIN <= x <= i64::MAX
}

/// An integer as a value, if it fits in 64 bits.
pub open spec fn bounded(x: int) -> Result<ValueView, ErrorView> {
    if in_range(x) {
        Ok(ValueView::Int(x))
    } else {
        Err(ErrorView::Overflow)
    }
}

/// The distance of an integer from zero.
pub open spec fn magnitude(x: int) -> int {
    if x < 0 {
        -x
    } else {
        x
    }
}

/// The quotient of `x` by `d`, rounded towards zero.
pub open spec fn truncated_quotient(x: int, d: int) -> int {
    if (x >= 0) == (d > 0) {
        magnitude(x) / magnitude(d)
    } else {
        -(magnitude(x) / magnitude(d))
    }
}

/// What is left of `x` when `d` is taken from it as often as the truncated
/// quotient says. It has the sign of `x`.
pub open spec fn truncated_remainder(x: int, d: int) -> int {
    x - d * truncated_quotient(x, d)
}

/// What an arithmetic operator makes of two integers: the exact result where
/// it fits in 64 bits. Division and remainder round towards zero.
pub open spec fn int_arithmetic(op: ArithmeticOp, x: int, y: int) -> Result<ValueView, ErrorView> {
    match op {
        ArithmeticOp::Add => bounded(x + y),
        ArithmeticOp::Sub => bounded(x - y),
        ArithmeticOp::Mul => bounded(x * y),
        ArithmeticOp::Div => if y == 0 {
            Err(ErrorView::DivisionByZero)
        } else {
            bounded(truncated_quotient(x, y))
        },
        ArithmeticOp::Mod => if y == 0 {
            Err(ErrorView::DivisionByZero)
        } else {
            bounded(truncated_remainder(x, y))
        },
        ArithmeticOp::Pow => if y < 0 {
            Err(ErrorView::NegativeExponent)
        } else {
            bounded(pow(x, y as nat))
        },
    }
}

/// The truncated remainder, case by case, over remainders of magnitudes.
pub proof fn lemma_truncated_remainder(x: int, d: int)
    requires
        d != 0,
    ensures
        truncated_remainder(x, d) == if x >= 0 {
            magnitude(x) % magnitude(d)
        } else {
            -(magnitude(x) % magnitude(d))
        },
        -magnitude(d) < truncated_remainder(x, d) < magnitude(d),
{
    let a = magnitude(x);
    let b = magnitude(d);
    lemma_fundamental_div_mod(a, b);
    lemma_mod_pos_bound(a, b);
    let q = a / b;
    assert(a == b * q + a % b);
    if d > 0 {
        assert(d * (-q) == -(d * q)) by (nonlinear_arith);
    } else {
        assert(d * q == -(b * q)) by (nonlinear_arith)
            requires
                b == -d,
        ;
        assert(d * (-q) == b * q) by (nonlinear_arith)
            requires
                b == -d,
        ;
    }
}

/// Minus one to a power is one where the power is even, minus one where it is odd.
pub proof fn lemma_power_of_minus_one(e: nat)
    ensures
        pow(-1, e) == if e % 2 == 0 {
            1int
        } else {
            -1int
        },
    decreases e,
{
    reveal(pow);
    if e > 0 {
        lemma_power_of_minus_one((e - 1) as nat);
    }
}

/// Once a power of a base of magnitude two or more has left the 64-bit range,
/// every higher power is outside it too.
pub proof fn lemma_power_stays_out(base: int, k: nat, n: nat)
    requires
        base >= 2 || base <= -2,
        k <= n,
        !in_range(pow(base, k)),
    ensures
        !in_range(pow(base, n)),
    decreases n - k,
{
    if k < n {
        lemma_power_stays_out(base, k, (n - 1) as nat);
        let p = pow(base, (n - 1) as nat);
        reveal(pow);
        assert(pow(base, n) == base * p);
        assert(!in_range(base * p)) by (nonlinear_arith)
            requires
                base >= 2 || base <= -2,
                p > 0x7fff_ffff_ffff_ffff || p < -0x8000_0000_0000_0000,
        ;
    }
}

/// Raises an integer to a power that is not negative.
fn integer_power(base: i64, exponent: i64) -> (r: Result<Value, Error>)
    requires
        exponent >= 0,
    ensures
        outcome_view(r) == bounded(pow(base as int, exponent as nat)),
{
    if base == 0 {
        proof {
            reveal(pow);
            if exponent > 0 {
                lemma0_pow(exponent as nat);
            }
        }
        return Ok(Value::Int(if exponent == 0 { 1 } else { 0 }));
    }
    if base == 1 {
        proof {
            lemma1_pow(exponent as nat);
        }
        return Ok(Value::Int(1));
    }
    if base == -1 {
        proof {
            lemma_power_of_minus_one(exponent as nat);
        }
        return Ok(Value::Int(if exponent % 2 == 0 { 1 } else { -1 }));
    }
    let mut acc: i64 = 1;
    let mut i: i64 = 0;
    proof {
        reveal(pow);
    }
    while i < exponent
        invariant
            0 <= i <= exponent,
            base >= 2 || base <= -2,
            acc == pow(base as int, i as nat),
        decreases exponent - i,
    {
        proof {
            reveal(pow);
            assert(pow(base as int, (i + 1) as nat) == base * pow(base as int, i as nat));
            assert(base * acc == acc * base) by (nonlinear_arith);
        }
        match acc.checked_mul(base) {
            Some(next) => {
                acc = next;
                i += 1;
            },
            None => {
                proof {
                    lemma_power_stays_out(base as int, (i + 1) as nat, exponent as nat);
                }
                return Err(Error::Overflow);
            },
        }
    }
    Ok(Value::Int(acc))
}

/// Applies an arithmetic operator to two integers.
pub fn integer_arithmetic(op: ArithmeticOp, x: i64, y: i64) -> (r: Result<Value, Error>)
    ensures
        outcome_view(r) == int_arithmetic(op, x as int, y as int),
{
    match op {
        ArithmeticOp::Add => match x.checked_add(y) {
            Some(v) => Ok(Value::Int(v)),
            None => Err(Error::Overflow),
        },
        ArithmeticOp::Sub => match x.checked_sub(y) {
            Some(v) => Ok(Value::Int(v)),
            None => Err(Error::Overflow),
        },
        ArithmeticOp::Mul => match x.checked_mul(y) {
            Some(v) => Ok(Value::Int(v)),
            None => Err(Error::Overflow),
        },
        ArithmeticOp::Div => {
            if y == 0 {
                return Err(Error::DivisionByZero);
            }
            proof {
                lemma_div_of0(magnitude(y as int));
            }
            match x.checked_div(y) {
                Some(v) => Ok(Value::Int(v)),
                None => Err(Error::Overflow),
            }
        },
        ArithmeticOp::Mod => {
            if y == 0 {
                return Err(Error::DivisionByZero);
            }
            proof {
                lemma_truncated_remainder(x as int, y as int);
            }
            if y == -1 {
                proof {
                    lemma_div_basics(magnitude(x as int));
                }
                return Ok(Value::Int(0));
            }
            match x.checked_rem(y) {
                Some(v) => Ok(Value::Int(v)),
                None => {
                    assert(false);
                    Err(Error::Overflow)
                },
            }
        },
        ArithmeticOp::Pow => {
            if y < 0 {
                return Err(Error::NegativeExponent);
            }
            integer_power(x, y)
        },
    }
}

} // verus!
