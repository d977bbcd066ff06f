//! Computing with values.
//!
//! Integers are added, subtracted, multiplied, divided and raised exactly. A result that
//! does not fit an integer of 64 bits becomes a decimal, and one that fits neither is an
//! error. Decimals, and integers beside decimals, are computed with as decimals. Arrays
//! are joined and objects merged. Computing with floats is not done here.

use vstd::prelude::*;
use vstd::arithmetic::div_mod::lemma_fundamental_div_mod;
use crate::array::concat;
use crate::ast::Operator;
use crate::err::Error;
use crate::err::ErrorView;
use crate::number::decimal_canonical_form;
use crate::number::decimal_difference;
use crate::number::decimal_product;
use crate::number::decimal_quotient;
use crate::number::decimal_remainder;
use crate::number::decimal_sum;
use crate::number::fits_decimal;
use crate::number::integer_bytes;
use crate::number::Decimal;
use crate::number::Number;
use crate::number::NumberView;
use crate::value::inserted;
use crate::value::Object;
use crate::value::Value;
use crate::value::ValueView;

verus! {

/// The size of a whole number.
pub open spec fn magnitude(n: int) -> nat {
    if n < 0 {
        (-n) as nat
    } else {
        n as nat
    }
}

/// The quotient of two whole numbers, cut off towards zero.
pub open spec fn quotient(a: int, b: int) -> int {
    let q = (magnitude(a) / magnitude(b)) as int;
    if (a < 0) != (b < 0) {
        -q
    } else {
        q
    }
}

/// What is left of `a` when `b` was taken from it as often as the quotient says. It has
/// the sign of `a`.
pub open spec fn remainder(a: int, b: int) -> int {
    let r = (magnitude(a) % magnitude(b)) as int;
    if a < 0 {
        -r
    } else {
        r
    }
}

/// A whole number raised to a power.
pub open spec fn power(base: int, exp: nat) -> int
    decreases exp,
{
    if exp == 0 {
        1
    } else {
        base * power(base, (exp - 1) as nat)
    }
}

/// A whole number as a value: an integer where it fits 64 bits, else a decimal where it
/// fits one, else an error.
pub open spec fn number_of(n: int) -> Result<ValueView, ErrorView> {
    if i64::MIN <= n <= i64::MAX {
        Ok(ValueView::Number(NumberView::Integer(n as i64)))
    } else if fits_decimal(n) {
        Ok(ValueView::Number(NumberView::Decimal(integer_bytes(n))))
    } else {
        Err(ErrorView::Arithmetic)
    }
}

/// What an operator makes of two integers. Dividing by zero is an error, and so is a
/// result that fits no decimal.
pub open spec fn integers(op: Operator, x: int, y: int) -> Result<ValueView, ErrorView> {
    match op {
        Operator::Add => number_of(x + y),
        Operator::Sub => number_of(x - y),
        Operator::Mul => number_of(x * y),
        Operator::Div => if y == 0 {
            Err(ErrorView::Arithmetic)
        } else {
            number_of(quotient(x, y))
        },
        Operator::Rem => if y == 0 {
            Err(ErrorView::Arithmetic)
        } else {
            number_of(remainder(x, y))
        },
        Operator::Pow => if y < 0 {
            Err(ErrorView::Unsupported)
        } else {
            number_of(power(x, y as nat))
        },
        _ => Err(ErrorView::Unsupported),
    }
}

/// The entries of `x` with those of `y` put into them, the entry with the greatest key
/// first: where both hold a key, the value of `y` stays.
pub open spec fn merged(
    x: Seq<(Seq<char>, ValueView)>,
    y: Seq<(Seq<char>, ValueView)>,
) -> Seq<(Seq<char>, ValueView)>
    decreases y.len(),
{
    if y.len() == 0 {
        x
    } else {
        merged(inserted(x, y.last().0, y.last().1), y.drop_last())
    }
}

/// What `rust_decimal` computed as a value: the decimal, or an error where it gave none.
pub open spec fn lifted(result: Option<Seq<u8>>) -> Result<ValueView, ErrorView> {
    match result {
        Some(bytes) => Ok(ValueView::Number(NumberView::Decimal(decimal_canonical_form(bytes)))),
        None => Err(ErrorView::Arithmetic),
    }
}

/// What an operator makes of two decimals. Dividing by zero is an error, and so is a
/// result that fits no decimal. Raising decimals to a power is not done here.
pub open spec fn decimals(op: Operator, x: Seq<u8>, y: Seq<u8>) -> Result<ValueView, ErrorView> {
    match op {
        Operator::Add => lifted(decimal_sum(x, y)),
        Operator::Sub => lifted(decimal_difference(x, y)),
        Operator::Mul => lifted(decimal_product(x, y)),
        Operator::Div => lifted(decimal_quotient(x, y)),
        Operator::Rem => lifted(decimal_remainder(x, y)),
        _ => Err(ErrorView::Unsupported),
    }
}

/// What an operator of arithmetic makes of two values. Integers stay integers where the
/// result fits; an integer beside a decimal is taken as a decimal.
pub open spec fn binary_of(op: Operator, a: ValueView, b: ValueView) -> Result<
    ValueView,
    ErrorView,
> {
    match (a, b) {
        (
            ValueView::Number(NumberView::Integer(x)),
            ValueView::Number(NumberView::Integer(y)),
        ) => integers(op, x as int, y as int),
        (
            ValueView::Number(NumberView::Decimal(x)),
            ValueView::Number(NumberView::Decimal(y)),
        ) => decimals(op, x, y),
        (
            ValueView::Number(NumberView::Decimal(x)),
            ValueView::Number(NumberView::Integer(y)),
        ) => decimals(op, x, integer_bytes(y as int)),
        (
            ValueView::Number(NumberView::Integer(x)),
            ValueView::Number(NumberView::Decimal(y)),
        ) => decimals(op, integer_bytes(x as int), y),
        (ValueView::Array(x), ValueView::Array(y)) => if op == Operator::Add {
            Ok(ValueView::Array(x + y))
        } else {
            Err(ErrorView::Unsupported)
        },
        (ValueView::Object(x), ValueView::Object(y)) => if op == Operator::Add {
            Ok(ValueView::Object(merged(x, y)))
        } else {
            Err(ErrorView::Unsupported)
        },
        _ => Err(ErrorView::Unsupported),
    }
}

/// A whole number as a value.
pub fn narrow(n: i128) -> (result: Result<Value, Error>)
    ensures
        match result {
            Ok(value) => number_of(n as int) == Ok::<ValueView, ErrorView>(value@) && value@.wf(),
            Err(e) => number_of(n as int) == Err::<ValueView, ErrorView>(e@),
        },
{
    if -9223372036854775808 <= n && n <= 9223372036854775807 {
        Ok(Value::Number(Number::Integer(n as i64)))
    } else {
        match Decimal::from_wide(n) {
            Some(d) => Ok(Value::Number(Number::Decimal(d))),
            None => Err(Error::Arithmetic),
        }
    }
}

/// The size of an integer of 64 bits.
fn size_of(n: i64) -> (size: u128)
    ensures
        size == magnitude(n as int),
        size <= 9223372036854775808,
{
    if n < 0 {
        (-(n as i128)) as u128
    } else {
        n as u128
    }
}

/// A power of a number of size one or more is at least as large as every lower power.
pub proof fn lemma_power_grows(base: int, low: nat, high: nat)
    requires
        magnitude(base) >= 1,
        low <= high,
    ensures
        magnitude(power(base, low)) <= magnitude(power(base, high)),
    decreases high - low,
{
    if low < high {
        lemma_power_grows(base, low, (high - 1) as nat);
        let p = power(base, (high - 1) as nat);
        assert(magnitude(base * p) >= magnitude(p)) by (nonlinear_arith)
            requires
                magnitude(base) >= 1,
        ;
    }
}

/// Zero raised to a power above zero is zero, and one raised to any power is one.
pub proof fn lemma_power_of_unit(base: int, exp: nat)
    ensures
        base == 1 ==> power(base, exp) == 1,
        base == 0 && exp > 0 ==> power(base, exp) == 0,
        base == -1 ==> power(base, exp) == if exp % 2 == 0 {
            1int
        } else {
            -1int
        },
    decreases exp,
{
    if exp > 0 {
        lemma_power_of_unit(base, (exp - 1) as nat);
    }
}

/// An integer raised to a power that is not below zero.
pub fn raise(x: i64, y: i64) -> (result: Result<Value, Error>)
    requires
        y >= 0,
    ensures
        match result {
            Ok(value) => number_of(power(x as int, y as nat)) == Ok::<ValueView, ErrorView>(
                value@,
            ) && value@.wf(),
            Err(e) => number_of(power(x as int, y as nat)) == Err::<ValueView, ErrorView>(e@),
        },
{
    proof {
        lemma_power_of_unit(x as int, y as nat);
    }
    if y == 0 || x == 1 {
        return narrow(1);
    }
    if x == 0 {
        return narrow(0);
    }
    if x == -1 {
        return narrow(
            if y % 2 == 0 {
                1
            } else {
                -1
            },
        );
    }
    let limit: u128 = 79228162514264337593543950335;
    let step = size_of(x);
    let mut acc: i128 = 1;
    let mut i: i64 = 0;
    while i < y
        invariant
            0 <= i <= y,
            acc == power(x as int, i as nat),
            -79228162514264337593543950335 <= acc <= 79228162514264337593543950335,
            limit == 79228162514264337593543950335,
            step == magnitude(x as int),
            2 <= step <= 9223372036854775808,
        decreases y - i,
    {
        let size: u128 = if acc < 0 {
            (-acc) as u128
        } else {
            acc as u128
        };
        let most = limit / step;
        proof {
            lemma_fundamental_div_mod(limit as int, step as int);
            let next = power(x as int, (i + 1) as nat);
            assert(next == x * acc);
            assert(acc * x == x * acc) by (nonlinear_arith);
            assert(magnitude(x * acc) == step * size) by (nonlinear_arith)
                requires
                    step == magnitude(x as int),
                    size == magnitude(acc as int),
            ;
            if size > most {
                assert(step * size > limit) by (nonlinear_arith)
                    requires
                        size >= most + 1,
                        limit == step * most + (limit % step),
                        0 <= limit % step < step,
                ;
                lemma_power_grows(x as int, (i + 1) as nat, y as nat);
            } else {
                assert(step * size <= limit) by (nonlinear_arith)
                    requires
                        size <= most,
                        limit == step * most + (limit % step),
                        0 <= limit % step < step,
                        step >= 0,
                ;
            }
        }
        if size > most {
            return Err(Error::Arithmetic);
        }
        acc = acc * (x as i128);
        i += 1;
    }
    narrow(acc)
}

/// What an operator makes of two integers.
pub fn compute_integers(op: Operator, x: i64, y: i64) -> (result: Result<Value, Error>)
    ensures
        match result {
            Ok(value) => integers(op, x as int, y as int) == Ok::<ValueView, ErrorView>(value@)
                && value@.wf(),
            Err(e) => integers(op, x as int, y as int) == Err::<ValueView, ErrorView>(e@),
        },
{
    match op {
        Operator::Add => narrow(x as i128 + y as i128),
        Operator::Sub => narrow(x as i128 - y as i128),
        Operator::Mul => {
            assert(-85070591730234615865843651857942052864 <= x * y
                <= 85070591730234615865843651857942052864) by (nonlinear_arith)
                requires
                    -9223372036854775808 <= x <= 9223372036854775807,
                    -9223372036854775808 <= y <= 9223372036854775807,
            ;
            narrow((x as i128) * (y as i128))
        },
        Operator::Div => {
            if y == 0 {
                return Err(Error::Arithmetic);
            }
            let q = (size_of(x) / size_of(y)) as i128;
            narrow(
                if (x < 0) != (y < 0) {
                    -q
                } else {
                    q
                },
            )
        },
        Operator::Rem => {
            if y == 0 {
                return Err(Error::Arithmetic);
            }
            let r = (size_of(x) % size_of(y)) as i128;
            narrow(
                if x < 0 {
                    -r
                } else {
                    r
                },
            )
        },
        Operator::Pow => {
            if y < 0 {
                return Err(Error::Unsupported);
            }
            raise(x, y)
        },
        _ => Err(Error::Unsupported),
    }
}

/// What an operator makes of two decimals.
pub fn compute_decimals(op: Operator, x: &Decimal, y: &Decimal) -> (result: Result<Value, Error>)
    ensures
        match result {
            Ok(value) => decimals(op, x@, y@) == Ok::<ValueView, ErrorView>(value@)
                && value@.wf(),
            Err(e) => decimals(op, x@, y@) == Err::<ValueView, ErrorView>(e@),
        },
{
    let computed = match op {
        Operator::Add => x.plus(y),
        Operator::Sub => x.minus(y),
        Operator::Mul => x.times(y),
        Operator::Div => x.divided_by(y),
        Operator::Rem => x.remainder_of(y),
        _ => return Err(Error::Unsupported),
    };
    match computed {
        Some(d) => Ok(Value::Number(Number::Decimal(d))),
        None => Err(Error::Arithmetic),
    }
}

/// The first object with the entries of the second put into it.
pub fn merge(first: Object, second: Object) -> (both: Object)
    requires
        first.wf(),
        second.wf(),
    ensures
        both@ == merged(first@, second@),
        both.wf(),
{
    let mut into = first;
    let mut from = second;
    while from.len() > 0
        invariant
            into.wf(),
            from.wf(),
            merged(into@, from@) == merged(first@, second@),
        decreases from@.len(),
    {
        match from.pop_greatest() {
            Some(entry) => {
                into.insert(entry.0, entry.1);
            },
            None => {},
        }
    }
    into
}

/// What an operator of arithmetic makes of two values.
pub fn binary(op: Operator, a: Value, b: Value) -> (result: Result<Value, Error>)
    requires
        a@.wf(),
        b@.wf(),
    ensures
        match result {
            Ok(value) => binary_of(op, a@, b@) == Ok::<ValueView, ErrorView>(value@)
                && value@.wf(),
            Err(e) => binary_of(op, a@, b@) == Err::<ValueView, ErrorView>(e@),
        },
{
    match (a, b) {
        (Value::Number(Number::Integer(x)), Value::Number(Number::Integer(y))) => {
            compute_integers(op, x, y)
        },
        (Value::Number(Number::Decimal(x)), Value::Number(Number::Decimal(y))) => {
            compute_decimals(op, &x, &y)
        },
        (Value::Number(Number::Decimal(x)), Value::Number(Number::Integer(y))) => {
            compute_decimals(op, &x, &Decimal::from_integer(y))
        },
        (Value::Number(Number::Integer(x)), Value::Number(Number::Decimal(y))) => {
            compute_decimals(op, &Decimal::from_integer(x), &y)
        },
        (Value::Array(x), Value::Array(y)) => match op {
            Operator::Add => {
                let both = concat(x, y);
                let count = both.len();
                Ok(Value::Array(both))
            },
            _ => Err(Error::Unsupported),
        },
        (Value::Object(x), Value::Object(y)) => match op {
            Operator::Add => Ok(Value::Object(merge(x, y))),
            _ => Err(Error::Unsupported),
        },
        _ => Err(Error::Unsupported),
    }
}

} // verus!
