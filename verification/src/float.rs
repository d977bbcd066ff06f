//! Binary floating-point numbers of 64 bits, by their bits.
//!
//! A number is held as the 64 bits of its IEEE 754 form: a sign, eleven bits of
//! exponent and 52 bits of fraction. What is computed here is computed on whole numbers.

use vstd::prelude::*;
use vstd::arithmetic::div_mod::lemma_div_multiples_vanish;
use vstd::arithmetic::div_mod::lemma_fundamental_div_mod;
use vstd::arithmetic::div_mod::lemma_fundamental_div_mod_converse;
use vstd::arithmetic::power2::lemma2_to64;
use vstd::arithmetic::power2::lemma2_to64_rest;
use vstd::arithmetic::power2::lemma_pow2_adds;
use vstd::arithmetic::power2::lemma_pow2_pos;
use vstd::arithmetic::power2::lemma_pow2_strictly_increases;
use vstd::arithmetic::power2::lemma_pow2_unfold;
use vstd::arithmetic::power2::pow2;

verus! {

/// Two to the power of 52: the weight of the lowest bit of the exponent.
pub const FRACTION_UNIT: u64 = 4503599627370496;

/// Two to the power of 63: the weight of the sign.
pub const SIGN_UNIT: u64 = 9223372036854775808;

/// Whether the sign is set.
pub open spec fn negative(bits: u64) -> bool {
    bits >= SIGN_UNIT
}

/// The exponent as it is held, from 0 to 2047.
pub open spec fn exponent(bits: u64) -> int {
    (bits as int / FRACTION_UNIT as int) % 2048
}

/// The 52 bits of the fraction.
pub open spec fn fraction(bits: u64) -> int {
    bits as int % FRACTION_UNIT as int
}

/// Whether the bits stand for no number.
pub open spec fn is_nan(bits: u64) -> bool {
    exponent(bits) == 2047 && fraction(bits) != 0
}

/// Whether the bits stand for zero, of either sign.
pub open spec fn is_zero(bits: u64) -> bool {
    exponent(bits) == 0 && fraction(bits) == 0
}

/// The whole part of the size of the number: the number without its sign, rounded down.
/// An infinity gives a number of at least two to the power of 63.
pub open spec fn whole(bits: u64) -> int {
    let e = exponent(bits);
    let significand = FRACTION_UNIT as int + fraction(bits);
    if e < 1023 {
        0
    } else if e <= 1075 {
        significand / pow2((1075 - e) as nat) as int
    } else {
        significand * pow2((e - 1075) as nat)
    }
}

/// The number cut off towards zero. What lies beyond the integers of 64 bits gives the
/// nearest of them, and what is no number gives zero.
pub open spec fn truncated(bits: u64) -> i64 {
    if is_nan(bits) {
        0
    } else if negative(bits) {
        if whole(bits) >= SIGN_UNIT {
            i64::MIN
        } else {
            (-whole(bits)) as i64
        }
    } else {
        if whole(bits) > i64::MAX {
            i64::MAX
        } else {
            whole(bits) as i64
        }
    }
}

/// Two to the power of `e`.
pub fn power_of_two(e: u64) -> (power: u64)
    requires
        e < 64,
    ensures
        power == pow2(e as nat),
{
    let mut power: u64 = 1;
    let mut i: u64 = 0;
    proof {
        lemma2_to64();
    }
    while i < e
        invariant
            i <= e < 64,
            power == pow2(i as nat),
        decreases e - i,
    {
        proof {
            lemma_pow2_unfold((i + 1) as nat);
            if i + 1 < 63 {
                lemma_pow2_strictly_increases((i + 1) as nat, 63);
            }
            lemma2_to64_rest();
        }
        power = power * 2;
        i += 1;
    }
    power
}

/// Cuts the number off towards zero.
pub fn truncate(bits: u64) -> (whole_part: i64)
    ensures
        whole_part == truncated(bits),
{
    let negative = bits >= SIGN_UNIT;
    let e = bits / FRACTION_UNIT % 2048;
    let significand = FRACTION_UNIT + bits % FRACTION_UNIT;
    if e == 2047 && significand != FRACTION_UNIT {
        return 0;
    }
    if e < 1023 {
        return 0;
    }
    if e <= 1075 {
        let divisor = power_of_two(1075 - e);
        proof {
            lemma_pow2_pos((1075 - e) as nat);
        }
        let size = significand / divisor;
        if negative {
            -(size as i64)
        } else {
            size as i64
        }
    } else if e - 1075 >= 11 {
        proof {
            lemma2_to64();
            if e - 1075 > 11 {
                lemma_pow2_strictly_increases(11, (e - 1075) as nat);
            }
            let factor = pow2((e - 1075) as nat) as int;
            assert(significand * factor >= SIGN_UNIT) by (nonlinear_arith)
                requires
                    significand >= 4503599627370496,
                    factor >= 2048,
            ;
        }
        if negative {
            i64::MIN
        } else {
            i64::MAX
        }
    } else {
        let factor = power_of_two(e - 1075);
        proof {
            lemma2_to64();
            if e - 1075 < 10 {
                lemma_pow2_strictly_increases((e - 1075) as nat, 10);
            }
            assert(significand * factor < SIGN_UNIT) by (nonlinear_arith)
                requires
                    significand < 9007199254740992,
                    factor <= 1024,
            ;
        }
        let size = significand * factor;
        if negative {
            -(size as i64)
        } else {
            size as i64
        }
    }
}

/// The position of the highest bit that is set in a number that is not zero.
pub open spec fn floor_log2(m: nat) -> nat
    decreases m,
{
    if m < 2 {
        0
    } else {
        1 + floor_log2(m / 2)
    }
}

/// The bits of the number nearest to the whole number `m`, which is not zero. Where two
/// numbers are as near, the one with an even fraction is taken.
pub open spec fn nearest(m: nat) -> int {
    let k = floor_log2(m);
    let significand: int = if k <= 52 {
        (m * pow2((52 - k) as nat)) as int
    } else {
        let unit = pow2((k - 52) as nat);
        let q = m / unit;
        let r = m % unit;
        if 2 * r > unit || (2 * r == unit && q % 2 == 1) {
            (q + 1) as int
        } else {
            q as int
        }
    };
    (1023 + k) * FRACTION_UNIT + (significand - FRACTION_UNIT)
}

/// The bits of the number nearest to an integer.
pub open spec fn float_of_int(i: i64) -> int {
    if i == 0 {
        0
    } else if i < 0 {
        SIGN_UNIT + nearest((-i) as nat)
    } else {
        nearest(i as nat)
    }
}

/// A number between a power of two and the next has its highest bit where the power
/// says.
pub proof fn lemma_floor_log2(m: nat, k: nat)
    requires
        pow2(k) <= m < 2 * pow2(k),
    ensures
        floor_log2(m) == k,
    decreases k,
{
    lemma2_to64();
    if k == 0 {
    } else {
        lemma_pow2_unfold(k);
        lemma_pow2_pos((k - 1) as nat);
        lemma_floor_log2(m / 2, (k - 1) as nat);
    }
}

/// The bits of the number nearest to an integer.
pub fn from_int(i: i64) -> (bits: u64)
    ensures
        bits == float_of_int(i),
{
    if i == 0 {
        return 0;
    }
    let m: u64 = if i == i64::MIN {
        SIGN_UNIT
    } else if i < 0 {
        (-i) as u64
    } else {
        i as u64
    };
    let mut power: u64 = 1;
    let mut k: u64 = 0;
    proof {
        lemma2_to64();
    }
    while power <= m / 2
        invariant
            power == pow2(k as nat),
            1 <= power <= m,
            k < 64,
        decreases m - power,
    {
        proof {
            lemma_pow2_unfold((k + 1) as nat);
            lemma2_to64_rest();
            if k + 1 >= 64 {
                lemma_pow2_strictly_increases(63, k as nat + 1);
            }
        }
        power = power * 2;
        k += 1;
    }
    proof {
        lemma_floor_log2(m as nat, k as nat);
    }
    let significand: u64 = if k <= 52 {
        let factor = power_of_two(52 - k);
        proof {
            lemma_pow2_adds(k as nat, (52 - k) as nat);
            lemma2_to64_rest();
            let p = power as int;
            let f = factor as int;
            assert(m * f < 2 * (p * f) && m * f >= p * f) by (nonlinear_arith)
                requires
                    p <= m < 2 * p,
                    f > 0,
            ;
        }
        m * factor
    } else {
        let unit = power_of_two(k - 52);
        proof {
            lemma_pow2_adds((k - 52) as nat, 52);
            lemma_pow2_pos((k - 52) as nat);
            lemma2_to64_rest();
            let u = unit as int;
            let q = (m / unit) as int;
            let r = (m % unit) as int;
            lemma_fundamental_div_mod(m as int, u);
            assert(q >= 4503599627370496 && q < 9007199254740992) by (nonlinear_arith)
                requires
                    m == u * q + r,
                    0 <= r < u,
                    u * 4503599627370496 <= m < 2 * (u * 4503599627370496),
            ;
        }
        let q = m / unit;
        let r = m % unit;
        if r > unit - r || (r == unit - r && q % 2 == 1) {
            q + 1
        } else {
            q
        }
    };
    let magnitude = (1023 + k) * FRACTION_UNIT + (significand - FRACTION_UNIT);
    if i < 0 {
        SIGN_UNIT + magnitude
    } else {
        magnitude
    }
}

/// The parts of bits that are put together from a sign, an exponent and a significand.
pub proof fn lemma_parts(sign: bool, e: int, significand: int)
    requires
        0 <= e < 2047,
        FRACTION_UNIT <= significand < 2 * FRACTION_UNIT,
    ensures
        ({
            let bits = (if sign {
                SIGN_UNIT as int
            } else {
                0
            }) + e * FRACTION_UNIT + (significand - FRACTION_UNIT);
            &&& 0 <= bits <= u64::MAX
            &&& negative(bits as u64) == sign
            &&& exponent(bits as u64) == e
            &&& fraction(bits as u64) == significand - FRACTION_UNIT
        }),
{
    let high: int = if sign {
        2048
    } else {
        0
    };
    let bits = high * FRACTION_UNIT + e * FRACTION_UNIT + (significand - FRACTION_UNIT);
    assert(bits == (high + e) * FRACTION_UNIT + (significand - FRACTION_UNIT))
        by (nonlinear_arith)
        requires
            bits == high * FRACTION_UNIT + e * FRACTION_UNIT + (significand - FRACTION_UNIT),
    ;
    lemma_fundamental_div_mod_converse(
        bits,
        FRACTION_UNIT as int,
        high + e,
        significand - FRACTION_UNIT,
    );
}

/// An integer of at most 53 bits is held exactly: cutting off the number nearest to it
/// gives it back.
pub proof fn lemma_small_integers_are_exact(i: i64)
    requires
        -9007199254740992 <= i <= 9007199254740992,
    ensures
        0 <= float_of_int(i) <= u64::MAX,
        truncated(float_of_int(i) as u64) == i,
{
    lemma2_to64();
    lemma2_to64_rest();
    if i == 0 {
        assert(exponent(0) == 0);
        assert(fraction(0) == 0);
        assert(whole(0) == 0);
    } else {
        let m: nat = if i < 0 {
            (-i) as nat
        } else {
            i as nat
        };
        let k = floor_log2(m);
        lemma_floor_log2_bounds(m);
        if k > 53 {
            lemma_pow2_strictly_increases(53, k);
        }
        if k <= 52 {
            let f = pow2((52 - k) as nat) as int;
            let p = pow2(k) as int;
            lemma_pow2_adds(k, (52 - k) as nat);
            lemma_pow2_pos((52 - k) as nat);
            assert(m * f < 2 * (p * f) && m * f >= p * f) by (nonlinear_arith)
                requires
                    p <= m < 2 * p,
                    f > 0,
            ;
            lemma_parts(i < 0, (1023 + k) as int, m * f);
            let bits = float_of_int(i) as u64;
            assert(negative(bits) == (i < 0));
            assert(exponent(bits) == 1023 + k);
            assert(fraction(bits) == m * f - FRACTION_UNIT);
            lemma_div_multiples_vanish(m as int, f);
            assert(m * f == f * m) by (nonlinear_arith);
            assert((1075 - (1023 + k)) as nat == (52 - k) as nat);
            assert(whole(bits) == (m * f) / f);
            assert(whole(bits) == m);
        } else {
            assert(m == 9007199254740992);
            assert(k == 53);
            assert(pow2(1) == 2);
            lemma_parts(i < 0, 1076, 4503599627370496);
            let bits = float_of_int(i) as u64;
            assert(negative(bits) == (i < 0));
            assert(exponent(bits) == 1076);
            assert(fraction(bits) == 0);
            assert(4503599627370496 * pow2(1) == 9007199254740992) by (nonlinear_arith)
                requires
                    pow2(1) == 2,
            ;
            assert(whole(bits) == m);
        }
    }
}

/// A number that is not zero lies between the power of two of its highest bit and the
/// next.
pub proof fn lemma_floor_log2_bounds(m: nat)
    requires
        m > 0,
    ensures
        pow2(floor_log2(m)) <= m < 2 * pow2(floor_log2(m)),
    decreases m,
{
    lemma2_to64();
    if m >= 2 {
        lemma_floor_log2_bounds(m / 2);
        lemma_pow2_unfold(floor_log2(m));
    }
}

/// How one thing stands to another in an order.
#[derive(Clone, Copy, PartialEq, Eq, Structural, Debug)]
pub enum Order {
    Less,
    Equal,
    Greater,
}

impl Order {
    /// The order seen from the other side.
    pub open spec fn reversed(self) -> Order {
        match self {
            Order::Less => Order::Greater,
            Order::Equal => Order::Equal,
            Order::Greater => Order::Less,
        }
    }

    /// The order seen from the other side.
    pub fn reverse(self) -> (other: Order)
        ensures
            other == self.reversed(),
    {
        match self {
            Order::Less => Order::Greater,
            Order::Equal => Order::Equal,
            Order::Greater => Order::Less,
        }
    }
}

/// How one whole number stands to another.
pub open spec fn int_order(a: int, b: int) -> Order {
    if a < b {
        Order::Less
    } else if a == b {
        Order::Equal
    } else {
        Order::Greater
    }
}

/// How one whole number stands to another.
pub fn order_wide(a: i128, b: i128) -> (order: Order)
    ensures
        order == int_order(a as int, b as int),
{
    if a < b {
        Order::Less
    } else if a == b {
        Order::Equal
    } else {
        Order::Greater
    }
}

/// A whole number that orders floats as their values do: the bits without the sign, taken
/// below zero where the sign is set.
pub open spec fn float_key(bits: u64) -> int {
    let size = bits as int % SIGN_UNIT as int;
    if negative(bits) {
        -size
    } else {
        size
    }
}

/// How one float stands to another by their values; nothing where one of them is no
/// number. The two zeros are equal.
pub open spec fn float_order(a: u64, b: u64) -> Option<Order> {
    if is_nan(a) || is_nan(b) {
        None
    } else {
        Some(int_order(float_key(a), float_key(b)))
    }
}

/// Whether the bits stand for no number.
pub fn nan(bits: u64) -> (is: bool)
    ensures
        is == is_nan(bits),
{
    bits / FRACTION_UNIT % 2048 == 2047 && bits % FRACTION_UNIT != 0
}

/// How one float stands to another by their values.
pub fn compare_floats(a: u64, b: u64) -> (order: Option<Order>)
    ensures
        order == float_order(a, b),
{
    if nan(a) || nan(b) {
        return None;
    }
    let x: i128 = if a >= SIGN_UNIT {
        -((a % SIGN_UNIT) as i128)
    } else {
        (a % SIGN_UNIT) as i128
    };
    let y: i128 = if b >= SIGN_UNIT {
        -((b % SIGN_UNIT) as i128)
    } else {
        (b % SIGN_UNIT) as i128
    };
    Some(order_wide(x, y))
}

/// The significand of a float that is a number: the fraction, with the hidden bit before
/// it unless the exponent is zero.
pub open spec fn significand(bits: u64) -> int {
    if exponent(bits) == 0 {
        fraction(bits)
    } else {
        FRACTION_UNIT as int + fraction(bits)
    }
}

/// The power of two by which the significand counts, above 1075: the value of the float
/// is its significand times two to the power of this less 1075.
pub open spec fn scale(bits: u64) -> int {
    if exponent(bits) == 0 {
        1
    } else {
        exponent(bits)
    }
}

/// How a whole number stands to a float by their values; nothing where the float is no
/// number. Both are brought to the same power of two and compared exactly.
pub open spec fn int_float_order(i: int, bits: u64) -> Option<Order> {
    if is_nan(bits) {
        None
    } else if exponent(bits) == 2047 {
        Some(
            if negative(bits) {
                Order::Greater
            } else {
                Order::Less
            },
        )
    } else {
        let s = if negative(bits) {
            -significand(bits)
        } else {
            significand(bits)
        };
        let e = scale(bits);
        Some(
            if e >= 1075 {
                int_order(i, s * pow2((e - 1075) as nat))
            } else {
                int_order(i * pow2((1075 - e) as nat), s)
            },
        )
    }
}

/// How an integer stands to a float by their values.
pub fn compare_int_float(i: i64, bits: u64) -> (order: Option<Order>)
    ensures
        order == int_float_order(i as int, bits),
{
    let negative = bits >= SIGN_UNIT;
    let e = bits / FRACTION_UNIT % 2048;
    let f = bits % FRACTION_UNIT;
    if e == 2047 {
        if f != 0 {
            return None;
        }
        return Some(
            if negative {
                Order::Greater
            } else {
                Order::Less
            },
        );
    }
    let size: i128 = if e == 0 {
        f as i128
    } else {
        (FRACTION_UNIT + f) as i128
    };
    let s: i128 = if negative {
        -size
    } else {
        size
    };
    let e = if e == 0 {
        1
    } else {
        e
    };
    proof {
        lemma2_to64();
        lemma2_to64_rest();
    }
    if e >= 1075 {
        let k = e - 1075;
        if k > 11 {
            proof {
                if k > 12 {
                    lemma_pow2_strictly_increases(12, k as nat);
                }
                let p = pow2(k as nat) as int;
                assert(size * p >= 18446744073709551616) by (nonlinear_arith)
                    requires
                        size >= 4503599627370496,
                        p >= 4096,
                ;
                if negative {
                    assert(s * p == -(size * p)) by (nonlinear_arith)
                        requires
                            s == -size,
                    ;
                }
            }
            Some(
                if negative {
                    Order::Greater
                } else {
                    Order::Less
                },
            )
        } else {
            let p = power_of_two(k) as i128;
            proof {
                if k < 11 {
                    lemma_pow2_strictly_increases(k as nat, 11);
                }
                assert(-18446744073709551616 <= s * p <= 18446744073709551616)
                    by (nonlinear_arith)
                    requires
                        -9007199254740992 < s < 9007199254740992,
                        0 < p <= 2048,
                ;
            }
            Some(order_wide(i as i128, s * p))
        }
    } else {
        let k = 1075 - e;
        if k > 53 {
            proof {
                lemma_pow2_strictly_increases(53, k as nat);
                let p = pow2(k as nat) as int;
                if i > 0 {
                    assert(i * p > 9007199254740992) by (nonlinear_arith)
                        requires
                            i >= 1,
                            p > 9007199254740992,
                    ;
                } else if i < 0 {
                    assert(i * p < -9007199254740992) by (nonlinear_arith)
                        requires
                            i <= -1,
                            p > 9007199254740992,
                    ;
                } else {
                    assert(i * p == 0) by (nonlinear_arith)
                        requires
                            i == 0,
                    ;
                }
            }
            if i > 0 {
                Some(Order::Greater)
            } else if i < 0 {
                Some(Order::Less)
            } else {
                Some(order_wide(0, s))
            }
        } else {
            let p = power_of_two(k) as i128;
            proof {
                if k < 53 {
                    lemma_pow2_strictly_increases(k as nat, 53);
                }
                assert(-83076749736557242056487941267521536 <= i * p
                    <= 83076749736557242056487941267521536) by (nonlinear_arith)
                    requires
                        -9223372036854775808 <= i <= 9223372036854775808,
                        0 < p <= 9007199254740992,
                ;
            }
            Some(order_wide(i as i128 * p, s))
        }
    }
}

/// An integer of at most 53 bits stands equal to the float nearest to it.
pub proof fn lemma_small_integers_equal_their_floats(i: i64)
    requires
        -9007199254740992 <= i <= 9007199254740992,
    ensures
        0 <= float_of_int(i) <= u64::MAX,
        int_float_order(i as int, float_of_int(i) as u64) == Some(Order::Equal),
{
    lemma2_to64();
    lemma2_to64_rest();
    if i == 0 {
        assert(exponent(0) == 0);
        assert(fraction(0) == 0);
        assert(0 * pow2(1074) == 0) by (nonlinear_arith);
    } else {
        let m: nat = if i < 0 {
            (-i) as nat
        } else {
            i as nat
        };
        let k = floor_log2(m);
        lemma_floor_log2_bounds(m);
        if k > 53 {
            lemma_pow2_strictly_increases(53, k);
        }
        if k <= 52 {
            let f = pow2((52 - k) as nat) as int;
            let p = pow2(k) as int;
            lemma_pow2_adds(k, (52 - k) as nat);
            lemma_pow2_pos((52 - k) as nat);
            assert(m * f < 2 * (p * f) && m * f >= p * f) by (nonlinear_arith)
                requires
                    p <= m < 2 * p,
                    f > 0,
            ;
            lemma_parts(i < 0, (1023 + k) as int, m * f);
            let bits = float_of_int(i) as u64;
            assert(exponent(bits) == 1023 + k);
            assert(significand(bits) == m * f);
            assert(scale(bits) == 1023 + k);
            let s = if negative(bits) {
                -significand(bits)
            } else {
                significand(bits)
            };
            assert(i * f == s) by (nonlinear_arith)
                requires
                    s == if i < 0 {
                        -(m * f)
                    } else {
                        m * f
                    },
                    i == if i < 0 {
                        -m
                    } else {
                        m as int
                    },
            ;
            if k == 52 {
                assert(f == 1);
                assert(s * pow2(0) == s) by (nonlinear_arith)
                    requires
                        pow2(0) == 1,
                ;
                assert(i * f == i) by (nonlinear_arith)
                    requires
                        f == 1,
                ;
            }
        } else {
            assert(m == 9007199254740992);
            assert(k == 53);
            assert(pow2(1) == 2);
            lemma_parts(i < 0, 1076, 4503599627370496);
            let bits = float_of_int(i) as u64;
            assert(exponent(bits) == 1076);
            assert(significand(bits) == 4503599627370496);
            let s = if negative(bits) {
                -significand(bits)
            } else {
                significand(bits)
            };
            assert(s * pow2(1) == i) by (nonlinear_arith)
                requires
                    pow2(1) == 2,
                    i == 2 * s,
            ;
        }
    }
}

} // verus!
