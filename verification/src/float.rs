//! Double-precision numbers as IEEE 754 binary64 bit patterns.
//!
//! A pattern has, from the top, one sign bit, eleven exponent bits and
//! fifty-two fraction bits. The library compares and converts such patterns
//! with integer arithmetic only, and its contracts read a pattern as the
//! integer that the 64 bits spell.

use vstd::arithmetic::div_mod::lemma_multiply_divide_lt;
use vstd::arithmetic::power2::{
    lemma2_to64, lemma2_to64_rest, lemma_pow2_adds, lemma_pow2_pos, lemma_pow2_strictly_increases,
    pow2,
};
use vstd::bits::{lemma_u64_shl_is_mul, lemma_u64_shr_is_div};
use vstd::prelude::*;

verus! {

/// The sign bit of a pattern.
pub const SIGN_BIT: u64 = 0x8000_0000_0000_0000;

/// The bit above the fraction: two to the power 52.
pub const HIDDEN_BIT: u64 = 0x10_0000_0000_0000;

/// The number of values of the exponent field.
pub const EXPONENT_LIMIT: u64 = 0x800;

/// The exponent field of the number one.
pub const EXPONENT_BIAS: u64 = 1023;

/// Whether the sign bit is set.
pub open spec fn is_negative(bits: int) -> bool {
    bits >= SIGN_BIT
}

/// The exponent field.
pub open spec fn exponent(bits: int) -> int {
    bits / (HIDDEN_BIT as int) % (EXPONENT_LIMIT as int)
}

/// The fraction field.
pub open spec fn fraction(bits: int) -> int {
    bits % (HIDDEN_BIT as int)
}

/// Whether the pattern is one of "not a number".
pub open spec fn is_nan(bits: int) -> bool {
    exponent(bits) == EXPONENT_LIMIT - 1 && fraction(bits) != 0
}

/// Whether the pattern is one of the two zeros.
pub open spec fn is_zero(bits: int) -> bool {
    exponent(bits) == 0 && fraction(bits) == 0
}

/// Whether two patterns compare equal as numbers: neither is "not a
/// number", and they are the same pattern or both a zero.
pub open spec fn same_number(a: int, b: int) -> bool {
    !is_nan(a) && !is_nan(b) && (a == b || (is_zero(a) && is_zero(b)))
}

/// The whole part of the magnitude of a pattern. For an infinite pattern it
/// is beyond every machine integer.
pub open spec fn whole_part(bits: int) -> int {
    let e = exponent(bits);
    let significand: int = HIDDEN_BIT + fraction(bits);
    if e < EXPONENT_BIAS {
        0
    } else if e <= EXPONENT_BIAS + 52 {
        significand / (pow2((EXPONENT_BIAS + 52 - e) as nat) as int)
    } else {
        significand * pow2((e - EXPONENT_BIAS - 52) as nat)
    }
}

/// The number of a pattern with what follows the point cut off; zero for
/// "not a number".
pub open spec fn truncated(bits: int) -> int {
    if is_nan(bits) {
        0
    } else if is_negative(bits) {
        -whole_part(bits)
    } else {
        whole_part(bits)
    }
}

/// The machine integer nearest to `x`.
pub open spec fn saturated(x: int) -> isize {
    if x < isize::MIN {
        isize::MIN
    } else if x > isize::MAX {
        isize::MAX
    } else {
        x as isize
    }
}

/// Whether two patterns compare equal as numbers.
pub fn equal(a: u64, b: u64) -> (r: bool)
    ensures
        r == same_number(a as int, b as int),
{
    let a_nan = a / HIDDEN_BIT % EXPONENT_LIMIT == EXPONENT_LIMIT - 1 && a % HIDDEN_BIT != 0;
    let b_nan = b / HIDDEN_BIT % EXPONENT_LIMIT == EXPONENT_LIMIT - 1 && b % HIDDEN_BIT != 0;
    let a_zero = a / HIDDEN_BIT % EXPONENT_LIMIT == 0 && a % HIDDEN_BIT == 0;
    let b_zero = b / HIDDEN_BIT % EXPONENT_LIMIT == 0 && b % HIDDEN_BIT == 0;
    !a_nan && !b_nan && (a == b || (a_zero && b_zero))
}

/// The machine integer nearest to a magnitude with a sign.
fn with_sign(negative: bool, magnitude: u64) -> (r: isize)
    ensures
        r == saturated(
            if negative {
                -(magnitude as int)
            } else {
                magnitude as int
            },
        ),
{
    if magnitude > isize::MAX as u64 {
        if negative {
            isize::MIN
        } else {
            isize::MAX
        }
    } else if negative {
        -(magnitude as isize)
    } else {
        magnitude as isize
    }
}

/// Converts a number to an integer by cutting off what follows the point.
///
/// A number beyond the machine integers gives the nearest of them, and "not
/// a number" gives zero.
pub fn truncate(bits: u64) -> (r: isize)
    ensures
        r == saturated(truncated(bits as int)),
{
    let negative = bits >= SIGN_BIT;
    let e = bits / HIDDEN_BIT % EXPONENT_LIMIT;
    let significand = HIDDEN_BIT + bits % HIDDEN_BIT;
    if e < EXPONENT_BIAS || (e == EXPONENT_LIMIT - 1 && significand != HIDDEN_BIT) {
        return 0;
    }
    proof {
        lemma2_to64();
        lemma2_to64_rest();
    }
    if e >= EXPONENT_BIAS + 63 {
        proof {
            let k = (e - EXPONENT_BIAS - 52) as nat;
            if k > 11 {
                lemma_pow2_strictly_increases(11, k);
            }
            assert(significand * pow2(k) >= 0x8000_0000_0000_0000) by (nonlinear_arith)
                requires
                    significand >= 0x10_0000_0000_0000,
                    pow2(k) >= 0x800,
            ;
        }
        return if negative {
            isize::MIN
        } else {
            isize::MAX
        };
    }
    let magnitude = if e <= EXPONENT_BIAS + 52 {
        let shift = EXPONENT_BIAS + 52 - e;
        proof {
            lemma_u64_shr_is_div(significand, shift);
        }
        significand >> shift
    } else {
        let shift = e - EXPONENT_BIAS - 52;
        proof {
            if shift < 10 {
                lemma_pow2_strictly_increases(shift as nat, 10);
            }
            assert(significand * pow2(shift as nat) <= 0x7fff_ffff_ffff_ffff) by (nonlinear_arith)
                requires
                    significand < 0x20_0000_0000_0000,
                    pow2(shift as nat) <= 0x400,
            ;
            lemma_u64_shl_is_mul(significand, shift);
        }
        significand << shift
    };
    with_sign(negative, magnitude)
}

/// The magnitude of an integer.
pub open spec fn magnitude(x: int) -> nat {
    if x < 0 {
        (-x) as nat
    } else {
        x as nat
    }
}

/// The position of the highest set bit of `n`; zero for zero.
pub open spec fn top_bit(n: nat) -> nat
    decreases n,
{
    if n <= 1 {
        0
    } else {
        1 + top_bit(n / 2)
    }
}

/// How many times `unit` goes into `n`, rounded to the nearest count and,
/// half-way between two counts, to the even one.
pub open spec fn nearest(n: nat, unit: nat) -> nat {
    let count = n / unit;
    let rest = n % unit;
    if 2 * rest > unit || (2 * rest == unit && count % 2 == 1) {
        count + 1
    } else {
        count
    }
}

/// The pattern of the number nearest to the integer `x`.
///
/// An integer of at most 53 significant bits is represented exactly. A longer
/// one is rounded to 53 significant bits, to the nearest and, half-way, to
/// the even. The significand counts its hidden bit, which adds one to the
/// exponent field written before it; a significand that rounding carried to
/// 54 bits adds two.
pub open spec fn of_int(x: int) -> int {
    let n = magnitude(x);
    let top = top_bit(n);
    let significand = if top <= 52 {
        n * pow2((52 - top) as nat)
    } else {
        nearest(n, pow2((top - 52) as nat))
    };
    let sign: int = if x < 0 {
        SIGN_BIT as int
    } else {
        0
    };
    if x == 0 {
        0
    } else {
        sign + (EXPONENT_BIAS - 1 + top) * HIDDEN_BIT + significand
    }
}

/// `n` lies between the power of two of its highest set bit and the next one.
pub proof fn lemma_top_bit(n: nat)
    requires
        n >= 1,
    ensures
        pow2(top_bit(n)) <= n < pow2(top_bit(n) + 1),
    decreases n,
{
    lemma2_to64();
    if n > 1 {
        lemma_top_bit(n / 2);
        lemma_pow2_adds(1, top_bit(n / 2));
        lemma_pow2_adds(1, top_bit(n / 2) + 1);
    }
}

/// Converts an integer to the nearest number.
pub fn from_int(x: isize) -> (r: u64)
    ensures
        r == of_int(x as int),
{
    if x == 0 {
        return 0;
    }
    let wide = x as i128;
    let n = if wide < 0 {
        (-wide) as u64
    } else {
        wide as u64
    };
    let mut top: u64 = 0;
    let mut rest = n;
    proof {
        lemma2_to64();
        lemma2_to64_rest();
    }
    while rest > 1
        invariant
            rest >= 1,
            top_bit(n as nat) == top + top_bit(rest as nat),
            rest * pow2(top as nat) <= n <= 0x8000_0000_0000_0000,
            top < 64,
        decreases rest,
    {
        proof {
            let half = (rest / 2) as int;
            let low = pow2(top as nat) as int;
            let high = pow2((top + 1) as nat) as int;
            lemma2_to64();
            lemma_pow2_adds(1, top as nat);
            assert(half * high <= rest * low) by (nonlinear_arith)
                requires
                    2 * half <= rest,
                    high == 2 * low,
                    low >= 0,
            ;
            if top + 1 >= 64 {
                lemma_pow2_strictly_increases(63, (top + 1) as nat);
                assert(half * high >= high) by (nonlinear_arith)
                    requires
                        half >= 1,
                        high >= 0,
                ;
            }
        }
        rest = rest / 2;
        top = top + 1;
    }
    proof {
        lemma_top_bit(n as nat);
    }
    let significand = if top <= 52 {
        let shift = 52 - top;
        proof {
            lemma_pow2_adds((top + 1) as nat, shift as nat);
            lemma_pow2_pos(shift as nat);
            assert(n * pow2(shift as nat) < pow2((top + 1) as nat) * pow2(shift as nat))
                by (nonlinear_arith)
                requires
                    n < pow2((top + 1) as nat),
                    pow2(shift as nat) > 0,
            ;
            lemma_u64_shl_is_mul(n, shift);
        }
        n << shift
    } else {
        let shift = top - 52;
        proof {
            lemma_u64_shl_is_mul(1, shift);
            lemma_pow2_strictly_increases(shift as nat, 12);
            lemma_pow2_pos(shift as nat);
            lemma_pow2_adds(53, shift as nat);
            assert(pow2(53) * pow2(shift as nat) == pow2(shift as nat) * pow2(53))
                by (nonlinear_arith);
            lemma_multiply_divide_lt(n as int, pow2(shift as nat) as int, pow2(53) as int);
        }
        let unit = 1u64 << shift;
        let count = n / unit;
        let left = n % unit;
        if 2 * left > unit || (2 * left == unit && count % 2 == 1) {
            count + 1
        } else {
            count
        }
    };
    let sign = if x < 0 {
        SIGN_BIT
    } else {
        0
    };
    sign + (EXPONENT_BIAS - 1 + top) * HIDDEN_BIT + significand
}

/// A pattern put together from a sign, an exponent field and a fraction
/// field has these three as its parts.
pub proof fn lemma_parts(negative: bool, e: nat, f: nat)
    requires
        e < EXPONENT_LIMIT,
        f < HIDDEN_BIT,
    ensures
        ({
            let sign: int = if negative {
                SIGN_BIT as int
            } else {
                0
            };
            let bits = sign + e * HIDDEN_BIT + f;
            &&& 0 <= bits <= u64::MAX
            &&& is_negative(bits) == negative
            &&& exponent(bits) == e
            &&& fraction(bits) == f
        }),
{
    let sign: int = if negative {
        SIGN_BIT as int
    } else {
        0
    };
    let top: int = if negative {
        EXPONENT_LIMIT as int
    } else {
        0
    };
    let all = sign + e * HIDDEN_BIT + f;
    assert(e * HIDDEN_BIT <= (EXPONENT_LIMIT - 1) * HIDDEN_BIT) by (nonlinear_arith)
        requires
            e <= EXPONENT_LIMIT - 1,
    ;
    assert(all == (top + e) * HIDDEN_BIT + f) by (nonlinear_arith)
        requires
            all == sign + e * HIDDEN_BIT + f,
            sign == top * HIDDEN_BIT,
    ;
    vstd::arithmetic::div_mod::lemma_fundamental_div_mod_converse(
        all,
        HIDDEN_BIT as int,
        top + e,
        f as int,
    );
}

/// An integer of magnitude up to two to the power 53 becomes a number that
/// is this integer exactly: cutting off what follows the point gives it back.
pub proof fn law_small_int_is_exact(x: int)
    requires
        -0x20_0000_0000_0000 <= x <= 0x20_0000_0000_0000,
    ensures
        !is_nan(of_int(x)),
        truncated(of_int(x)) == x,
{
    lemma2_to64();
    lemma2_to64_rest();
    if x == 0 {
        lemma_parts(false, 0, 0);
    } else {
        let n = magnitude(x);
        let top = top_bit(n);
        lemma_top_bit(n);
        if top > 53 {
            lemma_pow2_strictly_increases(53, top);
        }
        if top <= 52 {
            let unit = pow2((52 - top) as nat);
            lemma_pow2_pos((52 - top) as nat);
            lemma_pow2_adds(top, (52 - top) as nat);
            lemma_pow2_adds(top + 1, (52 - top) as nat);
            assert(pow2(top) * unit <= n * unit < pow2(top + 1) * unit) by (nonlinear_arith)
                requires
                    pow2(top) <= n < pow2(top + 1),
                    unit > 0,
            ;
            let f = (n * unit - HIDDEN_BIT) as nat;
            lemma_parts(x < 0, EXPONENT_BIAS as nat + top, f);
            assert((EXPONENT_BIAS + top) * HIDDEN_BIT == (EXPONENT_BIAS - 1 + top) * HIDDEN_BIT
                + HIDDEN_BIT) by (nonlinear_arith);
            vstd::arithmetic::div_mod::lemma_div_by_multiple(n as int, unit as int);
        } else {
            law_large_int_is_nearest(x);
        }
    }
}

/// The number that an integer of more than 53 significant bits becomes is
/// the nearest that 53 significant bits can spell: a whole multiple of the
/// unit of its last place, at most half a unit away from the integer and,
/// where it is exactly half a unit away, an even multiple.
pub proof fn law_large_int_is_nearest(x: int)
    requires
        -0x8000_0000_0000_0000 <= x <= 0x8000_0000_0000_0000,
        top_bit(magnitude(x)) > 52,
    ensures
        0 <= of_int(x) <= u64::MAX,
        !is_nan(of_int(x)),
        is_negative(of_int(x)) == (x < 0),
        ({
            let n = magnitude(x) as int;
            let unit = pow2((top_bit(magnitude(x)) - 52) as nat) as int;
            let whole = whole_part(of_int(x));
            &&& unit > 0
            &&& whole % unit == 0
            &&& -unit <= 2 * (whole - n) <= unit
            &&& (2 * (whole - n) == unit || 2 * (whole - n) == -unit) ==> (whole / unit) % 2 == 0
        }),
{
    lemma2_to64();
    lemma2_to64_rest();
    let n = magnitude(x);
    let top = top_bit(n);
    let shift = (top - 52) as nat;
    let unit = pow2(shift) as int;
    lemma_top_bit(n);
    if top > 63 {
        lemma_pow2_strictly_increases(63, top);
    }
    lemma_pow2_pos(shift);
    lemma_pow2_adds(52, shift);
    lemma_pow2_adds(53, shift);
    lemma_pow2_adds(1, shift);
    let count = (n as int) / unit;
    let rest = (n as int) % unit;
    vstd::arithmetic::div_mod::lemma_fundamental_div_mod(n as int, unit);
    assert(0x10_0000_0000_0000 <= count < 0x20_0000_0000_0000) by (nonlinear_arith)
        requires
            n == unit * count + rest,
            0 <= rest < unit,
            0x10_0000_0000_0000 * unit <= n < 0x20_0000_0000_0000 * unit,
    ;
    let rounded = nearest(n, unit as nat) as int;
    let e: nat = if rounded < 0x20_0000_0000_0000 {
        EXPONENT_BIAS as nat + top
    } else {
        EXPONENT_BIAS as nat + top + 1
    };
    let f: nat = if rounded < 0x20_0000_0000_0000 {
        (rounded - HIDDEN_BIT) as nat
    } else {
        0
    };
    lemma_parts(x < 0, e, f);
    assert((EXPONENT_BIAS - 1 + top) * HIDDEN_BIT + rounded == e * HIDDEN_BIT + f)
        by (nonlinear_arith)
        requires
            rounded < 0x20_0000_0000_0000 ==> e == EXPONENT_BIAS + top && f == rounded - HIDDEN_BIT,
            rounded >= 0x20_0000_0000_0000 ==> e == EXPONENT_BIAS + top + 1 && f == 0 && rounded
                == 2 * HIDDEN_BIT,
    ;
    let whole = whole_part(of_int(x));
    assert(whole == rounded * unit) by {
        if rounded >= 0x20_0000_0000_0000 {
            assert(HIDDEN_BIT * (2 * unit) == (2 * HIDDEN_BIT) * unit) by (nonlinear_arith);
        }
    }
    vstd::arithmetic::div_mod::lemma_div_by_multiple(rounded, unit);
    vstd::arithmetic::div_mod::lemma_mod_multiples_basic(rounded, unit);
    assert(rounded * unit - n == (rounded - count) * unit - rest) by (nonlinear_arith)
        requires
            n == unit * count + rest,
    ;
    assert((rounded - count) * unit == if rounded == count {
        0
    } else {
        unit
    }) by (nonlinear_arith)
        requires
            rounded == count || rounded == count + 1,
    ;
}

} // verus!
