//! Exact money arithmetic in integer cents.
//!
//! Every monetary value in the library is a non-negative number of cents held
//! in a `u64`. Price text such as `"5.99"` is read by `rust_decimal` and then
//! converted, exactly and without rounding, to cents; a price that is
//! negative, has more than two fractional digits, or does not fit in a `u64`
//! is rejected.

use vstd::prelude::*;
use vstd::arithmetic::div_mod::*;
use vstd::arithmetic::mul::*;

verus! {

/// What `rust_decimal` parses out of a piece of text: an integer mantissa `m`
/// and a scale `e`, together denoting the value `m / 10^e`. `None` when the
/// text is not a decimal number.
pub uninterp spec fn decimal_parts_of(s: Seq<char>) -> Option<(i128, u32)>;

/// Relies on rust_decimal's `Decimal::from_str`, `Decimal::mantissa` and
/// `Decimal::scale`: together they parse text into an integer mantissa and a
/// power-of-ten scale, and the outcome depends on the text alone.
#[verifier::external_body]
fn parse_decimal_parts(s: &str) -> (r: Option<(i128, u32)>)
    ensures
        r == decimal_parts_of(s@),
{
    match <rust_decimal::Decimal as core::str::FromStr>::from_str(s) {
        Ok(d) => Some((d.mantissa(), d.scale())),
        Err(_) => None,
    }
}

/// `10^e`.
pub open spec fn pow10(e: nat) -> int
    decreases e,
{
    if e == 0 {
        1
    } else {
        10 * pow10((e - 1) as nat)
    }
}

/// The exact number of cents denoted by mantissa `m` at scale `e`, that is
/// `m * 100 / 10^e`, provided that value is a whole number of cents and fits
/// in a `u64`; `None` otherwise.
pub open spec fn cents_of_parts(m: i128, e: u32) -> Option<u64> {
    cents_of_parts_int(m as int, e)
}

/// The number of cents denoted by a piece of price text, or `None` when the
/// text is not a decimal number of whole cents representable in a `u64`.
pub open spec fn spec_parse_price(s: Seq<char>) -> Option<u64> {
    match decimal_parts_of(s) {
        Some((m, e)) => cents_of_parts(m, e),
        None => None,
    }
}

proof fn lemma_pow10_pos(e: nat)
    ensures
        pow10(e) >= 1,
    decreases e,
{
    if e > 0 {
        lemma_pow10_pos((e - 1) as nat);
    }
}

/// Dividing mantissa and scale by ten together leaves the denoted number of
/// cents unchanged.
proof fn lemma_reduce_step(m: int, e: u32)
    requires
        m >= 0,
        m % 10 == 0,
        e >= 3,
    ensures
        cents_of_parts_int(m / 10, (e - 1) as u32) == cents_of_parts_int(m, e),
{
    let num = m * 100;
    let d = pow10(e as nat);
    let num2 = (m / 10) * 100;
    let d2 = pow10((e - 1) as nat);
    lemma_pow10_pos((e - 1) as nat);
    assert(d == 10 * d2);
    // num == 10 * num2, because 10 divides m.
    assert(m == 10 * (m / 10)) by {
        lemma_fundamental_div_mod(m, 10);
    }
    assert(num == 10 * num2) by {
        lemma_mul_is_associative(10, m / 10, 100);
    }
    assert(num >= 0) by {
        lemma_mul_nonnegative(m, 100);
    }
    // Quotients agree: num / d == num2 / d2.
    assert(num / d == num2 / d2) by {
        lemma_div_denominator(num, 10, d2);
        assert(num / 10 == num2) by {
            lemma_div_multiples_vanish(num2, 10);
        }
    }
    // Divisibility agrees in both directions.
    assert(num % d == 0 <==> num2 % d2 == 0) by {
        if num % d == 0 {
            assert(num == d * (num / d)) by {
                lemma_fundamental_div_mod(num, d);
            }
            assert(num == 10 * (d2 * (num / d))) by {
                lemma_mul_is_associative(10, d2, num / d);
            }
            assert(num2 == d2 * (num / d)) by {
                lemma_div_multiples_vanish(d2 * (num / d), 10);
            }
            assert(num2 % d2 == 0) by {
                lemma_mod_multiples_basic(num / d, d2);
                lemma_mul_is_commutative(num / d, d2);
            }
        }
        if num2 % d2 == 0 {
            assert(num2 == d2 * (num2 / d2)) by {
                lemma_fundamental_div_mod(num2, d2);
            }
            assert(num == d * (num2 / d2)) by {
                lemma_mul_is_associative(10, d2, num2 / d2);
            }
            assert(num % d == 0) by {
                lemma_mod_multiples_basic(num2 / d2, d);
                lemma_mul_is_commutative(num2 / d2, d);
            }
        }
    }
}

/// `cents_of_parts` with the mantissa already widened to `int`, so that the
/// reduction loop below can speak of intermediate values uniformly.
pub open spec fn cents_of_parts_int(m: int, e: u32) -> Option<u64> {
    let num = m * 100;
    let d = pow10(e as nat);
    if num % d == 0 && 0 <= num / d <= u64::MAX {
        Some((num / d) as u64)
    } else {
        None
    }
}

/// A mantissa not divisible by ten under a scale of three or more cannot be a
/// whole number of cents.
proof fn lemma_irreducible_none(m: int, e: u32)
    requires
        m > 0,
        m % 10 != 0,
        e >= 3,
    ensures
        cents_of_parts_int(m, e) == None::<u64>,
{
    let num = m * 100;
    let d = pow10(e as nat);
    let t = pow10((e - 2) as nat);
    lemma_pow10_pos((e - 2) as nat);
    assert(d == 100 * t) by {
        lemma_pow10_unfold_twice(e);
    }
    if num % d == 0 {
        // Then m is a multiple of t, and t is a multiple of 10: contradiction.
        assert(num == d * (num / d)) by {
            lemma_fundamental_div_mod(num, d);
        }
        assert(num == (t * (num / d)) * 100) by {
            lemma_mul_is_associative(100, t, num / d);
            lemma_mul_is_commutative(100, t * (num / d));
        }
        assert(m == t * (num / d)) by {
            lemma_mul_equality_converse(100, t * (num / d), m);
            lemma_mul_is_commutative(m, 100);
            lemma_mul_is_commutative(t * (num / d), 100);
        }
        assert(t == 10 * pow10((e - 3) as nat));
        assert(m == 10 * (pow10((e - 3) as nat) * (num / d))) by {
            lemma_mul_is_associative(10, pow10((e - 3) as nat), num / d);
        }
        assert(m % 10 == 0) by {
            lemma_mod_multiples_basic(pow10((e - 3) as nat) * (num / d), 10);
            lemma_mul_is_commutative(pow10((e - 3) as nat) * (num / d), 10);
        }
    }
}

proof fn lemma_pow10_unfold_twice(e: u32)
    requires
        e >= 2,
    ensures
        pow10(e as nat) == 100 * pow10((e - 2) as nat),
{
    assert(pow10((e - 1) as nat) == 10 * pow10((e - 2) as nat));
    assert(pow10(e as nat) == 10 * (10 * pow10((e - 2) as nat)));
    lemma_mul_is_associative(10, 10, pow10((e - 2) as nat));
}

proof fn lemma_pow10_small()
    ensures
        pow10(0) == 1,
        pow10(1) == 10,
        pow10(2) == 100,
{
    assert(pow10(1) == 10 * pow10(0));
    assert(pow10(2) == 10 * pow10(1));
}

/// A negative mantissa never denotes a (non-negative) amount of cents.
proof fn lemma_negative_none(m: i128, e: u32)
    requires
        m < 0,
    ensures
        cents_of_parts(m, e) == None::<u64>,
{
    let num = (m as int) * 100;
    let d = pow10(e as nat);
    lemma_pow10_pos(e as nat);
    assert(num < 0) by {
        lemma_mul_strict_inequality(m as int, 0, 100);
    }
    if num % d == 0 && num / d >= 0 {
        assert(num == d * (num / d)) by {
            lemma_fundamental_div_mod(num, d);
        }
        assert(d * (num / d) >= 0) by {
            lemma_mul_nonnegative(d, num / d);
        }
    }
}

/// Converts a parsed mantissa and scale to exact cents.
///
/// Returns `Some` exactly when `m / 10^e` is a non-negative whole number of
/// cents that fits in a `u64`.
pub fn cents_from_parts(m: i128, e: u32) -> (r: Option<u64>)
    ensures
        r == cents_of_parts(m, e),
{
    if m < 0 {
        proof {
            lemma_negative_none(m, e);
        }
        return None;
    }
    let mut mm: u128 = m as u128;
    let mut ee: u32 = e;
    proof {
        assert(cents_of_parts_int(mm as int, ee) == cents_of_parts(m, e));
    }
    while ee > 2 && mm % 10 == 0
        invariant
            cents_of_parts_int(mm as int, ee) == cents_of_parts(m, e),
        decreases ee,
    {
        proof {
            lemma_reduce_step(mm as int, ee);
        }
        mm = mm / 10;
        ee = ee - 1;
    }
    if ee > 2 {
        // Here the mantissa is not divisible by ten (and in particular not
        // zero), so the value has a fractional part below one cent.
        proof {
            lemma_irreducible_none(mm as int, ee);
        }
        None
    } else {
        let factor: u64 = if ee == 2 {
            1
        } else if ee == 1 {
            10
        } else {
            100
        };
        proof {
            lemma_pow10_small();
            lemma_small_scale(mm as int, ee, factor);
        }
        if mm > (u64::MAX as u128) {
            proof {
                lemma_mul_inequality(1, factor as int, mm as int);
                lemma_mul_is_commutative(factor as int, mm as int);
            }
            return None;
        }
        let v: u64 = mm as u64;
        if v > u64::MAX / factor {
            proof {
                lemma_factor_bound(v, factor);
            }
            return None;
        }
        proof {
            lemma_factor_bound(v, factor);
        }
        Some(v * factor)
    }
}

/// When the quantity bound holds, multiplying by the factor stays in range;
/// when it fails, the product is out of range.
proof fn lemma_factor_bound(v: u64, factor: u64)
    requires
        factor == 1 || factor == 10 || factor == 100,
    ensures
        v <= u64::MAX / factor ==> v * factor <= u64::MAX,
        v > u64::MAX / factor ==> v * factor > u64::MAX,
{
    let max = u64::MAX as int;
    if v <= max / (factor as int) {
        lemma_mul_inequality(v as int, max / (factor as int), factor as int);
        lemma_mul_is_commutative(max / (factor as int), factor as int);
        lemma_fundamental_div_mod(max, factor as int);
        lemma_mod_division_less_than_divisor(max, factor as int);
    } else {
        lemma_mul_inequality(max / (factor as int) + 1, v as int, factor as int);
        lemma_mul_is_distributive_add_other_way(factor as int, max / (factor as int), 1);
        lemma_fundamental_div_mod(max, factor as int);
        lemma_mod_division_less_than_divisor(max, factor as int);
        lemma_mul_is_commutative(max / (factor as int), factor as int);
    }
}

/// At scales of at most two, the denoted cents are the mantissa scaled up to
/// hundredths: `m * 100 / 10^e == m * 10^(2-e)`, always a whole number.
proof fn lemma_small_scale(m: int, e: u32, factor: u64)
    requires
        m >= 0,
        e <= 2,
        factor == pow10((2 - e) as nat),
    ensures
        cents_of_parts_int(m, e) == if m * factor <= u64::MAX {
            Some((m * factor) as u64)
        } else {
            None::<u64>
        },
{
    let num = m * 100;
    let d = pow10(e as nat);
    lemma_pow10_pos(e as nat);
    assert(100 == factor * d) by {
        lemma_pow10_small();
    }
    assert(num == (m * factor) * d) by {
        lemma_mul_is_associative(m, factor as int, d);
    }
    assert(num % d == 0) by {
        lemma_mod_multiples_basic(m * factor, d);
        lemma_mul_is_commutative(m * factor, d);
    }
    assert(num / d == m * factor) by {
        lemma_div_multiples_vanish(m * factor, d);
        lemma_mul_is_commutative(m * factor, d);
    }
    assert(m * factor >= 0) by {
        lemma_mul_nonnegative(m, factor as int);
    }
}

/// Reads price text as an exact, non-negative number of cents.
///
/// `"5.99"` becomes `Some(599)`; text that is not a decimal number, is
/// negative, has a fraction finer than one cent, or exceeds `u64::MAX` cents
/// becomes `None`.
pub fn parse_price(s: &str) -> (r: Option<u64>)
    ensures
        r == spec_parse_price(s@),
{
    match parse_decimal_parts(s) {
        Some((m, e)) => cents_from_parts(m, e),
        None => None,
    }
}

} // verus!
