//! Exact `value * multiplier / denominator` on `u128` without a wider integer type.
//!
//! The product is built by binary multiplication, each partial term kept as a quotient
//! and remainder modulo the denominator, so no intermediate value exceeds the quotient
//! that the caller asked for.
use vstd::arithmetic::div_mod::{
    lemma_div_is_ordered, lemma_fundamental_div_mod, lemma_fundamental_div_mod_converse,
};
use vstd::arithmetic::mul::lemma_mul_inequality;
use vstd::prelude::*;

verus! {

/// `(value * a) / den <= (value * b) / den` when `a <= b`.
pub(crate) proof fn lemma_quotient_grows(value: int, a: int, b: int, den: int)
    requires
        0 <= value,
        0 <= a <= b,
        den > 0,
    ensures
        (value * a) / den <= (value * b) / den,
{
    lemma_mul_inequality(a, b, value);
    assert(value * a == a * value) by (nonlinear_arith);
    assert(value * b == b * value) by (nonlinear_arith);
    lemma_div_is_ordered(value * a, value * b, den);
}

/// Quotient and remainder of `q * den + r` when `r < den`.
pub(crate) proof fn lemma_split(q: int, r: int, den: int)
    requires
        den > 0,
        0 <= r < den,
    ensures
        (q * den + r) / den == q,
        (q * den + r) % den == r,
{
    lemma_fundamental_div_mod_converse(q * den + r, den, q, r);
}

/// Adds `addend_quotient * den + addend_remainder` to the target quotient and remainder.
///
/// Returns `false`, leaving the combined value unrepresented, exactly when the combined
/// quotient exceeds `u128::MAX`.
pub(crate) fn add_quotient_remainder(
    target_quotient: &mut u128,
    target_remainder: &mut u128,
    addend_quotient: u128,
    addend_remainder: u128,
    denominator: u128,
) -> (ok: bool)
    requires
        denominator > 0,
        *old(target_remainder) < denominator,
        addend_remainder < denominator,
    ensures
        ok ==> {
            &&& *final(target_quotient) * denominator + *final(target_remainder) == *old(
                target_quotient,
            ) * denominator + *old(target_remainder) + addend_quotient * denominator
                + addend_remainder
            &&& *final(target_remainder) < denominator
        },
        !ok ==> (*old(target_quotient) * denominator + *old(target_remainder) + addend_quotient
            * denominator + addend_remainder) / (denominator as int) > u128::MAX,
{
    let ghost tq = *target_quotient as int;
    let ghost tr = *target_remainder as int;
    let ghost d = denominator as int;
    proof {
        assert(tq * d + tr + addend_quotient * d + addend_remainder == (tq + addend_quotient) * d
            + (tr + addend_remainder)) by (nonlinear_arith);
    }
    match target_quotient.checked_add(addend_quotient) {
        Some(sum) => {
            *target_quotient = sum;
        },
        None => {
            proof {
                if tr + addend_remainder < d {
                    lemma_split(tq + addend_quotient, tr + addend_remainder, d);
                } else {
                    assert((tq + addend_quotient) * d + (tr + addend_remainder) == (tq
                        + addend_quotient + 1) * d + (tr + addend_remainder - d))
                        by (nonlinear_arith);
                    lemma_split(tq + addend_quotient + 1, tr + addend_remainder - d, d);
                }
            }
            return false;
        },
    }
    if addend_remainder == 0 {
        return true;
    }
    let carry_threshold = denominator - addend_remainder;
    if *target_remainder >= carry_threshold {
        *target_remainder = *target_remainder - carry_threshold;
        match target_quotient.checked_add(1) {
            Some(sum) => {
                *target_quotient = sum;
            },
            None => {
                proof {
                    assert((tq + addend_quotient) * d + (tr + addend_remainder) == (tq
                        + addend_quotient + 1) * d + (tr + addend_remainder - d))
                        by (nonlinear_arith);
                    lemma_split(tq + addend_quotient + 1, tr + addend_remainder - d, d);
                }
                return false;
            },
        }
        proof {
            assert((tq + addend_quotient) * d + (tr + addend_remainder) == (tq + addend_quotient
                + 1) * d + (tr + addend_remainder - d)) by (nonlinear_arith);
        }
    } else {
        *target_remainder = *target_remainder + addend_remainder;
    }
    true
}

/// Doubles a value held as `quotient * den + remainder`.
///
/// Returns `None` exactly when the doubled quotient exceeds `u128::MAX`.
pub(crate) fn double_quotient_remainder(quotient: u128, remainder: u128, denominator: u128) -> (r:
    Option<(u128, u128)>)
    requires
        denominator > 0,
        remainder < denominator,
    ensures
        match r {
            Some((q, rem)) => {
                &&& q * denominator + rem == 2 * (quotient * denominator + remainder)
                &&& rem < denominator
            },
            None => (2 * (quotient * denominator + remainder)) / (denominator as int) > u128::MAX,
        },
{
    let ghost q = quotient as int;
    let ghost rm = remainder as int;
    let ghost d = denominator as int;
    proof {
        assert(2 * (q * d + rm) == (2 * q) * d + 2 * rm) by (nonlinear_arith);
        assert((2 * q) * d + 2 * rm == (2 * q + 1) * d + (2 * rm - d)) by (nonlinear_arith);
    }
    let mut doubled_quotient = match quotient.checked_mul(2) {
        Some(v) => v,
        None => {
            proof {
                if 2 * rm < d {
                    lemma_split(2 * q, 2 * rm, d);
                } else {
                    lemma_split(2 * q + 1, 2 * rm - d, d);
                }
            }
            return None;
        },
    };
    let doubled_remainder = if remainder >= denominator - remainder {
        doubled_quotient = match doubled_quotient.checked_add(1) {
            Some(v) => v,
            None => {
                proof {
                    lemma_split(2 * q + 1, 2 * rm - d, d);
                }
                return None;
            },
        };
        remainder - (denominator - remainder)
    } else {
        remainder + remainder
    };
    Some((doubled_quotient, doubled_remainder))
}

/// `value * multiplier` divided by `denominator`, as quotient and remainder.
///
/// Returns `None` exactly when the quotient exceeds `u128::MAX`.
pub(crate) fn mul_div_parts(value: u128, multiplier: u128, denominator: u128) -> (r: Option<
    (u128, u128),
>)
    requires
        denominator > 0,
    ensures
        match r {
            Some((q, rem)) => {
                &&& q == (value * multiplier) / (denominator as int)
                &&& rem == (value * multiplier) % (denominator as int)
            },
            None => (value * multiplier) / (denominator as int) > u128::MAX,
        },
{
    let ghost d = denominator as int;
    let ghost v = value as int;
    let mut result_quotient: u128 = 0;
    let mut result_remainder: u128 = 0;
    let mut addend_quotient = value / denominator;
    let mut addend_remainder = value % denominator;
    let mut remaining_multiplier = multiplier;
    let ghost mut low: int = 0;
    let ghost mut pw: int = 1;
    proof {
        lemma_fundamental_div_mod(v, d);
        assert(addend_quotient * d + addend_remainder == v) by (nonlinear_arith)
            requires
                addend_quotient == v / d,
                addend_remainder == v % d,
                v == d * (v / d) + v % d,
        ;
    }
    while remaining_multiplier > 0
        invariant
            d == denominator > 0,
            v == value,
            result_remainder < denominator,
            addend_remainder < denominator,
            pw >= 1,
            0 <= low < pw,
            multiplier == remaining_multiplier * pw + low,
            result_quotient * d + result_remainder == v * low,
            remaining_multiplier > 0 ==> addend_quotient * d + addend_remainder == v * pw,
        decreases remaining_multiplier,
    {
        let ghost m = remaining_multiplier as int;
        proof {
            let mm = remaining_multiplier;
            assert(mm & 1 == mm % 2) by (bit_vector);
            assert(mm >> 1 == mm / 2) by (bit_vector);
        }
        if remaining_multiplier & 1 == 1 {
            let ghost old_q = result_quotient as int;
            let ghost old_r = result_remainder as int;
            if !add_quotient_remainder(
                &mut result_quotient,
                &mut result_remainder,
                addend_quotient,
                addend_remainder,
                denominator,
            ) {
                proof {
                    assert(old_q * d + old_r + addend_quotient * d + addend_remainder == v * (low
                        + pw)) by (nonlinear_arith)
                        requires
                            old_q * d + old_r == v * low,
                            addend_quotient * d + addend_remainder == v * pw,
                    ;
                    assert(multiplier >= low + pw) by (nonlinear_arith)
                        requires
                            multiplier == m * pw + low,
                            m >= 1,
                            pw >= 1,
                    ;
                    lemma_quotient_grows(v, low + pw, multiplier as int, d);
                }
                return None;
            }
            proof {
                assert(result_quotient * d + result_remainder == v * (low + pw)) by (nonlinear_arith)
                    requires
                        result_quotient * d + result_remainder == old_q * d + old_r
                            + addend_quotient * d + addend_remainder,
                        old_q * d + old_r == v * low,
                        addend_quotient * d + addend_remainder == v * pw,
                ;
                assert(multiplier == (m / 2) * (2 * pw) + (low + pw)) by (nonlinear_arith)
                    requires
                        multiplier == m * pw + low,
                        m % 2 == 1,
                        m == 2 * (m / 2) + m % 2,
                ;
                low = low + pw;
            }
        } else {
            proof {
                assert(multiplier == (m / 2) * (2 * pw) + low) by (nonlinear_arith)
                    requires
                        multiplier == m * pw + low,
                        m % 2 == 0,
                        m == 2 * (m / 2) + m % 2,
                ;
            }
        }
        remaining_multiplier = remaining_multiplier >> 1;
        if remaining_multiplier > 0 {
            let ghost aq0 = addend_quotient as int;
            let ghost ar0 = addend_remainder as int;
            match double_quotient_remainder(addend_quotient, addend_remainder, denominator) {
                Some((q, r)) => {
                    addend_quotient = q;
                    addend_remainder = r;
                },
                None => {
                    proof {
                        let rm = remaining_multiplier as int;
                        assert(2 * (addend_quotient * d + addend_remainder) == v * (2 * pw))
                            by (nonlinear_arith)
                            requires
                                addend_quotient * d + addend_remainder == v * pw,
                        ;
                        assert(multiplier >= 2 * pw) by (nonlinear_arith)
                            requires
                                multiplier == rm * (2 * pw) + low,
                                rm >= 1,
                                low >= 0,
                                pw >= 1,
                        ;
                        lemma_quotient_grows(v, 2 * pw, multiplier as int, d);
                    }
                    return None;
                },
            }
            proof {
                assert(addend_quotient * d + addend_remainder == v * (2 * pw)) by (nonlinear_arith)
                    requires
                        addend_quotient * d + addend_remainder == 2 * (aq0 * d + ar0),
                        aq0 * d + ar0 == v * pw,
                ;
            }
        }
        proof {
            pw = 2 * pw;
        }
    }
    proof {
        assert(multiplier == low);
        lemma_split(result_quotient as int, result_remainder as int, d);
    }
    Some((result_quotient, result_remainder))
}

} // verus!
