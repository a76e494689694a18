//! Rounding of a quotient to a whole number of minor units.
use vstd::arithmetic::div_mod::{lemma_fundamental_div_mod, lemma_fundamental_div_mod_converse};
use vstd::prelude::*;

use super::{restore_sign, unsigned_abs, Money};

verus! {

/// Controls how a fractional minor-unit result is converted to a whole minor unit.
#[derive(Clone, Copy, Debug, PartialEq, Eq, Hash, Structural)]
pub enum RoundingMode {
    /// Discards the fractional remainder.
    TowardZero,
    /// Moves one minor unit farther from zero whenever a remainder exists.
    AwayFromZero,
    /// Rounds toward negative infinity.
    Floor,
    /// Rounds toward positive infinity.
    Ceiling,
    /// Rounds to the nearest minor unit, with exact halves moving away from zero.
    HalfAwayFromZero,
    /// Rounds to the nearest minor unit, with exact halves moving to the even integer.
    HalfEven,
}

/// Whether `mode` moves the magnitude `quotient + remainder / divisor` of a value with the
/// given sign up to `quotient + 1` (otherwise it stays at `quotient`).
pub open spec fn rounds_up(
    mode: RoundingMode,
    quotient: int,
    remainder: int,
    divisor: int,
    is_negative: bool,
) -> bool {
    remainder != 0 && match mode {
        RoundingMode::TowardZero => false,
        RoundingMode::AwayFromZero => true,
        RoundingMode::Floor => is_negative,
        RoundingMode::Ceiling => !is_negative,
        RoundingMode::HalfAwayFromZero => remainder >= divisor - remainder,
        RoundingMode::HalfEven => remainder > divisor - remainder || (remainder == divisor
            - remainder && quotient % 2 == 1),
    }
}

/// The magnitude of `magnitude / divisor` rounded by `mode`, for a value of the given sign.
pub open spec fn rounded_magnitude(
    mode: RoundingMode,
    magnitude: int,
    divisor: int,
    is_negative: bool,
) -> int {
    let q = magnitude / divisor;
    let r = magnitude % divisor;
    if rounds_up(mode, q, r, divisor, is_negative) {
        q + 1
    } else {
        q
    }
}

pub open spec fn abs(a: int) -> int {
    if a < 0 {
        -a
    } else {
        a
    }
}

/// A magnitude with a sign put back on it.
pub open spec fn signed(magnitude: int, is_negative: bool) -> int {
    if is_negative {
        -magnitude
    } else {
        magnitude
    }
}

/// `amount / divisor`, rounded to a whole number by `mode`.
pub open spec fn rounded_div(amount: int, divisor: int, mode: RoundingMode) -> int {
    signed(rounded_magnitude(mode, abs(amount), divisor, amount < 0), amount < 0)
}

impl RoundingMode {
    /// Rounds `quotient + remainder / divisor`, the magnitude of a value with the given sign.
    pub(crate) fn round_magnitude(self, quotient: u128, remainder: u128, divisor: u128, is_negative: bool) -> (r: u128)
        requires
            divisor > 0,
            remainder < divisor,
            remainder != 0 ==> quotient < u128::MAX,
        ensures
            r == if rounds_up(self, quotient as int, remainder as int, divisor as int, is_negative) {
                quotient + 1
            } else {
                quotient as int
            },
    {
        if remainder == 0 {
            return quotient;
        }
        let increment = match self {
            RoundingMode::TowardZero => false,
            RoundingMode::AwayFromZero => true,
            RoundingMode::Floor => is_negative,
            RoundingMode::Ceiling => !is_negative,
            RoundingMode::HalfAwayFromZero => match compare_remainder_to_half(remainder, divisor) {
                HalfComparison::Below => false,
                _ => true,
            },
            RoundingMode::HalfEven => match compare_remainder_to_half(remainder, divisor) {
                HalfComparison::Below => false,
                HalfComparison::Above => true,
                HalfComparison::Exactly => quotient % 2 == 1,
            },
        };
        if increment {
            quotient + 1
        } else {
            quotient
        }
    }
}

/// Where a remainder stands against half of the divisor.
#[derive(PartialEq, Eq, Structural)]
enum HalfComparison {
    Below,
    Exactly,
    Above,
}

/// Compares the remainder with the part of the divisor that it leaves, that is
/// `remainder` with `divisor / 2`, without computing `remainder * 2`.
fn compare_remainder_to_half(remainder: u128, divisor: u128) -> (r: HalfComparison)
    requires
        remainder <= divisor,
    ensures
        r == HalfComparison::Below <==> remainder < divisor - remainder,
        r == HalfComparison::Exactly <==> remainder == divisor - remainder,
        r == HalfComparison::Above <==> remainder > divisor - remainder,
{
    let complement = divisor - remainder;
    if remainder < complement {
        HalfComparison::Below
    } else if remainder == complement {
        HalfComparison::Exactly
    } else {
        HalfComparison::Above
    }
}

proof fn lemma_div_mod_parts(a: int, d: int)
    requires
        a >= 0,
        d > 0,
    ensures
        a == (a / d) * d + a % d,
        0 <= a % d < d,
        a / d >= 0,
{
    lemma_fundamental_div_mod(a, d);
    assert(d * (a / d) == (a / d) * d) by (nonlinear_arith);
    assert(a / d >= 0) by (nonlinear_arith)
        requires
            a >= 0,
            d > 0,
            a == (a / d) * d + a % d,
            0 <= a % d < d,
    ;
}

/// When the divisor divides the amount, every mode gives the exact quotient.
pub proof fn lemma_exact_division_ignores_mode(amount: int, divisor: int, mode: RoundingMode)
    requires
        divisor > 0,
        amount % divisor == 0,
    ensures
        rounded_div(amount, divisor, mode) == amount / divisor,
{
    lemma_fundamental_div_mod(amount, divisor);
    let q = amount / divisor;
    assert(amount == q * divisor) by (nonlinear_arith)
        requires
            amount == divisor * (amount / divisor) + amount % divisor,
            amount % divisor == 0,
            q == amount / divisor,
    ;
    if amount < 0 {
        assert(-amount == (-q) * divisor) by (nonlinear_arith)
            requires
                amount == q * divisor,
        ;
        lemma_fundamental_div_mod_converse(-amount, divisor, -q, 0);
    } else {
        lemma_fundamental_div_mod_converse(amount, divisor, q, 0);
    }
}

/// Whatever the mode, the rounded quotient is less than one unit away from the exact
/// one: `|rounded * divisor - amount| < divisor`.
pub proof fn lemma_rounding_error_below_one_unit(amount: int, divisor: int, mode: RoundingMode)
    requires
        divisor > 0,
    ensures
        abs(rounded_div(amount, divisor, mode) * divisor - amount) < divisor,
{
    let m = abs(amount);
    lemma_div_mod_parts(m, divisor);
    let q = m / divisor;
    let r = m % divisor;
    let rm = rounded_magnitude(mode, m, divisor, amount < 0);
    assert(abs(rm * divisor - m) < divisor) by (nonlinear_arith)
        requires
            m == q * divisor + r,
            0 <= r < divisor,
            rm == q || (rm == q + 1 && r > 0),
    ;
    assert(rounded_div(amount, divisor, mode) * divisor - amount == signed(rm * divisor - m, amount < 0))
        by (nonlinear_arith)
        requires
            rounded_div(amount, divisor, mode) == signed(rm, amount < 0),
            m == abs(amount),
    ;
}

/// `Floor` gives the greatest integer not above the exact quotient, `Ceiling` the least
/// integer not below it, and `TowardZero` drops the fraction of the magnitude.
pub proof fn lemma_directed_modes(amount: int, divisor: int)
    requires
        divisor > 0,
    ensures
        rounded_div(amount, divisor, RoundingMode::Floor) * divisor <= amount,
        amount < (rounded_div(amount, divisor, RoundingMode::Floor) + 1) * divisor,
        amount <= rounded_div(amount, divisor, RoundingMode::Ceiling) * divisor,
        (rounded_div(amount, divisor, RoundingMode::Ceiling) - 1) * divisor < amount,
        abs(rounded_div(amount, divisor, RoundingMode::TowardZero)) == abs(amount) / divisor,
        abs(amount) <= abs(rounded_div(amount, divisor, RoundingMode::AwayFromZero)) * divisor,
        (abs(rounded_div(amount, divisor, RoundingMode::AwayFromZero)) - 1) * divisor < abs(
            amount,
        ),
{
    let m = abs(amount);
    lemma_div_mod_parts(m, divisor);
    let q = m / divisor;
    let r = m % divisor;
    let f = rounded_div(amount, divisor, RoundingMode::Floor);
    let c = rounded_div(amount, divisor, RoundingMode::Ceiling);
    let away = abs(rounded_div(amount, divisor, RoundingMode::AwayFromZero));
    assert(m <= away * divisor && (away - 1) * divisor < m) by (nonlinear_arith)
        requires
            m == q * divisor + r,
            0 <= r < divisor,
            away == if r != 0 { q + 1 } else { q },
    ;
    if amount < 0 {
        assert(f * divisor <= amount < (f + 1) * divisor) by (nonlinear_arith)
            requires
                -amount == q * divisor + r,
                0 <= r < divisor,
                f == if r != 0 { -(q + 1) } else { -q },
        ;
        assert(amount <= c * divisor && (c - 1) * divisor < amount) by (nonlinear_arith)
            requires
                -amount == q * divisor + r,
                0 <= r < divisor,
                c == -q,
        ;
    } else {
        assert(f * divisor <= amount < (f + 1) * divisor) by (nonlinear_arith)
            requires
                amount == q * divisor + r,
                0 <= r < divisor,
                f == q,
        ;
        assert(amount <= c * divisor && (c - 1) * divisor < amount) by (nonlinear_arith)
            requires
                amount == q * divisor + r,
                0 <= r < divisor,
                c == if r != 0 { q + 1 } else { q },
        ;
    }
}

/// The two half modes round to a nearest integer: `2 * |rounded * divisor - amount| <= divisor`.
pub proof fn lemma_half_modes_are_nearest(amount: int, divisor: int, mode: RoundingMode)
    requires
        divisor > 0,
        mode == RoundingMode::HalfAwayFromZero || mode == RoundingMode::HalfEven,
    ensures
        2 * abs(rounded_div(amount, divisor, mode) * divisor - amount) <= divisor,
{
    let m = abs(amount);
    lemma_div_mod_parts(m, divisor);
    let q = m / divisor;
    let r = m % divisor;
    let rm = rounded_magnitude(mode, m, divisor, amount < 0);
    assert(2 * abs(rm * divisor - m) <= divisor) by (nonlinear_arith)
        requires
            m == q * divisor + r,
            0 <= r < divisor,
            r < divisor - r ==> rm == q,
            r > divisor - r ==> rm == q + 1,
            rm == q || rm == q + 1,
    ;
    assert(rounded_div(amount, divisor, mode) * divisor - amount == signed(rm * divisor - m, amount < 0))
        by (nonlinear_arith)
        requires
            rounded_div(amount, divisor, mode) == signed(rm, amount < 0),
            m == abs(amount),
    ;
}


/// What it means for `v` to be `n / d` rounded by `mode`, said by the error `v * d - n`
/// alone: the error is below one unit; `Floor` never overshoots, `Ceiling` never falls
/// short, `TowardZero` moves toward zero and `AwayFromZero` away from it; the half modes
/// are within half a unit, and an exact tie goes away from zero (`HalfAwayFromZero`) or to
/// an even result (`HalfEven`).
pub open spec fn is_rounded_quotient(v: int, n: int, d: int, mode: RoundingMode) -> bool {
    let e = v * d - n;
    &&& -d < e < d
    &&& match mode {
        RoundingMode::TowardZero => if n >= 0 {
            e <= 0
        } else {
            e >= 0
        },
        RoundingMode::AwayFromZero => if n >= 0 {
            e >= 0
        } else {
            e <= 0
        },
        RoundingMode::Floor => e <= 0,
        RoundingMode::Ceiling => e >= 0,
        RoundingMode::HalfAwayFromZero => 2 * abs(e) <= d && (2 * abs(e) == d ==> if n >= 0 {
            e > 0
        } else {
            e < 0
        }),
        RoundingMode::HalfEven => 2 * abs(e) <= d && (2 * abs(e) == d ==> v % 2 == 0),
    }
}

/// `rounded_div` rounds as each mode says: its result is a rounded quotient in the sense
/// of `is_rounded_quotient`, for every amount, positive divisor and mode.
pub proof fn lemma_rounded_div_is_rounded_quotient(n: int, d: int, mode: RoundingMode)
    requires
        d > 0,
    ensures
        is_rounded_quotient(rounded_div(n, d, mode), n, d, mode),
{
    let m = abs(n);
    lemma_div_mod_parts(m, d);
    let q = m / d;
    let r = m % d;
    let neg = n < 0;
    let rm = rounded_magnitude(mode, m, d, neg);
    let big_e = rm * d - m;
    let v = rounded_div(n, d, mode);
    assert(v * d - n == signed(big_e, neg)) by (nonlinear_arith)
        requires
            v == signed(rm, neg),
            m == abs(n),
            neg == (n < 0),
            big_e == rm * d - m,
    ;
    assert(rm == q ==> big_e == -r) by (nonlinear_arith)
        requires
            m == q * d + r,
            big_e == rm * d - m,
    ;
    assert(rm == q + 1 ==> big_e == d - r) by (nonlinear_arith)
        requires
            m == q * d + r,
            big_e == rm * d - m,
    ;
    if mode == RoundingMode::HalfEven && rounds_up(mode, q, r, d, neg) && r == d - r {
        assert(rm % 2 == 0);
        assert(signed(rm, neg) % 2 == 0) by (nonlinear_arith)
            requires
                rm % 2 == 0,
        ;
    }
    if mode == RoundingMode::HalfEven && !rounds_up(mode, q, r, d, neg) && r != 0 && r == d - r {
        assert(q % 2 == 0);
        assert(signed(rm, neg) % 2 == 0) by (nonlinear_arith)
            requires
                rm % 2 == 0,
        ;
    }
}

/// At most one value is a rounded quotient for given `n`, `d` and mode: together with
/// `lemma_rounded_div_is_rounded_quotient`, `is_rounded_quotient` says exactly what each
/// mode computes.
pub proof fn lemma_rounded_quotient_unique(v1: int, v2: int, n: int, d: int, mode: RoundingMode)
    requires
        d > 0,
        is_rounded_quotient(v1, n, d, mode),
        is_rounded_quotient(v2, n, d, mode),
    ensures
        v1 == v2,
{
    let e1 = v1 * d - n;
    let e2 = v2 * d - n;
    assert(-1 <= v1 - v2 <= 1) by (nonlinear_arith)
        requires
            e1 == v1 * d - n,
            e2 == v2 * d - n,
            -d < e1 < d,
            -d < e2 < d,
            d > 0,
    ;
    if v1 == v2 + 1 {
        assert(e1 == e2 + d) by (nonlinear_arith)
            requires
                e1 == v1 * d - n,
                e2 == v2 * d - n,
                v1 == v2 + 1,
        ;
        assert(v1 % 2 != v2 % 2);
    } else if v2 == v1 + 1 {
        assert(e2 == e1 + d) by (nonlinear_arith)
            requires
                e1 == v1 * d - n,
                e2 == v2 * d - n,
                v2 == v1 + 1,
        ;
        assert(v1 % 2 != v2 % 2);
    }
}

/// On an exact tie (the remainder is half the divisor), `HalfEven` gives an even result
/// and `HalfAwayFromZero` the result of larger magnitude.
pub proof fn lemma_ties(amount: int, divisor: int)
    requires
        divisor > 0,
        2 * (abs(amount) % divisor) == divisor,
    ensures
        rounded_div(amount, divisor, RoundingMode::HalfEven) % 2 == 0,
        abs(rounded_div(amount, divisor, RoundingMode::HalfAwayFromZero)) == abs(amount) / divisor
            + 1,
{
    let m = abs(amount);
    lemma_div_mod_parts(m, divisor);
    let q = m / divisor;
    let e = rounded_magnitude(RoundingMode::HalfEven, m, divisor, amount < 0);
    assert(e % 2 == 0);
    assert(signed(e, amount < 0) % 2 == 0) by (nonlinear_arith)
        requires
            e % 2 == 0,
    ;
}

impl Money {
    /// Divides the amount by `divisor`, rounding the quotient to a whole minor unit by
    /// `mode`. The result always fits, since its magnitude never exceeds the amount's.
    pub fn div_rounded(&self, divisor: u128, mode: RoundingMode) -> (r: Money)
        requires
            divisor > 0,
        ensures
            r.amount() == rounded_div(self.amount() as int, divisor as int, mode),
            is_rounded_quotient(r.amount() as int, self.amount() as int, divisor as int, mode),
            r.currency_view() == self.currency_view(),
    {
        let magnitude = unsigned_abs(self.minor_units());
        let is_negative = self.minor_units() < 0;
        let quotient = magnitude / divisor;
        let remainder = magnitude % divisor;
        proof {
            lemma_div_mod_parts(magnitude as int, divisor as int);
            assert(remainder != 0 ==> quotient + 1 <= magnitude) by (nonlinear_arith)
                requires
                    magnitude == quotient * divisor + remainder,
                    remainder < divisor,
                    quotient >= 0,
            ;
            assert(quotient <= magnitude) by (nonlinear_arith)
                requires
                    magnitude == quotient * divisor + remainder,
                    remainder >= 0,
                    divisor >= 1,
                    quotient >= 0,
            ;
        }
        let rounded = mode.round_magnitude(quotient, remainder, divisor, is_negative);
        proof {
            lemma_rounded_div_is_rounded_quotient(self.amount() as int, divisor as int, mode);
        }
        Money::from_minor_units(restore_sign(rounded, is_negative), self.currency().clone())
    }
}

} // verus!
