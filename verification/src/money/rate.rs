//! Basis-point rates and their application to money.
use vstd::prelude::*;

use super::quotient::mul_div_parts;
use super::rounding_mode::{
    abs, is_rounded_quotient, lemma_exact_division_ignores_mode,
    lemma_rounded_div_is_rounded_quotient, rounded_div, rounded_magnitude, signed, RoundingMode,
};
use super::{find_dot, fits_i128, parse_unsigned_u128, restore_sign, unsigned_abs, Money};
use crate::text::{
    all_digits, all_digits_in, chars_of, decimal_digits, digits_value, first_dot,
    lemma_decimal_digits, lemma_digit_not_white_space, lemma_digits_value_bound,
    lemma_first_dot, lemma_padded_digits, lemma_trim_identity, padded_digits, pow10,
    push_char, push_decimal, push_padded, trim, trim_bounds,
};

verus! {

/// A non-negative rate in basis points: one basis point is one hundredth of one percent,
/// so `10_000` basis points is `100.00%`.
#[derive(Clone, Copy, Debug, PartialEq, Eq, Hash, Structural)]
pub struct Rate {
    basis_points: u32,
}

/// An error returned when applying a [`Rate`] to [`Money`].
#[derive(Clone, Copy, Debug, PartialEq, Eq, Structural)]
pub enum MoneyRateError {
    /// The rated amount cannot be represented by the signed `i128` minor-unit storage.
    AmountOverflow,
}

/// An error returned when parsing a percentage into a [`Rate`].
#[derive(Clone, Copy, Debug, PartialEq, Eq, Structural)]
pub enum RateParseError {
    /// The trimmed input is empty.
    Empty,
    /// The input is not `digits%` or `digits.digits%`.
    InvalidFormat,
    /// The percentage has more than two fractional digits.
    TooManyFractionalDigits,
    /// The percentage exceeds `u32::MAX` basis points.
    RateOverflow,
}

/// The amount, in minor units, of `amount` at `basis_points`, rounded by `mode`.
pub open spec fn rated_amount(amount: int, basis_points: int, mode: RoundingMode) -> int {
    rounded_div(amount * basis_points, 10_000, mode)
}

/// The text of a rate: a percentage with exactly two fractional digits, e.g. `2.50%`.
pub open spec fn rate_text(basis_points: nat) -> Seq<char> {
    decimal_digits(basis_points / 100) + seq!['.'] + padded_digits(basis_points % 100, 2)
        + seq!['%']
}

/// The basis points that a percentage text denotes, or the error that parsing it meets
/// first. Surrounding whitespace is ignored; the text must be `digits%` or
/// `digits.digits%` with at most two fractional digits.
pub open spec fn parse_percentage(input: Seq<char>) -> Result<nat, RateParseError> {
    let t = trim(input);
    if t.len() == 0 {
        Err(RateParseError::Empty)
    } else if t.last() != '%' {
        Err(RateParseError::InvalidFormat)
    } else {
        let body = t.drop_last();
        let k = first_dot(body) as int;
        let whole = body.take(k);
        let has_fraction = k < body.len();
        let fraction = body.skip(k + 1);
        if whole.len() == 0 || !all_digits(whole) || (has_fraction && (fraction.len() == 0
            || !all_digits(fraction))) {
            Err(RateParseError::InvalidFormat)
        } else if has_fraction && fraction.len() > 2 {
            Err(RateParseError::TooManyFractionalDigits)
        } else {
            let basis_points = digits_value(whole) * 100 + if has_fraction {
                digits_value(fraction) * pow10((2 - fraction.len()) as nat)
            } else {
                0
            };
            if basis_points > u32::MAX {
                Err(RateParseError::RateOverflow)
            } else {
                Ok(basis_points)
            }
        }
    }
}

impl Rate {
    /// The rate in basis points.
    pub closed spec fn bp(&self) -> u32 {
        self.basis_points
    }

    /// Creates a rate from basis points.
    pub fn from_basis_points(basis_points: u32) -> (r: Rate)
        ensures
            r.bp() == basis_points,
    {
        Rate { basis_points }
    }

    /// Two rates are equal exactly when their basis points are.
    pub proof fn lemma_equality(a: Rate, b: Rate)
        ensures
            (a == b) <==> (a.bp() == b.bp()),
    {
    }

    /// Returns the rate expressed as basis points.
    pub fn basis_points(self) -> (r: u32)
        ensures
            r == self.bp(),
    {
        self.basis_points
    }

    fn denominator() -> (r: u128)
        ensures
            r == 10_000,
    {
        10_000
    }

    /// The rate as a percentage with exactly two fractional digits, e.g. `2.50%`.
    pub fn to_string(self) -> (r: String)
        ensures
            r@ == rate_text(self.bp() as nat),
    {
        let mut s = String::new();
        push_decimal(&mut s, (self.basis_points / 100) as u128);
        push_char(&mut s, '.');
        push_padded(&mut s, (self.basis_points % 100) as u128, 2);
        push_char(&mut s, '%');
        assert(s@ =~= rate_text(self.bp() as nat));
        s
    }

    /// Parses a percentage such as `2.5%` or `100.00%` into basis points, exactly.
    pub fn parse_percentage(input: &str) -> (r: Result<Rate, RateParseError>)
        ensures
            match r {
                Ok(rate) => parse_percentage(input@) == Ok::<nat, RateParseError>(
                    rate.bp() as nat,
                ),
                Err(e) => parse_percentage(input@) == Err::<nat, RateParseError>(e),
            },
    {
        let chars = chars_of(input);
        let (start, end) = trim_bounds(&chars);
        let ghost t = chars@.subrange(start as int, end as int);
        if start == end {
            return Err(RateParseError::Empty);
        }
        if chars[end - 1] != '%' {
            return Err(RateParseError::InvalidFormat);
        }
        let body_end = end - 1;
        let ghost body = chars@.subrange(start as int, body_end as int);
        assert(t.drop_last() =~= body);
        let k = find_dot(&chars, start, body_end);
        let ghost kk = k - start;
        assert(body.take(kk) =~= chars@.subrange(start as int, k as int));
        if k < body_end {
            assert(body.skip(kk + 1) =~= chars@.subrange(k + 1, body_end as int));
        }
        let has_fraction = k < body_end;
        if k == start || !all_digits_in(&chars, start, k) || (has_fraction && (k + 1 == body_end
            || !all_digits_in(&chars, k + 1, body_end))) {
            return Err(RateParseError::InvalidFormat);
        }
        if has_fraction && body_end - (k + 1) > 2 {
            return Err(RateParseError::TooManyFractionalDigits);
        }
        let whole = match parse_unsigned_u128(&chars, start, k) {
            Ok(x) => x,
            Err(_) => {
                return Err(RateParseError::RateOverflow);
            },
        };
        let mut basis_points: u128 = match whole.checked_mul(100) {
            Some(x) => x,
            None => {
                return Err(RateParseError::RateOverflow);
            },
        };
        if has_fraction {
            let ghost fraction = chars@.subrange(k + 1, body_end as int);
            let fraction_value = match parse_unsigned_u128(&chars, k + 1, body_end) {
                Ok(x) => x,
                Err(_) => {
                    proof {
                        lemma_digits_value_bound(fraction);
                        assert(pow10(fraction.len()) <= 100) by {
                            reveal_with_fuel(pow10, 3);
                        }
                    }
                    return Err(RateParseError::RateOverflow);
                },
            };
            proof {
                lemma_digits_value_bound(fraction);
                assert(fraction.len() == body_end - (k + 1));
                reveal_with_fuel(pow10, 3);
            }
            let scaled = if body_end - (k + 1) == 1 {
                assert(pow10((2 - fraction.len()) as nat) == 10);
                fraction_value * 10
            } else {
                assert(pow10((2 - fraction.len()) as nat) == 1);
                assert(fraction_value * 1 == fraction_value) by (nonlinear_arith);
                fraction_value
            };
            assert(scaled == digits_value(fraction) * pow10((2 - fraction.len()) as nat));
            basis_points = match basis_points.checked_add(scaled) {
                Some(x) => x,
                None => {
                    return Err(RateParseError::RateOverflow);
                },
            };
        }
        assert(basis_points == digits_value(body.take(kk)) * 100 + if has_fraction {
            digits_value(body.skip(kk + 1)) * pow10((2 - body.skip(kk + 1).len()) as nat)
        } else {
            0
        });
        if basis_points > u32::MAX as u128 {
            return Err(RateParseError::RateOverflow);
        }
        Ok(Rate { basis_points: basis_points as u32 })
    }
}

impl std::str::FromStr for Rate {
    type Err = RateParseError;

    fn from_str(input: &str) -> (r: Result<Rate, RateParseError>)
        ensures
            match r {
                Ok(rate) => parse_percentage(input@) == Ok::<nat, RateParseError>(
                    rate.bp() as nat,
                ),
                Err(e) => parse_percentage(input@) == Err::<nat, RateParseError>(e),
            },
    {
        Rate::parse_percentage(input)
    }
}

impl MoneyRateError {
    /// The error message.
    pub fn to_string(&self) -> (r: String)
        ensures
            r@ == "rated money amount overflowed"@,
    {
        String::from_str("rated money amount overflowed")
    }
}

impl RateParseError {
    /// The error message.
    pub fn to_string(&self) -> (r: String)
        ensures
            r@ == match *self {
                RateParseError::Empty => "rate percentage is empty"@,
                RateParseError::InvalidFormat => "rate percentage format is invalid"@,
                RateParseError::TooManyFractionalDigits =>
                    "rate percentage has more than two fractional digits"@,
                RateParseError::RateOverflow => "rate percentage exceeds u32 basis points"@,
            },
    {
        match self {
            RateParseError::Empty => String::from_str("rate percentage is empty"),
            RateParseError::InvalidFormat => String::from_str("rate percentage format is invalid"),
            RateParseError::TooManyFractionalDigits => String::from_str(
                "rate percentage has more than two fractional digits",
            ),
            RateParseError::RateOverflow => String::from_str(
                "rate percentage exceeds u32 basis points",
            ),
        }
    }
}

/// Whether a magnitude with the given sign falls outside `i128`.
fn exceeds_signed_range(magnitude: u128, is_negative: bool) -> (r: bool)
    ensures
        r == !fits_i128(signed(magnitude as int, is_negative)),
{
    if is_negative {
        magnitude > 0x8000_0000_0000_0000_0000_0000_0000_0000u128
    } else {
        magnitude > i128::MAX as u128
    }
}

/// `value * multiplier / denominator` as quotient and remainder.
fn mul_div(value: u128, multiplier: u128, denominator: u128) -> (r: Result<
    (u128, u128),
    MoneyRateError,
>)
    requires
        denominator > 0,
    ensures
        match r {
            Ok((q, rem)) => {
                &&& q == (value * multiplier) / (denominator as int)
                &&& rem == (value * multiplier) % (denominator as int)
            },
            Err(_) => (value * multiplier) / (denominator as int) > u128::MAX,
        },
{
    match mul_div_parts(value, multiplier, denominator) {
        Some(parts) => Ok(parts),
        None => Err(MoneyRateError::AmountOverflow),
    }
}

impl Money {
    /// Applies a basis-point rate, rounding the result by `mode`. Integer arithmetic only.
    ///
    /// Fails with `AmountOverflow` exactly when the rounded result does not fit in `i128`.
    pub fn apply_rate(&self, rate: Rate, mode: RoundingMode) -> (r: Result<Money, MoneyRateError>)
        ensures
            match r {
                Ok(m) => {
                    &&& fits_i128(rated_amount(self.amount() as int, rate.bp() as int, mode))
                    &&& m.amount() == rated_amount(self.amount() as int, rate.bp() as int, mode)
                    &&& is_rounded_quotient(
                        m.amount() as int,
                        self.amount() * rate.bp(),
                        10_000,
                        mode,
                    )
                    &&& m.currency_view() == self.currency_view()
                },
                Err(MoneyRateError::AmountOverflow) => !fits_i128(
                    rated_amount(self.amount() as int, rate.bp() as int, mode),
                ),
            },
    {
        let magnitude = unsigned_abs(self.minor_units());
        let is_negative = self.minor_units() < 0;
        let ghost a = self.amount() as int;
        let ghost bp = rate.bp() as int;
        let ghost product = a * bp;
        proof {
            assert(abs(product) == magnitude * bp) by (nonlinear_arith)
                requires
                    product == a * bp,
                    magnitude == abs(a),
                    bp >= 0,
            ;
            assert(product < 0 <==> (is_negative && bp > 0)) by (nonlinear_arith)
                requires
                    product == a * bp,
                    is_negative == (a < 0),
                    bp >= 0,
            ;
        }
        let (quotient, remainder) = match mul_div(
            magnitude,
            rate.basis_points() as u128,
            Self::rate_denominator(),
        ) {
            Ok(parts) => parts,
            Err(e) => {
                proof {
                    lemma_rounded_at_least_quotient(mode, magnitude * bp, 10_000, product < 0);
                }
                return Err(e);
            },
        };
        if quotient == u128::MAX {
            proof {
                lemma_rounded_at_least_quotient(mode, magnitude * bp, 10_000, product < 0);
            }
            return Err(MoneyRateError::AmountOverflow);
        }
        let rounded = mode.round_magnitude(
            quotient,
            remainder,
            Self::rate_denominator(),
            is_negative,
        );
        proof {
            if bp == 0 {
                assert(magnitude * bp == 0) by (nonlinear_arith)
                    requires
                        bp == 0,
                ;
            }
            assert(rounded == rounded_magnitude(mode, abs(product), 10_000, product < 0));
        }
        if exceeds_signed_range(rounded, is_negative) {
            return Err(MoneyRateError::AmountOverflow);
        }
        proof {
            lemma_rated_amount_rounds_the_product(a, bp, mode);
        }
        Ok(Money::from_minor_units(
            restore_sign(rounded, is_negative),
            self.currency().clone(),
        ))
    }

    fn rate_denominator() -> (r: u128)
        ensures
            r == 10_000,
    {
        Rate::denominator()
    }
}

/// Rounding never goes below the truncated quotient.
proof fn lemma_rounded_at_least_quotient(mode: RoundingMode, magnitude: int, divisor: int, is_negative: bool)
    requires
        magnitude >= 0,
        divisor > 0,
    ensures
        rounded_magnitude(mode, magnitude, divisor, is_negative) >= magnitude / divisor,
{
}


/// Parsing the text of any rate gives back exactly that rate.
pub proof fn lemma_rate_text_parses_back(basis_points: u32)
    ensures
        parse_percentage(rate_text(basis_points as nat)) == Ok::<nat, RateParseError>(
            basis_points as nat,
        ),
{
    let bp = basis_points as nat;
    let q = bp / 100;
    let r = bp % 100;
    let d = decimal_digits(q);
    let p = padded_digits(r, 2);
    lemma_decimal_digits(q);
    lemma_padded_digits(r, 2);
    assert(pow10(2) == 100) by {
        reveal_with_fuel(pow10, 3);
    }
    vstd::arithmetic::div_mod::lemma_mod_twice(bp as int, 100);
    let text = rate_text(bp);
    let body = d + seq!['.'] + p;
    assert(text =~= body + seq!['%']);
    lemma_digit_not_white_space(d[0]);
    assert(text[0] == d[0]);
    assert(!crate::text::is_white_space('%'));
    lemma_trim_identity(text);
    assert(text.drop_last() =~= body);
    assert forall|j: int| 0 <= j < d.len() implies body[j] != '.' by {
        assert(body[j] == d[j]);
        lemma_digit_not_white_space(d[j]);
    }
    lemma_first_dot(body, d.len() as int);
    assert(body.take(d.len() as int) =~= d);
    assert(body.skip(d.len() as int + 1) =~= p);
    assert(pow10(0) == 1);
    vstd::arithmetic::div_mod::lemma_fundamental_div_mod(bp as int, 100);
    let t = trim(text);
    assert(t == text);
    assert(t.last() == '%');
    assert(first_dot(body) == d.len());
    assert(d.len() < body.len());
    assert(p.len() == 2);
    assert(digits_value(p) == r);
    assert((2 - p.len()) as nat == 0);
    assert(digits_value(p) * 1 == r) by (nonlinear_arith)
        requires
            digits_value(p) == r,
    ;
    assert(digits_value(p) * pow10((2 - p.len()) as nat) == r);
    assert(digits_value(d) * 100 + r == bp);
    assert(parse_percentage(text) == Ok::<nat, RateParseError>(bp));
}

/// The rated amount is the exact product `amount * basis_points / 10_000` rounded as the
/// mode says (`is_rounded_quotient`): within one minor unit of it for every rate, and on the
/// side, or to the nearest value, that the mode names.
pub proof fn lemma_rated_amount_rounds_the_product(amount: int, basis_points: int, mode: RoundingMode)
    ensures
        is_rounded_quotient(
            rated_amount(amount, basis_points, mode),
            amount * basis_points,
            10_000,
            mode,
        ),
{
    lemma_rounded_div_is_rounded_quotient(amount * basis_points, 10_000, mode);
}

/// Applying `100.00%` (10 000 basis points) returns the amount unchanged, in every mode.
pub proof fn lemma_full_rate_is_identity(amount: int, mode: RoundingMode)
    ensures
        rated_amount(amount, 10_000, mode) == amount,
{
    assert((amount * 10_000) % 10_000 == 0 && (amount * 10_000) / 10_000 == amount) by {
        vstd::arithmetic::div_mod::lemma_fundamental_div_mod_converse(amount * 10_000, 10_000, amount, 0);
    }
    lemma_exact_division_ignores_mode(amount * 10_000, 10_000, mode);
}

/// Applying `0.00%` gives zero, in every mode.
pub proof fn lemma_zero_rate_is_zero(amount: int, mode: RoundingMode)
    ensures
        rated_amount(amount, 0, mode) == 0,
{
    assert(amount * 0 == 0);
}

} // verus!
