//! Exact monetary amounts in a currency's minor units.
mod quotient;
pub mod rounding_mode;
pub mod rate;
pub mod allocation;
pub mod fee_formula;
pub mod minor_units;

use vstd::prelude::*;

use crate::currency::Currency;
use crate::text::{
    all_digits, chars_of, decimal_digits, digit_value, digits_value, first_dot,
    is_ascii_digit, is_ascii_digit_char, lemma_digits_value_bound, lemma_digits_value_prefix,
    lemma_digits_value_step, lemma_first_dot, lemma_pow10_add, lemma_pow10_monotone,
    lemma_pow10_positive, lemma_utf8_len_of_digits, lemma_decimal_digits, lemma_padded_digits,
    lemma_trim_identity, lemma_digit_not_white_space, padded_digits, pow10, pow10_u128,
    push_char, push_decimal, push_padded, trim, trim_bounds, utf8_len, utf8_width,
};
use self::rounding_mode::{abs, signed};

verus! {

/// `2^127`, the magnitude of `i128::MIN`.
pub open spec fn i128_min_magnitude() -> int {
    0x8000_0000_0000_0000_0000_0000_0000_0000
}

/// Whether a signed amount fits in `i128` minor units.
pub open spec fn fits_i128(a: int) -> bool {
    i128::MIN <= a <= i128::MAX
}

/// Two currencies are the same definition: same code and same minor-unit scale.
pub open spec fn same_currency(a: Currency, b: Currency) -> bool {
    a.code_view() == b.code_view() && a.scale() == b.scale()
}

/// An exact monetary amount expressed in a currency's minor units.
#[derive(Debug, PartialEq, Eq, Hash)]
pub struct Money {
    minor_units: i128,
    currency: Currency,
}

/// An error of same-currency arithmetic.
#[derive(Clone, Copy, Debug, PartialEq, Eq, Structural)]
pub enum MoneyError {
    CurrencyMismatch,
    AmountOverflow,
}

/// An error of parsing a major-unit amount.
#[derive(Clone, Copy, Debug, PartialEq, Eq, Structural)]
pub enum MoneyParseError {
    Empty,
    InvalidFormat,
    TooManyFractionalDigits,
    AmountOverflow,
}

impl Clone for Money {
    fn clone(&self) -> (r: Self)
        ensures
            r == *self,
    {
        Money { minor_units: self.minor_units, currency: self.currency.clone() }
    }
}

impl Money {
    /// The signed amount in minor units.
    pub closed spec fn amount(&self) -> i128 {
        self.minor_units
    }

    /// The currency of the amount.
    pub closed spec fn currency_view(&self) -> Currency {
        self.currency
    }

    /// Creates an exact monetary amount from minor units and a validated currency.
    pub fn from_minor_units(minor_units: i128, currency: Currency) -> (r: Money)
        ensures
            r.amount() == minor_units,
            r.currency_view() == currency,
    {
        Money { minor_units, currency }
    }

    /// Returns the signed amount expressed in the currency's minor units.
    pub fn minor_units(&self) -> (r: i128)
        ensures
            r == self.amount(),
    {
        self.minor_units
    }

    /// Returns the currency associated with this amount.
    pub fn currency(&self) -> (r: &Currency)
        ensures
            *r == self.currency_view(),
    {
        &self.currency
    }

    /// Adds another amount of money with the same currency definition.
    ///
    /// Fails with `CurrencyMismatch` when the codes or the minor-unit scales differ, and
    /// with `AmountOverflow` when the sum does not fit in `i128`.
    pub fn checked_add(&self, other: &Money) -> (r: Result<Money, MoneyError>)
        ensures
            match r {
                Ok(m) => {
                    &&& same_currency(self.currency_view(), other.currency_view())
                    &&& fits_i128(self.amount() + other.amount())
                    &&& m.amount() == self.amount() + other.amount()
                    &&& m.currency_view() == self.currency_view()
                },
                Err(MoneyError::CurrencyMismatch) => !same_currency(
                    self.currency_view(),
                    other.currency_view(),
                ),
                Err(MoneyError::AmountOverflow) => {
                    &&& same_currency(self.currency_view(), other.currency_view())
                    &&& !fits_i128(self.amount() + other.amount())
                },
            },
    {
        if !Self::validated_currency(self, other) {
            return Err(MoneyError::CurrencyMismatch);
        }
        match self.minor_units().checked_add(other.minor_units) {
            Some(value) => Ok(Money::from_minor_units(value, self.currency.clone())),
            None => Err(MoneyError::AmountOverflow),
        }
    }

    /// Subtracts another amount of money with the same currency definition. Negative
    /// results are allowed.
    ///
    /// Fails with `CurrencyMismatch` when the codes or the minor-unit scales differ, and
    /// with `AmountOverflow` when the difference does not fit in `i128`.
    pub fn checked_sub(&self, other: &Money) -> (r: Result<Money, MoneyError>)
        ensures
            match r {
                Ok(m) => {
                    &&& same_currency(self.currency_view(), other.currency_view())
                    &&& fits_i128(self.amount() - other.amount())
                    &&& m.amount() == self.amount() - other.amount()
                    &&& m.currency_view() == self.currency_view()
                },
                Err(MoneyError::CurrencyMismatch) => !same_currency(
                    self.currency_view(),
                    other.currency_view(),
                ),
                Err(MoneyError::AmountOverflow) => {
                    &&& same_currency(self.currency_view(), other.currency_view())
                    &&& !fits_i128(self.amount() - other.amount())
                },
            },
    {
        if !Self::validated_currency(self, other) {
            return Err(MoneyError::CurrencyMismatch);
        }
        match self.minor_units().checked_sub(other.minor_units) {
            Some(value) => Ok(Money::from_minor_units(value, self.currency.clone())),
            None => Err(MoneyError::AmountOverflow),
        }
    }

    fn validated_currency(left: &Money, right: &Money) -> (r: bool)
        ensures
            r == same_currency(left.currency_view(), right.currency_view()),
    {
        left.currency().same_definition(right.currency())
    }
}

impl MoneyError {
    /// The error message.
    pub fn to_string(&self) -> (r: String)
        ensures
            r@ == match *self {
                MoneyError::CurrencyMismatch => "Currency validation failed"@,
                MoneyError::AmountOverflow =>
                    "Amount overflow while performing addition or subtraction"@,
            },
    {
        match self {
            MoneyError::CurrencyMismatch => String::from_str("Currency validation failed"),
            MoneyError::AmountOverflow => String::from_str(
                "Amount overflow while performing addition or subtraction",
            ),
        }
    }
}

impl MoneyParseError {
    /// The error message.
    pub fn to_string(&self) -> (r: String)
        ensures
            r@ == match *self {
                MoneyParseError::Empty => "money amount is empty"@,
                MoneyParseError::InvalidFormat => "money amount format is invalid"@,
                MoneyParseError::TooManyFractionalDigits =>
                    "money amount has too many fractional digits"@,
                MoneyParseError::AmountOverflow => "money amount overflowed"@,
            },
    {
        match self {
            MoneyParseError::Empty => String::from_str("money amount is empty"),
            MoneyParseError::InvalidFormat => String::from_str("money amount format is invalid"),
            MoneyParseError::TooManyFractionalDigits => String::from_str(
                "money amount has too many fractional digits",
            ),
            MoneyParseError::AmountOverflow => String::from_str("money amount overflowed"),
        }
    }
}

/// The magnitude of a signed amount.
pub(crate) fn unsigned_abs(value: i128) -> (r: u128)
    ensures
        r == abs(value as int),
{
    if value < 0 {
        if value == i128::MIN {
            0x8000_0000_0000_0000_0000_0000_0000_0000u128
        } else {
            (-value) as u128
        }
    } else {
        value as u128
    }
}

/// Puts a sign back on a magnitude that fits the signed range for that sign.
pub(crate) fn restore_sign(magnitude: u128, is_negative: bool) -> (r: i128)
    requires
        fits_i128(signed(magnitude as int, is_negative)),
    ensures
        r == signed(magnitude as int, is_negative),
{
    if is_negative {
        if magnitude == 0x8000_0000_0000_0000_0000_0000_0000_0000u128 {
            i128::MIN
        } else {
            -(magnitude as i128)
        }
    } else {
        magnitude as i128
    }
}


/// The magnitude that an unsigned decimal text denotes at the given minor-unit scale, or
/// the error that parsing it meets first: the text is `digits` or `digits.digits`, with
/// at most `scale` fractional digits, and the magnitude must fit in `u128`.
pub open spec fn decimal_magnitude(u: Seq<char>, scale: nat) -> Result<int, MoneyParseError> {
    let k = first_dot(u) as int;
    let major = u.take(k);
    let fraction = u.skip(k + 1);
    let major_value = digits_value(major) * pow10(scale);
    if k < u.len() && first_dot(fraction) < fraction.len() {
        Err(MoneyParseError::InvalidFormat)
    } else if major.len() == 0 || !all_digits(major) {
        Err(MoneyParseError::InvalidFormat)
    } else if major_value > u128::MAX {
        Err(MoneyParseError::AmountOverflow)
    } else if k == u.len() {
        Ok(major_value as int)
    } else if fraction.len() == 0 {
        Err(MoneyParseError::InvalidFormat)
    } else if utf8_len(fraction) > scale {
        Err(MoneyParseError::TooManyFractionalDigits)
    } else if !all_digits(fraction) {
        Err(MoneyParseError::InvalidFormat)
    } else {
        let magnitude = major_value + digits_value(fraction) * pow10(
            (scale - fraction.len()) as nat,
        );
        if magnitude > u128::MAX {
            Err(MoneyParseError::AmountOverflow)
        } else {
            Ok(magnitude as int)
        }
    }
}

/// The minor-unit amount that a major-unit text denotes at the given scale, or the error
/// that parsing it meets first. Surrounding whitespace is ignored; a leading `-` negates;
/// a leading `+` is rejected.
pub open spec fn parse_major_units(input: Seq<char>, scale: nat) -> Result<int, MoneyParseError> {
    let t = trim(input);
    if t.len() == 0 {
        Err(MoneyParseError::Empty)
    } else if t[0] == '+' {
        Err(MoneyParseError::InvalidFormat)
    } else {
        let is_negative = t[0] == '-';
        let u = if is_negative {
            t.drop_first()
        } else {
            t
        };
        match decimal_magnitude(u, scale) {
            Ok(m) => if is_negative {
                if m <= i128_min_magnitude() {
                    Ok(-m)
                } else {
                    Err(MoneyParseError::AmountOverflow)
                }
            } else {
                if m < i128_min_magnitude() {
                    Ok(m)
                } else {
                    Err(MoneyParseError::AmountOverflow)
                }
            },
            Err(e) => Err(e),
        }
    }
}

/// The major-unit text of a minor-unit amount: an optional `-`, the whole major units,
/// and, for a nonzero scale, a `.` and exactly `scale` fractional digits.
pub open spec fn amount_text(a: int, scale: nat) -> Seq<char> {
    let magnitude = abs(a) as nat;
    let sign = if a < 0 {
        seq!['-']
    } else {
        Seq::empty()
    };
    let fraction = if scale == 0 {
        Seq::empty()
    } else {
        seq!['.'] + padded_digits(magnitude % pow10(scale), scale)
    };
    sign + decimal_digits(magnitude / pow10(scale)) + fraction
}

/// The text of money: its currency code, a space, and its major-unit amount.
pub open spec fn money_text(m: Money) -> Seq<char> {
    m.currency_view().code_view() + seq![' '] + amount_text(
        m.amount() as int,
        m.currency_view().scale() as nat,
    )
}

/// The value of the run of characters `v[lo..hi]` read as unsigned decimal digits.
pub(crate) fn parse_unsigned_u128(v: &Vec<char>, lo: usize, hi: usize) -> (r: Result<u128, MoneyParseError>)
    requires
        lo <= hi <= v.len(),
    ensures
        ({
            let s = v@.subrange(lo as int, hi as int);
            match r {
                Ok(x) => s.len() > 0 && all_digits(s) && x == digits_value(s),
                Err(MoneyParseError::InvalidFormat) => s.len() == 0 || !all_digits(s),
                Err(MoneyParseError::AmountOverflow) => s.len() > 0 && all_digits(s)
                    && digits_value(s) > u128::MAX,
                Err(_) => false,
            }
        }),
{
    let ghost s = v@.subrange(lo as int, hi as int);
    if lo == hi {
        return Err(MoneyParseError::InvalidFormat);
    }
    let mut i = lo;
    while i < hi
        invariant
            lo <= i <= hi <= v.len(),
            s == v@.subrange(lo as int, hi as int),
            forall|j: int| 0 <= j < i - lo ==> #[trigger] is_ascii_digit(s[j]),
        decreases hi - i,
    {
        if !is_ascii_digit_char(v[i]) {
            assert(!is_ascii_digit(s[i - lo]));
            return Err(MoneyParseError::InvalidFormat);
        }
        i = i + 1;
    }
    let mut value: u128 = 0;
    let mut i = lo;
    assert(s.take(0) =~= Seq::<char>::empty());
    while i < hi
        invariant
            lo <= i <= hi <= v.len(),
            s == v@.subrange(lo as int, hi as int),
            all_digits(s),
            value == digits_value(s.take(i - lo)),
        decreases hi - i,
    {
        let ghost k = i - lo;
        proof {
            lemma_digits_value_step(s, k);
            assert(is_ascii_digit(s[k]));
        }
        let digit = (v[i] as u32 - '0' as u32) as u128;
        assert(digit == digit_value(s[k]));
        let next = match value.checked_mul(10) {
            Some(x) => x.checked_add(digit),
            None => None,
        };
        match next {
            Some(x) => {
                value = x;
            },
            None => {
                proof {
                    lemma_digits_value_prefix(s, k + 1);
                }
                return Err(MoneyParseError::AmountOverflow);
            },
        }
        i = i + 1;
    }
    assert(s.take(hi - lo) =~= s);
    Ok(value)
}

/// The index of the first `.` in `v[lo..hi]`, or `hi` when there is none.
pub(crate) fn find_dot(v: &Vec<char>, lo: usize, hi: usize) -> (k: usize)
    requires
        lo <= hi <= v.len(),
    ensures
        lo <= k <= hi,
        k - lo == first_dot(v@.subrange(lo as int, hi as int)),
{
    let mut k = lo;
    while k < hi && v[k] != '.'
        invariant
            lo <= k <= hi <= v.len(),
            forall|j: int| lo <= j < k ==> v@[j] != '.',
        decreases hi - k,
    {
        k = k + 1;
    }
    proof {
        let s = v@.subrange(lo as int, hi as int);
        lemma_first_dot(s, k - lo);
    }
    k
}

/// Whether the UTF-8 encoding of `v[lo..hi]` takes more than `limit` bytes.
fn utf8_len_exceeds(v: &Vec<char>, lo: usize, hi: usize, limit: u32) -> (r: bool)
    requires
        lo <= hi <= v.len(),
    ensures
        r == (utf8_len(v@.subrange(lo as int, hi as int)) > limit),
{
    let ghost s = v@.subrange(lo as int, hi as int);
    let mut total: u64 = 0;
    let mut i = lo;
    assert(s.take(0) =~= Seq::<char>::empty());
    while i < hi
        invariant
            lo <= i <= hi <= v.len(),
            s == v@.subrange(lo as int, hi as int),
            total == utf8_len(s.take(i - lo)),
            total <= limit,
        decreases hi - i,
    {
        let ghost k = i - lo;
        assert(s.take(k + 1).drop_last() =~= s.take(k));
        let u = v[i] as u32;
        let width: u64 = if u < 0x80 {
            1
        } else if u < 0x800 {
            2
        } else if u < 0x10000 {
            3
        } else {
            4
        };
        assert(width == utf8_width(s[k]));
        total = total + width;
        if total > limit as u64 {
            proof {
                utf8_len_prefix(s, k + 1);
            }
            return true;
        }
        i = i + 1;
    }
    assert(s.take(hi - lo) =~= s);
    false
}

/// A prefix takes no more UTF-8 bytes than the whole.
proof fn utf8_len_prefix(s: Seq<char>, k: int)
    requires
        0 <= k <= s.len(),
    ensures
        utf8_len(s.take(k)) <= utf8_len(s),
    decreases s.len(),
{
    if k < s.len() {
        utf8_len_prefix(s.drop_last(), k);
        assert(s.drop_last().take(k) =~= s.take(k));
    } else {
        assert(s.take(k) =~= s);
    }
}

/// Parses the unsigned decimal text `v[lo..hi]` into minor units at the given scale.
fn parse_decimal_magnitude(v: &Vec<char>, lo: usize, hi: usize, scale: u32) -> (r: Result<
    u128,
    MoneyParseError,
>)
    requires
        lo <= hi <= v.len(),
        scale <= 18,
    ensures
        match r {
            Ok(m) => decimal_magnitude(v@.subrange(lo as int, hi as int), scale as nat) == Ok::<
                int,
                MoneyParseError,
            >(m as int),
            Err(e) => decimal_magnitude(v@.subrange(lo as int, hi as int), scale as nat) == Err::<
                int,
                MoneyParseError,
            >(e),
        },
{
    let ghost u = v@.subrange(lo as int, hi as int);
    let k = find_dot(v, lo, hi);
    let ghost kk = k - lo;
    proof {
        assert(u.take(kk) =~= v@.subrange(lo as int, k as int));
        if k < hi {
            assert(u.skip(kk + 1) =~= v@.subrange(k + 1, hi as int));
        }
    }
    if k < hi {
        let k2 = find_dot(v, k + 1, hi);
        if k2 < hi {
            return Err(MoneyParseError::InvalidFormat);
        }
    }
    let major_units = match parse_unsigned_u128(v, lo, k) {
        Ok(x) => x,
        Err(e) => {
            proof {
                if e == MoneyParseError::AmountOverflow {
                    lemma_pow10_positive(scale as nat);
                    assert(digits_value(u.take(kk)) * pow10(scale as nat) >= digits_value(u.take(kk)))
                        by (nonlinear_arith)
                        requires
                            pow10(scale as nat) >= 1,
                    ;
                }
            }
            return Err(e);
        },
    };
    proof {
        lemma_pow10_monotone(scale as nat, 38);
        crate::text::lemma_pow10_38();
    }
    let scale_factor = pow10_u128(scale);
    let mut magnitude = match major_units.checked_mul(scale_factor) {
        Some(x) => x,
        None => {
            return Err(MoneyParseError::AmountOverflow);
        },
    };
    if k == hi {
        return Ok(magnitude);
    }
    let fraction_start = k + 1;
    if fraction_start == hi {
        return Err(MoneyParseError::InvalidFormat);
    }
    if utf8_len_exceeds(v, fraction_start, hi, scale) {
        return Err(MoneyParseError::TooManyFractionalDigits);
    }
    let ghost fraction = v@.subrange(fraction_start as int, hi as int);
    let fractional_units = match parse_unsigned_u128(v, fraction_start, hi) {
        Ok(x) => x,
        Err(e) => {
            proof {
                if e == MoneyParseError::AmountOverflow {
                    lemma_utf8_len_of_digits(fraction);
                    lemma_digits_value_bound(fraction);
                    lemma_pow10_monotone(fraction.len(), 38);
                }
            }
            return Err(e);
        },
    };
    proof {
        lemma_utf8_len_of_digits(fraction);
        lemma_digits_value_bound(fraction);
    }
    let fraction_len = hi - fraction_start;
    let padding = scale - fraction_len as u32;
    let ghost p = padding as nat;
    proof {
        lemma_pow10_add(fraction.len(), p);
        lemma_pow10_monotone(scale as nat, 38);
        lemma_pow10_monotone(p, 38);
        lemma_pow10_positive(p);
        assert(digits_value(fraction) * pow10(p) < pow10(scale as nat)) by (nonlinear_arith)
            requires
                digits_value(fraction) < pow10(fraction.len()),
                pow10(fraction.len()) * pow10(p) == pow10(scale as nat),
                pow10(p) >= 1,
        ;
    }
    let scaled_fractional_units = match fractional_units.checked_mul(pow10_u128(padding)) {
        Some(x) => x,
        None => {
            return Err(MoneyParseError::AmountOverflow);
        },
    };
    magnitude = match magnitude.checked_add(scaled_fractional_units) {
        Some(x) => x,
        None => {
            return Err(MoneyParseError::AmountOverflow);
        },
    };
    Ok(magnitude)
}

impl Money {
    /// Parses an exact major-unit amount at the currency's minor-unit scale.
    ///
    /// Surrounding whitespace and a leading minus sign are accepted; a leading plus sign is
    /// rejected. The fraction may have at most as many digits as the scale; shorter fractions
    /// are right-padded with zeroes. Nothing is ever rounded.
    pub fn from_major_units(input: &str, currency: Currency) -> (r: Result<Money, MoneyParseError>)
        ensures
            match r {
                Ok(m) => {
                    &&& parse_major_units(input@, currency.scale() as nat) == Ok::<
                        int,
                        MoneyParseError,
                    >(m.amount() as int)
                    &&& m.currency_view() == currency
                },
                Err(e) => parse_major_units(input@, currency.scale() as nat) == Err::<
                    int,
                    MoneyParseError,
                >(e),
            },
    {
        let chars = chars_of(input);
        let (start, end) = trim_bounds(&chars);
        let ghost t = chars@.subrange(start as int, end as int);
        if start == end {
            return Err(MoneyParseError::Empty);
        }
        let first = chars[start];
        if first == '+' {
            return Err(MoneyParseError::InvalidFormat);
        }
        let is_negative = first == '-';
        let digits_start = if is_negative {
            start + 1
        } else {
            start
        };
        proof {
            if is_negative {
                assert(t.drop_first() =~= chars@.subrange(digits_start as int, end as int));
            }
        }
        let scale = currency.minor_units();
        let magnitude = match parse_decimal_magnitude(&chars, digits_start, end, scale as u32) {
            Ok(m) => m,
            Err(e) => {
                return Err(e);
            },
        };
        let minor_units: i128 = if is_negative {
            if magnitude == 0x8000_0000_0000_0000_0000_0000_0000_0000u128 {
                i128::MIN
            } else if magnitude <= i128::MAX as u128 {
                -(magnitude as i128)
            } else {
                return Err(MoneyParseError::AmountOverflow);
            }
        } else if magnitude <= i128::MAX as u128 {
            magnitude as i128
        } else {
            return Err(MoneyParseError::AmountOverflow);
        };
        Ok(Money::from_minor_units(minor_units, currency))
    }

    /// The text of the amount: currency code, a space, and the exact major-unit amount with
    /// exactly as many fractional digits as the currency's scale, e.g. `USD -10.50`.
    pub fn to_string(&self) -> (r: String)
        ensures
            r@ == money_text(*self),
    {
        let scale = self.currency.minor_units();
        let scale_factor = pow10_u128(scale as u32);
        proof {
            lemma_pow10_positive(scale as nat);
        }
        let magnitude = unsigned_abs(self.minor_units);
        let major_units = magnitude / scale_factor;
        let fractional_units = magnitude % scale_factor;
        let mut s = self.currency.to_string();
        push_char(&mut s, ' ');
        if self.minor_units < 0 {
            push_char(&mut s, '-');
        }
        push_decimal(&mut s, major_units);
        if scale != 0 {
            push_char(&mut s, '.');
            push_padded(&mut s, fractional_units, scale as u32);
        }
        proof {
            let a = self.minor_units as int;
            let sign = if a < 0 { seq!['-'] } else { Seq::<char>::empty() };
            let fraction = if scale == 0 {
                Seq::<char>::empty()
            } else {
                seq!['.'] + padded_digits(magnitude as nat % pow10(scale as nat), scale as nat)
            };
            assert(s@ =~= self.currency.code_view() + seq![' '] + sign + decimal_digits(
                magnitude as nat / pow10(scale as nat),
            ) + fraction);
        }
        s
    }
}


/// The text of an amount has exactly `scale` fractional digits after a `.`, and no `.` at
/// all for scale zero.
pub proof fn lemma_amount_text_has_scale_digits(a: int, scale: nat)
    ensures
        scale > 0 ==> {
            let t = amount_text(a, scale);
            &&& t.len() > scale + 1
            &&& t[t.len() - scale - 1] == '.'
            &&& all_digits(t.skip(t.len() - scale))
        },
        scale == 0 ==> first_dot(amount_text(a, scale)) == amount_text(a, scale).len(),
{
    let m = abs(a) as nat;
    let f = pow10(scale);
    lemma_pow10_positive(scale);
    let d = decimal_digits(m / f);
    lemma_decimal_digits(m / f);
    let t = amount_text(a, scale);
    let sign = if a < 0 {
        seq!['-']
    } else {
        Seq::<char>::empty()
    };
    if scale > 0 {
        let pd = padded_digits(m % f, scale);
        lemma_padded_digits(m % f, scale);
        assert(t =~= sign + d + seq!['.'] + pd);
        assert(t.skip(t.len() - scale) =~= pd);
    } else {
        assert(t =~= sign + d);
        assert forall|j: int| 0 <= j < t.len() implies t[j] != '.' by {
            if a < 0 && j == 0 {
            } else {
                let k = if a < 0 { j - 1 } else { j };
                assert(t[j] == d[k]);
                lemma_digit_not_white_space(d[k]);
            }
        }
        lemma_first_dot(t, t.len() as int);
    }
}

/// Parsing the major-unit text of any representable amount, at a supported scale, gives
/// back exactly that amount: formatting and parsing agree, and nothing is rounded.
pub proof fn lemma_amount_text_parses_back(a: int, scale: nat)
    requires
        fits_i128(a),
        scale <= 18,
    ensures
        parse_major_units(amount_text(a, scale), scale) == Ok::<int, MoneyParseError>(a),
{
    let m = abs(a) as nat;
    let f = pow10(scale);
    lemma_pow10_positive(scale);
    let q = m / f;
    let r = m % f;
    vstd::arithmetic::div_mod::lemma_fundamental_div_mod(m as int, f as int);
    assert(m == q * f + r) by (nonlinear_arith)
        requires
            m == f * (m / f) + m % f,
            q == m / f,
            r == m % f,
    ;
    assert(q * f <= m) by (nonlinear_arith)
        requires
            m == q * f + r,
            r >= 0,
    ;
    let d = decimal_digits(q);
    let pd = padded_digits(r, scale);
    lemma_decimal_digits(q);
    lemma_padded_digits(r, scale);
    vstd::arithmetic::div_mod::lemma_mod_twice(m as int, f as int);
    assert(digits_value(pd) == r);
    let sign = if a < 0 {
        seq!['-']
    } else {
        Seq::<char>::empty()
    };
    let frac = if scale == 0 {
        Seq::<char>::empty()
    } else {
        seq!['.'] + pd
    };
    let u = d + frac;
    let text = amount_text(a, scale);
    assert(text =~= sign + u);
    // The text neither starts nor ends with whitespace.
    lemma_digit_not_white_space(d[0]);
    if scale == 0 {
        lemma_digit_not_white_space(d[d.len() - 1]);
        assert(text.last() == d[d.len() - 1]);
    } else {
        lemma_digit_not_white_space(pd[pd.len() - 1]);
        assert(text.last() == pd[pd.len() - 1]);
    }
    if a < 0 {
        assert(text[0] == '-');
    } else {
        assert(text[0] == d[0]);
    }
    lemma_trim_identity(text);
    if a < 0 {
        assert(text.drop_first() =~= u);
    }
    // The first dot ends the whole major units.
    assert forall|j: int| 0 <= j < d.len() implies u[j] != '.' by {
        assert(u[j] == d[j]);
        lemma_digit_not_white_space(d[j]);
    }
    lemma_first_dot(u, d.len() as int);
    assert(u.take(d.len() as int) =~= d);
    if scale > 0 {
        let fraction = u.skip(d.len() as int + 1);
        assert(fraction =~= pd);
        assert forall|j: int| 0 <= j < pd.len() implies pd[j] != '.' by {
            lemma_digit_not_white_space(pd[j]);
        }
        lemma_first_dot(pd, pd.len() as int);
        lemma_utf8_len_of_digits(pd);
        assert(pow10((scale - pd.len()) as nat) == 1);
        assert(digits_value(pd) * 1 == r);
        assert(q * f + r == m);
        assert(decimal_magnitude(u, scale) == Ok::<int, MoneyParseError>(m as int));
    } else {
        assert(f == 1);
        assert(u =~= d);
        assert(q * 1 == q);
        assert(decimal_magnitude(u, scale) == Ok::<int, MoneyParseError>(m as int));
    }
    assert(m <= i128_min_magnitude());
}

} // verus!
