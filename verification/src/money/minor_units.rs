//! The plain decimal text of a minor-unit amount: an optional sign and the digits of the
//! integer, as used by wire formats that carry amounts as strings.
use vstd::prelude::*;

use super::rounding_mode::{abs, signed};
use super::{fits_i128, i128_min_magnitude, restore_sign, unsigned_abs};
use crate::text::{
    all_digits, chars_of, decimal_digits, digit_value, digits_value, is_ascii_digit,
    is_ascii_digit_char, lemma_decimal_digits, lemma_digit_not_white_space,
    lemma_digits_value_prefix, lemma_digits_value_step, push_char, push_decimal,
};

verus! {

/// An error of reading the decimal text of a minor-unit amount.
#[derive(Clone, Copy, Debug, PartialEq, Eq, Structural)]
pub enum MinorUnitsParseError {
    /// The text is empty.
    Empty,
    /// A character is not a decimal digit, or a sign has no digits after it.
    InvalidDigit,
    /// The amount is above `i128::MAX`.
    PosOverflow,
    /// The amount is below `i128::MIN`.
    NegOverflow,
}

/// The number of decimal digits at the start of `s`.
pub open spec fn digit_run(s: Seq<char>) -> nat
    decreases s.len(),
{
    if s.len() > 0 && is_ascii_digit(s[0]) {
        1 + digit_run(s.drop_first())
    } else {
        0
    }
}

/// The amount that a decimal integer text denotes, or the error that reading it from left
/// to right meets first: an optional `+` or `-`, then digits. A digit that takes the
/// amount out of `i128` is reported before any later character that is not a digit.
pub open spec fn parse_integer(s: Seq<char>) -> Result<int, MinorUnitsParseError> {
    if s.len() == 0 {
        Err(MinorUnitsParseError::Empty)
    } else {
        let has_sign = s[0] == '+' || s[0] == '-';
        let is_negative = s[0] == '-';
        let digits = if has_sign {
            s.drop_first()
        } else {
            s
        };
        let bound = if is_negative {
            i128_min_magnitude()
        } else {
            i128_min_magnitude() - 1
        };
        let k = digit_run(digits) as int;
        if digits.len() == 0 {
            Err(MinorUnitsParseError::InvalidDigit)
        } else if digits_value(digits.take(k)) > bound {
            if is_negative {
                Err(MinorUnitsParseError::NegOverflow)
            } else {
                Err(MinorUnitsParseError::PosOverflow)
            }
        } else if k < digits.len() {
            Err(MinorUnitsParseError::InvalidDigit)
        } else {
            Ok(signed(digits_value(digits) as int, is_negative))
        }
    }
}

/// The decimal text of an amount: `-` for a negative amount, then its shortest digits.
pub open spec fn integer_text(value: int) -> Seq<char> {
    (if value < 0 {
        seq!['-']
    } else {
        Seq::empty()
    }) + decimal_digits(abs(value) as nat)
}

/// The digit run of `s` covers the first `i` characters when they are all digits, and ends
/// at `i` when the character there is not a digit.
proof fn lemma_digit_run(s: Seq<char>, i: int)
    requires
        0 <= i <= s.len(),
        forall|j: int| 0 <= j < i ==> #[trigger] is_ascii_digit(s[j]),
    ensures
        digit_run(s) >= i,
        digit_run(s) <= s.len(),
        (i == s.len() || !is_ascii_digit(s[i])) ==> digit_run(s) == i,
    decreases s.len(),
{
    if s.len() > 0 {
        let t = s.drop_first();
        if i > 0 {
            assert forall|j: int| 0 <= j < i - 1 implies #[trigger] is_ascii_digit(t[j]) by {
                assert(is_ascii_digit(s[j + 1]));
            }
            assert(is_ascii_digit(s[0]));
            lemma_digit_run(t, i - 1);
        } else {
            lemma_digit_run(t, 0);
        }
    }
}

/// The digits before the end of the digit run are all digits.
proof fn lemma_digit_run_all_digits(s: Seq<char>)
    ensures
        all_digits(s.take(digit_run(s) as int)),
    decreases s.len(),
{
    if s.len() > 0 && is_ascii_digit(s[0]) {
        let t = s.drop_first();
        lemma_digit_run_all_digits(t);
        lemma_digit_run(t, 0);
        let p = s.take(digit_run(s) as int);
        assert forall|j: int| 0 <= j < p.len() implies #[trigger] is_ascii_digit(p[j]) by {
            if j > 0 {
                assert(p[j] == t.take(digit_run(t) as int)[j - 1]);
            }
        }
    }
}

/// Reads the decimal text of a minor-unit amount, such as `-1050`.
pub fn parse_minor_units(input: &str) -> (r: Result<i128, MinorUnitsParseError>)
    ensures
        match r {
            Ok(v) => parse_integer(input@) == Ok::<int, MinorUnitsParseError>(v as int),
            Err(e) => parse_integer(input@) == Err::<int, MinorUnitsParseError>(e),
        },
{
    let chars = chars_of(input);
    let n = chars.len();
    if n == 0 {
        return Err(MinorUnitsParseError::Empty);
    }
    let has_sign = chars[0] == '+' || chars[0] == '-';
    let is_negative = chars[0] == '-';
    let start: usize = if has_sign {
        1
    } else {
        0
    };
    let ghost digits = chars@.subrange(start as int, n as int);
    proof {
        if has_sign {
            assert(chars@.drop_first() =~= digits);
        } else {
            assert(chars@ =~= digits);
        }
    }
    if start == n {
        return Err(MinorUnitsParseError::InvalidDigit);
    }
    let bound: u128 = if is_negative {
        0x8000_0000_0000_0000_0000_0000_0000_0000
    } else {
        0x7FFF_FFFF_FFFF_FFFF_FFFF_FFFF_FFFF_FFFF
    };
    let mut value: u128 = 0;
    let mut i = start;
    assert(digits.take(0) =~= Seq::<char>::empty());
    while i < n
        invariant
            start <= i <= n == chars.len(),
            n > 0,
            chars@ == input@,
            has_sign == (input@[0] == '+' || input@[0] == '-'),
            is_negative == (input@[0] == '-'),
            digits == chars@.subrange(start as int, n as int),
            digits == if has_sign {
                input@.drop_first()
            } else {
                input@
            },
            digits.len() > 0,
            bound == if is_negative {
                i128_min_magnitude()
            } else {
                i128_min_magnitude() - 1
            },
            forall|j: int| 0 <= j < i - start ==> #[trigger] is_ascii_digit(digits[j]),
            value == digits_value(digits.take(i - start)),
            value <= bound,
        decreases n - i,
    {
        let ghost k = i - start;
        if !is_ascii_digit_char(chars[i]) {
            proof {
                assert(digits[k] == chars@[i as int]);
                lemma_digit_run(digits, k);
                assert(digit_run(digits) == k);
                assert(digits_value(digits.take(k)) <= bound);
                assert(parse_integer(input@) == Err::<int, MinorUnitsParseError>(
                    MinorUnitsParseError::InvalidDigit,
                ));
            }
            return Err(MinorUnitsParseError::InvalidDigit);
        }
        proof {
            lemma_digits_value_step(digits, k);
        }
        let digit = (chars[i] as u32 - '0' as u32) as u128;
        assert(digit == digit_value(digits[k]));
        let next = match value.checked_mul(10) {
            Some(x) => x.checked_add(digit),
            None => None,
        };
        let overflowed = match next {
            Some(x) => x > bound,
            None => true,
        };
        if overflowed {
            proof {
                lemma_digit_run(digits, k + 1);
                let run = digit_run(digits) as int;
                lemma_digit_run_all_digits(digits);
                let p = digits.take(run);
                lemma_digits_value_prefix(p, k + 1);
                assert(p.take(k + 1) =~= digits.take(k + 1));
                assert(digits_value(digits.take(k + 1)) == value * 10 + digit);
                assert(digits_value(digits.take(k + 1)) > bound);
                assert(digits_value(digits.take(digit_run(digits) as int)) > bound);
            }
            if is_negative {
                return Err(MinorUnitsParseError::NegOverflow);
            } else {
                return Err(MinorUnitsParseError::PosOverflow);
            }
        }
        value = match next {
            Some(x) => x,
            None => 0,
        };
        i = i + 1;
    }
    proof {
        lemma_digit_run(digits, n - start);
        assert(digits.take(n - start) =~= digits);
    }
    Ok(restore_sign(value, is_negative))
}

/// The decimal text of a minor-unit amount, such as `-1050`.
pub fn minor_units_text(value: i128) -> (r: String)
    ensures
        r@ == integer_text(value as int),
{
    let mut s = String::new();
    if value < 0 {
        push_char(&mut s, '-');
    }
    push_decimal(&mut s, unsigned_abs(value));
    proof {
        let sign = if value < 0 {
            seq!['-']
        } else {
            Seq::<char>::empty()
        };
        assert(s@ =~= sign + decimal_digits(abs(value as int) as nat));
    }
    s
}

/// Reading the decimal text of any `i128` amount gives back that amount.
pub proof fn lemma_integer_text_parses_back(value: int)
    requires
        fits_i128(value),
    ensures
        parse_integer(integer_text(value)) == Ok::<int, MinorUnitsParseError>(value),
{
    let m = abs(value) as nat;
    let d = decimal_digits(m);
    lemma_decimal_digits(m);
    let t = integer_text(value);
    lemma_digit_not_white_space(d[0]);
    if value < 0 {
        assert(t.drop_first() =~= d);
        assert(t[0] == '-');
    } else {
        assert(t =~= d);
        assert(t[0] == d[0]);
    }
    lemma_digit_run(d, d.len() as int);
    assert(d.take(d.len() as int) =~= d);
    assert(digit_run(d) == d.len());
    assert(digits_value(d) == m);
    assert(m <= i128_min_magnitude());
    if value < 0 {
        assert(signed(m as int, true) == value);
    } else {
        assert(m <= i128_min_magnitude() - 1);
    }
}

impl MinorUnitsParseError {
    /// The error message.
    pub fn to_string(&self) -> (r: String)
        ensures
            r@ == match *self {
                MinorUnitsParseError::Empty => "cannot parse integer from empty string"@,
                MinorUnitsParseError::InvalidDigit => "invalid digit found in string"@,
                MinorUnitsParseError::PosOverflow => "number too large to fit in target type"@,
                MinorUnitsParseError::NegOverflow => "number too small to fit in target type"@,
            },
    {
        match self {
            MinorUnitsParseError::Empty => String::from_str(
                "cannot parse integer from empty string",
            ),
            MinorUnitsParseError::InvalidDigit => String::from_str("invalid digit found in string"),
            MinorUnitsParseError::PosOverflow => String::from_str(
                "number too large to fit in target type",
            ),
            MinorUnitsParseError::NegOverflow => String::from_str(
                "number too small to fit in target type",
            ),
        }
    }
}

} // verus!
