//! Validated currency definitions.
use vstd::prelude::*;

use crate::text::{chars_of, decimal_digits, is_ascii_uppercase, push_decimal};

verus! {

/// A three-letter code made of uppercase ASCII letters.
pub open spec fn is_valid_code(code: Seq<char>) -> bool {
    &&& code.len() == 3
    &&& forall|i: int| 0 <= i < code.len() ==> #[trigger] is_ascii_uppercase(code[i])
}

/// A validated currency definition: a three-letter uppercase ASCII code and the number of
/// digits of its minor units (0 to 18). Applications may define any such currency.
#[derive(Debug, PartialEq, Eq, Hash)]
pub struct Currency {
    code: String,
    minor_units: u8,
}

/// An error returned when a currency definition violates its structural invariants.
#[derive(Clone, Debug, PartialEq, Eq)]
pub enum CurrencyError {
    /// The code is not exactly three uppercase ASCII letters.
    InvalidCode(String),
    /// The minor-unit scale exceeds [`Currency::MAX_MINOR_UNITS`].
    InvalidMinorUnits { code: String, minor_units: u8 },
}

impl Currency {
    /// The minimum supported minor-unit scale.
    pub const MIN_MINOR_UNITS: u8 = 0;

    /// The maximum supported minor-unit scale.
    pub const MAX_MINOR_UNITS: u8 = 18;

    #[verifier::type_invariant]
    spec fn is_well_formed(self) -> bool {
        is_valid_code(self.code@) && self.minor_units <= 18
    }

    /// The currency code, as characters.
    pub closed spec fn code_view(&self) -> Seq<char> {
        self.code@
    }

    /// The number of digits of the currency's minor units.
    pub closed spec fn scale(&self) -> u8 {
        self.minor_units
    }

    /// Creates a validated currency definition.
    ///
    /// The code must contain exactly three uppercase ASCII letters; the minor-unit scale
    /// must be between [`Self::MIN_MINOR_UNITS`] and [`Self::MAX_MINOR_UNITS`].
    pub fn new(code: &str, minor_units: u8) -> (r: Result<Currency, CurrencyError>)
        ensures
            match r {
                Ok(c) => {
                    &&& is_valid_code(code@)
                    &&& minor_units <= 18
                    &&& c.code_view() == code@
                    &&& c.scale() == minor_units
                },
                Err(CurrencyError::InvalidCode(c)) => !is_valid_code(code@) && c@ == code@,
                Err(CurrencyError::InvalidMinorUnits { code: c, minor_units: m }) => {
                    &&& is_valid_code(code@)
                    &&& minor_units > 18
                    &&& c@ == code@
                    &&& m == minor_units
                },
            },
    {
        let owned = code.to_owned();
        if !Self::is_valid_code(code) {
            return Err(CurrencyError::InvalidCode(owned));
        }
        if !Self::is_valid_minor_units(minor_units) {
            return Err(CurrencyError::InvalidMinorUnits { code: owned, minor_units });
        }
        Ok(Currency { code: owned, minor_units })
    }

    /// Returns the three-letter currency code.
    pub fn code(&self) -> (r: &str)
        ensures
            r@ == self.code_view(),
            is_valid_code(r@),
    {
        proof {
            use_type_invariant(self);
        }
        self.code.as_str()
    }

    /// Returns the number of digits used for the currency's minor units.
    pub fn minor_units(&self) -> (r: u8)
        ensures
            r == self.scale(),
            r <= Self::MAX_MINOR_UNITS,
    {
        proof {
            use_type_invariant(self);
        }
        self.minor_units
    }

    /// Whether two currencies have the same code and the same minor-unit scale.
    pub fn same_definition(&self, other: &Currency) -> (r: bool)
        ensures
            r == (self.code_view() == other.code_view() && self.scale() == other.scale()),
    {
        self.minor_units == other.minor_units && self.code == other.code
    }

    /// The currency code, as displayed.
    pub fn to_string(&self) -> (r: String)
        ensures
            r@ == self.code_view(),
    {
        self.code.clone()
    }

    fn is_valid_minor_units(value: u8) -> (r: bool)
        ensures
            r == (value <= 18),
    {
        Self::MIN_MINOR_UNITS <= value && value <= Self::MAX_MINOR_UNITS
    }

    fn is_valid_code(value: &str) -> (r: bool)
        ensures
            r == is_valid_code(value@),
    {
        let chars = chars_of(value);
        if chars.len() != 3 {
            return false;
        }
        let mut i: usize = 0;
        while i < 3
            invariant
                i <= 3,
                chars@ == value@,
                chars@.len() == 3,
                forall|j: int| 0 <= j < i ==> #[trigger] is_ascii_uppercase(chars@[j]),
            decreases 3 - i,
        {
            if !('A' <= chars[i] && chars[i] <= 'Z') {
                assert(!is_ascii_uppercase(chars@[i as int]));
                return false;
            }
            i = i + 1;
        }
        true
    }
}

impl Clone for Currency {
    fn clone(&self) -> (r: Self)
        ensures
            r == *self,
    {
        proof {
            use_type_invariant(self);
        }
        Currency { code: self.code.clone(), minor_units: self.minor_units }
    }
}

/// The text of a currency error, as displayed.
pub open spec fn currency_error_text(e: CurrencyError) -> Seq<char> {
    match e {
        CurrencyError::InvalidCode(code) => "invalid currency code `"@ + code@
            + "`: expected three uppercase ASCII letters"@,
        CurrencyError::InvalidMinorUnits { code, minor_units } => "invalid minor-unit scale "@
            + decimal_digits(minor_units as nat) + " for currency `"@ + code@
            + "`: expected 0..=18"@,
    }
}

impl CurrencyError {
    /// The error message: it names the rejected input.
    pub fn to_string(&self) -> (r: String)
        ensures
            r@ == currency_error_text(*self),
    {
        match self {
            CurrencyError::InvalidCode(code) => {
                let mut s = String::from_str("invalid currency code `");
                s.append(code.as_str());
                s.append("`: expected three uppercase ASCII letters");
                s
            },
            CurrencyError::InvalidMinorUnits { code, minor_units } => {
                let mut s = String::from_str("invalid minor-unit scale ");
                push_decimal(&mut s, *minor_units as u128);
                s.append(" for currency `");
                s.append(code.as_str());
                s.append("`: expected 0..=18");
                s
            },
        }
    }
}

} // verus!
