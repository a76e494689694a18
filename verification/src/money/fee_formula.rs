//! Fees made of a rate and a fixed amount, with optional caps.
use vstd::prelude::*;

use super::rate::{lemma_rated_amount_rounds_the_product, rated_amount, MoneyRateError, Rate};
use super::rounding_mode::{is_rounded_quotient, RoundingMode};
use super::{fits_i128, same_currency, Money, MoneyError};

verus! {

/// A fee rule composed of a variable basis-point rate plus a fixed monetary amount.
#[derive(Debug, PartialEq, Eq, Hash)]
pub struct FeeFormula {
    rate: Rate,
    fixed: Money,
}

/// An error returned when calculating a [`FeeFormula`].
#[derive(Clone, Copy, Debug, PartialEq, Eq, Structural)]
pub enum FeeFormulaError {
    /// The charged amount and fixed fee use different currency definitions.
    CurrencyMismatch,
    /// The fee amount cannot be represented by signed `i128` minor-unit storage.
    AmountOverflow,
}

/// A fee formula with optional minimum and maximum caps, in the formula's currency, the
/// minimum never above the maximum.
#[derive(Debug, PartialEq, Eq, Hash)]
pub struct FeeSchedule {
    formula: FeeFormula,
    minimum: Option<Money>,
    maximum: Option<Money>,
}

/// An error returned when configuring or calculating a [`FeeSchedule`].
#[derive(Clone, Copy, Debug, PartialEq, Eq, Structural)]
pub enum FeeScheduleError {
    /// The schedule formula, caps, or input amount use different currency definitions.
    CurrencyMismatch,
    /// The configured minimum fee is greater than the configured maximum fee.
    InvalidCapRange,
    /// The fee amount cannot be represented by signed `i128` minor-unit storage.
    AmountOverflow,
}

/// The fee, in minor units, that a rate plus a fixed amount charges on `amount`, or the
/// error that calculating it meets first: the rated part must fit, then the currencies
/// must match, then the sum must fit.
pub open spec fn formula_fee(
    basis_points: int,
    fixed: Money,
    amount: Money,
    mode: RoundingMode,
) -> Result<int, FeeFormulaError> {
    let variable = rated_amount(amount.amount() as int, basis_points, mode);
    if !fits_i128(variable) {
        Err(FeeFormulaError::AmountOverflow)
    } else if !same_currency(amount.currency_view(), fixed.currency_view()) {
        Err(FeeFormulaError::CurrencyMismatch)
    } else if !fits_i128(variable + fixed.amount()) {
        Err(FeeFormulaError::AmountOverflow)
    } else {
        Ok(variable + fixed.amount())
    }
}

/// Whether an optional cap uses the given currency definition.
pub open spec fn cap_matches(cap: Option<Money>, currency: crate::currency::Currency) -> bool {
    match cap {
        Some(c) => same_currency(c.currency_view(), currency),
        None => true,
    }
}

/// Whether both caps are present and the minimum exceeds the maximum.
pub open spec fn caps_inverted(minimum: Option<Money>, maximum: Option<Money>) -> bool {
    match (minimum, maximum) {
        (Some(lo), Some(hi)) => lo.amount() > hi.amount(),
        _ => false,
    }
}

/// Whether a fee is raised to the minimum cap.
pub open spec fn raised_to_minimum(fee: int, minimum: Option<Money>) -> bool {
    match minimum {
        Some(lo) => fee < lo.amount(),
        None => false,
    }
}

/// The fee after the minimum cap.
pub open spec fn after_minimum(fee: int, minimum: Option<Money>) -> int {
    if raised_to_minimum(fee, minimum) {
        minimum.unwrap().amount() as int
    } else {
        fee
    }
}

/// Whether a fee, after the minimum cap, is lowered to the maximum cap.
pub open spec fn lowered_to_maximum(fee: int, minimum: Option<Money>, maximum: Option<Money>) -> bool {
    match maximum {
        Some(hi) => after_minimum(fee, minimum) > hi.amount(),
        None => false,
    }
}

/// The fee after both caps: first raised to the minimum, then lowered to the maximum.
pub open spec fn capped_fee(fee: int, minimum: Option<Money>, maximum: Option<Money>) -> int {
    if lowered_to_maximum(fee, minimum, maximum) {
        maximum.unwrap().amount() as int
    } else {
        after_minimum(fee, minimum)
    }
}

/// Whether a fee lies within the caps that are present.
pub open spec fn within_caps(fee: int, minimum: Option<Money>, maximum: Option<Money>) -> bool {
    &&& (minimum matches Some(lo) ==> lo.amount() <= fee)
    &&& (maximum matches Some(hi) ==> fee <= hi.amount())
}

/// A formula's fee is the amount's exact product with the rate, rounded as the mode says,
/// plus the fixed amount: the caller's mode decides the rounding of the variable part.
pub proof fn lemma_formula_fee_is_rated_plus_fixed(
    basis_points: int,
    fixed: Money,
    amount: Money,
    mode: RoundingMode,
)
    ensures
        formula_fee(basis_points, fixed, amount, mode) matches Ok(f) ==> is_rounded_quotient(
            f - fixed.amount(),
            amount.amount() * basis_points,
            10_000,
            mode,
        ),
{
    lemma_rated_amount_rounds_the_product(amount.amount() as int, basis_points, mode);
}

/// The caps clamp a fee: a fee within the caps is kept; one below the minimum becomes the
/// minimum; one above the maximum becomes the maximum; the result is always within the caps.
pub proof fn lemma_caps_clamp(fee: int, minimum: Option<Money>, maximum: Option<Money>)
    requires
        !caps_inverted(minimum, maximum),
    ensures
        within_caps(capped_fee(fee, minimum, maximum), minimum, maximum),
        within_caps(fee, minimum, maximum) ==> capped_fee(fee, minimum, maximum) == fee,
        minimum matches Some(lo) ==> (fee < lo.amount() ==> capped_fee(fee, minimum, maximum)
            == lo.amount()),
        maximum matches Some(hi) ==> (fee > hi.amount() ==> capped_fee(fee, minimum, maximum)
            == hi.amount()),
{
}

impl FeeFormula {
    /// The variable rate.
    pub closed spec fn rate_view(&self) -> Rate {
        self.rate
    }

    /// The fixed amount.
    pub closed spec fn fixed_view(&self) -> Money {
        self.fixed
    }

    /// Creates a fee formula from a variable rate and fixed amount.
    pub fn new(rate: Rate, fixed: Money) -> (r: FeeFormula)
        ensures
            r.rate_view() == rate,
            r.fixed_view() == fixed,
    {
        FeeFormula { rate, fixed }
    }

    /// Returns the variable fee rate.
    pub fn rate(&self) -> (r: Rate)
        ensures
            r == self.rate_view(),
    {
        self.rate
    }

    /// Returns the fixed fee amount.
    pub fn fixed(&self) -> (r: &Money)
        ensures
            *r == self.fixed_view(),
    {
        &self.fixed
    }

    /// Calculates the fee for an amount: the rated amount, rounded by `mode`, plus the fixed
    /// amount, in the amount's currency.
    pub fn calculate(&self, amount: &Money, mode: RoundingMode) -> (r: Result<Money, FeeFormulaError>)
        ensures
            match r {
                Ok(m) => {
                    &&& formula_fee(self.rate_view().bp() as int, self.fixed_view(), *amount, mode)
                        == Ok::<int, FeeFormulaError>(m.amount() as int)
                    &&& is_rounded_quotient(
                        m.amount() - self.fixed_view().amount(),
                        amount.amount() * self.rate_view().bp(),
                        10_000,
                        mode,
                    )
                    &&& m.currency_view() == amount.currency_view()
                },
                Err(e) => formula_fee(self.rate_view().bp() as int, self.fixed_view(), *amount, mode)
                    == Err::<int, FeeFormulaError>(e),
            },
    {
        let variable = match amount.apply_rate(self.rate, mode) {
            Ok(v) => v,
            Err(e) => {
                return Err(FeeFormulaError::from(e));
            },
        };
        proof {
            lemma_formula_fee_is_rated_plus_fixed(
                self.rate.bp() as int,
                self.fixed,
                *amount,
                mode,
            );
        }
        match variable.checked_add(&self.fixed) {
            Ok(fee) => Ok(fee),
            Err(e) => Err(FeeFormulaError::from(e)),
        }
    }
}

impl From<MoneyRateError> for FeeFormulaError {
    fn from(error: MoneyRateError) -> (r: Self) {
        match error {
            MoneyRateError::AmountOverflow => FeeFormulaError::AmountOverflow,
        }
    }
}

impl vstd::std_specs::convert::FromSpecImpl<MoneyRateError> for FeeFormulaError {
    open spec fn obeys_from_spec() -> bool {
        true
    }

    open spec fn from_spec(error: MoneyRateError) -> FeeFormulaError {
        match error {
            MoneyRateError::AmountOverflow => FeeFormulaError::AmountOverflow,
        }
    }
}

impl From<MoneyError> for FeeFormulaError {
    fn from(error: MoneyError) -> (r: Self) {
        match error {
            MoneyError::CurrencyMismatch => FeeFormulaError::CurrencyMismatch,
            MoneyError::AmountOverflow => FeeFormulaError::AmountOverflow,
        }
    }
}

impl vstd::std_specs::convert::FromSpecImpl<MoneyError> for FeeFormulaError {
    open spec fn obeys_from_spec() -> bool {
        true
    }

    open spec fn from_spec(error: MoneyError) -> FeeFormulaError {
        match error {
            MoneyError::CurrencyMismatch => FeeFormulaError::CurrencyMismatch,
            MoneyError::AmountOverflow => FeeFormulaError::AmountOverflow,
        }
    }
}

impl From<FeeFormulaError> for FeeScheduleError {
    fn from(error: FeeFormulaError) -> (r: Self) {
        match error {
            FeeFormulaError::CurrencyMismatch => FeeScheduleError::CurrencyMismatch,
            FeeFormulaError::AmountOverflow => FeeScheduleError::AmountOverflow,
        }
    }
}

impl vstd::std_specs::convert::FromSpecImpl<FeeFormulaError> for FeeScheduleError {
    open spec fn obeys_from_spec() -> bool {
        true
    }

    open spec fn from_spec(error: FeeFormulaError) -> FeeScheduleError {
        match error {
            FeeFormulaError::CurrencyMismatch => FeeScheduleError::CurrencyMismatch,
            FeeFormulaError::AmountOverflow => FeeScheduleError::AmountOverflow,
        }
    }
}

/// Caps that a schedule can hold: each present cap is in the formula's fixed-fee currency,
/// and the minimum does not exceed the maximum.
pub open spec fn consistent_caps(
    formula: FeeFormula,
    minimum: Option<Money>,
    maximum: Option<Money>,
) -> bool {
    &&& cap_matches(minimum, formula.fixed_view().currency_view())
    &&& cap_matches(maximum, formula.fixed_view().currency_view())
    &&& !caps_inverted(minimum, maximum)
}

impl FeeSchedule {
    #[verifier::type_invariant]
    spec fn caps_are_consistent(self) -> bool {
        consistent_caps(self.formula, self.minimum, self.maximum)
    }

    /// The fee formula.
    pub closed spec fn formula_view(&self) -> FeeFormula {
        self.formula
    }

    /// The optional minimum fee.
    pub closed spec fn minimum_view(&self) -> Option<Money> {
        self.minimum
    }

    /// The optional maximum fee.
    pub closed spec fn maximum_view(&self) -> Option<Money> {
        self.maximum
    }

    /// Creates a fee schedule from a formula and optional caps.
    ///
    /// Fails with `CurrencyMismatch` when a cap's currency differs from the fixed fee's, and
    /// with `InvalidCapRange` when the minimum exceeds the maximum.
    pub fn new(formula: FeeFormula, minimum: Option<Money>, maximum: Option<Money>) -> (r: Result<
        FeeSchedule,
        FeeScheduleError,
    >)
        ensures
            match r {
                Ok(s) => {
                    &&& cap_matches(minimum, formula.fixed_view().currency_view())
                    &&& cap_matches(maximum, formula.fixed_view().currency_view())
                    &&& !caps_inverted(minimum, maximum)
                    &&& s.formula_view() == formula
                    &&& s.minimum_view() == minimum
                    &&& s.maximum_view() == maximum
                },
                Err(FeeScheduleError::CurrencyMismatch) => !cap_matches(
                    minimum,
                    formula.fixed_view().currency_view(),
                ) || !cap_matches(maximum, formula.fixed_view().currency_view()),
                Err(FeeScheduleError::InvalidCapRange) => {
                    &&& cap_matches(minimum, formula.fixed_view().currency_view())
                    &&& cap_matches(maximum, formula.fixed_view().currency_view())
                    &&& caps_inverted(minimum, maximum)
                },
                Err(FeeScheduleError::AmountOverflow) => false,
            },
    {
        match validate_cap_currency(&formula, minimum.as_ref()) {
            Ok(()) => {},
            Err(e) => {
                return Err(e);
            },
        }
        match validate_cap_currency(&formula, maximum.as_ref()) {
            Ok(()) => {},
            Err(e) => {
                return Err(e);
            },
        }
        let inverted = match (&minimum, &maximum) {
            (Some(lo), Some(hi)) => lo.minor_units() > hi.minor_units(),
            _ => false,
        };
        if inverted {
            return Err(FeeScheduleError::InvalidCapRange);
        }
        Ok(FeeSchedule { formula, minimum, maximum })
    }

    /// Returns the underlying fee formula.
    pub fn formula(&self) -> (r: &FeeFormula)
        ensures
            *r == self.formula_view(),
            consistent_caps(self.formula_view(), self.minimum_view(), self.maximum_view()),
    {
        proof {
            use_type_invariant(self);
        }
        &self.formula
    }

    /// Returns the optional minimum fee cap.
    pub fn minimum(&self) -> (r: Option<&Money>)
        ensures
            match r {
                Some(m) => self.minimum_view() == Some(*m),
                None => self.minimum_view() is None,
            },
            consistent_caps(self.formula_view(), self.minimum_view(), self.maximum_view()),
    {
        proof {
            use_type_invariant(self);
        }
        self.minimum.as_ref()
    }

    /// Returns the optional maximum fee cap.
    pub fn maximum(&self) -> (r: Option<&Money>)
        ensures
            match r {
                Some(m) => self.maximum_view() == Some(*m),
                None => self.maximum_view() is None,
            },
            consistent_caps(self.formula_view(), self.minimum_view(), self.maximum_view()),
    {
        proof {
            use_type_invariant(self);
        }
        self.maximum.as_ref()
    }

    /// Calculates the formula's fee and applies the caps: a fee below the minimum becomes
    /// the minimum, then a fee above the maximum becomes the maximum. A calculated fee always
    /// lies within the caps that are present.
    pub fn calculate(&self, amount: &Money, mode: RoundingMode) -> (r: Result<Money, FeeScheduleError>)
        ensures
            match formula_fee(
                self.formula_view().rate_view().bp() as int,
                self.formula_view().fixed_view(),
                *amount,
                mode,
            ) {
                Ok(fee) => r matches Ok(m) && {
                    &&& m.amount() == capped_fee(fee, self.minimum_view(), self.maximum_view())
                    &&& m.currency_view() == if lowered_to_maximum(
                        fee,
                        self.minimum_view(),
                        self.maximum_view(),
                    ) {
                        self.maximum_view().unwrap().currency_view()
                    } else if raised_to_minimum(fee, self.minimum_view()) {
                        self.minimum_view().unwrap().currency_view()
                    } else {
                        amount.currency_view()
                    }
                    &&& same_currency(m.currency_view(), amount.currency_view())
                    &&& self.minimum_view() matches Some(lo) ==> lo.amount() <= m.amount()
                    &&& self.maximum_view() matches Some(hi) ==> m.amount() <= hi.amount()
                    &&& self.minimum_view() matches Some(lo) ==> (fee < lo.amount() ==> m.amount()
                        == lo.amount())
                    &&& self.maximum_view() matches Some(hi) ==> (fee > hi.amount() ==> m.amount()
                        == hi.amount())
                    &&& within_caps(fee, self.minimum_view(), self.maximum_view()) ==> m.amount()
                        == fee
                    &&& is_rounded_quotient(
                        fee - self.formula_view().fixed_view().amount(),
                        amount.amount() * self.formula_view().rate_view().bp(),
                        10_000,
                        mode,
                    )
                },
                Err(FeeFormulaError::CurrencyMismatch) => r == Err::<Money, FeeScheduleError>(
                    FeeScheduleError::CurrencyMismatch,
                ),
                Err(FeeFormulaError::AmountOverflow) => r == Err::<Money, FeeScheduleError>(
                    FeeScheduleError::AmountOverflow,
                ),
            },
    {
        proof {
            use_type_invariant(self);
            lemma_formula_fee_is_rated_plus_fixed(
                self.formula.rate_view().bp() as int,
                self.formula.fixed_view(),
                *amount,
                mode,
            );
            if let Ok(f) = formula_fee(
                self.formula.rate_view().bp() as int,
                self.formula.fixed_view(),
                *amount,
                mode,
            ) {
                lemma_caps_clamp(f, self.minimum, self.maximum);
            }
        }
        let mut fee = match self.formula.calculate(amount, mode) {
            Ok(f) => f,
            Err(e) => {
                return Err(FeeScheduleError::from(e));
            },
        };
        match &self.minimum {
            Some(minimum) => {
                if fee.minor_units() < minimum.minor_units() {
                    fee = minimum.clone();
                }
            },
            None => {},
        }
        match &self.maximum {
            Some(maximum) => {
                if fee.minor_units() > maximum.minor_units() {
                    fee = maximum.clone();
                }
            },
            None => {},
        }
        Ok(fee)
    }
}

impl Clone for FeeFormula {
    fn clone(&self) -> (r: Self)
        ensures
            r == *self,
    {
        FeeFormula { rate: self.rate, fixed: self.fixed.clone() }
    }
}

fn clone_cap(cap: &Option<Money>) -> (r: Option<Money>)
    ensures
        r == *cap,
{
    match cap {
        Some(m) => Some(m.clone()),
        None => None,
    }
}

impl Clone for FeeSchedule {
    fn clone(&self) -> (r: Self)
        ensures
            r == *self,
    {
        proof {
            use_type_invariant(self);
        }
        FeeSchedule {
            formula: self.formula.clone(),
            minimum: clone_cap(&self.minimum),
            maximum: clone_cap(&self.maximum),
        }
    }
}

fn validate_cap_currency(formula: &FeeFormula, cap: Option<&Money>) -> (r: Result<
    (),
    FeeScheduleError,
>)
    ensures
        match cap {
            Some(c) => r == if same_currency(c.currency_view(), formula.fixed_view().currency_view()) {
                Ok::<(), FeeScheduleError>(())
            } else {
                Err(FeeScheduleError::CurrencyMismatch)
            },
            None => r == Ok::<(), FeeScheduleError>(()),
        },
{
    match cap {
        Some(c) => {
            if !c.currency().same_definition(formula.fixed().currency()) {
                return Err(FeeScheduleError::CurrencyMismatch);
            }
            Ok(())
        },
        None => Ok(()),
    }
}

impl FeeFormulaError {
    /// The error message.
    pub fn to_string(&self) -> (r: String)
        ensures
            r@ == match *self {
                FeeFormulaError::CurrencyMismatch => "fee formula currency mismatch"@,
                FeeFormulaError::AmountOverflow => "fee formula amount overflowed"@,
            },
    {
        match self {
            FeeFormulaError::CurrencyMismatch => String::from_str("fee formula currency mismatch"),
            FeeFormulaError::AmountOverflow => String::from_str("fee formula amount overflowed"),
        }
    }
}

impl FeeScheduleError {
    /// The error message.
    pub fn to_string(&self) -> (r: String)
        ensures
            r@ == match *self {
                FeeScheduleError::CurrencyMismatch => "fee schedule currency mismatch"@,
                FeeScheduleError::InvalidCapRange => "fee schedule cap range is invalid"@,
                FeeScheduleError::AmountOverflow => "fee schedule amount overflowed"@,
            },
    {
        match self {
            FeeScheduleError::CurrencyMismatch => String::from_str("fee schedule currency mismatch"),
            FeeScheduleError::InvalidCapRange => String::from_str(
                "fee schedule cap range is invalid",
            ),
            FeeScheduleError::AmountOverflow => String::from_str("fee schedule amount overflowed"),
        }
    }
}

} // verus!
