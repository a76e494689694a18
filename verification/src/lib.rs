//! Exact money and currency primitives.
//!
//! Currency definitions are data-driven: the crate validates their structure but keeps no
//! catalogue of supported currencies. Amounts are signed `i128` minor units, so parsing,
//! checked arithmetic, rounding, allocation and formatting use integers only.
//!
//! Policy stays with applications: which valid currencies they support, whether a workflow
//! permits zero or negative amounts, which rounding mode applies, and how amounts are
//! localized for people.

pub mod text;
mod currency;
pub mod money;

pub use currency::{is_valid_code, Currency, CurrencyError};
pub use money::allocation::MoneyAllocationError;
pub use money::fee_formula::{FeeFormula, FeeFormulaError, FeeSchedule, FeeScheduleError};
pub use money::rate::{MoneyRateError, Rate, RateParseError};
pub use money::minor_units::{minor_units_text, parse_minor_units, MinorUnitsParseError};
pub use money::rounding_mode::RoundingMode;
pub use money::{Money, MoneyError, MoneyParseError};
