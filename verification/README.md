# paykit-money

Exact money and currency primitives, verified with Verus.

Amounts are signed `i128` minor units of a validated currency (a three-letter uppercase
ASCII code and a minor-unit scale from 0 to 18). Parsing, checked arithmetic, basis-point
rates, rounding, allocation, fees and formatting use integers only, and each operation's
contract states its exact result and exactly when each error occurs.

Layout:

- `src/currency.rs`: `Currency` and its validation.
- `src/money/mod.rs`: `Money`, checked addition and subtraction, parsing of major-unit text
  and the text of an amount.
- `src/money/rounding_mode.rs`: rounding modes, rounded division, and the rounding laws.
- `src/money/rate.rs`: basis-point rates, their text form, and applying them to money.
- `src/money/allocation.rs`: equal and weighted allocation.
- `src/money/fee_formula.rs`: fee formulas and capped fee schedules.
- `src/money/minor_units.rs`: the plain decimal text of a minor-unit amount, for wire formats.
- `src/money/quotient.rs`: `value * multiplier / denominator` on `u128`.
- `src/text.rs`: whitespace trimming and decimal digits.
- `app/lib.rs`: serde wire forms of the values, and `NonZero` entry points.
