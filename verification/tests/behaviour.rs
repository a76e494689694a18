use paykit_money::{
    parse_minor_units, Currency, CurrencyError, FeeFormula, FeeFormulaError, FeeSchedule,
    FeeScheduleError, MinorUnitsParseError, Money, MoneyAllocationError, MoneyError,
    MoneyParseError, MoneyRateError, Rate, RateParseError, RoundingMode,
};

const MODES: [RoundingMode; 6] = [
    RoundingMode::TowardZero,
    RoundingMode::AwayFromZero,
    RoundingMode::Floor,
    RoundingMode::Ceiling,
    RoundingMode::HalfAwayFromZero,
    RoundingMode::HalfEven,
];

fn currency(code: &str, minor_units: u8) -> Currency {
    Currency::new(code, minor_units).expect("valid currency definition")
}

fn money(minor_units: i128, code: &str, scale: u8) -> Money {
    Money::from_minor_units(minor_units, currency(code, scale))
}

fn amounts(values: &[Money]) -> Vec<i128> {
    values.iter().map(Money::minor_units).collect()
}

#[test]
fn formatted_amounts_parse_back_to_the_same_money() {
    for scale in [0u8, 2, 4, 18] {
        for amount in [0, 1, -1, 5, -1_050, 123_456_789, i128::MAX, i128::MIN] {
            let original = money(amount, "USD", scale);
            let text = original.to_string();
            let amount_text = text.strip_prefix("USD ").expect("code comes first");
            let parsed = Money::from_major_units(amount_text, currency("USD", scale));
            assert_eq!(parsed, Ok(original));
        }
    }
}

#[test]
fn formats_full_i128_range_at_a_fractional_scale() {
    assert_eq!(
        money(i128::MAX, "USD", 2).to_string(),
        "USD 1701411834604692317316873037158841057.27"
    );
    assert_eq!(money(-5, "XYZ", 4).to_string(), "XYZ -0.0005");
}

#[test]
fn parsing_trims_unicode_whitespace() {
    let parsed = Money::from_major_units("\u{3000}\u{a0}10.5\u{2003}\n", currency("USD", 2));
    assert_eq!(parsed.map(|m| m.minor_units()), Ok(1_050));
}

#[test]
fn parsing_reports_each_error() {
    let usd = currency("USD", 2);
    let cases = [
        ("   ", MoneyParseError::Empty),
        ("-", MoneyParseError::InvalidFormat),
        ("- 1", MoneyParseError::InvalidFormat),
        ("1.2.3", MoneyParseError::InvalidFormat),
        ("\u{ff11}0", MoneyParseError::InvalidFormat),
        ("1.", MoneyParseError::InvalidFormat),
        ("1.5x", MoneyParseError::InvalidFormat),
        ("1.505", MoneyParseError::TooManyFractionalDigits),
        ("1701411834604692317316873037158841057.28", MoneyParseError::AmountOverflow),
        ("-1701411834604692317316873037158841057.29", MoneyParseError::AmountOverflow),
    ];
    for (input, expected) in cases {
        assert_eq!(Money::from_major_units(input, usd.clone()), Err(expected), "{input:?}");
    }
}

#[test]
fn parsing_checks_major_overflow_before_the_fraction() {
    let usd = currency("USD", 2);
    assert_eq!(
        Money::from_major_units("9999999999999999999999999999999999999999.x", usd),
        Err(MoneyParseError::AmountOverflow)
    );
}

#[test]
fn fraction_length_counts_utf8_bytes() {
    assert_eq!(
        Money::from_major_units("1.\u{e9}", currency("XYZ", 1)),
        Err(MoneyParseError::TooManyFractionalDigits)
    );
    assert_eq!(
        Money::from_major_units("1.\u{e9}", currency("XYZ", 2)),
        Err(MoneyParseError::InvalidFormat)
    );
}

#[test]
fn scale_zero_accepts_the_full_range() {
    let jpy = currency("JPY", 0);
    assert_eq!(
        Money::from_major_units("-170141183460469231731687303715884105728", jpy.clone())
            .map(|m| m.minor_units()),
        Ok(i128::MIN)
    );
    assert_eq!(
        Money::from_major_units("170141183460469231731687303715884105728.5", jpy),
        Err(MoneyParseError::TooManyFractionalDigits)
    );
}

#[test]
fn currency_error_for_scale_names_the_input() {
    let error = Currency::new("USD", 19).expect_err("scale 19 is too large");
    assert_eq!(
        error.to_string(),
        "invalid minor-unit scale 19 for currency `USD`: expected 0..=18"
    );
    let error = Currency::new("usd", 2).expect_err("lowercase code");
    assert_eq!(
        error.to_string(),
        "invalid currency code `usd`: expected three uppercase ASCII letters"
    );
}

#[test]
fn code_is_checked_before_scale() {
    assert_eq!(
        Currency::new("us", 40),
        Err(CurrencyError::InvalidCode("us".into()))
    );
    assert_eq!(
        Currency::new("USDX", 2),
        Err(CurrencyError::InvalidCode("USDX".into()))
    );
}

#[test]
fn checked_arithmetic_is_exact_at_the_boundaries() {
    let max = money(i128::MAX, "USD", 2);
    let min = money(i128::MIN, "USD", 2);
    let one = money(1, "USD", 2);
    assert_eq!(max.checked_sub(&one).map(|m| m.minor_units()), Ok(i128::MAX - 1));
    assert_eq!(min.checked_add(&one).map(|m| m.minor_units()), Ok(i128::MIN + 1));
    assert_eq!(max.checked_add(&min).map(|m| m.minor_units()), Ok(-1));
    assert_eq!(min.checked_sub(&max), Err(MoneyError::AmountOverflow));
}

#[test]
fn apply_rate_computes_exact_shares() {
    let amount = money(10_000, "USD", 2);
    let fee = amount
        .apply_rate(Rate::from_basis_points(250), RoundingMode::HalfEven)
        .expect("fits");
    assert_eq!(fee.minor_units(), 250);
    assert_eq!(fee.currency(), amount.currency());
}

#[test]
fn apply_rate_rounds_by_mode() {
    // 1_050 at 1.00% is 10.5 minor units.
    let positive = money(1_050, "USD", 2);
    let negative = money(-1_050, "USD", 2);
    let rate = Rate::from_basis_points(100);
    let expected = [
        (RoundingMode::TowardZero, 10, -10),
        (RoundingMode::AwayFromZero, 11, -11),
        (RoundingMode::Floor, 10, -11),
        (RoundingMode::Ceiling, 11, -10),
        (RoundingMode::HalfAwayFromZero, 11, -11),
        (RoundingMode::HalfEven, 10, -10),
    ];
    for (mode, up, down) in expected {
        assert_eq!(positive.apply_rate(rate, mode).map(|m| m.minor_units()), Ok(up));
        assert_eq!(negative.apply_rate(rate, mode).map(|m| m.minor_units()), Ok(down));
    }
}

#[test]
fn full_rate_is_identity_and_zero_rate_is_zero() {
    for amount in [0, 7, -7, i128::MAX, i128::MIN] {
        let m = money(amount, "USD", 2);
        for mode in MODES {
            assert_eq!(
                m.apply_rate(Rate::from_basis_points(10_000), mode)
                    .map(|r| r.minor_units()),
                Ok(amount)
            );
            assert_eq!(
                m.apply_rate(Rate::from_basis_points(0), mode)
                    .map(|r| r.minor_units()),
                Ok(0)
            );
        }
    }
}

#[test]
fn apply_rate_reports_overflow() {
    let max = money(i128::MAX, "USD", 2);
    let min = money(i128::MIN, "USD", 2);
    assert_eq!(
        max.apply_rate(Rate::from_basis_points(10_001), RoundingMode::TowardZero),
        Err(MoneyRateError::AmountOverflow)
    );
    assert_eq!(
        min.apply_rate(Rate::from_basis_points(u32::MAX), RoundingMode::Floor),
        Err(MoneyRateError::AmountOverflow)
    );
}

#[test]
fn rounded_division_stays_within_one_unit() {
    for amount in [-1_001, -1_000, -999, -1, 0, 1, 999, 1_000, 1_001] {
        for divisor in [1u128, 2, 3, 7, 1_000] {
            for mode in MODES {
                let q = money(amount, "USD", 2).div_rounded(divisor, mode).minor_units();
                let error = (q * divisor as i128 - amount).abs();
                assert!(error < divisor as i128, "{amount} / {divisor} {mode:?}");
            }
        }
    }
}

#[test]
fn allocate_weighted_follows_weights_and_keeps_total() {
    let m = money(1_000, "USD", 2);
    let parts = m.allocate_weighted(&[1, 2, 3]).expect("valid weights");
    assert_eq!(amounts(&parts), vec![166, 333, 501]);
    let negative = money(-1_000, "USD", 2);
    let parts = negative.allocate_weighted(&[1, 2, 3]).expect("valid weights");
    assert_eq!(amounts(&parts), vec![-166, -333, -501]);
    assert!(parts.iter().all(|p| p.currency() == negative.currency()));
}

#[test]
fn allocate_weighted_handles_extreme_values() {
    let min = money(i128::MIN, "USD", 2);
    let parts = min
        .allocate_weighted(&[u32::MAX, 0, u32::MAX])
        .expect("valid weights");
    assert_eq!(amounts(&parts), vec![i128::MIN / 2, 0, i128::MIN / 2]);
    let total: i128 = amounts(&parts).iter().sum();
    assert_eq!(total, i128::MIN);
}

#[test]
fn allocate_weighted_reports_each_error() {
    let m = money(1_000, "USD", 2);
    assert_eq!(m.allocate_weighted(&[]), Err(MoneyAllocationError::EmptyWeights));
    assert_eq!(
        m.allocate_weighted(&[0, 0, 0]),
        Err(MoneyAllocationError::ZeroTotalWeight)
    );
}

#[test]
fn fee_formula_adds_rate_and_fixed_fee() {
    let formula = FeeFormula::new(Rate::from_basis_points(250), money(30, "USD", 2));
    assert_eq!(formula.rate(), Rate::from_basis_points(250));
    assert_eq!(formula.fixed().minor_units(), 30);
    let fee = formula
        .calculate(&money(10_000, "USD", 2), RoundingMode::HalfEven)
        .expect("same currency");
    assert_eq!(fee.minor_units(), 280);
}

#[test]
fn fee_formula_reports_each_error() {
    let formula = FeeFormula::new(Rate::from_basis_points(250), money(30, "USD", 2));
    assert_eq!(
        formula.calculate(&money(10_000, "EUR", 2), RoundingMode::HalfEven),
        Err(FeeFormulaError::CurrencyMismatch)
    );
    let full = FeeFormula::new(Rate::from_basis_points(10_000), money(1, "USD", 2));
    assert_eq!(
        full.calculate(&money(i128::MAX, "USD", 2), RoundingMode::HalfEven),
        Err(FeeFormulaError::AmountOverflow)
    );
    // The rated part is checked before the currencies.
    let double = FeeFormula::new(Rate::from_basis_points(20_000), money(1, "USD", 2));
    assert_eq!(
        double.calculate(&money(i128::MAX, "EUR", 2), RoundingMode::HalfEven),
        Err(FeeFormulaError::AmountOverflow)
    );
}

#[test]
fn fee_schedule_applies_caps() {
    let formula = FeeFormula::new(Rate::from_basis_points(250), money(30, "USD", 2));
    let schedule = FeeSchedule::new(
        formula.clone(),
        Some(money(50, "USD", 2)),
        Some(money(2_000, "USD", 2)),
    )
    .expect("valid schedule");
    assert_eq!(schedule.formula(), &formula);
    assert_eq!(schedule.minimum().map(Money::minor_units), Some(50));
    assert_eq!(schedule.maximum().map(Money::minor_units), Some(2_000));
    let fee = |amount: i128| {
        schedule
            .calculate(&money(amount, "USD", 2), RoundingMode::HalfEven)
            .map(|m| m.minor_units())
    };
    assert_eq!(fee(100), Ok(50));
    assert_eq!(fee(10_000), Ok(280));
    assert_eq!(fee(1_000_000), Ok(2_000));
    assert_eq!(
        schedule.calculate(&money(100, "EUR", 2), RoundingMode::HalfEven),
        Err(FeeScheduleError::CurrencyMismatch)
    );
}

#[test]
fn fee_schedule_without_caps_is_the_formula() {
    let formula = FeeFormula::new(Rate::from_basis_points(250), money(30, "USD", 2));
    let schedule = FeeSchedule::new(formula.clone(), None, None).expect("valid schedule");
    let amount = money(-10_000, "USD", 2);
    assert_eq!(
        schedule.calculate(&amount, RoundingMode::Floor).map(|m| m.minor_units()),
        formula
            .calculate(&amount, RoundingMode::Floor)
            .map(|m| m.minor_units())
            .map_err(|_| FeeScheduleError::AmountOverflow)
    );
}

#[test]
fn fee_schedule_rejects_invalid_configuration() {
    let formula = FeeFormula::new(Rate::from_basis_points(250), money(30, "USD", 2));
    assert_eq!(
        FeeSchedule::new(formula.clone(), Some(money(50, "EUR", 2)), None),
        Err(FeeScheduleError::CurrencyMismatch)
    );
    assert_eq!(
        FeeSchedule::new(formula.clone(), None, Some(money(50, "USD", 3))),
        Err(FeeScheduleError::CurrencyMismatch)
    );
    assert_eq!(
        FeeSchedule::new(
            formula,
            Some(money(2_000, "USD", 2)),
            Some(money(50, "USD", 2))
        ),
        Err(FeeScheduleError::InvalidCapRange)
    );
}

#[test]
fn error_messages_are_stable() {
    assert_eq!(
        MoneyRateError::AmountOverflow.to_string(),
        "rated money amount overflowed"
    );
    assert_eq!(
        MoneyAllocationError::EmptyWeights.to_string(),
        "allocation weights are empty"
    );
    assert_eq!(
        MoneyAllocationError::ZeroTotalWeight.to_string(),
        "allocation weights sum to zero"
    );
    assert_eq!(
        MoneyAllocationError::WeightOverflow.to_string(),
        "allocation weight arithmetic overflowed"
    );
    assert_eq!(
        FeeFormulaError::CurrencyMismatch.to_string(),
        "fee formula currency mismatch"
    );
    assert_eq!(
        FeeFormulaError::AmountOverflow.to_string(),
        "fee formula amount overflowed"
    );
    assert_eq!(
        FeeScheduleError::CurrencyMismatch.to_string(),
        "fee schedule currency mismatch"
    );
    assert_eq!(
        FeeScheduleError::InvalidCapRange.to_string(),
        "fee schedule cap range is invalid"
    );
    assert_eq!(
        FeeScheduleError::AmountOverflow.to_string(),
        "fee schedule amount overflowed"
    );
}

#[test]
fn error_conversions_keep_the_kind() {
    assert_eq!(
        FeeFormulaError::from(MoneyError::CurrencyMismatch),
        FeeFormulaError::CurrencyMismatch
    );
    assert_eq!(
        FeeFormulaError::from(MoneyRateError::AmountOverflow),
        FeeFormulaError::AmountOverflow
    );
    assert_eq!(
        FeeScheduleError::from(FeeFormulaError::CurrencyMismatch),
        FeeScheduleError::CurrencyMismatch
    );
}

#[test]
fn rate_parsing_checks_format_before_precision_and_range() {
    assert_eq!("0.5%".parse::<Rate>(), Ok(Rate::from_basis_points(50)));
    assert_eq!(
        "99999999999.999%".parse::<Rate>(),
        Err(RateParseError::TooManyFractionalDigits)
    );
    assert_eq!("2.5x1%".parse::<Rate>(), Err(RateParseError::InvalidFormat));
    assert_eq!(
        Rate::parse_percentage("\u{2003}12%\u{3000}"),
        Ok(Rate::from_basis_points(1_200))
    );
}

#[test]
fn currency_accessors_and_text() {
    let xyz = currency("XYZ", 4);
    assert_eq!(xyz.code(), "XYZ");
    assert_eq!(xyz.minor_units(), 4);
    assert_eq!(xyz.to_string(), "XYZ");
    assert!(xyz.same_definition(&currency("XYZ", 4)));
    assert!(!xyz.same_definition(&currency("XYZ", 3)));
    assert_eq!(Currency::MIN_MINOR_UNITS, 0);
}

#[test]
fn minor_unit_text_round_trips_the_full_range() {
    for value in [0, 1, -1, 1_050, -1_050, i128::MAX, i128::MIN] {
        let text = paykit_money::minor_units_text(value);
        assert_eq!(text, value.to_string());
        assert_eq!(parse_minor_units(&text), Ok(value));
    }
}

#[test]
fn minor_unit_parsing_agrees_with_std() {
    let cases = [
        ("", MinorUnitsParseError::Empty),
        ("-", MinorUnitsParseError::InvalidDigit),
        ("+", MinorUnitsParseError::InvalidDigit),
        ("10.50", MinorUnitsParseError::InvalidDigit),
        (" 1", MinorUnitsParseError::InvalidDigit),
        ("170141183460469231731687303715884105728", MinorUnitsParseError::PosOverflow),
        ("-170141183460469231731687303715884105729", MinorUnitsParseError::NegOverflow),
        ("9999999999999999999999999999999999999999x", MinorUnitsParseError::PosOverflow),
    ];
    for (input, expected) in cases {
        assert_eq!(parse_minor_units(input), Err(expected), "{input:?}");
        let std_error = input.parse::<i128>().expect_err("std rejects it too");
        assert_eq!(expected.to_string(), std_error.to_string(), "{input:?}");
    }
    assert_eq!(parse_minor_units("+42"), Ok(42));
    assert_eq!(parse_minor_units("-0"), Ok(0));
    assert_eq!(parse_minor_units("007"), Ok(7));
}

#[test]
fn schedule_accessors_show_consistent_caps() {
    let formula = FeeFormula::new(Rate::from_basis_points(250), money(30, "USD", 2));
    let schedule = FeeSchedule::new(formula, Some(money(50, "USD", 2)), Some(money(50, "USD", 2)))
        .expect("equal caps are allowed");
    let lo = schedule.minimum().expect("minimum");
    let hi = schedule.maximum().expect("maximum");
    assert!(lo.minor_units() <= hi.minor_units());
    assert_eq!(lo.currency(), schedule.formula().fixed().currency());
}

#[test]
fn rates_are_equal_exactly_when_basis_points_are() {
    assert_eq!(Rate::from_basis_points(250), Rate::from_basis_points(250));
    assert_ne!(Rate::from_basis_points(250), Rate::from_basis_points(251));
    assert_eq!(Rate::from_basis_points(u32::MAX).basis_points(), u32::MAX);
}
