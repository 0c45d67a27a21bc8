use axiom_rules_engine::decimal::{Decimal, RoundingMode};
use axiom_rules_engine::model::Rounding;

fn dec(value: &str) -> Decimal {
    Decimal::from_text(value).expect("valid decimal")
}

/// Round `value` to whole units under `mode`.
fn round0(mode: RoundingMode, value: &str) -> String {
    Rounding {
        mode,
        minor_units: 0,
    }
    .apply(dec(value))
    .normalize()
    .to_text()
}

/// Round `value` to two places under `mode`.
fn round2(mode: RoundingMode, value: &str) -> String {
    Rounding {
        mode,
        minor_units: 2,
    }
    .apply(dec(value))
    .to_text()
}

#[test]
fn half_up_rounds_midpoint_away_from_zero() {
    // Exact .5 midpoints go away from zero, positive and negative.
    assert_eq!(round0(RoundingMode::HalfUp, "0.5"), "1");
    assert_eq!(round0(RoundingMode::HalfUp, "1.5"), "2");
    assert_eq!(round0(RoundingMode::HalfUp, "2.5"), "3");
    assert_eq!(round0(RoundingMode::HalfUp, "-0.5"), "-1");
    assert_eq!(round0(RoundingMode::HalfUp, "-2.5"), "-3");
    // Off-midpoint rounds to nearest.
    assert_eq!(round0(RoundingMode::HalfUp, "2.4"), "2");
    assert_eq!(round0(RoundingMode::HalfUp, "2.6"), "3");
    assert_eq!(round0(RoundingMode::HalfUp, "-2.4"), "-2");
    // Cents.
    assert_eq!(round2(RoundingMode::HalfUp, "1.005"), "1.01");
    assert_eq!(round2(RoundingMode::HalfUp, "-1.005"), "-1.01");
}

#[test]
fn half_even_rounds_midpoint_to_even() {
    // Banker's rounding: .5 midpoints go to the nearest even digit.
    assert_eq!(round0(RoundingMode::HalfEven, "0.5"), "0");
    assert_eq!(round0(RoundingMode::HalfEven, "1.5"), "2");
    assert_eq!(round0(RoundingMode::HalfEven, "2.5"), "2");
    assert_eq!(round0(RoundingMode::HalfEven, "3.5"), "4");
    assert_eq!(round0(RoundingMode::HalfEven, "-0.5"), "0");
    assert_eq!(round0(RoundingMode::HalfEven, "-2.5"), "-2");
    assert_eq!(round0(RoundingMode::HalfEven, "-3.5"), "-4");
    // Off-midpoint rounds to nearest, same as any mode.
    assert_eq!(round0(RoundingMode::HalfEven, "2.6"), "3");
    assert_eq!(round2(RoundingMode::HalfEven, "1.005"), "1.00");
    assert_eq!(round2(RoundingMode::HalfEven, "1.015"), "1.02");
}

#[test]
fn floor_rounds_toward_negative_infinity() {
    assert_eq!(round0(RoundingMode::Floor, "2.9"), "2");
    assert_eq!(round0(RoundingMode::Floor, "2.5"), "2");
    assert_eq!(round0(RoundingMode::Floor, "2.1"), "2");
    // Negative values go DOWN (more negative), not toward zero.
    assert_eq!(round0(RoundingMode::Floor, "-2.1"), "-3");
    assert_eq!(round0(RoundingMode::Floor, "-2.5"), "-3");
    assert_eq!(round2(RoundingMode::Floor, "1.009"), "1.00");
    assert_eq!(round2(RoundingMode::Floor, "-1.001"), "-1.01");
}

#[test]
fn ceil_rounds_toward_positive_infinity() {
    assert_eq!(round0(RoundingMode::Ceil, "2.1"), "3");
    assert_eq!(round0(RoundingMode::Ceil, "2.5"), "3");
    assert_eq!(round0(RoundingMode::Ceil, "2.9"), "3");
    // Negative values go UP (toward zero) under ceil.
    assert_eq!(round0(RoundingMode::Ceil, "-2.9"), "-2");
    assert_eq!(round0(RoundingMode::Ceil, "-2.5"), "-2");
    assert_eq!(round2(RoundingMode::Ceil, "1.001"), "1.01");
    assert_eq!(round2(RoundingMode::Ceil, "-1.009"), "-1.00");
}

#[test]
fn already_scaled_values_are_unchanged() {
    // A value already at the target scale is a fixed point under every mode.
    for mode in [
        RoundingMode::HalfUp,
        RoundingMode::HalfEven,
        RoundingMode::Floor,
        RoundingMode::Ceil,
    ] {
        assert_eq!(round0(mode, "7"), "7");
        assert_eq!(round2(mode, "7.00"), "7.00");
        assert_eq!(round0(mode, "-7"), "-7");
    }
}

#[test]
fn as_str_round_trips_the_mode_vocabulary() {
    assert_eq!(RoundingMode::HalfUp.as_str(), "half_up");
    assert_eq!(RoundingMode::HalfEven.as_str(), "half_even");
    assert_eq!(RoundingMode::Floor.as_str(), "floor");
    assert_eq!(RoundingMode::Ceil.as_str(), "ceil");
}

#[test]
fn directed_roundings_enclose_the_value() {
    for value in ["2.345", "-2.345", "0.004", "-0.006", "7.00"] {
        let rounded = |mode: RoundingMode| Rounding { mode, minor_units: 2 }.apply(dec(value));
        let (low, high) = (rounded(RoundingMode::Floor), rounded(RoundingMode::Ceil));
        for mode in [RoundingMode::HalfUp, RoundingMode::HalfEven] {
            let near = rounded(mode).to_text();
            assert!(near == low.to_text() || near == high.to_text(), "{value}: {near}");
        }
    }
    assert_eq!(round2(RoundingMode::Floor, "2.345"), "2.34");
    assert_eq!(round2(RoundingMode::Ceil, "2.345"), "2.35");
    assert_eq!(round2(RoundingMode::Floor, "-2.345"), "-2.35");
    assert_eq!(round2(RoundingMode::Ceil, "-2.345"), "-2.34");
}
