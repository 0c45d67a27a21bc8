use axiom_rules_engine::date::Date;
use axiom_rules_engine::decimal::{Decimal, RoundingMode};
use axiom_rules_engine::error::{checked_add, checked_div, checked_mul, checked_sub, EvalError};
use axiom_rules_engine::model::{
    year_of, year_start, Interval, Period, PeriodKind, ScalarValue,
};
use axiom_rules_engine::text::{i64_text, insert_sorted, u64_text, usize_text};

fn day(year: i32, month: u32, number: u32) -> Date {
    Date::from_ymd(year, month, number).expect("valid date")
}

fn dec(value: &str) -> Decimal {
    Decimal::from_text(value).expect("valid decimal")
}

#[test]
fn decimal_arithmetic_is_exact() {
    assert_eq!(checked_add(dec("0.1"), dec("0.2")).unwrap().to_text(), "0.3");
    assert_eq!(checked_sub(dec("1.00"), dec("0.25")).unwrap().to_text(), "0.75");
    assert_eq!(checked_mul(dec("1.5"), dec("-2.5")).unwrap().to_text(), "-3.75");
    assert_eq!(checked_div(dec("1"), dec("8")).unwrap().to_text(), "0.125");
    assert_eq!(
        checked_div(dec("2"), dec("3")).unwrap().to_text(),
        "0.6666666666666666666666666667"
    );
}

#[test]
fn arithmetic_beyond_the_range_is_an_error() {
    let largest = dec("79228162514264337593543950335");
    assert!(matches!(
        checked_add(largest, dec("1")),
        Err(EvalError::ArithmeticOverflow)
    ));
    assert!(matches!(
        checked_sub(dec("-79228162514264337593543950335"), dec("1")),
        Err(EvalError::ArithmeticOverflow)
    ));
    assert!(matches!(
        checked_mul(largest, dec("2")),
        Err(EvalError::ArithmeticOverflow)
    ));
    assert!(matches!(
        checked_div(largest, dec("0.5")),
        Err(EvalError::ArithmeticOverflow)
    ));
}

#[test]
fn decimals_are_read_and_written() {
    assert_eq!(dec("-12.340").to_text(), "-12.340");
    assert_eq!(dec("12.340").normalize().to_text(), "12.34");
    assert_eq!(Decimal::zero().to_text(), "0");
    assert!(dec("0.000").is_zero());
    assert!(!dec("0.001").is_zero());
    assert_eq!(Decimal::new(-1234, 2).unwrap().to_text(), "-12.34");
    assert!(Decimal::new(1, 29).is_none());
    assert_eq!(Decimal::from_i64(-7).to_text(), "-7");
    assert!(Decimal::from_text("twelve").is_none());
    assert!(Decimal::from_text("").is_none());
}

#[test]
fn whole_decimals_are_indices() {
    assert_eq!(dec("3.00").to_index(), Some(3));
    assert_eq!(dec("-3").to_index(), Some(-3));
    assert_eq!(dec("3.5").to_index(), None);
    assert_eq!(dec("9223372036854775808").to_index(), None);
}

#[test]
fn rounding_to_places_follows_the_mode() {
    assert_eq!(dec("2.345").round(2, RoundingMode::HalfUp).to_text(), "2.35");
    assert_eq!(dec("2.345").round(2, RoundingMode::HalfEven).to_text(), "2.34");
    assert_eq!(dec("2.349").round(2, RoundingMode::Floor).to_text(), "2.34");
    assert_eq!(dec("2.341").round(2, RoundingMode::Ceil).to_text(), "2.35");
    assert_eq!(
        RoundingMode::HalfUp.round_decimal(dec("-2.345"), 2).to_text(),
        "-2.35"
    );
}

#[test]
fn days_are_counted_and_written() {
    let date = day(2024, 2, 28);
    assert_eq!(date.add_days(1).unwrap().to_text(), "2024-02-29");
    assert_eq!(date.add_days(2).unwrap().to_text(), "2024-03-01");
    assert_eq!(date.days_until(&day(2025, 2, 28)), 366);
    assert_eq!(day(2025, 2, 28).days_until(&date), -366);
    assert!(date.before(&day(2024, 3, 1)));
    assert!(!date.before(&date));
    assert!(date.up_to(&date));
    assert!(date.same_day(&day(2024, 2, 28)));
    assert_eq!(Date::epoch().to_text(), "1970-01-01");
    assert!(date.add_days(i64::MAX).is_none());
    assert!(date.add_days(1_000_000_000).is_none());
    assert_eq!(
        Date::from_number(date.to_number()).map(|same| same.to_text()),
        Some("2024-02-28".to_string())
    );
}

#[test]
fn calendar_days_that_do_not_exist_are_refused() {
    assert!(Date::from_ymd(2023, 2, 29).is_none());
    assert!(Date::from_ymd(2023, 13, 1).is_none());
    assert!(Date::from_ymd(2023, 1, 0).is_none());
    assert!(Date::from_ymd(1900, 2, 29).is_none());
    assert!(Date::from_ymd(2000, 2, 29).is_some());
    assert_eq!(day(-1, 3, 4).to_text(), "-0001-03-04");
    assert_eq!(day(10000, 1, 1).to_text(), "+10000-01-01");
}

#[test]
fn months_and_weeks_are_periods() {
    let february = Period::month(2024, 2);
    assert_eq!(february.start.to_text(), "2024-02-01");
    assert_eq!(february.end.to_text(), "2024-02-29");
    assert_eq!(Period::month(2025, 12).end.to_text(), "2025-12-31");
    let week = Period::benefit_week(day(2025, 12, 29));
    assert!(matches!(week.kind, PeriodKind::BenefitWeek));
    assert_eq!(week.end.to_text(), "2026-01-04");
    assert_eq!(year_of(&week), 2025);
    assert_eq!(year_start(2026).to_text(), "2026-01-01");
}

#[test]
fn an_interval_covers_the_periods_inside_it() {
    let period = Period::month(2026, 3);
    assert!(Interval::covering(&period).contains_period(&period));
    let spell = Interval {
        start: day(2026, 3, 2),
        end: day(2026, 12, 31),
    };
    assert!(!spell.contains_period(&period));
    assert!(spell.contains_period(&Period::month(2026, 4)));
    assert!(period.same_period(&period.duplicate()));
    assert!(!period.same_period(&Period::month(2026, 4)));
}

#[test]
fn scalars_are_compared_and_read() {
    assert!(ScalarValue::Decimal(dec("1.0")).equal_to(&ScalarValue::Decimal(dec("1.00"))));
    assert!(!ScalarValue::Integer(1).equal_to(&ScalarValue::Integer(2)));
    assert_eq!(ScalarValue::Integer(4).as_index(), Some(4));
    assert_eq!(ScalarValue::Decimal(dec("4.0")).as_index(), Some(4));
    assert_eq!(ScalarValue::Text("4".to_string()).as_index(), None);
    assert_eq!(ScalarValue::Bool(true).as_bool(), Some(true));
    assert!(ScalarValue::Bool(true).as_decimal().is_none());
    assert_eq!(
        ScalarValue::Date(day(2026, 5, 6)).as_date().map(|date| date.to_text()),
        Some("2026-05-06".to_string())
    );
}

#[test]
fn integers_are_written_in_digits() {
    assert_eq!(u64_text(u64::MAX), "18446744073709551615");
    assert_eq!(usize_text(0), "0");
    assert_eq!(i64_text(i64::MIN), "-9223372036854775808");
    assert_eq!(i64_text(1203), "1203");
}

#[test]
fn texts_are_inserted_in_order_once() {
    let mut list = vec![];
    for item in ["pear", "apple", "zoo", "apple", "Pear", "äpfel"] {
        insert_sorted(&mut list, item.to_string());
    }
    assert_eq!(list, vec!["Pear", "apple", "pear", "zoo", "äpfel"]);
}
