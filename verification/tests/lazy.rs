use axiom_rules_engine::bulk_column::{compare_columns, ScalarColumn};
use axiom_rules_engine::error::EvalError;
use axiom_rules_engine::lazy::{RowErrors, RowMask};
use axiom_rules_engine::model::{ComparisonOp, JudgmentOutcome};

#[test]
fn masks_track_active_rows_through_set_operations() {
    let all = RowMask::all(4);
    assert!(all.is_all());
    assert_eq!(all.rows(), vec![0, 1, 2, 3]);

    let odd = all.filter(|row| row % 2 == 1);
    assert_eq!(odd.count(), 2);
    assert_eq!(odd.rows(), vec![1, 3]);
    assert!(!odd.contains(0));

    let even = all.difference(&odd);
    assert_eq!(even.rows(), vec![0, 2]);
    assert!(odd.union(&even).is_all());
    assert!(RowMask::none(3).is_empty());
    assert!(RowMask::from_bits(vec![true, true]).is_all());
}

#[test]
fn errors_keep_the_first_failure_of_each_row_and_leave_the_mask() {
    let mut errors = RowErrors::new();
    errors.record(2, EvalError::DivisionByZero);
    errors.record(2, EvalError::UnknownDerived("later".to_string()));
    assert!(matches!(errors.get(2), Some(EvalError::DivisionByZero)));

    let mask = RowMask::all(4).without(&errors);
    assert_eq!(mask.rows(), vec![0, 1, 3]);

    let mut later = RowErrors::new();
    later.record(0, EvalError::UnknownParameter("p".to_string()));
    errors.absorb(later);
    assert_eq!(errors.first().map(|(row, _)| row), Some(0));
    assert!(errors.restricted_to(&mask).get(2).is_none());
}

#[test]
fn recording_every_row_of_a_mask_keeps_earlier_failures() {
    let mut errors = RowErrors::new();
    assert!(errors.is_empty());
    errors.record(1, EvalError::DivisionByZero);
    errors.record_all(&RowMask::all(3), &EvalError::ArithmeticOverflow);
    assert_eq!(
        errors.entries().iter().map(|entry| entry.row).collect::<Vec<usize>>(),
        vec![0, 1, 2]
    );
    assert!(matches!(errors.get(0), Some(EvalError::ArithmeticOverflow)));
    assert!(matches!(errors.get(1), Some(EvalError::DivisionByZero)));
    assert!(errors.duplicate().contains(2));
    assert!(!errors.contains(3));
}

#[test]
fn failures_of_a_match_name_the_innermost_rule() {
    let mut errors = RowErrors::new();
    errors.record(
        0,
        EvalError::NoMatchingArm {
            rule: String::new(),
            subject: "state".to_string(),
            value: "\"CO\"".to_string(),
            patterns: "\"TN\"".to_string(),
        },
    );
    let named = errors.within_rule("inner").within_rule("outer");
    match named.get(0) {
        Some(EvalError::NoMatchingArm { rule, .. }) => assert_eq!(rule, "inner"),
        other => panic!("unexpected {other:?}"),
    }
}

#[test]
fn rows_that_hold_no_number_keep_their_first_error() {
    let column = ScalarColumn::Text(vec!["a".to_string(), "b".to_string()]);
    let mut errors = RowErrors::new();
    errors.record(1, EvalError::DivisionByZero);
    column.decimals(&RowMask::all(2), &mut errors);
    assert!(matches!(
        errors.get(0),
        Some(EvalError::TypeMismatch(text)) if text == "expected numeric scalar"
    ));
    assert!(matches!(errors.get(1), Some(EvalError::DivisionByZero)));
}

#[test]
fn rows_of_two_kinds_cannot_be_ordered() {
    let left = ScalarColumn::Integer(vec![1, 2]);
    let right = ScalarColumn::Text(vec!["a".to_string(), "b".to_string()]);
    let mut errors = RowErrors::new();
    compare_columns(&left, ComparisonOp::Lt, &right, &RowMask::from_bits(vec![true, false]), &mut errors);
    assert!(matches!(errors.get(0), Some(EvalError::TypeMismatch(_))));
    assert!(errors.get(1).is_none());
    let mut errors = RowErrors::new();
    let right = ScalarColumn::Integer(vec![2, 2]);
    let outcomes = compare_columns(&left, ComparisonOp::Lt, &right, &RowMask::all(2), &mut errors);
    assert_eq!(outcomes, vec![JudgmentOutcome::Holds, JudgmentOutcome::NotHolds]);
    assert!(errors.is_empty());
}
