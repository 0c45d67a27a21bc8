use std::collections::BTreeMap;

use axiom_rules_engine::date::Date;
use axiom_rules_engine::decimal::{Decimal, RoundingMode};
use axiom_rules_engine::engine::{
    apply_output_rounding, compare_scalar_values, expect_decimal, expect_dtype, expect_integer,
    Engine,
};
use axiom_rules_engine::error::EvalError;
use axiom_rules_engine::model::{
    ComparisonOp, DType, DataSet, Derived, DerivedSemantics, DerivedVersion, IndexedParameter,
    Interval, JudgmentExpr, JudgmentOutcome, ParameterVersion, Period, PeriodKind, Program,
    RelatedValueRef, RelationDerivation, RelationSchema, Rounding, ScalarExpr, ScalarValue,
    UnitDef,
};

fn day(year: i32, month: u32, number: u32) -> Date {
    Date::from_ymd(year, month, number).expect("valid date")
}

fn dec(value: &str) -> Decimal {
    Decimal::from_text(value).expect("valid decimal")
}

fn january() -> Period {
    Period {
        kind: PeriodKind::Month,
        start: day(2026, 1, 1),
        end: day(2026, 1, 31),
    }
}

fn all_year() -> Interval {
    Interval {
        start: day(2026, 1, 1),
        end: day(2026, 12, 31),
    }
}

fn number(value: i64) -> ScalarExpr {
    ScalarExpr::Literal(ScalarValue::Integer(value))
}

fn amount(value: &str) -> ScalarExpr {
    ScalarExpr::Literal(ScalarValue::Decimal(dec(value)))
}

fn input(name: &str) -> ScalarExpr {
    ScalarExpr::Input(name.to_string())
}

fn rule_value(name: &str) -> ScalarExpr {
    ScalarExpr::Derived(name.to_string())
}

fn rule(name: &str, entity: &str, dtype: DType, semantics: DerivedSemantics) -> Derived {
    Derived {
        id: None,
        name: name.to_string(),
        entity: entity.to_string(),
        dtype,
        unit: None,
        rounding: None,
        source: None,
        source_url: None,
        corpus_citation_path: None,
        semantics,
        versions: vec![],
    }
}

fn scalar_rule(name: &str, expr: ScalarExpr) -> Derived {
    rule(name, "Household", DType::Decimal, DerivedSemantics::Scalar(expr))
}

fn judgment_rule(name: &str, expr: JudgmentExpr) -> Derived {
    rule(name, "Household", DType::Judgment, DerivedSemantics::Judgment(expr))
}

fn program_of(rules: Vec<Derived>) -> Program {
    let mut program = Program::new();
    for item in rules {
        program.add_derived(item).expect("new name");
    }
    program
}

fn shown(value: &ScalarValue) -> String {
    match value {
        ScalarValue::Bool(value) => format!("bool {value}"),
        ScalarValue::Integer(value) => format!("integer {value}"),
        ScalarValue::Decimal(value) => format!("decimal {}", value.to_text()),
        ScalarValue::Text(value) => format!("text {value}"),
        ScalarValue::Date(value) => format!("date {}", value.to_text()),
    }
}

fn boxed(expr: ScalarExpr) -> Box<ScalarExpr> {
    Box::new(expr)
}

fn compare(left: ScalarExpr, op: ComparisonOp, right: ScalarExpr) -> JudgmentExpr {
    JudgmentExpr::Comparison { left, op, right }
}

fn value_of(program: &Program, data: &DataSet, name: &str) -> Result<ScalarValue, EvalError> {
    Engine::new(program, data).evaluate_scalar(name, "h1", &january())
}

fn value_text(expr: ScalarExpr) -> String {
    let program = program_of(vec![scalar_rule("x", expr)]);
    match value_of(&program, &DataSet::new(), "x") {
        Ok(value) => shown(&value),
        Err(error) => format!("error {}", error.to_text()),
    }
}

fn outcome_of(expr: JudgmentExpr) -> Result<JudgmentOutcome, EvalError> {
    let program = program_of(vec![judgment_rule("x", expr)]);
    Engine::new(&program, &DataSet::new()).evaluate_judgment("x", "h1", &january())
}

fn date(year: i32, month: u32, number: u32) -> ScalarExpr {
    ScalarExpr::Literal(ScalarValue::Date(day(year, month, number)))
}

fn text(value: &str) -> ScalarExpr {
    ScalarExpr::Literal(ScalarValue::Text(value.to_string()))
}

fn parameter(name: &str, indexed_by: Option<&str>, versions: Vec<ParameterVersion>) -> IndexedParameter {
    IndexedParameter {
        id: None,
        name: name.to_string(),
        unit: None,
        indexed_by: indexed_by.map(|name| name.to_string()),
        source: None,
        source_url: None,
        corpus_citation_path: None,
        versions,
    }
}

#[test]
fn formulas_compute_decimals() {
    assert_eq!(
        value_text(ScalarExpr::Add(vec![number(1), amount("0.50"), number(2)])),
        "decimal 3.50"
    );
    assert_eq!(
        value_text(ScalarExpr::Sub(boxed(number(1)), boxed(amount("0.25")))),
        "decimal 0.75"
    );
    assert_eq!(
        value_text(ScalarExpr::Mul(boxed(amount("1.1")), boxed(number(3)))),
        "decimal 3.3"
    );
    assert_eq!(
        value_text(ScalarExpr::Div(boxed(number(7)), boxed(number(2)))),
        "decimal 3.50"
    );
    assert_eq!(
        value_text(ScalarExpr::Max(vec![number(3), amount("3.5"), number(-9)])),
        "decimal 3.5"
    );
    assert_eq!(
        value_text(ScalarExpr::Min(vec![number(3), amount("3.5"), number(-9)])),
        "decimal -9"
    );
    assert_eq!(value_text(ScalarExpr::Ceil(boxed(amount("-2.5")))), "decimal -2");
    assert_eq!(value_text(ScalarExpr::Floor(boxed(amount("-2.5")))), "decimal -3");
}

#[test]
fn a_divisor_of_zero_is_an_error_before_the_dividend_is_read() {
    assert_eq!(
        value_text(ScalarExpr::Div(boxed(input("missing")), boxed(amount("0.0")))),
        "error division by zero"
    );
}

#[test]
fn dates_are_shifted_and_subtracted() {
    assert_eq!(
        value_text(ScalarExpr::DateAddDays {
            date: boxed(date(2026, 1, 31)),
            days: boxed(number(1)),
        }),
        "date 2026-02-01"
    );
    assert_eq!(
        value_text(ScalarExpr::DateAddMonths {
            date: boxed(date(2026, 1, 31)),
            months: boxed(number(1)),
        }),
        "date 2026-02-28"
    );
    assert_eq!(
        value_text(ScalarExpr::DateAddMonths {
            date: boxed(date(2026, 3, 31)),
            months: boxed(number(-1)),
        }),
        "date 2026-02-28"
    );
    assert_eq!(
        value_text(ScalarExpr::DateAddYears {
            date: boxed(date(2024, 2, 29)),
            years: boxed(number(1)),
        }),
        "date 2025-02-28"
    );
    assert_eq!(
        value_text(ScalarExpr::DaysBetween {
            from: boxed(ScalarExpr::PeriodStart),
            to: boxed(ScalarExpr::PeriodEnd),
        }),
        "integer 30"
    );
}

#[test]
fn a_shift_out_of_the_calendar_is_an_error() {
    assert_eq!(
        value_text(ScalarExpr::DateAddYears {
            date: boxed(date(2024, 2, 29)),
            years: boxed(number(900_000)),
        }),
        "error type mismatch: date_add_years result is outside the supported date range"
    );
    assert_eq!(
        value_text(ScalarExpr::DateAddDays {
            date: boxed(number(5)),
            days: boxed(number(1)),
        })
        .starts_with("error type mismatch"),
        true
    );
}

#[test]
fn a_branch_that_is_not_selected_is_not_read() {
    assert_eq!(
        value_text(ScalarExpr::If {
            condition: Box::new(compare(number(1), ComparisonOp::Lt, number(2))),
            then_expr: boxed(number(10)),
            else_expr: boxed(input("missing")),
        }),
        "integer 10"
    );
}

#[test]
fn a_match_without_an_arm_names_the_rule_and_the_value() {
    let error = value_text(ScalarExpr::NoMatch {
        subject: boxed(text("CO")),
        patterns: vec![text("TN"), text("KY")],
    });
    assert!(error.starts_with("error no arm of the match in `x` applies: "), "{error}");
    assert!(error.contains("\"CO\""), "{error}");
    assert!(error.contains("\"TN\""), "{error}");
}

#[test]
fn reductions_over_periods_have_no_value_in_one_period() {
    assert!(value_text(ScalarExpr::OverPeriods {
        kind: axiom_rules_engine::model::OverPeriodsKind::Sum,
        value: boxed(number(1)),
        n: None,
    })
    .starts_with("error over-periods reduction `sum_over_periods` is valid only under lifetime"));
}

#[test]
fn judgments_are_decided_by_the_first_deciding_item() {
    let holds = || compare(number(1), ComparisonOp::Eq, amount("1.0"));
    let fails = || compare(text("a"), ComparisonOp::Eq, text("b"));
    let unknown = || JudgmentExpr::Derived("unknown".to_string());
    assert_eq!(
        outcome_of(JudgmentExpr::And(vec![holds(), fails(), unknown()])).unwrap(),
        JudgmentOutcome::NotHolds
    );
    assert_eq!(
        outcome_of(JudgmentExpr::Or(vec![fails(), holds(), unknown()])).unwrap(),
        JudgmentOutcome::Holds
    );
    assert_eq!(
        outcome_of(JudgmentExpr::Not(Box::new(fails()))).unwrap(),
        JudgmentOutcome::Holds
    );
    assert_eq!(outcome_of(JudgmentExpr::And(vec![])).unwrap(), JudgmentOutcome::Holds);
    assert_eq!(outcome_of(JudgmentExpr::Or(vec![])).unwrap(), JudgmentOutcome::NotHolds);
    assert!(matches!(
        outcome_of(JudgmentExpr::And(vec![holds(), unknown()])),
        Err(EvalError::UnknownDerived(name)) if name == "unknown"
    ));
}

#[test]
fn values_of_different_types_are_not_ordered() {
    let compared = |left: ScalarValue, op: ComparisonOp, right: ScalarValue| {
        compare_scalar_values(&left, op, &right)
    };
    assert_eq!(
        compared(ScalarValue::Integer(2), ComparisonOp::Lte, ScalarValue::Decimal(dec("2.0"))).ok(),
        Some(true)
    );
    assert_eq!(
        compared(
            ScalarValue::Date(day(2026, 1, 2)),
            ComparisonOp::Gt,
            ScalarValue::Date(day(2026, 1, 1))
        )
        .ok(),
        Some(true)
    );
    assert_eq!(
        compared(ScalarValue::Bool(true), ComparisonOp::Ne, ScalarValue::Bool(false)).ok(),
        Some(true)
    );
    assert!(matches!(
        compared(ScalarValue::Bool(true), ComparisonOp::Lt, ScalarValue::Bool(false)),
        Err(EvalError::TypeMismatch(_))
    ));
    assert!(matches!(
        compared(ScalarValue::Integer(1), ComparisonOp::Eq, ScalarValue::Bool(false)),
        Err(EvalError::TypeMismatch(_))
    ));
}

#[test]
fn the_latest_covering_spell_of_an_input_is_read() {
    let program = program_of(vec![scalar_rule("x", input("income"))]);
    let mut data = DataSet::new();
    data.add_input("income", "Household", "h1", all_year(), ScalarValue::Integer(5));
    data.add_input(
        "income",
        "Household",
        "h1",
        Interval { start: day(2025, 6, 1), end: day(2026, 6, 1) },
        ScalarValue::Integer(4),
    );
    assert_eq!(shown(&value_of(&program, &data, "x").unwrap()), "integer 5");
    assert!(matches!(
        Engine::new(&program, &data).evaluate_scalar("x", "h2", &january()),
        Err(EvalError::MissingInput { name, entity_id, .. }) if name == "income" && entity_id == "h2"
    ));
}

#[test]
fn an_input_with_a_default_need_not_be_given() {
    let program = program_of(vec![scalar_rule(
        "x",
        ScalarExpr::InputOrElse {
            name: "income".to_string(),
            default: ScalarValue::Integer(7),
        },
    )]);
    assert_eq!(shown(&value_of(&program, &DataSet::new(), "x").unwrap()), "integer 7");
}

#[test]
fn parameters_are_looked_up_by_whole_keys_at_the_period() {
    let mut program = program_of(vec![
        scalar_rule(
            "x",
            ScalarExpr::ParameterLookup {
                parameter: "table".to_string(),
                index: boxed(input("size")),
            },
        ),
        scalar_rule(
            "y",
            ScalarExpr::ParameterLookup {
                parameter: "none".to_string(),
                index: boxed(number(0)),
            },
        ),
    ]);
    let version = |from: Date, value: i64| ParameterVersion {
        effective_from: from,
        effective_to: None,
        values: BTreeMap::from([(2, ScalarValue::Integer(value))]),
    };
    program
        .add_parameter(parameter(
            "table",
            Some("size"),
            vec![version(day(2024, 1, 1), 100), version(day(2026, 1, 1), 200), version(day(2027, 1, 1), 300)],
        ))
        .unwrap();
    let mut data = DataSet::new();
    data.add_input("size", "Household", "h1", all_year(), ScalarValue::Decimal(dec("2.0")));
    data.add_input("size", "Household", "h2", all_year(), ScalarValue::Integer(3));
    data.add_input("size", "Household", "h3", all_year(), ScalarValue::Decimal(dec("2.5")));
    let mut engine = Engine::new(&program, &data);
    assert_eq!(shown(&engine.evaluate_scalar("x", "h1", &january()).unwrap()), "integer 200");
    assert!(matches!(
        engine.evaluate_scalar("x", "h2", &january()),
        Err(EvalError::MissingParameterValue { parameter, key: 3, .. }) if parameter == "table"
    ));
    assert!(matches!(
        engine.evaluate_scalar("x", "h3", &january()),
        Err(EvalError::TypeMismatch(_))
    ));
    assert!(matches!(
        engine.evaluate_scalar("y", "h1", &january()),
        Err(EvalError::UnknownParameter(name)) if name == "none"
    ));
}

#[test]
fn a_parameter_without_an_index_has_a_value() {
    let mut program = Program::new();
    program
        .add_parameter(parameter(
            "limit",
            None,
            vec![ParameterVersion {
                effective_from: day(2020, 1, 1),
                effective_to: Some(day(2026, 6, 30)),
                values: BTreeMap::from([(0, ScalarValue::Integer(9))]),
            }],
        ))
        .unwrap();
    let data = DataSet::new();
    let mut engine = Engine::new(&program, &data);
    assert_eq!(shown(&engine.evaluate_parameter("limit", &january()).unwrap()), "integer 9");
    assert!(engine.evaluate_parameter("limit", &Period::month(2026, 7)).is_err());
    assert!(matches!(
        engine.evaluate_parameter("other", &january()),
        Err(EvalError::UnknownParameter(_))
    ));
}

#[test]
fn a_rule_reads_the_version_in_force_and_rounds_its_value() {
    let mut versioned = scalar_rule("x", number(0));
    versioned.unit = Some("USD".to_string());
    versioned.rounding = Some(Rounding { mode: RoundingMode::HalfUp, minor_units: 0 });
    versioned.versions = vec![
        DerivedVersion {
            effective_from: day(2026, 1, 1),
            effective_to: Some(day(2026, 1, 31)),
            semantics: DerivedSemantics::Scalar(amount("10.5")),
        },
        DerivedVersion {
            effective_from: day(2026, 2, 1),
            effective_to: None,
            semantics: DerivedSemantics::Scalar(amount("20")),
        },
    ];
    let mut program = program_of(vec![versioned]);
    program.add_unit(UnitDef::currency("USD", 2)).unwrap();
    let data = DataSet::new();
    let mut engine = Engine::new(&program, &data);
    assert_eq!(shown(&engine.evaluate_scalar("x", "h1", &january()).unwrap()), "decimal 11");
    assert_eq!(
        engine.cached_pre_rounding("x", "h1", &january()).map(|value| shown(&value)),
        Some("decimal 10.5".to_string())
    );
    assert_eq!(
        engine.cached_scalar("x", "h1", &january()).map(|value| shown(&value)),
        Some("decimal 11".to_string())
    );
    let later = Period::month(2026, 2);
    assert_eq!(shown(&engine.evaluate_scalar("x", "h1", &later).unwrap()), "decimal 20");
    assert!(engine.cached_pre_rounding("x", "h1", &later).is_none());
    assert!(matches!(
        engine.evaluate_scalar("x", "h1", &Period::month(2025, 12)),
        Err(EvalError::MissingDerivedFormulaVersion { derived, .. }) if derived == "x"
    ));
}

#[test]
fn a_rule_with_an_undeclared_unit_fails() {
    let mut item = scalar_rule("x", number(1));
    item.unit = Some("EUR".to_string());
    let program = program_of(vec![item]);
    assert!(matches!(
        value_of(&program, &DataSet::new(), "x"),
        Err(EvalError::UnknownUnit(name)) if name == "EUR"
    ));
}

#[test]
fn rules_of_the_other_kind_are_refused() {
    let program = program_of(vec![
        scalar_rule("amount", number(1)),
        judgment_rule("eligible", JudgmentExpr::And(vec![])),
    ]);
    let data = DataSet::new();
    let mut engine = Engine::new(&program, &data);
    assert!(matches!(
        engine.evaluate_judgment("amount", "h1", &january()),
        Err(EvalError::ExpectedJudgment(_))
    ));
    assert!(matches!(
        engine.evaluate_scalar("eligible", "h1", &january()),
        Err(EvalError::ExpectedScalar(_))
    ));
    assert_eq!(
        engine.evaluate_judgment("eligible", "h1", &january()).ok(),
        Some(JudgmentOutcome::Holds)
    );
    assert_eq!(
        engine.cached_judgment("eligible", "h1", &january()),
        Some(JudgmentOutcome::Holds)
    );
}

fn household_of_three() -> DataSet {
    let mut data = DataSet::new();
    for (person, age, income) in [("p1", 40, "100.10"), ("p2", 12, "0"), ("p3", 70, "50.05")] {
        data.add_relation("member", vec!["h1".to_string(), person.to_string()], all_year());
        data.add_input("age", "Person", person, all_year(), ScalarValue::Integer(age));
        data.add_input("income", "Person", person, all_year(), ScalarValue::Decimal(dec(income)));
    }
    data
}

fn is_adult() -> JudgmentExpr {
    compare(input("age"), ComparisonOp::Gte, number(18))
}

#[test]
fn related_entities_are_counted_and_summed() {
    let mut program = program_of(vec![
        scalar_rule(
            "members",
            ScalarExpr::CountRelated {
                relation: "member".to_string(),
                current_slot: 0,
                related_slot: 1,
                where_clause: None,
            },
        ),
        scalar_rule(
            "adults",
            ScalarExpr::CountRelated {
                relation: "member".to_string(),
                current_slot: 0,
                related_slot: 1,
                where_clause: Some(Box::new(is_adult())),
            },
        ),
        scalar_rule(
            "adult_income",
            ScalarExpr::SumRelated {
                relation: "member".to_string(),
                current_slot: 0,
                related_slot: 1,
                value: RelatedValueRef::Input("income".to_string()),
                where_clause: Some(Box::new(is_adult())),
            },
        ),
        scalar_rule(
            "strangers",
            ScalarExpr::CountRelated {
                relation: "stranger".to_string(),
                current_slot: 0,
                related_slot: 1,
                where_clause: None,
            },
        ),
    ]);
    program.add_relation("member", 2).unwrap();
    let data = household_of_three();
    assert_eq!(shown(&value_of(&program, &data, "members").unwrap()), "integer 3");
    assert_eq!(shown(&value_of(&program, &data, "adults").unwrap()), "integer 2");
    assert_eq!(shown(&value_of(&program, &data, "adult_income").unwrap()), "decimal 150.15");
    assert!(matches!(
        value_of(&program, &data, "strangers"),
        Err(EvalError::UnknownRelation(name)) if name == "stranger"
    ));
}

#[test]
fn a_derived_relation_keeps_the_members_its_predicate_holds_for() {
    let mut program = program_of(vec![scalar_rule(
        "adults",
        ScalarExpr::CountRelated {
            relation: "adult_member".to_string(),
            current_slot: 0,
            related_slot: 1,
            where_clause: None,
        },
    )]);
    program.add_relation("member", 2).unwrap();
    program
        .add_relation_schema(RelationSchema {
            name: "adult_member".to_string(),
            arity: 2,
            slot_entities: vec![],
            derivation: Some(RelationDerivation {
                source_relation: "member".to_string(),
                current_slot: 0,
                related_slot: 1,
                entity: Some("Person".to_string()),
                member_relation: None,
                slot_entities: vec!["Household".to_string(), "Person".to_string()],
                predicate: is_adult(),
            }),
        })
        .unwrap();
    assert_eq!(shown(&value_of(&program, &household_of_three(), "adults").unwrap()), "integer 2");
}

#[test]
fn remembered_values_are_those_a_fresh_interpreter_computes() {
    let program = program_of(vec![
        scalar_rule("a", ScalarExpr::Add(vec![rule_value("b"), number(1)])),
        scalar_rule("b", ScalarExpr::Mul(boxed(number(2)), boxed(rule_value("c")))),
        scalar_rule("c", amount("1.5")),
    ]);
    let data = DataSet::new();
    let mut engine = Engine::new(&program, &data);
    let first = shown(&engine.evaluate_scalar("a", "h1", &january()).unwrap());
    assert_eq!(first, "decimal 4.0");
    for name in ["a", "b", "c"] {
        let remembered = engine.cached_scalar(name, "h1", &january()).expect("remembered");
        assert_eq!(shown(&remembered), shown(&value_of(&program, &data, name).unwrap()));
    }
    let names: Vec<String> = engine
        .evaluated_trace_instances(&january(), "h1")
        .iter()
        .map(|instance| instance.key.derived.clone())
        .collect();
    assert_eq!(names, vec!["a", "b", "c"]);
}

#[test]
fn output_rounding_leaves_other_values_alone() {
    let mut item = scalar_rule("x", number(1));
    item.rounding = Some(Rounding { mode: RoundingMode::Floor, minor_units: 1 });
    assert_eq!(
        shown(&apply_output_rounding(&item, ScalarValue::Decimal(dec("1.29")))),
        "decimal 1.2"
    );
    assert_eq!(shown(&apply_output_rounding(&item, ScalarValue::Integer(3))), "integer 3");
}

#[test]
fn expectations_name_what_they_expect() {
    assert_eq!(expect_decimal(ScalarValue::Integer(3)).unwrap().to_text(), "3");
    assert_eq!(
        expect_decimal(ScalarValue::Bool(true)).unwrap_err().to_text(),
        "type mismatch: expected decimal-compatible scalar"
    );
    assert_eq!(expect_integer(ScalarValue::Integer(3)).ok(), Some(3));
    assert_eq!(
        expect_integer(ScalarValue::Decimal(dec("3"))).unwrap_err().to_text(),
        "type mismatch: expected integer scalar"
    );
    let item = scalar_rule("x", number(1));
    assert!(expect_dtype(&item, DType::Decimal).is_ok());
    assert_eq!(
        expect_dtype(&item, DType::Date).unwrap_err().to_text(),
        "type mismatch: derived `x` has dtype Decimal, expected Date"
    );
}
