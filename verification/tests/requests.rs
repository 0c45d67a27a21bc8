use std::collections::BTreeMap;

use axiom_rules_engine::api::{
    ApiError, DerivedTraceNode, ExecutionMode, ExecutionQuery, ExecutionResponse, OutputValue,
    TraceNodeValue,
};
use axiom_rules_engine::compile::{CompileError, CompiledProgramArtifact};
use axiom_rules_engine::date::Date;
use axiom_rules_engine::decimal::{Decimal, RoundingMode};
use axiom_rules_engine::error::EvalError;
use axiom_rules_engine::inputs::{resolve_inputs_for_period, validate_input_spells};
use axiom_rules_engine::model::{
    ComparisonOp, DType, DataSet, Derived, DerivedSemantics, IndexedParameter, Interval,
    JudgmentExpr, JudgmentOutcome, ParameterVersion, Period, PeriodKind, Program, RelatedValueRef,
    RelationDerivation, RelationSchema, Rounding, ScalarExpr, ScalarValue, UnitDef,
};
use axiom_rules_engine::pins::{PinError, RulePin};
use axiom_rules_engine::request::{
    check_asked_references_end, execute_compiled_request, execute_request, try_execute,
    CompiledExecutionRequest, ExecutionRequest, FastPathResult,
};
use axiom_rules_engine::termination::{check_references_end, check_rules_end};

fn day(year: i32, month: u32, number: u32) -> Date {
    Date::from_ymd(year, month, number).expect("valid date")
}

fn dec(value: &str) -> Decimal {
    Decimal::from_text(value).expect("valid decimal")
}

fn january() -> Period {
    Period {
        kind: PeriodKind::Month,
        start: day(2026, 1, 1),
        end: day(2026, 1, 31),
    }
}

fn all_year() -> Interval {
    Interval {
        start: day(2026, 1, 1),
        end: day(2026, 12, 31),
    }
}

fn number(value: i64) -> ScalarExpr {
    ScalarExpr::Literal(ScalarValue::Integer(value))
}

fn amount(value: &str) -> ScalarExpr {
    ScalarExpr::Literal(ScalarValue::Decimal(dec(value)))
}

fn input(name: &str) -> ScalarExpr {
    ScalarExpr::Input(name.to_string())
}

fn rule_value(name: &str) -> ScalarExpr {
    ScalarExpr::Derived(name.to_string())
}

fn rule(name: &str, entity: &str, dtype: DType, semantics: DerivedSemantics) -> Derived {
    Derived {
        id: None,
        name: name.to_string(),
        entity: entity.to_string(),
        dtype,
        unit: None,
        rounding: None,
        source: None,
        source_url: None,
        corpus_citation_path: None,
        semantics,
        versions: vec![],
    }
}

fn scalar_rule(name: &str, expr: ScalarExpr) -> Derived {
    rule(name, "Household", DType::Decimal, DerivedSemantics::Scalar(expr))
}

fn judgment_rule(name: &str, expr: JudgmentExpr) -> Derived {
    rule(name, "Household", DType::Judgment, DerivedSemantics::Judgment(expr))
}

fn program_of(rules: Vec<Derived>) -> Program {
    let mut program = Program::new();
    for item in rules {
        program.add_derived(item).expect("new name");
    }
    program
}

fn shown(value: &ScalarValue) -> String {
    match value {
        ScalarValue::Bool(value) => format!("bool {value}"),
        ScalarValue::Integer(value) => format!("integer {value}"),
        ScalarValue::Decimal(value) => format!("decimal {}", value.to_text()),
        ScalarValue::Text(value) => format!("text {value}"),
        ScalarValue::Date(value) => format!("date {}", value.to_text()),
    }
}

fn query(entity_id: &str, outputs: &[&str]) -> ExecutionQuery {
    ExecutionQuery {
        entity_id: entity_id.to_string(),
        period: january(),
        outputs: outputs.iter().map(|name| name.to_string()).collect(),
        assessment_date: None,
    }
}

/// A program whose rules read inputs, a parameter, other rules and members.
fn benefit() -> Program {
    let mut allotment = scalar_rule(
        "allotment",
        ScalarExpr::If {
            condition: Box::new(JudgmentExpr::Derived("eligible".to_string())),
            then_expr: Box::new(ScalarExpr::Sub(
                Box::new(ScalarExpr::ParameterLookup {
                    parameter: "maximum".to_string(),
                    index: Box::new(rule_value("size")),
                }),
                Box::new(ScalarExpr::Mul(
                    Box::new(amount("0.3")),
                    Box::new(input("income")),
                )),
            )),
            else_expr: Box::new(number(0)),
        },
    );
    allotment.unit = Some("USD".to_string());
    allotment.rounding = Some(Rounding { mode: RoundingMode::HalfUp, minor_units: 0 });
    allotment.id = Some("us:benefit#allotment".to_string());
    let mut program = program_of(vec![
        allotment,
        judgment_rule(
            "eligible",
            JudgmentExpr::And(vec![
                JudgmentExpr::Comparison {
                    left: rule_value("size"),
                    op: ComparisonOp::Gt,
                    right: number(0),
                },
                JudgmentExpr::Comparison {
                    left: input("income"),
                    op: ComparisonOp::Lt,
                    right: number(1000),
                },
            ]),
        ),
        rule(
            "size",
            "Household",
            DType::Integer,
            DerivedSemantics::Scalar(ScalarExpr::CountRelated {
                relation: "member".to_string(),
                current_slot: 0,
                related_slot: 1,
                where_clause: None,
            }),
        ),
        scalar_rule(
            "member_income",
            ScalarExpr::SumRelated {
                relation: "member".to_string(),
                current_slot: 0,
                related_slot: 1,
                value: RelatedValueRef::Derived("earned".to_string()),
                where_clause: None,
            },
        ),
        rule(
            "earned",
            "Person",
            DType::Decimal,
            DerivedSemantics::Scalar(ScalarExpr::InputOrElse {
                name: "wages".to_string(),
                default: ScalarValue::Integer(0),
            }),
        ),
    ]);
    program.add_unit(UnitDef::currency("USD", 2)).unwrap();
    program.add_relation("member", 2).unwrap();
    program
        .add_parameter(IndexedParameter {
            id: None,
            name: "maximum".to_string(),
            unit: Some("USD".to_string()),
            indexed_by: Some("size".to_string()),
            source: Some("table".to_string()),
            source_url: None,
            corpus_citation_path: None,
            versions: vec![ParameterVersion {
                effective_from: day(2025, 10, 1),
                effective_to: None,
                values: BTreeMap::from([
                    (1, ScalarValue::Integer(298)),
                    (2, ScalarValue::Integer(546)),
                ]),
            }],
        })
        .unwrap();
    program
}

fn households() -> DataSet {
    let mut data = DataSet::new();
    for (household, income, members) in [("h1", "101.55", vec!["p1", "p2"]), ("h2", "2000", vec!["p3"])] {
        data.add_input("income", "Household", household, all_year(), ScalarValue::Decimal(dec(income)));
        for person in members {
            data.add_relation("member", vec![household.to_string(), person.to_string()], all_year());
        }
    }
    data.add_input("wages", "Person", "p1", all_year(), ScalarValue::Decimal(dec("12.50")));
    data
}

fn run(mode: ExecutionMode, program: Program, dataset: DataSet, queries: Vec<ExecutionQuery>) -> Result<ExecutionResponse, ApiError> {
    assert!(check_asked_references_end(&program, &queries));
    execute_request(ExecutionRequest { mode, program, dataset, queries })
}

fn output_text(value: &OutputValue) -> String {
    match value {
        OutputValue::Scalar { value, .. } => shown(value),
        OutputValue::Judgment { outcome, .. } => format!("{outcome:?}"),
    }
}

fn outputs(response: &ExecutionResponse) -> Vec<Vec<(String, String)>> {
    response
        .results
        .iter()
        .map(|result| {
            result
                .outputs
                .iter()
                .map(|output| (output.key.clone(), output_text(&output.item)))
                .collect()
        })
        .collect()
}

fn node<'a>(response: &'a ExecutionResponse, key: &str) -> &'a DerivedTraceNode {
    &response.results[0]
        .trace
        .iter()
        .find(|node| node.key == key)
        .expect("traced")
        .item
}

#[test]
fn explain_answers_with_outputs_in_order_of_their_keys() {
    let response = run(
        ExecutionMode::Explain,
        benefit(),
        households(),
        vec![query("h1", &["us:benefit#allotment", "eligible", "member_income"]), query("h2", &["us:benefit#allotment"])],
    )
    .unwrap();
    assert_eq!(
        outputs(&response),
        vec![
            vec![
                ("eligible".to_string(), "Holds".to_string()),
                ("member_income".to_string(), "decimal 12.50".to_string()),
                ("us:benefit#allotment".to_string(), "decimal 516".to_string()),
            ],
            vec![("us:benefit#allotment".to_string(), "integer 0".to_string())],
        ]
    );
    assert_eq!(response.metadata.actual_mode, ExecutionMode::Explain);
    assert!(response.metadata.fallback_reason.is_none());
}

#[test]
fn a_trace_holds_every_rule_that_was_evaluated_and_its_reads() {
    let response = run(
        ExecutionMode::Explain,
        benefit(),
        households(),
        vec![query("h1", &["us:benefit#allotment", "member_income"])],
    )
    .unwrap();
    let keys: Vec<&str> = response.results[0].trace.iter().map(|node| node.key.as_str()).collect();
    assert_eq!(
        keys,
        vec![
            "earned@entity:7031",
            "earned@entity:7032",
            "eligible",
            "member_income",
            "size",
            "us:benefit#allotment",
        ]
    );
    let allotment = node(&response, "us:benefit#allotment");
    match &allotment.value {
        TraceNodeValue::Scalar { value, rounding, pre_rounding_value, .. } => {
            assert_eq!(shown(value), "decimal 516");
            assert_eq!(*rounding, Some(RoundingMode::HalfUp));
            assert_eq!(pre_rounding_value.as_ref().map(shown), Some("decimal 515.535".to_string()));
        }
        other => panic!("unexpected {other:?}"),
    }
    assert_eq!(allotment.dependencies, vec!["eligible", "size"]);
    assert_eq!(allotment.parameter_reads.len(), 1);
    assert_eq!(allotment.parameter_reads[0].index, 2);
    assert_eq!(shown(&allotment.parameter_reads[0].value), "integer 546");
    for result in &response.results {
        for traced in &result.trace {
            for dependency in &traced.item.dependencies {
                assert!(result.trace.iter().any(|other| &other.key == dependency));
            }
        }
    }
}

#[test]
fn a_branch_that_was_not_selected_is_listed_as_not_evaluated() {
    let response = run(
        ExecutionMode::Explain,
        benefit(),
        households(),
        vec![query("h2", &["us:benefit#allotment"])],
    )
    .unwrap();
    let allotment = node(&response, "us:benefit#allotment");
    assert_eq!(allotment.dependencies, vec!["eligible"]);
    let skipped: Vec<&str> = allotment
        .not_evaluated_dependencies
        .iter()
        .map(|skipped| skipped.dependency.as_str())
        .collect();
    assert!(skipped.contains(&"maximum"), "{skipped:?}");
}

#[test]
fn fast_gives_the_outputs_that_explain_gives() {
    let queries = || {
        vec![
            query("h1", &["us:benefit#allotment", "eligible", "size", "member_income"]),
            query("h2", &["eligible", "us:benefit#allotment", "member_income"]),
        ]
    };
    let fast = run(ExecutionMode::Fast, benefit(), households(), queries()).unwrap();
    let explain = run(ExecutionMode::Explain, benefit(), households(), queries()).unwrap();
    assert_eq!(fast.metadata.requested_mode, ExecutionMode::Fast);
    assert_eq!(fast.metadata.actual_mode, ExecutionMode::Fast, "{:?}", fast.metadata);
    assert_eq!(outputs(&fast), outputs(&explain));
    assert!(fast.results.iter().all(|result| result.trace.is_empty()));
}

#[test]
fn fast_falls_back_where_periods_differ_or_dates_occur() {
    let mut later = query("h1", &["eligible"]);
    later.period = Period::month(2026, 2);
    let response = run(
        ExecutionMode::Fast,
        benefit(),
        households(),
        vec![query("h1", &["eligible"]), later],
    )
    .unwrap();
    assert_eq!(response.metadata.requested_mode, ExecutionMode::Fast);
    assert_eq!(response.metadata.actual_mode, ExecutionMode::Explain);
    assert!(response.metadata.fallback_reason.is_some());

    let dated = program_of(vec![rule(
        "start",
        "Household",
        DType::Date,
        DerivedSemantics::Scalar(ScalarExpr::PeriodStart),
    )]);
    let response = run(ExecutionMode::Fast, dated, DataSet::new(), vec![query("h1", &["start"])]).unwrap();
    assert_eq!(response.metadata.actual_mode, ExecutionMode::Explain);
    assert_eq!(outputs(&response)[0][0].1, "date 2026-01-01");
}

#[test]
fn fast_reads_the_latest_spell_as_explain_does() {
    let mut data = households();
    data.add_input(
        "income",
        "Household",
        "h1",
        Interval { start: day(2025, 1, 1), end: day(2026, 12, 31) },
        ScalarValue::Integer(5000),
    );
    let resolved = resolve_inputs_for_period(households(), &january());
    assert_eq!(resolved.inputs.len(), households().inputs.len());
    let response = run(ExecutionMode::Fast, benefit(), data, vec![query("h1", &["us:benefit#allotment"])]).unwrap();
    assert_eq!(outputs(&response)[0][0].1, "decimal 516");
}

#[test]
fn both_modes_fail_with_the_first_error_of_the_queries() {
    for mode in [ExecutionMode::Explain, ExecutionMode::Fast] {
        let failed = run(
            mode,
            benefit(),
            households(),
            vec![query("h1", &["eligible"]), query("h3", &["size", "us:benefit#allotment"])],
        );
        match failed {
            Err(ApiError::Eval(EvalError::MissingInput { .. })) => panic!("size decides first"),
            Ok(response) => assert_eq!(outputs(&response)[1][0].1, "integer 0"),
            Err(error) => panic!("unexpected {}", error.to_text()),
        }
        let failed = run(mode, benefit(), households(), vec![query("h1", &["nothing"])]);
        assert!(matches!(failed, Err(ApiError::Eval(EvalError::UnknownDerived(name))) if name == "nothing"));
    }
}

#[test]
fn a_parameter_without_an_index_can_be_asked_for() {
    let mut program = Program::new();
    program
        .add_parameter(IndexedParameter {
            id: Some("us:limits#limit".to_string()),
            name: "limit".to_string(),
            unit: None,
            indexed_by: None,
            source: None,
            source_url: None,
            corpus_citation_path: None,
            versions: vec![ParameterVersion {
                effective_from: day(2020, 1, 1),
                effective_to: None,
                values: BTreeMap::from([(0, ScalarValue::Bool(true))]),
            }],
        })
        .unwrap();
    let response = run(ExecutionMode::Explain, program, DataSet::new(), vec![query("h1", &["us:limits#limit"])]).unwrap();
    assert_eq!(outputs(&response), vec![vec![("us:limits#limit".to_string(), "bool true".to_string())]]);
}

#[test]
fn an_assessment_before_the_period_is_refused() {
    let mut early = query("h1", &["eligible"]);
    early.assessment_date = Some(day(2025, 12, 31));
    let error = run(ExecutionMode::Explain, benefit(), households(), vec![early]).unwrap_err();
    assert_eq!(
        error.to_text(),
        "assessment_date 2025-12-31 is before the query period start 2026-01-01; a determination cannot be assessed before the period it covers begins (see docs/bitemporal.md)"
    );
    let mut later = query("h1", &["us:benefit#allotment"]);
    later.assessment_date = Some(day(2026, 5, 1));
    let response = run(ExecutionMode::Explain, benefit(), households(), vec![later]).unwrap();
    assert_eq!(outputs(&response)[0][0].1, "decimal 516");
    assert_eq!(response.results[0].assessment_date.map(|date| date.to_text()), Some("2026-05-01".to_string()));
}

#[test]
fn conflicting_spells_of_one_start_are_ambiguous() {
    let mut data = households();
    data.add_input("income", "Household", "h1", all_year(), ScalarValue::Integer(1));
    assert!(matches!(
        validate_input_spells(&data),
        Err(EvalError::AmbiguousInput { name, entity_id, .. }) if name == "income" && entity_id == "h1"
    ));
    assert!(matches!(
        run(ExecutionMode::Fast, benefit(), data, vec![query("h2", &["eligible"])]),
        Err(ApiError::Eval(EvalError::AmbiguousInput { .. }))
    ));
    assert!(validate_input_spells(&households()).is_ok());
}

fn compiled(pins: Vec<RulePin>, outputs: &[&str], mode: ExecutionMode) -> Result<ExecutionResponse, ApiError> {
    let artifact = CompiledProgramArtifact::compile(benefit()).unwrap();
    assert!(check_references_end(&artifact.program));
    execute_compiled_request(
        artifact,
        CompiledExecutionRequest {
            mode,
            dataset: households(),
            queries: vec![query("h1", outputs)],
            pins,
        },
    )
}

#[test]
fn a_pinned_rule_has_its_value_in_both_modes() {
    for mode in [ExecutionMode::Explain, ExecutionMode::Fast] {
        let pin = RulePin { rule: "size".to_string(), value: ScalarValue::Integer(1) };
        let response = compiled(vec![pin], &["size", "us:benefit#allotment"], mode).unwrap();
        assert_eq!(
            outputs(&response),
            vec![vec![
                ("size".to_string(), "integer 1".to_string()),
                ("us:benefit#allotment".to_string(), "decimal 268".to_string()),
            ]]
        );
    }
}

#[test]
fn pins_that_do_not_bind_are_refused() {
    let unknown = RulePin { rule: "nothing".to_string(), value: ScalarValue::Integer(1) };
    let error = compiled(vec![unknown], &["size"], ExecutionMode::Explain).unwrap_err();
    assert!(matches!(error, ApiError::Pin(PinError::UnknownPinnedRule { .. })));
    assert_eq!(error.to_text(), "pinned rule `nothing` does not exist in the program");
    let judgment = RulePin { rule: "eligible".to_string(), value: ScalarValue::Bool(true) };
    let error = compiled(vec![judgment], &["size"], ExecutionMode::Explain).unwrap_err();
    assert!(matches!(error, ApiError::Pin(PinError::JudgmentRuleNotPinnable { .. })));
    assert_eq!(
        error.to_text(),
        "rule `eligible` is a judgment and cannot be pinned to a scalar value"
    );
}

#[test]
fn references_that_run_in_a_circle_do_not_end() {
    let circle = program_of(vec![
        scalar_rule("a", rule_value("b")),
        scalar_rule("b", rule_value("a")),
    ]);
    assert!(!check_references_end(&circle));
    let mut through_members = program_of(vec![scalar_rule(
        "a",
        ScalarExpr::CountRelated {
            relation: "chosen".to_string(),
            current_slot: 0,
            related_slot: 1,
            where_clause: None,
        },
    )]);
    through_members.add_relation("member", 2).unwrap();
    through_members
        .add_relation_schema(RelationSchema {
            name: "chosen".to_string(),
            arity: 2,
            slot_entities: vec![],
            derivation: Some(RelationDerivation {
                source_relation: "member".to_string(),
                current_slot: 0,
                related_slot: 1,
                entity: None,
                member_relation: None,
                slot_entities: vec![],
                predicate: JudgmentExpr::Comparison {
                    left: rule_value("a"),
                    op: ComparisonOp::Gt,
                    right: number(0),
                },
            }),
        })
        .unwrap();
    assert!(!check_references_end(&through_members));
    assert!(check_references_end(&benefit()));
}

#[test]
fn judgments_keep_their_outcome() {
    assert!(JudgmentOutcome::Holds.is_holds());
    assert!(!JudgmentOutcome::Undetermined.is_holds());
    assert_eq!(JudgmentOutcome::Holds.negate(), JudgmentOutcome::NotHolds);
    assert_eq!(JudgmentOutcome::Undetermined.negate(), JudgmentOutcome::Undetermined);
    assert_eq!(JudgmentOutcome::from_bool(false), JudgmentOutcome::NotHolds);
}

#[test]
fn a_program_that_rounds_no_currency_is_not_executed() {
    for mode in [ExecutionMode::Explain, ExecutionMode::Fast] {
        let mut item = scalar_rule("x", number(1));
        item.rounding = Some(Rounding { mode: RoundingMode::Floor, minor_units: 0 });
        let error = run(mode, program_of(vec![item]), DataSet::new(), vec![query("h1", &["x"])]).unwrap_err();
        assert!(matches!(
            &error,
            ApiError::Spec(CompileError::RoundingUnit { derived }) if derived == "x"
        ));
        assert_eq!(
            error.to_text(),
            "derived `x` declares rounding, but its unit is no declared currency"
        );
    }
}

/// A rule that computes with dates where there is income.
fn sometimes_dated() -> Program {
    program_of(vec![scalar_rule(
        "days",
        ScalarExpr::If {
            condition: Box::new(JudgmentExpr::Comparison {
                left: input("income"),
                op: ComparisonOp::Gt,
                right: number(0),
            }),
            then_expr: Box::new(ScalarExpr::DaysBetween {
                from: Box::new(ScalarExpr::PeriodStart),
                to: Box::new(ScalarExpr::PeriodEnd),
            }),
            else_expr: Box::new(number(0)),
        },
    )])
}

#[test]
fn fast_leaves_dates_to_explain_only_where_a_row_meets_them() {
    let data = |income: i64| {
        let mut data = DataSet::new();
        data.add_input("income", "Household", "h1", all_year(), ScalarValue::Integer(income));
        data
    };
    let response =
        run(ExecutionMode::Fast, sometimes_dated(), data(0), vec![query("h1", &["days"])]).unwrap();
    assert_eq!(response.metadata.actual_mode, ExecutionMode::Fast);
    assert_eq!(outputs(&response)[0][0].1, "integer 0");
    let response =
        run(ExecutionMode::Fast, sometimes_dated(), data(5), vec![query("h1", &["days"])]).unwrap();
    assert_eq!(response.metadata.actual_mode, ExecutionMode::Explain);
    assert_eq!(
        response.metadata.fallback_reason.as_deref(),
        Some("bulk fast mode does not yet support days_between")
    );
    assert_eq!(outputs(&response)[0][0].1, "integer 30");
}

#[test]
fn fast_names_the_dates_that_it_does_not_support() {
    let reason = |expr: ScalarExpr| {
        let mut data = DataSet::new();
        data.add_input("born", "Household", "h1", all_year(), ScalarValue::Date(day(2000, 2, 29)));
        run(ExecutionMode::Fast, program_of(vec![scalar_rule("x", expr)]), data, vec![query("h1", &["x"])])
            .unwrap()
            .metadata
            .fallback_reason
            .unwrap()
    };
    let prefix = "bulk fast mode does not yet support ";
    assert_eq!(reason(input("born")), format!("{prefix}date inputs"));
    assert_eq!(
        reason(ScalarExpr::Literal(ScalarValue::Date(day(2000, 1, 1)))),
        format!("{prefix}date literals")
    );
    assert_eq!(reason(ScalarExpr::PeriodEnd), format!("{prefix}period_start / period_end"));
}

#[test]
fn a_trace_grows_by_what_the_queries_reach_and_no_more() {
    let response = run(
        ExecutionMode::Explain,
        benefit(),
        households(),
        vec![query("h1", &["size"]), query("h1", &["eligible"])],
    )
    .unwrap();
    let keys = |index: usize| -> Vec<String> {
        response.results[index].trace.iter().map(|node| node.key.clone()).collect()
    };
    assert_eq!(keys(0), vec!["size"]);
    assert_eq!(keys(1), vec!["eligible", "size"]);
}

#[test]
fn an_assessment_date_changes_neither_outputs_nor_trace() {
    let mut later = query("h1", &["us:benefit#allotment"]);
    later.assessment_date = Some(day(2026, 5, 1));
    let plain = run(ExecutionMode::Explain, benefit(), households(), vec![query("h1", &["us:benefit#allotment"])]).unwrap();
    let dated = run(ExecutionMode::Explain, benefit(), households(), vec![later]).unwrap();
    assert_eq!(outputs(&plain), outputs(&dated));
    assert_eq!(format!("{:?}", plain.results[0].trace), format!("{:?}", dated.results[0].trace));
}

#[test]
fn fast_tells_the_error_that_it_leaves_to_explain() {
    let program = program_of(vec![scalar_rule(
        "ratio",
        ScalarExpr::Div(Box::new(input("income")), Box::new(number(0))),
    )]);
    let mut data = DataSet::new();
    data.add_input("income", "Household", "h1", all_year(), ScalarValue::Integer(5));
    match try_execute(&program, &data, &vec![query("h1", &["ratio"])]) {
        FastPathResult::Unsupported { reason } => {
            assert_eq!(reason, "bulk evaluation failed (division by zero); explain decides the outcome")
        }
        FastPathResult::Executed(response) => panic!("unexpected {response:?}"),
    }
    match try_execute(&program, &DataSet::new(), &vec![query("h1", &["ratio"])]) {
        FastPathResult::Unsupported { reason } => assert!(reason.contains("division by zero"), "{reason}"),
        FastPathResult::Executed(response) => panic!("unexpected {response:?}"),
    }
}

#[test]
fn an_assessment_date_is_echoed_alone_by_the_fast_path() {
    let mut later = query("h1", &["us:benefit#allotment"]);
    later.assessment_date = Some(day(2026, 5, 1));
    let plain = run(ExecutionMode::Fast, benefit(), households(), vec![query("h1", &["us:benefit#allotment"])]).unwrap();
    let dated = run(ExecutionMode::Fast, benefit(), households(), vec![later]).unwrap();
    assert_eq!(outputs(&plain), outputs(&dated));
    assert_eq!(dated.metadata.actual_mode, plain.metadata.actual_mode);
    assert!(plain.results[0].assessment_date.is_none());
    assert_eq!(dated.results[0].assessment_date.map(|date| date.to_text()), Some("2026-05-01".to_string()));
}

#[test]
fn one_record_of_a_fact_is_kept_in_either_order() {
    let spells = [
        (Interval { start: day(2025, 1, 1), end: day(2026, 12, 31) }, 5000),
        (Interval { start: day(2026, 1, 1), end: day(2026, 1, 31) }, 700),
    ];
    for order in [[0usize, 1], [1, 0]] {
        let mut data = DataSet::new();
        for place in order {
            let (interval, value) = &spells[place];
            data.add_input(
                "income",
                "Household",
                "h1",
                Interval { start: interval.start, end: interval.end },
                ScalarValue::Integer(*value),
            );
        }
        let resolved = resolve_inputs_for_period(data, &january());
        assert_eq!(resolved.inputs.len(), 1);
        assert_eq!(shown(&resolved.inputs[0].value), "integer 700");
    }
}

#[test]
fn a_circle_that_nothing_asked_for_reaches_is_left_alone() {
    let program = program_of(vec![
        scalar_rule("a", rule_value("b")),
        scalar_rule("b", rule_value("a")),
        scalar_rule("c", rule_value("a")),
        scalar_rule("d", number(3)),
    ]);
    assert!(!check_references_end(&program));
    assert!(check_rules_end(&program, &vec!["d".to_string(), "nothing".to_string()]));
    assert!(!check_rules_end(&program, &vec!["d".to_string(), "c".to_string()]));
    assert!(check_asked_references_end(&program, &vec![query("h1", &["d"])]));
    assert!(!check_asked_references_end(&program, &vec![query("h1", &["d"]), query("h1", &["c"])]));
    let response = run(ExecutionMode::Explain, program, DataSet::new(), vec![query("h1", &["d"])]).unwrap();
    assert_eq!(outputs(&response), vec![vec![("d".to_string(), "integer 3".to_string())]]);
}

fn reason(program: Program, data: DataSet, queries: Vec<ExecutionQuery>) -> String {
    assert!(check_asked_references_end(&program, &queries));
    match try_execute(&program, &data, &queries) {
        FastPathResult::Unsupported { reason } => reason,
        FastPathResult::Executed(response) => panic!("unexpected {response:?}"),
    }
}

fn wealth(incomes: &[(&str, i64)]) -> DataSet {
    let mut data = DataSet::new();
    for (household, income) in incomes {
        data.add_input("income", "Household", household, all_year(), ScalarValue::Integer(*income));
    }
    data
}

#[test]
fn fast_gives_the_reason_of_the_first_output_asked_for() {
    let program = || {
        program_of(vec![
            scalar_rule("dated", ScalarExpr::PeriodStart),
            scalar_rule("ratio", ScalarExpr::Div(Box::new(number(1)), Box::new(number(0)))),
        ])
    };
    let dated = "bulk fast mode does not yet support period_start / period_end";
    let failed = "bulk evaluation failed (division by zero); explain decides the outcome";
    let ask = |names: &[&str]| reason(program(), wealth(&[("h1", 1)]), vec![query("h1", names)]);
    assert_eq!(ask(&["dated", "ratio"]), dated);
    assert_eq!(ask(&["ratio", "dated"]), failed);
    let ask = |first: &str, second: &str| {
        reason(program(), wealth(&[]), vec![query("h1", &[first]), query("h2", &[second])])
    };
    assert_eq!(ask("dated", "ratio"), dated);
    assert_eq!(ask("ratio", "dated"), failed);
}

#[test]
fn fast_tells_the_error_of_the_lowest_row() {
    let program = || {
        program_of(vec![scalar_rule(
            "share",
            ScalarExpr::If {
                condition: Box::new(JudgmentExpr::Comparison {
                    left: input("income"),
                    op: ComparisonOp::Gt,
                    right: number(0),
                }),
                then_expr: Box::new(input("absent")),
                else_expr: Box::new(ScalarExpr::Div(Box::new(number(1)), Box::new(number(0)))),
            },
        )])
    };
    let rows = || vec![query("h1", &["share"]), query("h2", &["share"])];
    let told = reason(program(), wealth(&[("h1", 0), ("h2", 5)]), rows());
    assert!(told.contains("division by zero"), "{told}");
    let told = reason(program(), wealth(&[("h1", 5), ("h2", 0)]), rows());
    assert!(told.contains("absent") && told.contains("h1"), "{told}");
}

#[test]
fn fast_names_the_dates_that_are_met_first_by_any_row() {
    let program = program_of(vec![scalar_rule(
        "days",
        ScalarExpr::If {
            condition: Box::new(JudgmentExpr::Comparison {
                left: input("income"),
                op: ComparisonOp::Gt,
                right: number(0),
            }),
            then_expr: Box::new(ScalarExpr::PeriodEnd),
            else_expr: Box::new(ScalarExpr::DaysBetween {
                from: Box::new(ScalarExpr::PeriodStart),
                to: Box::new(ScalarExpr::PeriodEnd),
            }),
        },
    )]);
    // The row that takes the first branch is the second one.
    let told = reason(
        program,
        wealth(&[("h1", 0), ("h2", 5)]),
        vec![query("h1", &["days"]), query("h2", &["days"])],
    );
    assert_eq!(told, "bulk fast mode does not yet support period_start / period_end");
}

#[test]
fn a_failed_match_is_told_without_its_rule_by_fast() {
    let program = || {
        program_of(vec![scalar_rule(
            "rate",
            ScalarExpr::NoMatch {
                subject: Box::new(input("income")),
                patterns: vec![number(1), number(2)],
            },
        )])
    };
    let told = reason(program(), wealth(&[("h1", 3)]), vec![query("h1", &["rate"])]);
    let error = run(ExecutionMode::Fast, program(), wealth(&[("h1", 3)]), vec![query("h1", &["rate"])]).unwrap_err();
    assert!(error.to_text().contains("rate"), "{}", error.to_text());
    assert!(!told.contains("rate"), "{told}");
}

#[test]
fn assessment_dates_have_no_effect_on_what_is_answered_or_refused() {
    let dated = |date: Option<Date>| {
        let mut item = query("h1", &["days"]);
        item.assessment_date = date;
        item
    };
    for mode in [ExecutionMode::Explain, ExecutionMode::Fast] {
        for income in [0, 5] {
            let plain = run(mode, sometimes_dated(), wealth(&[("h1", income)]), vec![dated(None)]).unwrap();
            let later =
                run(mode, sometimes_dated(), wealth(&[("h1", income)]), vec![dated(Some(day(2026, 5, 1)))]).unwrap();
            assert_eq!(outputs(&plain), outputs(&later));
            assert_eq!(plain.metadata.actual_mode, later.metadata.actual_mode);
            assert_eq!(plain.metadata.fallback_reason, later.metadata.fallback_reason);
            assert_eq!(format!("{:?}", plain.results[0].trace), format!("{:?}", later.results[0].trace));
            assert_eq!(later.results[0].assessment_date.map(|date| date.to_text()), Some("2026-05-01".to_string()));
        }
        let plain = run(mode, sometimes_dated(), wealth(&[]), vec![dated(None)]).unwrap_err();
        let later = run(mode, sometimes_dated(), wealth(&[]), vec![dated(Some(day(2026, 1, 1)))]).unwrap_err();
        assert_eq!(plain.to_text(), later.to_text());
        let early = run(
            mode,
            sometimes_dated(),
            wealth(&[]),
            vec![dated(None), dated(Some(day(2025, 12, 30))), dated(Some(day(2025, 12, 29)))],
        );
        match early {
            Err(ApiError::AssessmentDateBeforePeriodStart { assessment_date, period_start }) => {
                assert_eq!(assessment_date.to_text(), "2025-12-30");
                assert_eq!(period_start.to_text(), "2026-01-01");
            }
            other => panic!("unexpected {other:?}"),
        }
    }
}
