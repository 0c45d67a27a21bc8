use std::collections::BTreeMap;

use axiom_rules_engine::batch::{
    DenseBatchSpec, DenseExecutionResult, DenseOutputValue, DenseRelationBatchSpec, NamedColumn,
};
use axiom_rules_engine::column::DenseColumn;
use axiom_rules_engine::compile::{CompileError, CompiledProgramArtifact};
use axiom_rules_engine::compiler::DenseCompileError;
use axiom_rules_engine::date::Date;
use axiom_rules_engine::decimal::{Decimal, RoundingMode};
use axiom_rules_engine::dense::{DenseCompiledProgram, DenseRelationKey};
use axiom_rules_engine::error::EvalError;
use axiom_rules_engine::executor::project_root_column_to_related;
use axiom_rules_engine::frames::{
    build_batch, dtype_name, extract_offsets, judgment_code, parse_period_kind, relation_key,
    RelationFrame,
};
use axiom_rules_engine::model::{
    ComparisonOp, DType, Derived, DerivedSemantics, IndexedParameter, JudgmentExpr,
    JudgmentOutcome, OverPeriodsKind, ParameterVersion, Period, PeriodKind, Program,
    RelatedValueRef, Rounding, ScalarExpr, ScalarValue,
};

fn day(year: i32, month: u32, number: u32) -> Date {
    Date::from_ymd(year, month, number).expect("valid date")
}

fn dec(value: &str) -> Decimal {
    Decimal::from_text(value).expect("valid decimal")
}

fn january() -> Period {
    Period {
        kind: PeriodKind::Month,
        start: day(2026, 1, 1),
        end: day(2026, 1, 31),
    }
}

fn number(value: i64) -> ScalarExpr {
    ScalarExpr::Literal(ScalarValue::Integer(value))
}

fn amount(value: &str) -> ScalarExpr {
    ScalarExpr::Literal(ScalarValue::Decimal(dec(value)))
}

fn input(name: &str) -> ScalarExpr {
    ScalarExpr::Input(name.to_string())
}

fn rule_value(name: &str) -> ScalarExpr {
    ScalarExpr::Derived(name.to_string())
}

fn rule(name: &str, entity: &str, dtype: DType, semantics: DerivedSemantics) -> Derived {
    Derived {
        id: None,
        name: name.to_string(),
        entity: entity.to_string(),
        dtype,
        unit: None,
        rounding: None,
        source: None,
        source_url: None,
        corpus_citation_path: None,
        semantics,
        versions: vec![],
    }
}

fn scalar_rule(name: &str, expr: ScalarExpr) -> Derived {
    rule(name, "Household", DType::Decimal, DerivedSemantics::Scalar(expr))
}

fn judgment_rule(name: &str, expr: JudgmentExpr) -> Derived {
    rule(name, "Household", DType::Judgment, DerivedSemantics::Judgment(expr))
}

fn program_of(rules: Vec<Derived>) -> Program {
    let mut program = Program::new();
    for item in rules {
        program.add_derived(item).expect("new name");
    }
    program
}

fn column(name: &str, column: DenseColumn) -> NamedColumn {
    NamedColumn { name: name.to_string(), column }
}

fn names(items: &[&str]) -> Vec<String> {
    items.iter().map(|item| item.to_string()).collect()
}

fn decimals(result: &DenseExecutionResult, name: &str) -> Vec<String> {
    let output = result.outputs.iter().find(|output| output.name == name).expect("output");
    match &output.value {
        DenseOutputValue::Scalar(DenseColumn::Decimal(values)) => {
            values.iter().map(|value| value.to_text()).collect()
        }
        other => panic!("unexpected {other:?}"),
    }
}

/// Rules over households and their members.
fn benefit() -> Program {
    let mut program = program_of(vec![
        scalar_rule(
            "net",
            ScalarExpr::If {
                condition: Box::new(JudgmentExpr::Derived("small".to_string())),
                then_expr: Box::new(ScalarExpr::Div(
                    Box::new(input("income")),
                    Box::new(input("share")),
                )),
                else_expr: Box::new(input("income")),
            },
        ),
        judgment_rule(
            "small",
            JudgmentExpr::Comparison {
                left: input("income"),
                op: ComparisonOp::Lt,
                right: number(100),
            },
        ),
        scalar_rule(
            "wages",
            ScalarExpr::SumRelated {
                relation: "member".to_string(),
                current_slot: 0,
                related_slot: 1,
                value: RelatedValueRef::Input("wage".to_string()),
                where_clause: Some(Box::new(JudgmentExpr::Comparison {
                    left: input("age"),
                    op: ComparisonOp::Gte,
                    right: number(18),
                })),
            },
        ),
    ]);
    program.add_relation("member", 2).unwrap();
    program
}

fn member_key() -> DenseRelationKey {
    DenseRelationKey { name: "member".to_string(), current_slot: 0, related_slot: 1 }
}

fn two_households() -> DenseBatchSpec {
    DenseBatchSpec {
        row_count: 2,
        inputs: vec![
            column("income", DenseColumn::Decimal(vec![dec("50"), dec("200")])),
            column("share", DenseColumn::Decimal(vec![dec("4"), dec("0")])),
        ],
        relations: vec![DenseRelationBatchSpec {
            key: member_key(),
            offsets: vec![0, 2, 3],
            inputs: vec![
                column("wage", DenseColumn::Decimal(vec![dec("1.5"), dec("2.5"), dec("7")])),
                column("age", DenseColumn::Integer(vec![30, 10, 18])),
            ],
        }],
    }
}

#[test]
fn every_row_computes_only_what_it_reaches() {
    let compiled = DenseCompiledProgram::from_program(&benefit(), Some("Household")).unwrap();
    assert_eq!(compiled.root_entity(), "Household");
    assert_eq!(compiled.relations().len(), 1);
    let result = compiled
        .execute(&january(), &two_households(), &names(&["net", "small", "wages"]))
        .unwrap();
    assert_eq!(result.row_count, 2);
    assert_eq!(decimals(&result, "net"), vec!["12.50", "200"]);
    assert_eq!(decimals(&result, "wages"), vec!["1.5", "7"]);
    match &result.outputs.iter().find(|output| output.name == "small").unwrap().value {
        DenseOutputValue::Judgment(outcomes) => {
            assert_eq!(outcomes, &vec![JudgmentOutcome::Holds, JudgmentOutcome::NotHolds])
        }
        other => panic!("unexpected {other:?}"),
    }
}

#[test]
fn the_lowest_failing_row_decides_the_error() {
    let compiled = DenseCompiledProgram::from_program(&benefit(), None).unwrap();
    let mut batch = two_households();
    batch.inputs[1] = column("share", DenseColumn::Decimal(vec![dec("0"), dec("0")]));
    assert!(matches!(
        compiled.execute(&january(), &batch, &names(&["net"])),
        Err(EvalError::DivisionByZero)
    ));
    batch.inputs.remove(1);
    assert!(matches!(
        compiled.execute(&january(), &batch, &names(&["net"])),
        Err(EvalError::MissingInput { name, .. }) if name == "share"
    ));
    assert!(matches!(
        compiled.execute(&january(), &two_households(), &names(&["nothing"])),
        Err(EvalError::UnknownDerived(name)) if name == "nothing"
    ));
}

#[test]
fn a_column_of_another_length_is_refused() {
    let compiled = DenseCompiledProgram::from_program(&benefit(), None).unwrap();
    let mut batch = two_households();
    batch.inputs[0] = column("income", DenseColumn::Decimal(vec![dec("50")]));
    assert!(matches!(
        compiled.execute(&january(), &batch, &names(&["small"])),
        Err(EvalError::TypeMismatch(_))
    ));
    let mut batch = two_households();
    batch.relations[0].offsets = vec![0, 3];
    assert!(compiled.execute(&january(), &batch, &names(&["wages"])).is_err());
}

#[test]
fn compilation_chooses_the_entity() {
    let mut program = benefit();
    program
        .add_derived(rule("age_next", "Person", DType::Integer, DerivedSemantics::Scalar(input("age"))))
        .unwrap();
    assert!(matches!(
        DenseCompiledProgram::from_program(&program, None),
        Err(DenseCompileError::AmbiguousRootEntity)
    ));
    assert!(matches!(
        DenseCompiledProgram::from_program(&program, Some("Firm")),
        Err(DenseCompileError::UnknownEntity(name)) if name == "Firm"
    ));
    let artifact = CompiledProgramArtifact::compile(program).unwrap();
    let compiled = DenseCompiledProgram::from_artifact(&artifact, Some("Person")).unwrap();
    assert_eq!(compiled.output_names(), vec!["age_next"]);
    assert_eq!(compiled.root_inputs(), &names(&["age"]));
}

#[test]
fn rules_of_another_entity_are_refused() {
    let program = program_of(vec![
        scalar_rule("total", rule_value("personal")),
        rule("personal", "Person", DType::Decimal, DerivedSemantics::Scalar(number(1))),
    ]);
    let error = DenseCompiledProgram::from_program(&program, Some("Household")).unwrap_err();
    assert!(matches!(error, DenseCompileError::CrossEntityDependency { .. }));
    assert_eq!(
        error.to_text(),
        "dense compilation only supports dependencies within the same root entity; `personal` from `total` crosses into `Person`"
    );
}

fn over_periods(kind: OverPeriodsKind, n: Option<ScalarExpr>) -> ScalarExpr {
    ScalarExpr::OverPeriods {
        kind,
        value: Box::new(input("earnings")),
        n: n.map(Box::new),
    }
}

fn history() -> Program {
    program_of(vec![
        scalar_rule("total", over_periods(OverPeriodsKind::Sum, None)),
        scalar_rule("highest", over_periods(OverPeriodsKind::Max, None)),
        rule("worked", "Household", DType::Integer, DerivedSemantics::Scalar(over_periods(OverPeriodsKind::Count, None))),
        scalar_rule("best_two", over_periods(OverPeriodsKind::SumTopN, Some(number(2)))),
        scalar_rule("best_four", over_periods(OverPeriodsKind::SumTopN, Some(number(4)))),
        scalar_rule("now", input("earnings")),
    ])
}

fn years() -> Vec<Period> {
    [2023, 2024, 2025]
        .iter()
        .map(|year| Period {
            kind: PeriodKind::TaxYear,
            start: day(*year, 1, 1),
            end: day(*year, 12, 31),
        })
        .collect()
}

fn earnings() -> Vec<DenseBatchSpec> {
    [("10", "0"), ("30.5", "2"), ("20", "0")]
        .iter()
        .map(|(first, second)| DenseBatchSpec {
            row_count: 2,
            inputs: vec![column("earnings", DenseColumn::Decimal(vec![dec(first), dec(second)]))],
            relations: vec![],
        })
        .collect()
}

#[test]
fn reductions_run_over_the_periods_of_each_row() {
    let compiled = DenseCompiledProgram::from_program(&history(), None).unwrap();
    let result = compiled
        .execute_lifetime(&years(), &earnings(), &names(&["total", "highest", "best_two", "worked"]))
        .unwrap();
    assert_eq!(decimals(&result, "total"), vec!["60.5", "2"]);
    assert_eq!(decimals(&result, "highest"), vec!["30.5", "2"]);
    assert_eq!(decimals(&result, "best_two"), vec!["50.5", "2"]);
    match &result.outputs.iter().find(|output| output.name == "worked").unwrap().value {
        DenseOutputValue::Scalar(DenseColumn::Integer(values)) => assert_eq!(values, &vec![3, 1]),
        other => panic!("unexpected {other:?}"),
    }
}

#[test]
fn lifetime_requests_are_checked() {
    let compiled = DenseCompiledProgram::from_program(&history(), None).unwrap();
    assert!(matches!(
        compiled.execute_lifetime(&vec![], &vec![], &names(&["total"])),
        Err(EvalError::LifetimeNoPeriods)
    ));
    let mut batches = earnings();
    batches.pop();
    assert!(matches!(
        compiled.execute_lifetime(&years(), &batches, &names(&["total"])),
        Err(EvalError::LifetimePeriodBatchMismatch { periods: 3, batches: 2 })
    ));
    let mut reversed = years();
    reversed.reverse();
    assert!(matches!(
        compiled.execute_lifetime(&reversed, &earnings(), &names(&["total"])),
        Err(EvalError::LifetimePeriodsNotAscending { earlier_index: 0, later_index: 1, .. })
    ));
    let mut batches = earnings();
    batches[1].row_count = 1;
    batches[1].inputs = vec![column("earnings", DenseColumn::Decimal(vec![dec("1")]))];
    assert!(matches!(
        compiled.execute_lifetime(&years(), &batches, &names(&["total"])),
        Err(EvalError::LifetimeRowCountMismatch { period: 1, row_count: 1, expected: 2 })
    ));
    assert!(matches!(
        compiled.execute_lifetime(&years(), &earnings(), &names(&["now"])),
        Err(EvalError::LifetimeOutputWithoutReduction(name)) if name == "now"
    ));
    assert!(matches!(
        compiled.execute_lifetime(&years(), &earnings(), &names(&["best_four"])),
        Err(EvalError::OverPeriodsTopNOutOfRange { period_count: 3, .. })
    ));
}

#[test]
fn a_varying_input_outside_a_reduction_is_an_error() {
    let mut program = history();
    program
        .add_derived(scalar_rule(
            "mixed",
            ScalarExpr::Add(vec![over_periods(OverPeriodsKind::Sum, None), input("earnings")]),
        ))
        .unwrap();
    let compiled = DenseCompiledProgram::from_program(&program, None).unwrap();
    assert!(matches!(
        compiled.execute_lifetime(&years(), &earnings(), &names(&["mixed"])),
        Err(EvalError::LifetimePeriodVaryingInput { input, .. }) if input == "earnings"
    ));
    let same: Vec<DenseBatchSpec> = (0..3)
        .map(|_| DenseBatchSpec {
            row_count: 1,
            inputs: vec![column("earnings", DenseColumn::Decimal(vec![dec("5")]))],
            relations: vec![],
        })
        .collect();
    let result = compiled.execute_lifetime(&years(), &same, &names(&["mixed"])).unwrap();
    assert_eq!(decimals(&result, "mixed"), vec!["20"]);
}

#[test]
fn nested_reductions_are_refused() {
    let program = program_of(vec![scalar_rule(
        "nested",
        ScalarExpr::OverPeriods {
            kind: OverPeriodsKind::Max,
            value: Box::new(over_periods(OverPeriodsKind::Sum, None)),
            n: None,
        },
    )]);
    assert!(matches!(
        DenseCompiledProgram::from_program(&program, None),
        Err(DenseCompileError::NestedOverPeriods { outer: "max_over_periods", inner: "sum_over_periods" })
    ));
}

#[test]
fn columns_are_projected_to_members() {
    let projected = project_root_column_to_related(&DenseColumn::Integer(vec![7, 8]), &vec![0, 2, 3]).unwrap();
    assert!(matches!(projected, DenseColumn::Integer(values) if values == vec![7, 7, 8]));
    let column = DenseColumn::Text(vec!["a".to_string(), "b".to_string()]);
    assert_eq!(column.len(), 2);
    assert!(column.scalar_value_at(1, &DType::Text).equal_to(&ScalarValue::Text("b".to_string())));
}

#[test]
fn frames_become_a_batch() {
    let compiled = DenseCompiledProgram::from_program(&benefit(), None).unwrap();
    let given = vec![
        column("income", DenseColumn::Decimal(vec![dec("50"), dec("200")])),
        column("share", DenseColumn::Decimal(vec![dec("4"), dec("1")])),
        column("unread", DenseColumn::Integer(vec![1, 2])),
    ];
    let frame = |offsets: Option<Vec<i64>>| {
        Some(vec![RelationFrame {
            key: relation_key(&member_key()),
            offsets,
            inputs: Some(vec![
                column("wage", DenseColumn::Decimal(vec![dec("1")])),
                column("age", DenseColumn::Integer(vec![20])),
            ]),
        }])
    };
    let batch = build_batch(&compiled, &given, &frame(Some(vec![0, 1, 1]))).unwrap();
    assert_eq!(batch.row_count, 2);
    assert_eq!(batch.relations[0].offsets, vec![0, 1, 1]);
    let result = compiled.execute(&january(), &batch, &names(&["wages"])).unwrap();
    assert_eq!(decimals(&result, "wages"), vec!["1", "0"]);
    assert!(build_batch(&compiled, &given, &frame(None)).is_err());
    assert!(build_batch(&compiled, &given, &None).is_err());
    assert!(extract_offsets(&RelationFrame { key: String::new(), offsets: Some(vec![0, -1]), inputs: None }).is_err());
}

#[test]
fn wire_names_are_fixed() {
    assert_eq!(relation_key(&member_key()), "member:0:1");
    assert!(matches!(parse_period_kind("month"), PeriodKind::Month));
    assert!(matches!(parse_period_kind("benefit_week"), PeriodKind::BenefitWeek));
    assert!(matches!(parse_period_kind("tax_year"), PeriodKind::TaxYear));
    assert!(matches!(parse_period_kind("quarter"), PeriodKind::Custom(name) if name == "quarter"));
    assert_eq!(judgment_code(JudgmentOutcome::Holds), 1);
    assert_eq!(judgment_code(JudgmentOutcome::NotHolds), -1);
    assert_eq!(judgment_code(JudgmentOutcome::Undetermined), 0);
    assert_eq!(dtype_name(DType::Integer).to_lowercase(), "integer");
    assert!(member_key().same_key(&member_key().duplicate()));
}

#[test]
fn dense_rows_agree_with_constants() {
    let program = program_of(vec![scalar_rule("x", ScalarExpr::Mul(Box::new(amount("1.5")), Box::new(number(2))))]);
    let compiled = DenseCompiledProgram::from_program(&program, None).unwrap();
    let batch = DenseBatchSpec { row_count: 3, inputs: vec![], relations: vec![] };
    let result = compiled.execute(&january(), &batch, &names(&["x"])).unwrap();
    assert_eq!(decimals(&result, "x"), vec!["3.0", "3.0", "3.0"]);
}

#[test]
fn branches_of_two_kinds_clash_only_where_rows_take_both() {
    let program = program_of(vec![rule(
        "note",
        "Household",
        DType::Text,
        DerivedSemantics::Scalar(ScalarExpr::If {
            condition: Box::new(JudgmentExpr::Comparison {
                left: input("income"),
                op: ComparisonOp::Lt,
                right: number(100),
            }),
            then_expr: Box::new(ScalarExpr::Literal(ScalarValue::Text("small".to_string()))),
            else_expr: Box::new(ScalarExpr::Literal(ScalarValue::Bool(true))),
        }),
    )]);
    let compiled = DenseCompiledProgram::from_program(&program, None).unwrap();
    let batch = |values: &[&str]| DenseBatchSpec {
        row_count: values.len(),
        inputs: vec![column("income", DenseColumn::Decimal(values.iter().map(|value| dec(value)).collect()))],
        relations: vec![],
    };
    assert!(matches!(
        compiled.execute(&january(), &batch(&["50", "200"]), &names(&["note"])),
        Err(EvalError::TypeMismatch(text)) if text == "dense if() branches must have the same dtype"
    ));
    let result = compiled.execute(&january(), &batch(&["50", "60"]), &names(&["note"])).unwrap();
    assert!(matches!(
        &result.outputs[0].value,
        DenseOutputValue::Scalar(DenseColumn::Text(values)) if values == &names(&["small", "small"])
    ));
}

#[test]
fn a_reduction_inside_a_condition_of_another_is_refused() {
    let program = program_of(vec![scalar_rule(
        "nested",
        ScalarExpr::OverPeriods {
            kind: OverPeriodsKind::Sum,
            value: Box::new(ScalarExpr::If {
                condition: Box::new(JudgmentExpr::Comparison {
                    left: over_periods(OverPeriodsKind::Max, None),
                    op: ComparisonOp::Gt,
                    right: number(0),
                }),
                then_expr: Box::new(number(1)),
                else_expr: Box::new(number(0)),
            }),
            n: None,
        },
    )]);
    assert!(matches!(
        DenseCompiledProgram::from_program(&program, None),
        Err(DenseCompileError::NestedOverPeriods { outer: "sum_over_periods", inner: "max_over_periods" })
    ));
}

#[test]
fn an_artifact_that_rounds_no_currency_is_not_compiled() {
    let mut artifact = CompiledProgramArtifact::compile(benefit()).unwrap();
    artifact.program.derived[0].rounding = Some(Rounding { mode: RoundingMode::Floor, minor_units: 0 });
    assert!(matches!(
        DenseCompiledProgram::from_artifact(&artifact, None),
        Err(DenseCompileError::Spec(CompileError::RoundingUnit { derived })) if derived == "net"
    ));
}

fn small_or_true() -> ScalarExpr {
    ScalarExpr::If {
        condition: Box::new(JudgmentExpr::Comparison {
            left: input("income"),
            op: ComparisonOp::Lt,
            right: number(100),
        }),
        then_expr: Box::new(ScalarExpr::Literal(ScalarValue::Text("small".to_string()))),
        else_expr: Box::new(ScalarExpr::Literal(ScalarValue::Bool(true))),
    }
}

fn incomes(values: &[&str]) -> DenseBatchSpec {
    DenseBatchSpec {
        row_count: values.len(),
        inputs: vec![column(
            "income",
            DenseColumn::Decimal(values.iter().map(|value| dec(value)).collect()),
        )],
        relations: vec![],
    }
}

fn mixes(result: Result<DenseExecutionResult, EvalError>) -> bool {
    matches!(
        result,
        Err(EvalError::TypeMismatch(text)) if text == "dense if() branches must have the same dtype"
    )
}

#[test]
fn branches_of_two_kinds_clash_below_a_comparison() {
    let program = program_of(vec![judgment_rule(
        "is_small",
        JudgmentExpr::Comparison {
            left: small_or_true(),
            op: ComparisonOp::Eq,
            right: ScalarExpr::Literal(ScalarValue::Text("small".to_string())),
        },
    )]);
    let compiled = DenseCompiledProgram::from_program(&program, None).unwrap();
    let request = |values: &[&str]| compiled.execute(&january(), &incomes(values), &names(&["is_small"]));
    assert!(mixes(request(&["50", "200"])));
    assert!(mixes(request(&["200", "300", "50"])));
    assert!(request(&["50", "60"]).is_ok());
}

#[test]
fn values_of_two_kinds_meet_in_the_column_of_a_rule() {
    let program = program_of(vec![
        rule("note", "Household", DType::Text, DerivedSemantics::Scalar(small_or_true())),
        rule(
            "picked",
            "Household",
            DType::Text,
            DerivedSemantics::Scalar(ScalarExpr::If {
                condition: Box::new(JudgmentExpr::Comparison {
                    left: input("income"),
                    op: ComparisonOp::Lt,
                    right: number(100),
                }),
                then_expr: Box::new(rule_value("note")),
                else_expr: Box::new(ScalarExpr::Literal(ScalarValue::Text("none".to_string()))),
            }),
        ),
    ]);
    let compiled = DenseCompiledProgram::from_program(&program, None).unwrap();
    let request = |outputs: &[&str]| compiled.execute(&january(), &incomes(&["50", "200"]), &names(outputs));
    assert!(request(&["picked"]).is_ok());
    assert!(mixes(request(&["picked", "note"])));
    assert!(mixes(request(&["note"])));
}

#[test]
fn rows_that_a_rule_is_evaluated_for_apart_do_not_clash() {
    let program = program_of(vec![
        judgment_rule(
            "is_small",
            JudgmentExpr::Comparison {
                left: small_or_true(),
                op: ComparisonOp::Ne,
                right: small_or_true(),
            },
        ),
        judgment_rule(
            "both",
            JudgmentExpr::And(vec![
                JudgmentExpr::Comparison {
                    left: input("income"),
                    op: ComparisonOp::Lt,
                    right: number(100),
                },
                JudgmentExpr::Derived("is_small".to_string()),
            ]),
        ),
    ]);
    let compiled = DenseCompiledProgram::from_program(&program, None).unwrap();
    let request = |outputs: &[&str]| compiled.execute(&january(), &incomes(&["50", "200"]), &names(outputs));
    assert!(mixes(request(&["is_small", "both"])));
    assert!(request(&["both", "is_small"]).is_ok());
}

fn table(name: &str) -> IndexedParameter {
    IndexedParameter {
        id: None,
        name: name.to_string(),
        unit: None,
        indexed_by: None,
        source: None,
        source_url: None,
        corpus_citation_path: None,
        versions: vec![ParameterVersion {
            effective_from: day(2020, 1, 1),
            effective_to: None,
            values: BTreeMap::from([(0, ScalarValue::Integer(2))]),
        }],
    }
}

#[test]
fn a_compiled_program_holds_what_its_rules_read_and_once() {
    let lookup = |name: &str| ScalarExpr::ParameterLookup {
        parameter: name.to_string(),
        index: Box::new(number(0)),
    };
    let mut program = program_of(vec![
        scalar_rule(
            "due",
            ScalarExpr::Add(vec![
                ScalarExpr::Mul(Box::new(input("income")), Box::new(lookup("rate"))),
                ScalarExpr::Mul(Box::new(input("income")), Box::new(lookup("rate"))),
                rule_value("wages"),
            ]),
        ),
        scalar_rule(
            "wages",
            ScalarExpr::SumRelated {
                relation: "member".to_string(),
                current_slot: 0,
                related_slot: 1,
                value: RelatedValueRef::Input("wage".to_string()),
                where_clause: Some(Box::new(JudgmentExpr::Comparison {
                    left: input("wage"),
                    op: ComparisonOp::Gt,
                    right: input("floor"),
                })),
            },
        ),
        rule(
            "older",
            "Person",
            DType::Integer,
            DerivedSemantics::Scalar(ScalarExpr::Add(vec![input("age"), lookup("step")])),
        ),
    ]);
    program.add_relation("member", 2).unwrap();
    program.add_relation("neighbour", 2).unwrap();
    program.add_parameter(table("rate")).unwrap();
    program.add_parameter(table("step")).unwrap();
    let compiled = DenseCompiledProgram::from_program(&program, Some("Household")).unwrap();
    assert_eq!(compiled.root_inputs(), &vec!["income"]);
    assert_eq!(compiled.relations().len(), 1);
    assert!(compiled.relations()[0].key.same_key(&member_key()));
    let mut related = compiled.relations()[0].related_inputs.clone();
    related.sort();
    assert_eq!(related, vec!["floor", "wage"]);
    assert_eq!(compiled.parameters.len(), 1);
    assert_eq!(compiled.parameters[0].parameter.name, "rate");
    let mut outputs = compiled.output_names();
    outputs.sort();
    assert_eq!(outputs, vec!["due", "wages"]);
    let compiled = DenseCompiledProgram::from_program(&program, Some("Person")).unwrap();
    assert_eq!(compiled.root_inputs(), &vec!["age"]);
    assert!(compiled.relations().is_empty());
    assert_eq!(compiled.parameters[0].parameter.name, "step");
    assert_eq!(compiled.output_names(), vec!["older"]);
}
