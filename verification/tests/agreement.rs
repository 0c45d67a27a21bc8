use axiom_rules_engine::batch::{
    DenseBatchSpec, DenseOutputValue, DenseRelationBatchSpec, NamedColumn,
};
use axiom_rules_engine::column::DenseColumn;
use axiom_rules_engine::compile::{
    CompiledProgramArtifact, CorpusProvisionIndex, ProvisionLine, ProvisionRecord,
};
use axiom_rules_engine::date::Date;
use axiom_rules_engine::decimal::{Decimal, RoundingMode};
use axiom_rules_engine::dense::{DenseCompiledProgram, DenseRelationKey};
use axiom_rules_engine::engine::Engine;
use axiom_rules_engine::error::EvalError;
use axiom_rules_engine::migrate::migrate_artifact_relation_typing;
use axiom_rules_engine::model::{
    ComparisonOp, DType, DataSet, Derived, DerivedSemantics, Interval, JudgmentExpr,
    JudgmentOutcome, Period, PeriodKind, Program, RelatedValueRef, RelationDerivation,
    RelationSchema, ScalarExpr, ScalarValue, SCALAR_ENTITY,
};

fn day(year: i32, month: u32, number: u32) -> Date {
    Date::from_ymd(year, month, number).expect("valid date")
}

fn dec(value: &str) -> Decimal {
    Decimal::from_text(value).expect("valid decimal")
}

fn january() -> Period {
    Period { kind: PeriodKind::Month, start: day(2026, 1, 1), end: day(2026, 1, 31) }
}

fn all_year() -> Interval {
    Interval { start: day(2026, 1, 1), end: day(2026, 12, 31) }
}

fn input(name: &str) -> ScalarExpr {
    ScalarExpr::Input(name.to_string())
}

fn rule(name: &str, entity: &str, dtype: DType, semantics: DerivedSemantics) -> Derived {
    Derived {
        id: None,
        name: name.to_string(),
        entity: entity.to_string(),
        dtype,
        unit: None,
        rounding: None,
        source: None,
        source_url: None,
        corpus_citation_path: None,
        semantics,
        versions: vec![],
    }
}

/// A share of the income of small households, else the income.
fn share_rules() -> Program {
    let mut program = Program::new();
    program
        .add_derived(rule(
            "small",
            "Household",
            DType::Judgment,
            DerivedSemantics::Judgment(JudgmentExpr::Comparison {
                left: input("income"),
                op: ComparisonOp::Lt,
                right: ScalarExpr::Literal(ScalarValue::Integer(100)),
            }),
        ))
        .expect("new name");
    program
        .add_derived(rule(
            "net",
            "Household",
            DType::Decimal,
            DerivedSemantics::Scalar(ScalarExpr::If {
                condition: Box::new(JudgmentExpr::Derived("small".to_string())),
                then_expr: Box::new(ScalarExpr::Div(
                    Box::new(input("income")),
                    Box::new(input("share")),
                )),
                else_expr: Box::new(ScalarExpr::Add(vec![input("income"), input("share")])),
            }),
        ))
        .expect("new name");
    program
}

fn batch(incomes: Vec<&str>, shares: Vec<i64>) -> DenseBatchSpec {
    DenseBatchSpec {
        row_count: incomes.len(),
        inputs: vec![
            NamedColumn {
                name: "income".to_string(),
                column: DenseColumn::Decimal(incomes.iter().map(|text| dec(text)).collect()),
            },
            NamedColumn { name: "share".to_string(), column: DenseColumn::Integer(shares) },
        ],
        relations: vec![],
    }
}

#[test]
fn a_dense_row_has_the_values_of_its_entity() {
    let program = share_rules();
    let mut data = DataSet::new();
    for (id, income, share) in [("a", "50", 4), ("b", "200.5", 0), ("c", "99.99", 3)] {
        data.add_input("income", "Household", id, all_year(), ScalarValue::Decimal(dec(income)));
        data.add_input("share", "Household", id, all_year(), ScalarValue::Integer(share));
    }
    let compiled = DenseCompiledProgram::from_program(&program, None).unwrap();
    let outputs = vec!["net".to_string(), "small".to_string()];
    let rows = batch(vec!["50", "200.5", "99.99"], vec![4, 0, 3]);
    let result = compiled.execute(&january(), &rows, &outputs).unwrap();
    let net = match &result.outputs.iter().find(|output| output.name == "net").unwrap().value {
        DenseOutputValue::Scalar(DenseColumn::Decimal(values)) => values,
        other => panic!("unexpected {other:?}"),
    };
    let small = match &result.outputs.iter().find(|output| output.name == "small").unwrap().value {
        DenseOutputValue::Judgment(values) => values,
        other => panic!("unexpected {other:?}"),
    };
    let mut engine = Engine::new(&program, &data);
    for (row, id) in ["a", "b", "c"].iter().enumerate() {
        match engine.evaluate_scalar("net", id, &january()).unwrap() {
            ScalarValue::Decimal(value) => assert_eq!(value.to_text(), net[row].to_text()),
            other => panic!("unexpected {other:?}"),
        }
        assert_eq!(engine.evaluate_judgment("small", id, &january()).unwrap(), small[row]);
    }
    assert_eq!(small, &vec![JudgmentOutcome::Holds, JudgmentOutcome::NotHolds, JudgmentOutcome::Holds]);
    assert_eq!(net[1].to_text(), "200.5");
}

#[test]
fn a_dense_row_fails_where_its_entity_fails() {
    let program = share_rules();
    let mut data = DataSet::new();
    data.add_input("income", "Household", "a", all_year(), ScalarValue::Decimal(dec("50")));
    data.add_input("share", "Household", "a", all_year(), ScalarValue::Integer(0));
    let compiled = DenseCompiledProgram::from_program(&program, None).unwrap();
    assert!(matches!(
        compiled.execute(&january(), &batch(vec!["50"], vec![0]), &vec!["net".to_string()]),
        Err(EvalError::DivisionByZero)
    ));
    assert!(matches!(
        Engine::new(&program, &data).evaluate_scalar("net", "a", &january()),
        Err(EvalError::DivisionByZero)
    ));
}

#[test]
fn related_rows_have_the_values_of_related_entities() {
    let mut program = Program::new();
    let adult = JudgmentExpr::Comparison {
        left: input("age"),
        op: ComparisonOp::Gte,
        right: ScalarExpr::Derived("adult_age".to_string()),
    };
    for item in [
        rule(
            "wages",
            "Household",
            DType::Decimal,
            DerivedSemantics::Scalar(ScalarExpr::SumRelated {
                relation: "member".to_string(),
                current_slot: 0,
                related_slot: 1,
                value: RelatedValueRef::Derived("net_wage".to_string()),
                where_clause: Some(Box::new(adult)),
            }),
        ),
        rule(
            "net_wage",
            "Person",
            DType::Decimal,
            DerivedSemantics::Scalar(ScalarExpr::Sub(Box::new(input("wage")), Box::new(input("tax")))),
        ),
        rule(
            "adult_age",
            SCALAR_ENTITY,
            DType::Integer,
            DerivedSemantics::Scalar(ScalarExpr::Literal(ScalarValue::Integer(18))),
        ),
    ] {
        program.add_derived(item).unwrap();
    }
    program.add_relation("member", 2).unwrap();
    let people = [("a", "p", 30, "1.5", "0.5"), ("a", "q", 10, "2.5", "1"), ("b", "r", 18, "7", "0.25")];
    let mut data = DataSet::new();
    for (home, person, age, wage, tax) in people {
        data.add_relation("member", vec![home.to_string(), person.to_string()], all_year());
        data.add_input("age", "Person", person, all_year(), ScalarValue::Integer(age));
        data.add_input("wage", "Person", person, all_year(), ScalarValue::Decimal(dec(wage)));
        data.add_input("tax", "Person", person, all_year(), ScalarValue::Decimal(dec(tax)));
    }
    let column = |name: &str, column: DenseColumn| NamedColumn { name: name.to_string(), column };
    let rows = DenseBatchSpec {
        row_count: 2,
        inputs: vec![],
        relations: vec![DenseRelationBatchSpec {
            key: DenseRelationKey { name: "member".to_string(), current_slot: 0, related_slot: 1 },
            offsets: vec![0, 2, 3],
            inputs: vec![
                column("age", DenseColumn::Integer(people.iter().map(|row| row.2).collect())),
                column("wage", DenseColumn::Decimal(people.iter().map(|row| dec(row.3)).collect())),
                column("tax", DenseColumn::Decimal(people.iter().map(|row| dec(row.4)).collect())),
            ],
        }],
    };
    let compiled = DenseCompiledProgram::from_program(&program, Some("Household")).unwrap();
    let result = compiled.execute(&january(), &rows, &vec!["wages".to_string()]).unwrap();
    let wages = match &result.outputs[0].value {
        DenseOutputValue::Scalar(DenseColumn::Decimal(values)) => values,
        other => panic!("unexpected {other:?}"),
    };
    let mut engine = Engine::new(&program, &data);
    for (row, id) in ["a", "b"].iter().enumerate() {
        match engine.evaluate_scalar("wages", id, &january()).unwrap() {
            ScalarValue::Decimal(value) => assert_eq!(value.to_text(), wages[row].to_text()),
            other => panic!("unexpected {other:?}"),
        }
    }
    assert_eq!(wages[0].to_text(), "1.0");
    assert_eq!(wages[1].to_text(), "6.75");
}

#[test]
fn resolved_sources_leave_values_alone() {
    let mut cited = rule(
        "levy",
        "Household",
        DType::Decimal,
        DerivedSemantics::Scalar(ScalarExpr::Mul(Box::new(input("income")), Box::new(input("rate")))),
    );
    cited.corpus_citation_path = Some("us/7/1".to_string());
    let mut program = Program::new();
    program.add_derived(cited).unwrap();
    let mut data = DataSet::new();
    data.add_input("income", "Household", "h", all_year(), ScalarValue::Integer(30));
    data.add_input("rate", "Household", "h", all_year(), ScalarValue::Decimal(dec("0.05")));
    let mut artifact = CompiledProgramArtifact::compile(program).unwrap();
    let value = |program: &Program| match Engine::new(program, &data)
        .evaluate_scalar("levy", "h", &january())
        .unwrap()
    {
        ScalarValue::Decimal(value) => value.to_text(),
        other => panic!("unexpected {other:?}"),
    };
    let before = value(&artifact.program);
    let mut index = CorpusProvisionIndex::new();
    index
        .add_jsonl_str(
            vec![ProvisionLine {
                line: 1,
                record: Ok(ProvisionRecord {
                    citation_path: Some("us/7/1".to_string()),
                    source_url: Some("https://law".to_string()),
                }),
            }],
            "p.jsonl",
        )
        .unwrap();
    assert_eq!(artifact.resolve_source_urls(&index), 1);
    assert_eq!(before, "1.50");
    assert_eq!(value(&artifact.program), before);
}

#[test]
fn migrated_artifacts_keep_their_values() {
    let mut program = Program::new();
    program
        .add_derived(rule(
            "adults",
            "Household",
            DType::Integer,
            DerivedSemantics::Scalar(ScalarExpr::CountRelated {
                relation: "member".to_string(),
                current_slot: 0,
                related_slot: 1,
                where_clause: Some(Box::new(JudgmentExpr::Comparison {
                    left: ScalarExpr::Derived("age".to_string()),
                    op: ComparisonOp::Gt,
                    right: ScalarExpr::Literal(ScalarValue::Integer(17)),
                })),
            }),
        ))
        .unwrap();
    program
        .add_derived(rule("age", "Person", DType::Integer, DerivedSemantics::Scalar(input("years"))))
        .unwrap();
    program.add_relation("member", 2).unwrap();
    let mut data = DataSet::new();
    for (person, years) in [("p", 40), ("q", 18), ("r", 3)] {
        data.add_relation("member", vec!["h".to_string(), person.to_string()], all_year());
        data.add_input("years", "Person", person, all_year(), ScalarValue::Integer(years));
    }
    let adults = |program: &Program| match Engine::new(program, &data)
        .evaluate_scalar("adults", "h", &january())
        .unwrap()
    {
        ScalarValue::Integer(value) => value,
        other => panic!("unexpected {other:?}"),
    };
    let artifact = CompiledProgramArtifact::compile(program).unwrap();
    assert_eq!(adults(&artifact.program), 2);
    let migration = migrate_artifact_relation_typing(artifact, vec![]).unwrap();
    assert_eq!(migration.changes.len(), 1);
    assert_eq!(adults(&migration.artifact.program), 2);
}

#[test]
fn rounding_twice_is_rounding_once() {
    for mode in [RoundingMode::HalfUp, RoundingMode::HalfEven, RoundingMode::Floor, RoundingMode::Ceil] {
        for text in ["2.345", "-2.345", "7", "0.005", "-0.001"] {
            let once = dec(text).round(2, mode);
            assert_eq!(once.round(2, mode).to_text(), once.to_text());
        }
    }
}

fn derived_relation(name: &str, source: &str, predicate: JudgmentExpr) -> RelationSchema {
    RelationSchema {
        name: name.to_string(),
        arity: 2,
        slot_entities: vec![],
        derivation: Some(RelationDerivation {
            source_relation: source.to_string(),
            current_slot: 0,
            related_slot: 1,
            entity: None,
            member_relation: None,
            slot_entities: vec!["Household".to_string(), "Person".to_string()],
            predicate,
        }),
    }
}

fn at_least(name: &str, bound: i64) -> JudgmentExpr {
    JudgmentExpr::Comparison {
        left: input(name),
        op: ComparisonOp::Gte,
        right: ScalarExpr::Literal(ScalarValue::Integer(bound)),
    }
}

#[test]
fn members_of_derived_relations_are_those_of_the_interpreter() {
    let mut program = Program::new();
    program
        .add_derived(rule(
            "adults",
            "Household",
            DType::Integer,
            DerivedSemantics::Scalar(ScalarExpr::CountRelated {
                relation: "adult".to_string(),
                current_slot: 0,
                related_slot: 1,
                where_clause: None,
            }),
        ))
        .unwrap();
    program
        .add_derived(rule(
            "earned",
            "Household",
            DType::Decimal,
            DerivedSemantics::Scalar(ScalarExpr::SumRelated {
                relation: "earner".to_string(),
                current_slot: 0,
                related_slot: 1,
                value: RelatedValueRef::Input("wage".to_string()),
                where_clause: None,
            }),
        ))
        .unwrap();
    program.add_relation("member", 2).unwrap();
    program
        .add_relation_schema(derived_relation(
            "adult",
            "member",
            JudgmentExpr::And(vec![
                JudgmentExpr::RelationMember {
                    relation: "member".to_string(),
                    current_slot: 0,
                    related_slot: 1,
                },
                at_least("age", 18),
            ]),
        ))
        .unwrap();
    program.add_relation_schema(derived_relation("earner", "adult", at_least("wage", 2))).unwrap();
    let people = [("h1", "p1", 30, 1), ("h1", "p2", 10, 9), ("h1", "p3", 40, 5), ("h2", "p4", 18, 7)];
    let mut data = DataSet::new();
    for (home, person, age, wage) in people {
        data.add_relation("member", vec![home.to_string(), person.to_string()], all_year());
        data.add_input("age", "Person", person, all_year(), ScalarValue::Integer(age));
        data.add_input("wage", "Person", person, all_year(), ScalarValue::Integer(wage));
    }
    let compiled = DenseCompiledProgram::from_program(&program, None).unwrap();
    let rows = DenseBatchSpec {
        row_count: 2,
        inputs: vec![],
        relations: vec![DenseRelationBatchSpec {
            key: DenseRelationKey { name: "member".to_string(), current_slot: 0, related_slot: 1 },
            offsets: vec![0, 3, 4],
            inputs: vec![
                NamedColumn {
                    name: "age".to_string(),
                    column: DenseColumn::Integer(people.iter().map(|person| person.2).collect()),
                },
                NamedColumn {
                    name: "wage".to_string(),
                    column: DenseColumn::Integer(people.iter().map(|person| person.3).collect()),
                },
            ],
        }],
    };
    let outputs = vec!["adults".to_string(), "earned".to_string()];
    let result = compiled.execute(&january(), &rows, &outputs).unwrap();
    let mut engine = Engine::new(&program, &data);
    for (row, (id, adults, earned)) in [("h1", 2, "5"), ("h2", 1, "7")].iter().enumerate() {
        match &result.outputs.iter().find(|output| output.name == "adults").unwrap().value {
            DenseOutputValue::Scalar(DenseColumn::Integer(values)) => assert_eq!(values[row], *adults),
            other => panic!("unexpected {other:?}"),
        }
        match &result.outputs.iter().find(|output| output.name == "earned").unwrap().value {
            DenseOutputValue::Scalar(DenseColumn::Decimal(values)) => assert_eq!(values[row].to_text(), *earned),
            other => panic!("unexpected {other:?}"),
        }
        match engine.evaluate_scalar("adults", id, &january()).unwrap() {
            ScalarValue::Integer(value) => assert_eq!(value, *adults),
            other => panic!("unexpected {other:?}"),
        }
        match engine.evaluate_scalar("earned", id, &january()).unwrap() {
            ScalarValue::Decimal(value) => assert_eq!(value.to_text(), *earned),
            other => panic!("unexpected {other:?}"),
        }
    }
}

#[test]
fn the_test_of_a_derived_relation_reads_rules_of_both_its_entities() {
    let mut program = Program::new();
    let scalar = |name: &str, entity: &str, expr: ScalarExpr| {
        rule(name, entity, DType::Integer, DerivedSemantics::Scalar(expr))
    };
    let judgment = |name: &str, expr: JudgmentExpr| {
        rule(name, "Household", DType::Judgment, DerivedSemantics::Judgment(expr))
    };
    for item in [
        scalar(
            "adults",
            "Household",
            ScalarExpr::CountRelated {
                relation: "adult".to_string(),
                current_slot: 0,
                related_slot: 1,
                where_clause: None,
            },
        ),
        scalar(
            "threshold",
            "Household",
            ScalarExpr::Add(vec![input("base"), ScalarExpr::Literal(ScalarValue::Integer(8))]),
        ),
        judgment("open", at_least("base", 0)),
        scalar(
            "grown",
            "Person",
            ScalarExpr::Add(vec![input("age"), ScalarExpr::Literal(ScalarValue::Integer(1))]),
        ),
    ] {
        program.add_derived(item).unwrap();
    }
    program.add_relation("member", 2).unwrap();
    program
        .add_relation_schema(derived_relation(
            "adult",
            "member",
            JudgmentExpr::And(vec![
                JudgmentExpr::Derived("open".to_string()),
                JudgmentExpr::Comparison {
                    left: ScalarExpr::Derived("grown".to_string()),
                    op: ComparisonOp::Gt,
                    right: ScalarExpr::Derived("threshold".to_string()),
                },
            ]),
        ))
        .unwrap();
    let homes = [("h1", 10), ("h2", 30), ("h3", -1)];
    let people = [("h1", "p1", 18), ("h1", "p2", 17), ("h2", "p3", 38), ("h2", "p4", 37), ("h3", "p5", 90)];
    let mut data = DataSet::new();
    for (home, base) in homes {
        data.add_input("base", "Household", home, all_year(), ScalarValue::Integer(base));
    }
    for (home, person, age) in people {
        data.add_relation("member", vec![home.to_string(), person.to_string()], all_year());
        data.add_input("age", "Person", person, all_year(), ScalarValue::Integer(age));
    }
    let compiled = DenseCompiledProgram::from_program(&program, Some("Household")).unwrap();
    let rows = DenseBatchSpec {
        row_count: 3,
        inputs: vec![NamedColumn {
            name: "base".to_string(),
            column: DenseColumn::Integer(homes.iter().map(|home| home.1).collect()),
        }],
        relations: vec![DenseRelationBatchSpec {
            key: DenseRelationKey { name: "member".to_string(), current_slot: 0, related_slot: 1 },
            offsets: vec![0, 2, 4, 5],
            inputs: vec![NamedColumn {
                name: "age".to_string(),
                column: DenseColumn::Integer(people.iter().map(|person| person.2).collect()),
            }],
        }],
    };
    let result = compiled.execute(&january(), &rows, &vec!["adults".to_string()]).unwrap();
    let counts = match &result.outputs[0].value {
        DenseOutputValue::Scalar(DenseColumn::Integer(values)) => values.clone(),
        other => panic!("unexpected {other:?}"),
    };
    assert_eq!(counts, vec![1, 1, 0]);
    let mut engine = Engine::new(&program, &data);
    for (row, home) in homes.iter().enumerate() {
        match engine.evaluate_scalar("adults", home.0, &january()).unwrap() {
            ScalarValue::Integer(value) => assert_eq!(value, counts[row]),
            other => panic!("unexpected {other:?}"),
        }
    }
}
