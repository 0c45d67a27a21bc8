use axiom_rules_engine::compile::{CompileError, CompiledProgramArtifact};
use axiom_rules_engine::decimal::RoundingMode;
use axiom_rules_engine::migrate::{
    migrate_artifact_relation_typing, ArtifactRelationMigrationError, RelationOverride,
    TypingSource,
};
use axiom_rules_engine::model::{
    ComparisonOp, DType, Derived, DerivedSemantics, JudgmentExpr, Program, RelationSchema,
    Rounding, ScalarExpr, ScalarValue,
};
use axiom_rules_engine::relation_direction::resolve;
use axiom_rules_engine::relation_typing::{
    check_program, effective_slot_entities, RelationTypingCode,
};
use axiom_rules_engine::usages::{relation_usage_orientations, relation_usage_records};

fn number(value: i64) -> ScalarExpr {
    ScalarExpr::Literal(ScalarValue::Integer(value))
}

fn input(name: &str) -> ScalarExpr {
    ScalarExpr::Input(name.to_string())
}

fn rule(name: &str, entity: &str, dtype: DType, semantics: DerivedSemantics) -> Derived {
    Derived {
        id: None,
        name: name.to_string(),
        entity: entity.to_string(),
        dtype,
        unit: None,
        rounding: None,
        source: None,
        source_url: None,
        corpus_citation_path: None,
        semantics,
        versions: vec![],
    }
}

fn scalar_rule(name: &str, expr: ScalarExpr) -> Derived {
    rule(name, "Household", DType::Decimal, DerivedSemantics::Scalar(expr))
}

fn program_of(rules: Vec<Derived>) -> Program {
    let mut program = Program::new();
    for item in rules {
        program.add_derived(item).expect("new name");
    }
    program
}

fn count(relation: &str, current_slot: usize, related_slot: usize) -> ScalarExpr {
    ScalarExpr::CountRelated {
        relation: relation.to_string(),
        current_slot,
        related_slot,
        where_clause: Some(Box::new(JudgmentExpr::Comparison {
            left: ScalarExpr::Derived("age".to_string()),
            op: ComparisonOp::Gt,
            right: number(17),
        })),
    }
}

fn relation(name: &str, kinds: &[&str]) -> RelationSchema {
    RelationSchema {
        name: name.to_string(),
        arity: 2,
        slot_entities: kinds.iter().map(|kind| kind.to_string()).collect(),
        derivation: None,
    }
}

fn program(kinds: &[&str], expr: ScalarExpr) -> Program {
    let mut program = program_of(vec![
        scalar_rule("adults", expr),
        rule("age", "Person", DType::Integer, DerivedSemantics::Scalar(input("years"))),
    ]);
    program.add_relation_schema(relation("member", kinds)).unwrap();
    program
}

#[test]
fn relations_that_are_executed_are_typed() {
    assert!(check_program(&program(&["Household", "Person"], count("member", 0, 1))).is_ok());
    let report = check_program(&program(&[], count("member", 0, 1))).unwrap_err();
    assert!(report
        .violations
        .iter()
        .all(|violation| violation.code == RelationTypingCode::UntypedRelation));
    assert_eq!(report.untyped_relations(), vec!["member"]);
    assert!(report.to_text().contains("member"));
}

#[test]
fn slots_hold_the_entities_that_read_them() {
    let report = check_program(&program(&["Person", "Household"], count("member", 0, 1))).unwrap_err();
    let codes: Vec<&str> = report.violations.iter().map(|violation| violation.code.as_str()).collect();
    assert!(codes.contains(&RelationTypingCode::CurrentSlotEntityMismatch.as_str()), "{codes:?}");
    let report = check_program(&program(&["Household", "Person"], count("member", 0, 5))).unwrap_err();
    assert!(report
        .violations
        .iter()
        .any(|violation| violation.code == RelationTypingCode::SlotOutOfRange));
    let report = check_program(&program(&["Household"], count("member", 0, 1))).unwrap_err();
    assert!(report
        .violations
        .iter()
        .any(|violation| violation.code == RelationTypingCode::SlotEntityCount));
}

#[test]
fn slot_kinds_are_those_that_are_declared() {
    assert_eq!(
        effective_slot_entities(&program(&["Household", "Person"], count("member", 0, 1)), "member"),
        Some(vec!["Household".to_string(), "Person".to_string()])
    );
    assert_eq!(effective_slot_entities(&program(&[], number(1)), "other"), None);
}

#[test]
fn usages_show_the_entity_of_each_slot() {
    let program = program(&[], count("member", 0, 1));
    let records = relation_usage_records(&program);
    assert!(records.iter().any(|record| record.relation == "member"
        && record.citing_rule == "adults"
        && record.slot_entities == vec![Some("Household".to_string()), Some("Person".to_string())]));
    let orientations = relation_usage_orientations(&program);
    assert_eq!(orientations.len(), 1);
    assert_eq!(orientations[0].relation, "member");
}

#[test]
fn an_artifact_is_typed_as_it_executes() {
    let artifact = CompiledProgramArtifact::compile(program(&[], count("member", 0, 1))).unwrap();
    let migration = migrate_artifact_relation_typing(artifact, vec![]).unwrap();
    assert_eq!(migration.changes.len(), 1);
    assert_eq!(migration.changes[0].relation, "member");
    assert_eq!(migration.changes[0].slot_entities, vec!["Household", "Person"]);
    assert_eq!(migration.changes[0].source, TypingSource::Inferred);
    assert_eq!(TypingSource::Inferred.as_str(), "inferred");
    assert_eq!(TypingSource::Override.as_str(), "override");
    assert!(check_program(&migration.artifact.program).is_ok());
    let again = migrate_artifact_relation_typing(migration.artifact, vec![]).unwrap();
    assert!(again.changes.is_empty());
}

#[test]
fn overrides_must_fit_the_artifact() {
    let migrate = |relation: &str, kinds: &[&str]| {
        let artifact = CompiledProgramArtifact::compile(program(&[], count("member", 0, 1))).unwrap();
        migrate_artifact_relation_typing(
            artifact,
            vec![RelationOverride {
                relation: relation.to_string(),
                kinds: kinds.iter().map(|kind| kind.to_string()).collect(),
            }],
        )
    };
    assert!(matches!(
        migrate("other", &["A", "B"]),
        Err(ArtifactRelationMigrationError::UnknownRelation { relation, .. }) if relation == "other"
    ));
    let error = migrate("member", &["Household"]).unwrap_err();
    assert_eq!(
        error.to_text(),
        "--relation-entities gives relation `member` 1 kinds, but its arity is 2"
    );
    assert!(matches!(
        migrate("member", &["Person", "Household"]),
        Err(ArtifactRelationMigrationError::OverrideContradictsExecution { slot: 0, .. })
    ));
    assert!(migrate("member", &["Household", "Person"]).is_ok());
}

#[test]
fn a_direction_that_the_kinds_decide_is_resolved() {
    let resolved = resolve(program(&["Person", "Household"], count("member", 0, 1))).unwrap();
    match &resolved.derived[0].semantics {
        DerivedSemantics::Scalar(ScalarExpr::CountRelated { current_slot, related_slot, .. }) => {
            assert_eq!((*current_slot, *related_slot), (1, 0))
        }
        other => panic!("unexpected {other:?}"),
    }
    let kept = resolve(program(&["Household", "Person"], count("member", 0, 1))).unwrap();
    assert!(check_program(&kept).is_ok());
    let literal = resolve(program(&[], ScalarExpr::Literal(ScalarValue::Integer(1)))).unwrap();
    assert_eq!(literal.derived.len(), 2);
}

#[test]
fn overrides_are_taken_in_the_order_of_their_names() {
    let artifact = || CompiledProgramArtifact::compile(program(&[], count("member", 0, 1))).unwrap();
    let given = |relation: &str, kinds: &[&str]| RelationOverride {
        relation: relation.to_string(),
        kinds: kinds.iter().map(|kind| kind.to_string()).collect(),
    };
    for names in [["zeta", "alpha"], ["alpha", "zeta"]] {
        let overrides = names.iter().map(|name| given(name, &["A", "B"])).collect();
        assert!(matches!(
            migrate_artifact_relation_typing(artifact(), overrides),
            Err(ArtifactRelationMigrationError::UnknownRelation { relation, .. }) if relation == "alpha"
        ));
    }
}

#[test]
fn an_artifact_that_rounds_no_currency_is_not_typed() {
    let mut artifact = CompiledProgramArtifact::compile(program(&[], count("member", 0, 1))).unwrap();
    artifact.program.derived[0].rounding = Some(Rounding { mode: RoundingMode::Floor, minor_units: 0 });
    let name = artifact.program.derived[0].name.clone();
    let error = migrate_artifact_relation_typing(artifact, vec![]).unwrap_err();
    assert!(matches!(
        &error,
        ArtifactRelationMigrationError::Spec(CompileError::RoundingUnit { derived }) if *derived == name
    ));
    assert_eq!(
        error.to_text(),
        format!("derived `{name}` declares rounding, but its unit is no declared currency")
    );
}
