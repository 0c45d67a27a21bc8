use axiom_rules_engine::compile::{
    CompileError, CompiledProgramArtifact, ARTIFACT_FORMAT_VERSION,
};
use axiom_rules_engine::date::Date;
use axiom_rules_engine::decimal::RoundingMode;
use axiom_rules_engine::lifetime_api::{
    check_string, execute_lifetime_request, parse_lifetime_artifact, parse_lifetime_request,
    ArtifactReading, LifetimeApiError, LifetimeArithmetic, LifetimeBatch, LifetimeColumn,
    LifetimeExecutionRequest, LifetimeInput, LifetimeOutputColumn, LifetimePeriod,
    LifetimeRequestSchema, MAX_ARTIFACT_BYTES, MAX_REQUEST_BYTES,
};
use axiom_rules_engine::model::{
    DType, Derived, DerivedSemantics, OverPeriodsKind, Program, Rounding, ScalarExpr,
};

fn day(year: i32, month: u32, number: u32) -> Date {
    Date::from_ymd(year, month, number).expect("valid date")
}

fn rule(name: &str, entity: &str, dtype: DType, semantics: DerivedSemantics) -> Derived {
    Derived {
        id: None,
        name: name.to_string(),
        entity: entity.to_string(),
        dtype,
        unit: None,
        rounding: None,
        source: None,
        source_url: None,
        corpus_citation_path: None,
        semantics,
        versions: vec![],
    }
}

fn program_of(rules: Vec<Derived>) -> Program {
    let mut program = Program::new();
    for item in rules {
        program.add_derived(item).expect("new name");
    }
    program
}

fn program() -> Program {
    let reduced = |name: &str, kind: OverPeriodsKind, dtype: DType| {
        let mut item = rule(
            name,
            "Person",
            dtype,
            DerivedSemantics::Scalar(ScalarExpr::OverPeriods {
                kind,
                value: Box::new(ScalarExpr::Input("earnings".to_string())),
                n: None,
            }),
        );
        item.id = Some(format!("us:pension#{name}"));
        item
    };
    program_of(vec![
        reduced("total", OverPeriodsKind::Sum, DType::Decimal),
        reduced("highest", OverPeriodsKind::Max, DType::Decimal),
        reduced("years", OverPeriodsKind::Count, DType::Integer),
    ])
}

fn artifact_of(program: Program, version: u32) -> CompiledProgramArtifact {
    let mut artifact = CompiledProgramArtifact::compile(program).expect("the program compiles");
    artifact.artifact_format_version = version;
    artifact
}

fn year(number: i32) -> LifetimePeriod {
    LifetimePeriod::TaxYear { start: day(number, 1, 1), end: day(number, 12, 31) }
}

fn batch(values: &[&str]) -> LifetimeBatch {
    LifetimeBatch {
        row_count: values.len(),
        entity_ids: (0..values.len()).map(|row| format!("p{row}")).collect(),
        inputs: vec![LifetimeInput {
            reference: "us:pension#input.earnings".to_string(),
            target_is_valid: true,
            column: LifetimeColumn::Decimal { values: values.iter().map(|value| value.to_string()).collect() },
        }],
    }
}

fn request() -> LifetimeExecutionRequest {
    LifetimeExecutionRequest {
        schema: LifetimeRequestSchema::V1,
        entity: "Person".to_string(),
        arithmetic: LifetimeArithmetic::Decimal,
        periods: vec![year(2024), year(2025)],
        batches: vec![batch(&["10.5", "0"]), batch(&["4.5", "0"])],
        outputs: vec!["us:pension#total".to_string(), "us:pension#years".to_string()],
        output_period: year(2025),
    }
}

fn refused(request: LifetimeExecutionRequest) -> String {
    match execute_lifetime_request(artifact_of(program(), 1), "{}", request) {
        Err(error) => error.to_text(),
        Ok(response) => panic!("answered {response:?}"),
    }
}

#[test]
fn a_history_is_reduced_for_every_entity() {
    let response = execute_lifetime_request(artifact_of(program(), 1), "{}", request()).unwrap();
    assert_eq!(response.row_count, 2);
    assert_eq!(response.artifact_format_version, 1);
    assert_eq!(response.entity_ids, vec!["p0", "p1"]);
    assert_eq!(response.outputs[0].id, "us:pension#total");
    assert_eq!(response.outputs[0].name, "total");
    match &response.outputs[0].column {
        LifetimeOutputColumn::Scalar(LifetimeColumn::Decimal { values }) => {
            assert_eq!(values, &vec!["15", "0"])
        }
        other => panic!("unexpected {other:?}"),
    }
    match &response.outputs[1].column {
        LifetimeOutputColumn::Scalar(LifetimeColumn::Integer { values }) => assert_eq!(values, &vec![2, 0]),
        other => panic!("unexpected {other:?}"),
    }
}

#[test]
fn requests_are_refused_with_the_field_at_fault() {
    let mut item = request();
    item.periods = vec![];
    assert_eq!(refused(item), "invalid lifetime request at periods: period count must be in 1..=512");
    let mut item = request();
    item.batches.pop();
    assert_eq!(refused(item), "invalid lifetime request at batches: one batch is required per period");
    let mut item = request();
    item.outputs = vec![];
    assert_eq!(refused(item), "invalid lifetime request at outputs: output count must be in 1..=256");
    let mut item = request();
    item.output_period = year(2024);
    assert!(refused(item).starts_with("unsupported lifetime request: output_period must equal the final"));
    let mut item = request();
    item.periods = vec![year(2026), year(2025)];
    assert_eq!(
        refused(item),
        "invalid lifetime request at periods[1]: periods must have the same kind and be ascending without overlap"
    );
    let mut item = request();
    item.periods[0] = LifetimePeriod::TaxYear { start: day(2024, 2, 1), end: day(2024, 1, 1) };
    assert_eq!(refused(item), "invalid lifetime request at periods[0]: start must not follow end");
    let mut item = request();
    item.entity = "Firm".to_string();
    assert_eq!(
        refused(item),
        "dense compilation could not find derived outputs for entity `Firm`"
    );
}

#[test]
fn diagnostics_carry_category_and_field() {
    let error = LifetimeApiError::invalid("outputs", "too many");
    let diagnostic = error.diagnostic();
    assert_eq!(diagnostic.schema, "axiom-rules-engine/lifetime-error/v1");
    assert_eq!(diagnostic.category, "invalid_request");
    assert_eq!(diagnostic.field.as_deref(), Some("outputs"));
    assert_eq!(diagnostic.message, "invalid lifetime request at outputs: too many");
    let long = LifetimeApiError::Output("x".repeat(5000));
    assert_eq!(long.diagnostic().message.len(), 4096);
    assert_eq!(long.diagnostic().category, "evaluation");
    assert!(long.diagnostic().field.is_none());
}

#[test]
fn texts_that_are_too_long_are_refused() {
    assert!(check_string(&"x".repeat(4096), "entity").is_ok());
    assert_eq!(
        check_string(&"x".repeat(4097), "entity").unwrap_err().to_text(),
        "invalid lifetime request at entity: string exceeds byte limit"
    );
    let long = "x".repeat(MAX_REQUEST_BYTES + 1);
    assert_eq!(
        parse_lifetime_request(&long, Ok(request())).unwrap_err().to_text(),
        "invalid lifetime request at request: request exceeds byte limit"
    );
}

#[test]
fn a_request_is_what_its_parse_gave() {
    let admitted = parse_lifetime_request("{}", Ok(request())).unwrap();
    assert_eq!(admitted.outputs, request().outputs);
    let error = parse_lifetime_request("{", Err("EOF".to_string())).unwrap_err();
    assert!(matches!(&error, LifetimeApiError::Json(message) if message == "EOF"));
    assert_eq!(error.diagnostic().category, "invalid_request");
    assert_eq!(error.diagnostic().field, None);
}

#[test]
fn an_artifact_is_admitted_where_it_is_read_and_of_a_known_format() {
    let artifact = || CompiledProgramArtifact::compile(program()).unwrap();
    let admitted = parse_lifetime_artifact("{}", ArtifactReading::Read(artifact())).unwrap();
    assert_eq!(admitted.program.derived.len(), 3);
    let repeated = ArtifactReading::NotUnique("duplicate JSON object key".to_string());
    let error = parse_lifetime_artifact("{}", repeated).unwrap_err();
    assert!(matches!(&error, LifetimeApiError::Json(message) if message == "duplicate JSON object key"));
    let unread = ArtifactReading::Unread("missing field `program`".to_string());
    let error = parse_lifetime_artifact("{}", unread).unwrap_err();
    assert!(matches!(&error, LifetimeApiError::Artifact(CompileError::DeserializeArtifact { .. })));
    assert_eq!(
        error.to_text(),
        "failed to parse compiled artefact `<memory>`: missing field `program`"
    );
    assert_eq!(error.diagnostic().category, "artifact");
    let mut later = artifact();
    later.artifact_format_version = ARTIFACT_FORMAT_VERSION + 1;
    let error = parse_lifetime_artifact("{}", ArtifactReading::Read(later)).unwrap_err();
    assert!(matches!(
        error,
        LifetimeApiError::Artifact(CompileError::UnsupportedArtifactFormatVersion { found, supported, .. })
            if found == ARTIFACT_FORMAT_VERSION + 1 && supported == ARTIFACT_FORMAT_VERSION
    ));
}

#[test]
fn a_later_format_is_refused_before_the_request_is_read() {
    let mut empty = request();
    empty.periods = vec![];
    let later = artifact_of(program(), ARTIFACT_FORMAT_VERSION + 1);
    let error = execute_lifetime_request(later, "{}", empty).unwrap_err();
    assert!(matches!(
        error,
        LifetimeApiError::Artifact(CompileError::UnsupportedArtifactFormatVersion { .. })
    ));
    let current = artifact_of(program(), ARTIFACT_FORMAT_VERSION);
    assert!(execute_lifetime_request(current, "{}", request()).is_ok());
}

#[test]
fn a_program_that_rounds_no_currency_has_no_lifetime() {
    let mut rounded = program();
    rounded.derived[1].rounding = Some(Rounding { mode: RoundingMode::Ceil, minor_units: 0 });
    let mut artifact = artifact_of(program(), 1);
    artifact.program = rounded;
    let error = execute_lifetime_request(artifact, "{}", request()).unwrap_err();
    assert!(matches!(
        &error,
        LifetimeApiError::Spec(CompileError::RoundingUnit { derived }) if derived == "highest"
    ));
}

#[test]
fn an_artifact_written_too_long_is_refused_before_its_format() {
    let written = "x".repeat(MAX_ARTIFACT_BYTES + 1);
    let later = artifact_of(program(), ARTIFACT_FORMAT_VERSION + 1);
    let error = execute_lifetime_request(later, &written, request()).unwrap_err();
    assert!(matches!(
        &error,
        LifetimeApiError::Request { field, .. } if field == "artifact"
    ));
    let longest = "x".repeat(MAX_ARTIFACT_BYTES);
    assert!(execute_lifetime_request(artifact_of(program(), 1), &longest, request()).is_ok());
}

#[test]
fn a_relation_is_refused_where_a_rule_of_the_entity_reads_it() {
    let mut declared = program();
    declared.add_relation("member", 2).unwrap();
    let response = execute_lifetime_request(artifact_of(declared, 1), "{}", request()).unwrap();
    match &response.outputs[0].column {
        LifetimeOutputColumn::Scalar(LifetimeColumn::Decimal { values }) => {
            assert_eq!(values, &vec!["15", "0"])
        }
        other => panic!("unexpected {other:?}"),
    }
    let counts = |entity: &str| {
        rule(
            "size",
            entity,
            DType::Integer,
            DerivedSemantics::Scalar(ScalarExpr::CountRelated {
                relation: "member".to_string(),
                current_slot: 0,
                related_slot: 1,
                where_clause: None,
            }),
        )
    };
    let mut elsewhere = program();
    elsewhere.add_relation("member", 2).unwrap();
    elsewhere.add_derived(counts("Household")).unwrap();
    assert!(execute_lifetime_request(artifact_of(elsewhere, 1), "{}", request()).is_ok());
    let mut read = program();
    read.add_relation("member", 2).unwrap();
    read.add_derived(counts("Person")).unwrap();
    let error = execute_lifetime_request(artifact_of(read, 1), "{}", request()).unwrap_err();
    assert!(
        error.to_text().contains("relation context is not supported by lifetime JSON v1"),
        "{}",
        error.to_text()
    );
}
