use axiom_rules_engine::compile::{
    compile_summary_lines, evaluation_order, fast_path_metadata, is_rulespec, validate_rounding,
    CompileError, CompiledProgramArtifact, CorpusProvisionIndex, ProvisionDocument, ProvisionLine,
    ProvisionRecord, RuleSpecError, RuleSpecReading, ARTIFACT_FORMAT_VERSION,
};
use axiom_rules_engine::dependencies::{derived_dependencies, fast_blockers};
use axiom_rules_engine::decimal::RoundingMode;
use axiom_rules_engine::model::{
    DType, Derived, DerivedSemantics, JudgmentExpr, Program, Rounding, ScalarExpr, ScalarValue,
    UnitDef,
};
use axiom_rules_engine::schedule::schedule;

fn number(value: i64) -> ScalarExpr {
    ScalarExpr::Literal(ScalarValue::Integer(value))
}

fn rule_value(name: &str) -> ScalarExpr {
    ScalarExpr::Derived(name.to_string())
}

fn rule(name: &str, entity: &str, dtype: DType, semantics: DerivedSemantics) -> Derived {
    Derived {
        id: None,
        name: name.to_string(),
        entity: entity.to_string(),
        dtype,
        unit: None,
        rounding: None,
        source: None,
        source_url: None,
        corpus_citation_path: None,
        semantics,
        versions: vec![],
    }
}

fn scalar_rule(name: &str, expr: ScalarExpr) -> Derived {
    rule(name, "Household", DType::Decimal, DerivedSemantics::Scalar(expr))
}

fn judgment_rule(name: &str, expr: JudgmentExpr) -> Derived {
    rule(name, "Household", DType::Judgment, DerivedSemantics::Judgment(expr))
}

fn program_of(rules: Vec<Derived>) -> Program {
    let mut program = Program::new();
    for item in rules {
        program.add_derived(item).expect("new name");
    }
    program
}

fn chain() -> Program {
    program_of(vec![
        scalar_rule("total", ScalarExpr::Add(vec![rule_value("part"), rule_value("base")])),
        scalar_rule("part", rule_value("base")),
        scalar_rule("base", number(1)),
        judgment_rule("done", JudgmentExpr::Derived("other".to_string())),
        judgment_rule("other", JudgmentExpr::And(vec![])),
    ])
}

#[test]
fn rules_are_ordered_behind_what_they_read() {
    let order = evaluation_order(&chain()).unwrap();
    assert_eq!(order, vec!["base", "other", "done", "part", "total"]);
    let program = chain();
    for (place, name) in order.iter().enumerate() {
        let rule = program.derived.iter().find(|rule| &rule.name == name).unwrap();
        for needed in derived_dependencies(rule, &program) {
            assert!(order[..place].contains(&needed), "{name} before {needed}");
        }
    }
}

#[test]
fn a_schedule_leaves_out_what_runs_in_a_circle() {
    let nodes: Vec<String> = ["a", "b", "c"].iter().map(|name| name.to_string()).collect();
    let edges = vec![vec!["b".to_string()], vec!["a".to_string()], vec![]];
    assert_eq!(schedule(&nodes, &edges), vec!["c"]);
}

#[test]
fn order_errors_name_the_rules() {
    let circle = program_of(vec![
        scalar_rule("a", rule_value("b")),
        scalar_rule("b", rule_value("a")),
    ]);
    match evaluation_order(&circle) {
        Err(CompileError::CyclicDependency { cycle }) => {
            assert!(cycle.contains('a') && cycle.contains('b'), "{cycle}")
        }
        other => panic!("unexpected {other:?}"),
    }
    let unknown = program_of(vec![scalar_rule("a", rule_value("nothing"))]);
    match evaluation_order(&unknown) {
        Err(error) => assert_eq!(
            error.to_text(),
            "unknown derived dependency `nothing` referenced from `a`"
        ),
        other => panic!("unexpected {other:?}"),
    }
    let mut twice = program_of(vec![scalar_rule("a", number(1))]);
    twice.derived.push(scalar_rule("a", number(2)));
    assert!(matches!(
        evaluation_order(&twice),
        Err(CompileError::DuplicateDerivedRule { name }) if name == "a"
    ));
}

#[test]
fn names_are_declared_once() {
    let mut program = chain();
    let error = program.add_derived(scalar_rule("base", number(2))).unwrap_err();
    assert_eq!(error.to_text(), format!("duplicate {} name `base`", error.namespace));
    program.add_unit(UnitDef::count("people")).unwrap();
    assert!(program.add_unit(UnitDef::custom("people", "head")).is_err());
    program.add_relation("member", 2).unwrap();
    assert!(program.add_relation("member", 3).is_err());
}

#[test]
fn rounding_needs_a_currency() {
    let mut item = scalar_rule("a", number(1));
    item.unit = Some("USD".to_string());
    item.rounding = Some(Rounding { mode: RoundingMode::Ceil, minor_units: 0 });
    let mut program = program_of(vec![item]);
    assert!(matches!(
        validate_rounding(&program),
        Err(CompileError::RoundingUnit { derived }) if derived == "a"
    ));
    program.add_unit(UnitDef::currency("USD", 2)).unwrap();
    assert!(validate_rounding(&program).is_ok());
    assert_eq!(program.currency_minor_units("USD"), Some(2));
    assert_eq!(program.currency_minor_units("EUR"), None);
}

#[test]
fn an_artifact_carries_the_order_and_the_blockers() {
    let artifact = CompiledProgramArtifact::compile(chain()).unwrap();
    assert_eq!(artifact.artifact_format_version, ARTIFACT_FORMAT_VERSION);
    assert_eq!(artifact.metadata.evaluation_order, vec!["base", "other", "done", "part", "total"]);
    assert!(artifact.metadata.fast_path.compatible);
    let mut dated = chain();
    dated
        .add_derived(rule("start", "Household", DType::Date, DerivedSemantics::Scalar(ScalarExpr::PeriodStart)))
        .unwrap();
    assert!(!fast_blockers(&dated).is_empty());
    let metadata = fast_path_metadata(&dated);
    assert!(!metadata.compatible);
    assert_eq!(metadata.blockers, fast_blockers(&dated));
    let lines = compile_summary_lines(&artifact);
    assert!(lines.iter().all(|(key, _)| !key.is_empty()));
    assert!(!lines.is_empty());
}

#[test]
fn an_artifact_of_a_later_format_is_refused() {
    let mut artifact = CompiledProgramArtifact::compile(chain()).unwrap();
    artifact.artifact_format_version = ARTIFACT_FORMAT_VERSION + 1;
    let error = artifact.check_format_version("a.json").unwrap_err();
    assert_eq!(
        error.to_text(),
        format!(
            "compiled artefact `a.json` has artifact_format_version {}, but this engine supports up to {}; recompile the program with this engine or upgrade the engine",
            ARTIFACT_FORMAT_VERSION + 1,
            ARTIFACT_FORMAT_VERSION
        )
    );
}

#[test]
fn modules_without_a_discriminator_are_refused() {
    let artifact = CompiledProgramArtifact::from_rulespec_file("m.yaml", RuleSpecReading::Module(Ok(chain())));
    assert_eq!(artifact.unwrap().program.derived.len(), 5);
    assert!(matches!(
        CompiledProgramArtifact::from_rulespec_file("m.yaml", RuleSpecReading::RulesKey),
        Err(CompileError::AmbiguousRuleSpecYaml { path }) if path == "m.yaml"
    ));
    assert!(matches!(
        CompiledProgramArtifact::from_rulespec_file("m.yaml", RuleSpecReading::Other),
        Err(CompileError::RuleSpec { error: RuleSpecError::MissingDiscriminator, .. })
    ));
    assert!(matches!(
        CompiledProgramArtifact::from_rulespec_str(RuleSpecReading::Module(Err("bad".to_string()))),
        Err(CompileError::RuleSpec { error: RuleSpecError::Load(message), .. }) if message == "bad"
    ));
    assert!(CompiledProgramArtifact::from_rulespec_with_source("us:a", Err("gone".to_string())).is_err());
}

fn line(number: usize, path: Option<&str>, url: Option<&str>) -> ProvisionLine {
    ProvisionLine {
        line: number,
        record: Ok(ProvisionRecord {
            citation_path: path.map(|text| text.to_string()),
            source_url: url.map(|text| text.to_string()),
        }),
    }
}

#[test]
fn later_provisions_win_and_inline_urls_stay() {
    let mut index = CorpusProvisionIndex::new();
    assert!(index.is_empty());
    index
        .add_jsonl_str(
            vec![
                line(1, Some("us/7/1"), Some("https://old")),
                line(2, Some("us/7/2"), None),
                line(3, Some("us/7/1"), Some("https://new")),
                line(4, None, Some("https://none")),
            ],
            "p.jsonl",
        )
        .unwrap();
    assert_eq!(index.len(), 1);
    assert_eq!(index.source_url("us/7/1"), Some("https://new"));
    assert_eq!(index.source_url("us/7/2"), None);

    let mut cited = scalar_rule("a", number(1));
    cited.corpus_citation_path = Some("us/7/1".to_string());
    let mut inline = scalar_rule("b", number(1));
    inline.corpus_citation_path = Some("us/7/1".to_string());
    inline.source_url = Some("https://inline".to_string());
    let mut artifact = CompiledProgramArtifact::compile(program_of(vec![cited, inline])).unwrap();
    assert_eq!(artifact.resolve_source_urls(&index), 1);
    assert_eq!(artifact.program.derived[0].source_url.as_deref(), Some("https://new"));
    assert_eq!(artifact.program.derived[1].source_url.as_deref(), Some("https://inline"));
    assert_eq!(artifact.resolve_source_urls(&index), 0);
}

#[test]
fn a_provision_that_is_no_record_is_reported_with_its_line() {
    let documents = vec![
        ProvisionDocument { path: "a.jsonl".to_string(), lines: vec![line(1, Some("x"), Some("u"))] },
        ProvisionDocument {
            path: "b.jsonl".to_string(),
            lines: vec![ProvisionLine { line: 7, record: Err("no object".to_string()) }],
        },
    ];
    let error = CorpusProvisionIndex::from_paths(documents).unwrap_err();
    assert_eq!(
        error.to_text(),
        "failed to parse corpus provision record at `b.jsonl` line 7: no object"
    );
}

#[test]
fn a_literal_depends_on_nothing() {
    let program = chain();
    let item = scalar_rule("x", ScalarExpr::Literal(ScalarValue::Bool(true)));
    assert!(derived_dependencies(&item, &program).is_empty());
}

#[test]
fn a_module_declares_its_format_or_its_schema() {
    assert!(is_rulespec(Some("rulespec/v1"), None));
    assert!(is_rulespec(None, Some("axiom.rules/v2")));
    assert!(is_rulespec(Some("other"), Some("axiom.rules")));
    assert!(!is_rulespec(Some("rulespec/v2"), Some("axiom.rule")));
    assert!(!is_rulespec(None, None));
}
