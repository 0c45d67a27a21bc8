use std::collections::BTreeMap;

use axiom_rules_engine::catalog::{catalog_offers, PublicReference};
use axiom_rules_engine::cli::{parse_migrate_args, MigrateCommand};
use axiom_rules_engine::date::Date;
use axiom_rules_engine::decimal::Decimal;
use axiom_rules_engine::error::EvalError;
use axiom_rules_engine::format::{
    describe_match_operands, format_judgment_expression, format_scalar_expression,
    format_scalar_value, format_value_label,
};
use axiom_rules_engine::model::{
    ComparisonOp, DType, Derived, DerivedSemantics, IndexedParameter, JudgmentExpr, Program,
    ScalarExpr, ScalarValue,
};

fn day(year: i32, month: u32, number: u32) -> Date {
    Date::from_ymd(year, month, number).expect("valid date")
}

fn dec(value: &str) -> Decimal {
    Decimal::from_text(value).expect("valid decimal")
}

fn number(value: i64) -> ScalarExpr {
    ScalarExpr::Literal(ScalarValue::Integer(value))
}

fn input(name: &str) -> ScalarExpr {
    ScalarExpr::Input(name.to_string())
}

fn rule_value(name: &str) -> ScalarExpr {
    ScalarExpr::Derived(name.to_string())
}

fn rule(name: &str, entity: &str, dtype: DType, semantics: DerivedSemantics) -> Derived {
    Derived {
        id: None,
        name: name.to_string(),
        entity: entity.to_string(),
        dtype,
        unit: None,
        rounding: None,
        source: None,
        source_url: None,
        corpus_citation_path: None,
        semantics,
        versions: vec![],
    }
}

fn scalar_rule(name: &str, expr: ScalarExpr) -> Derived {
    rule(name, "Household", DType::Decimal, DerivedSemantics::Scalar(expr))
}

fn program_of(rules: Vec<Derived>) -> Program {
    let mut program = Program::new();
    for item in rules {
        program.add_derived(item).expect("new name");
    }
    program
}

fn program() -> Program {
    let mut net = scalar_rule("net", ScalarExpr::Add(vec![input("income"), rule_value("other")]));
    net.id = Some("us:benefit#net".to_string());
    let mut program = program_of(vec![net, scalar_rule("other", number(1))]);
    program
        .add_parameter(IndexedParameter {
            id: Some("us:benefit#limit".to_string()),
            name: "limit".to_string(),
            unit: None,
            indexed_by: None,
            source: None,
            source_url: None,
            corpus_citation_path: None,
            versions: vec![],
        })
        .unwrap();
    program.add_relation("member", 2).unwrap();
    assert!(BTreeMap::<i64, ScalarValue>::new().is_empty());
    program
}

#[test]
fn rules_with_ids_answer_to_their_ids() {
    let program = program();
    assert_eq!(program.resolve_derived_name("us:benefit#net").as_deref(), Some("net"));
    assert_eq!(program.resolve_derived_name("net"), None);
    assert_eq!(program.resolve_derived_name("other").as_deref(), Some("other"));
    assert_eq!(program.resolve_parameter_name("us:benefit#limit").as_deref(), Some("limit"));
    assert_eq!(program.resolve_parameter_name("nothing"), None);
    assert_eq!(program.public_derived_key("net"), "us:benefit#net");
    assert_eq!(program.public_derived_key("other"), "other");
}

#[test]
fn public_references_name_a_target_and_a_fragment() {
    let parsed = PublicReference::parse("us:benefit#input.income", true).unwrap();
    assert_eq!(parsed.fragment, "input.income");
    assert!(PublicReference::parse("us:benefit#input.income", false).is_none());
    assert!(PublicReference::parse("income", true).is_none());
}

#[test]
fn inputs_are_offered_under_the_ids_of_the_rules_that_read_them() {
    let program = program();
    let catalog = program.input_catalog();
    assert!(catalog.iter().any(|entry| entry.slot == "income"));
    assert!(catalog_offers(&catalog, "income", "us:benefit#input.income"));
    assert_eq!(
        program.resolve_input_name("us:benefit#input.income", true).as_deref(),
        Some("income")
    );
    assert_eq!(program.resolve_input_name("us:other#input.rent", true), None);
}

#[test]
fn values_are_written_as_literals() {
    assert_eq!(format_scalar_value(&ScalarValue::Text("a \"b\"".to_string())), "\"a \\\"b\\\"\"");
    assert_eq!(format_scalar_value(&ScalarValue::Integer(-3)), "-3");
    assert_eq!(format_scalar_value(&ScalarValue::Decimal(dec("1.50"))), "1.50");
    assert_eq!(format_scalar_value(&ScalarValue::Bool(true)), "true");
    assert!(format_scalar_value(&ScalarValue::Date(day(2026, 1, 2))).contains("2026-01-02"));
    assert!(format_value_label(&ScalarValue::Text("CO".to_string())).contains("CO"));
    assert!(describe_match_operands(&vec![number(1), number(2)]).contains('1'));
}

#[test]
fn formulas_are_written_with_public_names() {
    let program = program();
    let text = format_scalar_expression(
        &program,
        &ScalarExpr::Add(vec![rule_value("net"), input("income"), number(2)]),
    );
    assert!(text.contains("us:benefit#net"), "{text}");
    assert!(text.contains("income"), "{text}");
    assert!(text.contains('+'), "{text}");
    let text = format_judgment_expression(
        &program,
        &JudgmentExpr::Comparison { left: number(1), op: ComparisonOp::Lte, right: number(2) },
    );
    assert!(text.contains("<="), "{text}");
}

#[test]
fn errors_are_written_out() {
    let missing = EvalError::MissingInput {
        name: "income".to_string(),
        entity_id: "h1".to_string(),
        period_start: day(2026, 1, 1),
        period_end: day(2026, 1, 31),
    };
    assert_eq!(
        missing.to_text(),
        "missing input `income` for entity `h1` over 2026-01-01..2026-01-31"
    );
    assert_eq!(
        EvalError::MissingParameterValue { parameter: "table".to_string(), key: -2, at: day(2026, 1, 1) }.to_text(),
        "parameter `table` has no value for key `-2` at 2026-01-01"
    );
    assert_eq!(EvalError::DivisionByZero.to_text(), "division by zero");
    assert_eq!(EvalError::DivisionByZero.duplicate().to_text(), "division by zero");
    assert_eq!(
        EvalError::LifetimePeriodBatchMismatch { periods: 3, batches: 2 }.to_text(),
        "lifetime execution requires one input batch per period: got 3 periods and 2 batches"
    );
}

fn args(items: &[&str]) -> Vec<String> {
    items.iter().map(|item| item.to_string()).collect()
}

#[test]
fn migrate_arguments_are_read() {
    assert!(matches!(
        parse_migrate_args(&args(&["scan", "a", "--json", "b"])),
        Ok(MigrateCommand::Scan { json: true, roots }) if roots == vec!["a", "b"]
    ));
    assert!(matches!(
        parse_migrate_args(&args(&["apply", "--write", "a"])),
        Ok(MigrateCommand::Apply { json: false, write: true, roots }) if roots == vec!["a"]
    ));
    match parse_migrate_args(&args(&[
        "artifact",
        "--artifact",
        "a.json",
        "--relation-entities",
        "member=Household, Person",
        "--json",
    ])) {
        Ok(MigrateCommand::Artifact { artifact, output, overrides, json }) => {
            assert_eq!(artifact, "a.json");
            assert_eq!(output, None);
            assert!(json);
            assert_eq!(overrides.len(), 1);
            assert_eq!(overrides[0].relation, "member");
            assert_eq!(overrides[0].kinds, vec!["Household", "Person"]);
        }
        other => panic!("unexpected {other:?}"),
    }
}

#[test]
fn migrate_arguments_are_refused() {
    let refused = |items: &[&str]| parse_migrate_args(&args(items)).err().unwrap_or_default();
    assert_eq!(refused(&["scan", "--json"]), "usage: migrate scan [--json] <file-or-dir>...");
    assert_eq!(refused(&["apply"]), "usage: migrate apply [--json] [--write] <file-or-dir>...");
    assert_eq!(refused(&["merge"]), "unknown migrate subcommand `merge`");
    assert!(refused(&[]).starts_with("usage: migrate scan [--json] <file-or-dir>... | migrate apply"));
    assert!(refused(&["artifact"]).starts_with("usage: migrate artifact"));
    assert_eq!(
        refused(&["artifact", "--relation-entities", "member"]),
        "--relation-entities expects <relation>=<Kind>,<Kind>, got `member`"
    );
    assert_eq!(
        refused(&["artifact", "--relation-entities", "m=A", "--relation-entities", "m=B"]),
        "--relation-entities repeats relation `m`"
    );
    assert!(refused(&["artifact", "a.json"]).starts_with("unknown migrate artifact argument `a.json`\n\nusage: "));
}

#[test]
fn texts_are_shown_as_json_literals() {
    let shown = |text: &str| format_scalar_value(&ScalarValue::Text(text.to_string()));
    assert_eq!(shown(""), "\"\"");
    assert_eq!(shown("a\\b/c"), "\"a\\\\b/c\"");
    assert_eq!(shown("\n\r\t"), "\"\\n\\r\\t\"");
    assert_eq!(shown("\u{8}\u{c}"), "\"\\b\\f\"");
    assert_eq!(shown("\u{1}\u{1f}\u{7f}\u{e9}"), "\"\\u0001\\u001f\u{7f}\u{e9}\"");
}
