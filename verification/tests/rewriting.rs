use axiom_rules_engine::equivalence::{check_probe, gate_rewrite, GateReport, ProbeFailure};
use axiom_rules_engine::exactly_one::{
    expanded_exactly_one, judgments_alike, pairwise_exclusions, plan_rewrites, scan_source,
    ExactlyOneIdiom, RewritePlan,
};
use axiom_rules_engine::model::{
    ComparisonOp, DType, Derived, DerivedSemantics, DerivedVersion, JudgmentExpr, Program,
    ScalarExpr, ScalarValue,
};
use axiom_rules_engine::date::Date;
use axiom_rules_engine::module_text::{
    extract_version_formula, has_clean_formula, probe_module, replace_version_formula,
};
use axiom_rules_engine::rewriting::{apply_plan, formula_to_replace, next_plan};
use axiom_rules_engine::termination::check_references_end;

fn day(year: i32, month: u32, number: u32) -> Date {
    Date::from_ymd(year, month, number).expect("valid date")
}

fn input(name: &str) -> ScalarExpr {
    ScalarExpr::Input(name.to_string())
}

fn rule(name: &str, entity: &str, dtype: DType, semantics: DerivedSemantics) -> Derived {
    Derived {
        id: None,
        name: name.to_string(),
        entity: entity.to_string(),
        dtype,
        unit: None,
        rounding: None,
        source: None,
        source_url: None,
        corpus_citation_path: None,
        semantics,
        versions: vec![],
    }
}

fn program_of(rules: Vec<Derived>) -> Program {
    let mut program = Program::new();
    for item in rules {
        program.add_derived(item).expect("new name");
    }
    program
}

fn fact(name: &str) -> JudgmentExpr {
    JudgmentExpr::Comparison {
        left: input(name),
        op: ComparisonOp::Eq,
        right: ScalarExpr::Literal(ScalarValue::Bool(true)),
    }
}

fn not(item: JudgmentExpr) -> JudgmentExpr {
    JudgmentExpr::Not(Box::new(item))
}

/// Each of the facts alone.
fn or_of_ands() -> JudgmentExpr {
    JudgmentExpr::Or(vec![
        JudgmentExpr::And(vec![fact("a"), not(fact("b"))]),
        JudgmentExpr::And(vec![not(fact("a")), fact("b")]),
    ])
}

/// One of the facts, and no two.
fn pairwise() -> JudgmentExpr {
    JudgmentExpr::And(vec![
        JudgmentExpr::Or(vec![fact("a"), fact("b")]),
        not(JudgmentExpr::And(vec![fact("a"), fact("b")])),
    ])
}

fn probe(expr: JudgmentExpr) -> Result<Program, ProbeFailure> {
    let program = program_of(vec![rule(
        "migration_probe",
        "Household",
        DType::Judgment,
        DerivedSemantics::Judgment(expr),
    )]);
    assert!(check_references_end(&program) && check_probe(&program));
    Ok(program)
}

fn versioned(expr: JudgmentExpr) -> Program {
    let mut item = rule("one", "Household", DType::Judgment, DerivedSemantics::Judgment(JudgmentExpr::And(vec![])));
    item.versions = vec![DerivedVersion {
        effective_from: day(2026, 1, 1),
        effective_to: None,
        semantics: DerivedSemantics::Judgment(expr),
    }];
    program_of(vec![item])
}

fn facts(names: &[&str]) -> Vec<String> {
    names.iter().map(|name| name.to_string()).collect()
}

#[test]
fn both_spellings_of_exactly_one_are_found() {
    let expr = or_of_ands();
    let bases = expanded_exactly_one(&expr).unwrap();
    assert_eq!(bases.len(), 2);
    assert!(judgments_alike(bases[0], &fact("a")) && judgments_alike(bases[1], &fact("b")));
    assert!(pairwise_exclusions(&expr).is_none());
    let expr = pairwise();
    assert_eq!(pairwise_exclusions(&expr).map(|bases| bases.len()), Some(2));
    assert!(expanded_exactly_one(&expr).is_none());
    assert!(expanded_exactly_one(&fact("a")).is_none());
    let found = scan_source(&versioned(or_of_ands()));
    assert!(found.iter().any(|site| site.rule == "one"
        && site.site == "versions[0].expr"
        && site.arity == 2
        && site.idiom == ExactlyOneIdiom::OrOfAnds));
    assert_eq!(ExactlyOneIdiom::OrOfAnds.as_str(), "or_of_ands");
    assert_eq!(ExactlyOneIdiom::PairwiseExclusions.as_str(), "pairwise_exclusions");
}

#[test]
fn plans_name_the_facts_in_order() {
    let (plans, manual) = plan_rewrites(&versioned(pairwise()));
    assert!(manual.is_empty());
    assert_eq!(plans.len(), 1);
    assert_eq!(plans[0].version, Some(0));
    assert_eq!(plans[0].site, "versions[0].expr");
    assert_eq!(plans[0].bases, vec!["a", "b"]);
    assert_eq!(plans[0].replacement, "exactly_one(a, b)");
    let old_enough = || JudgmentExpr::Comparison {
        left: input("age"),
        op: ComparisonOp::Gt,
        right: ScalarExpr::Literal(ScalarValue::Integer(17)),
    };
    let rich = JudgmentExpr::Or(vec![
        JudgmentExpr::And(vec![old_enough(), not(fact("b"))]),
        JudgmentExpr::And(vec![not(old_enough()), fact("b")]),
    ]);
    let (plans, manual) = plan_rewrites(&versioned(rich));
    assert!(plans.is_empty());
    assert_eq!(manual.len(), 1);
    assert_eq!(manual[0].reason, "a base judgment is not a bare fact reference");
}

#[test]
fn a_rewrite_passes_where_the_formulas_agree_on_every_assignment() {
    let agreed = gate_rewrite(&probe(or_of_ands()), &probe(pairwise()), &facts(&["a", "b"]));
    assert_eq!(
        agreed,
        Ok(GateReport { assignments: 4, outcomes_match: true, rescan_clean: false })
    );
    let other = JudgmentExpr::Or(vec![fact("a"), fact("b")]);
    assert_eq!(
        gate_rewrite(&probe(or_of_ands()), &probe(other), &facts(&["a", "b"])),
        Ok(GateReport { assignments: 4, outcomes_match: false, rescan_clean: false })
    );
    assert_eq!(
        gate_rewrite(&probe(fact("a")), &probe(not(not(fact("a")))), &facts(&["a"])),
        Ok(GateReport { assignments: 2, outcomes_match: true, rescan_clean: true })
    );
}

#[test]
fn a_rewrite_that_cannot_be_tried_does_not_pass() {
    let many: Vec<String> = (0..13).map(|number| format!("f{number}")).collect();
    assert_eq!(
        gate_rewrite(&probe(fact("a")), &probe(fact("a")), &many),
        Err("gate refuses arity 13 (>4096 assignments)".to_string())
    );
    assert_eq!(
        gate_rewrite(&probe(fact("z")), &probe(fact("z")), &facts(&["a"])),
        Err("both probes fail identically: probe execution failed: missing input `z` for entity `probe-1` over 2026-01-01..2026-01-31".to_string())
    );
    let unread = Err(ProbeFailure::Lowering("no formula".to_string()));
    assert_eq!(
        gate_rewrite(&probe(fact("a")), &unread, &facts(&["a"])),
        Ok(GateReport { assignments: 2, outcomes_match: false, rescan_clean: false })
    );
    let refused = || Err(ProbeFailure::Refused("unknown input".to_string()));
    assert_eq!(
        gate_rewrite(&refused(), &refused(), &facts(&["a"])),
        Err("both probes fail identically: probe execution failed: unknown input".to_string())
    );
}

const MODULE: &str = "format: rulespec/v1\r\nrules:\n  - name: other\n    versions:\n      - effective_from: 2025-01-01\n        formula: a\n  - name: one\n    kind: derived\n    versions:\n      - effective_from: 2025-01-01\n        formula: \"b\"\n      - effective_from: 2026-01-01\n        formula: |-\n          a and\n            not b\n    note: kept\n";

#[test]
fn formulas_are_found_in_a_module() {
    assert!(has_clean_formula(MODULE, "one", 1));
    assert_eq!(extract_version_formula(MODULE, "one", 0).as_deref(), Some("b"));
    assert_eq!(
        extract_version_formula(MODULE, "one", 1).as_deref(),
        Some("a and\n  not b")
    );
    assert_eq!(extract_version_formula(MODULE, "one", 2), None);
    assert_eq!(extract_version_formula(MODULE, "none", 0), None);
}

#[test]
fn a_replaced_formula_leaves_the_rest_alone() {
    let text = replace_version_formula(MODULE, "one", 1, "exactly_one(a, b)").unwrap();
    assert_eq!(extract_version_formula(&text, "one", 1).as_deref(), Some("exactly_one(a, b)"));
    assert!(text.starts_with("format: rulespec/v1\r\nrules:\n"));
    assert!(text.ends_with("    note: kept\n"));
    assert_eq!(extract_version_formula(&text, "one", 0).as_deref(), Some("b"));
    assert_eq!(replace_version_formula(MODULE, "none", 0, "x"), None);
}

#[test]
fn a_probe_holds_the_formula() {
    assert_eq!(
        probe_module("a and\nb"),
        "format: rulespec/v1\nrules:\n  - name: migration_probe\n    kind: derived\n    entity: Household\n    dtype: Judgment\n    versions:\n      - effective_from: 2026-01-01\n        formula: |-\n          a and\n          b\n"
    );
}

fn plan(rule: &str) -> RewritePlan {
    RewritePlan {
        rule: rule.to_string(),
        version: Some(0),
        site: "versions[0].expr".to_string(),
        arity: 2,
        idiom: ExactlyOneIdiom::OrOfAnds,
        bases: facts(&["a", "b"]),
        replacement: "exactly_one(a, b)".to_string(),
    }
}

#[test]
fn plans_are_applied_once_their_trial_passed() {
    assert_eq!(formula_to_replace(MODULE, "m.yaml", &plan("one")), Ok("b".to_string()));
    assert_eq!(
        formula_to_replace(MODULE, "m.yaml", &plan("none")),
        Err("m.yaml: cannot locate formula for `none`".to_string())
    );
    let report = |outcomes_match: bool, rescan_clean: bool| {
        Ok(GateReport { assignments: 4, outcomes_match, rescan_clean })
    };
    let applied = apply_plan(MODULE, "m.yaml", &plan("one"), &report(true, true)).unwrap();
    assert_eq!(extract_version_formula(&applied, "one", 0).as_deref(), Some("exactly_one(a, b)"));
    assert_eq!(
        apply_plan(MODULE, "m.yaml", &plan("one"), &report(true, false)),
        Err("m.yaml: gate REFUSED `one` (4 assignments, outcomes_match=true, rescan_clean=false)".to_string())
    );
    assert_eq!(
        apply_plan(MODULE, "m.yaml", &plan("one"), &Err("no".to_string())),
        Err("m.yaml: gate failed for `one`: no".to_string())
    );
    assert_eq!(
        apply_plan(MODULE, "m.yaml", &plan("none"), &report(true, true)),
        Err("m.yaml: text surgery failed for `none`".to_string())
    );
}

#[test]
fn every_place_is_planned_and_whole_formulas_come_first() {
    let nested = JudgmentExpr::And(vec![fact("c"), or_of_ands()]);
    let program = program_of(vec![
        rule("plain", "Household", DType::Judgment, DerivedSemantics::Judgment(or_of_ands())),
        rule("nested", "Household", DType::Judgment, DerivedSemantics::Judgment(nested)),
    ]);
    let (plans, manual) = plan_rewrites(&program);
    assert!(manual.is_empty());
    assert_eq!(plans.len(), scan_source(&program).len());
    assert_eq!(plans.len(), 2);
    assert!(plans.iter().all(|plan| plan.replacement == "exactly_one(a, b)"));
    assert!(plans.iter().any(|plan| plan.rule == "nested" && plan.version.is_none()));
    let both = vec![RewritePlan { version: None, ..plan("part") }, plan("whole")];
    assert_eq!(next_plan(&both), Some(1));
    assert_eq!(next_plan(&vec![RewritePlan { version: None, ..plan("part") }]), None);
    assert_eq!(next_plan(&vec![]), None);
}

#[test]
fn a_rule_that_is_named_twice_is_not_rewritten() {
    let source = "- name: r\n  - effective_from: d\n    formula: a\n- name: r\n  - effective_from: d\n    formula: b\n";
    assert_eq!(replace_version_formula(source, "r", 0, "z"), None);
    assert_eq!(extract_version_formula(source, "r", 0).as_deref(), Some("a"));
    let plan = plan("r");
    assert_eq!(formula_to_replace(source, "m", &plan), Ok("a".to_string()));
    let report = GateReport { assignments: 4, outcomes_match: true, rescan_clean: true };
    assert_eq!(
        apply_plan(source, "m", &plan, &Ok(report)),
        Err("m: text surgery failed for `r`".to_string())
    );
}

#[test]
fn a_replaced_formula_reads_back_as_it_was_given() {
    for formula in ["exactly_one(a, b)", "x", "a and not b"] {
        for version in [0, 1] {
            let text = replace_version_formula(MODULE, "one", version, formula).unwrap();
            assert_eq!(extract_version_formula(&text, "one", version).as_deref(), Some(formula));
        }
    }
}
