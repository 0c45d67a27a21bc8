use std::collections::BTreeSet;

use axiom_rules_engine::cli::{
    parse_compile_args, parse_relation_entities, parse_run_compiled_args,
    recognize_top_level_command, top_level_commands, top_usage, version_line, CompileCommand,
    COMPILE_USAGE,
};

fn args(items: &[&str]) -> Vec<String> {
    items.iter().map(|item| item.to_string()).collect()
}

#[test]
fn version_line_uses_package_version() {
    assert_eq!(version_line(), "axiom-rules-engine 0.2.2");
}

/// Registration is the sole command-name inventory: recognition and rendered help
/// must agree for every entry and alias.
#[test]
fn top_level_command_metadata_drives_recognition_and_help() {
    let usage = top_usage();
    let mut names = BTreeSet::new();
    for metadata in top_level_commands() {
        assert!(
            names.insert(metadata.name),
            "duplicate top-level command name `{}`",
            metadata.name
        );
        assert_eq!(
            recognize_top_level_command(metadata.name),
            Some(metadata.command)
        );
        assert!(
            usage.lines().any(|line| {
                line.trim_start().split_whitespace().next() == Some(metadata.name)
            }),
            "top-level usage does not list `{}`",
            metadata.name
        );
        for alias in metadata.aliases {
            assert!(names.insert(alias), "duplicate top-level alias `{alias}`");
            assert_eq!(recognize_top_level_command(alias), Some(metadata.command));
        }
    }
}

#[test]
fn unit_aggregation_registration_matches_the_feature_gate() {
    let usage = top_usage();
    assert_eq!(
        recognize_top_level_command("compile-unit-aggregation"),
        None
    );
    assert_eq!(recognize_top_level_command("run-unit-aggregation"), None);
    assert!(!usage.contains("compile-unit-aggregation"));
    assert!(!usage.contains("run-unit-aggregation"));
}

/// The two usage strings serve different levels; the top-level one must not simply be
/// the compile-specific text.
#[test]
fn top_usage_is_distinct_from_compile_usage() {
    let usage = top_usage();
    assert_ne!(usage, COMPILE_USAGE);
    assert!(usage.starts_with("axiom-rules-engine — RuleSpec compiler and runtime"));
}

#[test]
fn usage_lists_a_command_with_its_description_behind_the_column() {
    let usage = top_usage();
    assert!(usage.contains(
        "  compile           Compile an atomic RuleSpec module inside a canonical country\n"
    ));
    assert!(usage.contains("                    checkout into a program artifact.\n"));
    assert!(usage.contains("  version           Print the engine version.\n"));
    assert_eq!(recognize_top_level_command("Compile"), None);
    assert_eq!(recognize_top_level_command(""), None);
}

#[test]
fn compile_arguments_are_collected_in_order() {
    let parsed = parse_compile_args(&args(&[
        "--program",
        "/a/rules.yaml",
        "--rulespec-root",
        "/a",
        "--rulespec-root",
        "/b",
        "--output",
        "out.json",
        "--corpus-provisions",
        "p.jsonl",
    ]));
    match parsed {
        Ok(CompileCommand::Compile {
            program,
            output,
            rulespec_roots,
            corpus_provisions,
        }) => {
            assert_eq!(program, "/a/rules.yaml");
            assert_eq!(output, "out.json");
            assert_eq!(rulespec_roots, vec!["/a", "/b"]);
            assert_eq!(corpus_provisions, vec!["p.jsonl"]);
        }
        other => panic!("unexpected {other:?}"),
    }
    assert!(matches!(
        parse_compile_args(&args(&["--program", "p", "-h", "--nonsense"])),
        Ok(CompileCommand::Help)
    ));
}

#[test]
fn compile_arguments_that_are_missing_or_unknown_are_refused() {
    let refused = |items: &[&str]| parse_compile_args(&args(items)).err();
    assert_eq!(
        refused(&[]),
        Some("missing required `--program /path/to/rules` argument".to_string())
    );
    assert_eq!(
        refused(&["--program", "p"]),
        Some("missing required `--output /path/to/compiled.json` argument".to_string())
    );
    assert_eq!(
        refused(&["--rulespec-root"]),
        Some("`--rulespec-root` requires a path argument".to_string())
    );
    assert_eq!(
        refused(&["--corpus-provisions"]),
        Some("`--corpus-provisions` requires a path argument".to_string())
    );
    assert_eq!(
        refused(&["--verbose"]),
        Some(format!("unknown compile argument `--verbose`\n{COMPILE_USAGE}"))
    );
    assert_eq!(
        refused(&["--output", "o", "--program"]),
        Some("missing required `--program /path/to/rules` argument".to_string())
    );
}

#[test]
fn run_compiled_takes_one_artifact() {
    assert_eq!(
        parse_run_compiled_args(&args(&["--artifact", "a.json", "--artifact", "b.json"])),
        Ok("b.json".to_string())
    );
    assert_eq!(
        parse_run_compiled_args(&args(&["--artifact"])),
        Err("missing required `--artifact /path/to/compiled.json` argument".to_string())
    );
    assert_eq!(
        parse_run_compiled_args(&args(&["a.json"])),
        Err("unknown run-compiled argument `a.json`".to_string())
    );
}

#[test]
fn relation_entities_need_a_relation_and_kinds() {
    assert_eq!(
        parse_relation_entities("member=Person,Household").ok(),
        Some((
            "member".to_string(),
            vec!["Person".to_string(), "Household".to_string()]
        ))
    );
    assert!(parse_relation_entities("member").is_err());
    assert!(parse_relation_entities("=Person").is_err());
    assert!(parse_relation_entities("member=Person,").is_err());
}
