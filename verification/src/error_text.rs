//! The messages of errors.
use crate::api::ApiError;
use crate::compile::{CompileError, CompileErrorView, RuleSpecError};
use crate::compiler::DenseCompileError;
use crate::error::{ErrorView, EvalError};
use crate::format::{debug_text, quoted};
use crate::lifetime_api::{LifetimeApiError, MAX_STRING_BYTES};
use crate::lines::{chars_of, join, joined_by, text_between};
use crate::migrate::{ArtifactRelationMigrationError, MigrationErrorView};
use crate::model::NamespaceCollisionError;
use crate::pins::{PinError, PinErrorView};
use crate::relation_typing::{report_text, violation_views, RelationTypingViolation, ViolationView};
use crate::text::{i64_text, int_text, owned, texts, u64_text, usize_text};
use vstd::prelude::*;
use vstd::string::*;

verus! {

/// The message of an evaluation error.
pub open spec fn error_text(error: ErrorView) -> Seq<char> {
    match error {
        ErrorView::UnknownDerived(name) => "unknown derived output: "@ + name,
        ErrorView::UnknownParameter(name) => "unknown parameter: "@ + name,
        ErrorView::UnknownRelation(name) => "unknown relation: "@ + name,
        ErrorView::MissingInput { name, entity_id, period_start, period_end } => "missing input `"@ + name + "` for entity `"@ + entity_id + "` over "@ + period_start.text() + ".."@ + period_end.text(),
        ErrorView::AmbiguousInput { name, entity_id, effective_from } => "ambiguous input `"@ + name + "` for entity `"@ + entity_id + "`: records effective from "@ + effective_from.text() + " have conflicting values; merge or split the spells so one value applies at each start date"@,
        ErrorView::UnknownUnit(name) => "unit `"@ + name + "` was not declared"@,
        ErrorView::TypeMismatch(message) => "type mismatch: "@ + message,
        ErrorView::MissingParameterValue { parameter, key, at } => "parameter `"@ + parameter + "` has no value for key `"@ + int_text(key as int) + "` at "@ + at.text(),
        ErrorView::MissingDerivedFormulaVersion { derived, at } => "derived `"@ + derived + "` has no formula version at "@ + at.text(),
        ErrorView::ExpectedJudgment(name) => "derived `"@ + name + "` is scalar, but a judgment was requested"@,
        ErrorView::ExpectedScalar(name) => "derived `"@ + name + "` is judgment, but a scalar was requested"@,
        ErrorView::DivisionByZero => "division by zero"@,
        ErrorView::ArithmeticOverflow => "arithmetic overflow"@,
        ErrorView::NoMatchingArm { rule, subject, value, patterns } => "no arm of the match in `"@ + rule + "` applies: "@ + subject + " is "@ + value + ", and the arms are "@ + patterns,
        ErrorView::OverPeriodsOutsideLifetime(name) => "over-periods reduction `"@ + name + "` is valid only under lifetime execution (execute_lifetime); it has no meaning in per-period execution"@,
        ErrorView::LifetimePeriodBatchMismatch { periods, batches } => "lifetime execution requires one input batch per period: got "@ + int_text(periods as int) + " periods and "@ + int_text(batches as int) + " batches"@,
        ErrorView::LifetimeNoPeriods => "lifetime execution requires at least one period"@,
        ErrorView::LifetimeRowCountMismatch { period, row_count, expected } => "lifetime execution requires every period's batch to have the same entity row count (positional alignment): period "@ + int_text(period as int) + " has "@ + int_text(row_count as int) + " rows but period 0 has "@ + int_text(expected as int),
        ErrorView::LifetimeOutputWithoutReduction(name) => "lifetime execution only supports outputs whose formula contains an over-periods reduction; `"@ + name + "` does not — use the per-period execute / execute_f64 entry points instead"@,
        ErrorView::LifetimeAmbiguousLeaf(name) => "lifetime execution cannot evaluate `"@ + name + "` outside an over-periods reduction because it is period-specific; wrap it in a reduction (e.g. sum_over_periods) so its period is defined"@,
        ErrorView::LifetimePeriodVaryingInput { input, first_period, first_value, second_period, second_value } => "lifetime execution cannot evaluate input `"@ + input + "` outside an over-periods reduction: its value is not period-invariant for at least one entity — "@ + first_period + " it is "@ + first_value + " but "@ + second_period + " it is "@ + second_value + "; wrap it in a reduction (e.g. sum_over_periods) so its period is defined, or supply the same value for every period"@,
        ErrorView::LifetimePeriodsNotAscending { earlier_index, earlier, later_index, later } => "lifetime execution requires supplied periods in strictly ascending order by start date, but period "@ + int_text(earlier_index as int) + " ("@ + earlier + ") does not start before period "@ + int_text(later_index as int) + " ("@ + later + ")"@,
        ErrorView::OverPeriodsTopNOutOfRange { reduction, n, period_count } => reduction + " requires an integer n with 1 <= n <= the "@ + int_text(period_count as int) + " supplied periods, but n resolved to "@ + n + " for at least one entity; a top-N sum over more periods than exist only pads with zeros (a no-op), so this masks a data error — supply an n within range or pad the period history explicitly"@,
        ErrorView::OverPeriodsTopNPeriodVarying { reduction, first_period, first_value, second_period, second_value } => reduction + "'s n is not period-invariant for at least one entity — "@ + first_period + " it is "@ + first_value + " but "@ + second_period + " it is "@ + second_value + "; n must resolve to the same value in every supplied period (parameter- and input-sourced n are held to the same contract)"@,
    }
}

impl EvalError {
    /// The message of the error.
    pub fn to_text(&self) -> (r: String)
        ensures
            r@ == error_text(self@),
    {
        let mut text = String::new();
        match self {
            EvalError::UnknownDerived(name) => {
                text = owned("unknown derived output: ");
                text.append(name.as_str());
            },
            EvalError::UnknownParameter(name) => {
                text = owned("unknown parameter: ");
                text.append(name.as_str());
            },
            EvalError::UnknownRelation(name) => {
                text = owned("unknown relation: ");
                text.append(name.as_str());
            },
            EvalError::MissingInput { name, entity_id, period_start, period_end } => {
                text = owned("missing input `");
                text.append(name.as_str());
                text.append("` for entity `");
                text.append(entity_id.as_str());
                text.append("` over ");
                text.append(period_start.to_text().as_str());
                text.append("..");
                text.append(period_end.to_text().as_str());
            },
            EvalError::AmbiguousInput { name, entity_id, effective_from } => {
                text = owned("ambiguous input `");
                text.append(name.as_str());
                text.append("` for entity `");
                text.append(entity_id.as_str());
                text.append("`: records effective from ");
                text.append(effective_from.to_text().as_str());
                text.append(" have conflicting values; merge or split the spells so one value applies at each start date");
            },
            EvalError::UnknownUnit(name) => {
                text = owned("unit `");
                text.append(name.as_str());
                text.append("` was not declared");
            },
            EvalError::TypeMismatch(message) => {
                text = owned("type mismatch: ");
                text.append(message.as_str());
            },
            EvalError::MissingParameterValue { parameter, key, at } => {
                text = owned("parameter `");
                text.append(parameter.as_str());
                text.append("` has no value for key `");
                text.append(i64_text(*key).as_str());
                text.append("` at ");
                text.append(at.to_text().as_str());
            },
            EvalError::MissingDerivedFormulaVersion { derived, at } => {
                text = owned("derived `");
                text.append(derived.as_str());
                text.append("` has no formula version at ");
                text.append(at.to_text().as_str());
            },
            EvalError::ExpectedJudgment(name) => {
                text = owned("derived `");
                text.append(name.as_str());
                text.append("` is scalar, but a judgment was requested");
            },
            EvalError::ExpectedScalar(name) => {
                text = owned("derived `");
                text.append(name.as_str());
                text.append("` is judgment, but a scalar was requested");
            },
            EvalError::DivisionByZero => {
                text = owned("division by zero");
            },
            EvalError::ArithmeticOverflow => {
                text = owned("arithmetic overflow");
            },
            EvalError::NoMatchingArm { rule, subject, value, patterns } => {
                text = owned("no arm of the match in `");
                text.append(rule.as_str());
                text.append("` applies: ");
                text.append(subject.as_str());
                text.append(" is ");
                text.append(value.as_str());
                text.append(", and the arms are ");
                text.append(patterns.as_str());
            },
            EvalError::OverPeriodsOutsideLifetime(name) => {
                text = owned("over-periods reduction `");
                text.append(name);
                text.append("` is valid only under lifetime execution (execute_lifetime); it has no meaning in per-period execution");
            },
            EvalError::LifetimePeriodBatchMismatch { periods, batches } => {
                text = owned("lifetime execution requires one input batch per period: got ");
                text.append(usize_text(*periods).as_str());
                text.append(" periods and ");
                text.append(usize_text(*batches).as_str());
                text.append(" batches");
            },
            EvalError::LifetimeNoPeriods => {
                text = owned("lifetime execution requires at least one period");
            },
            EvalError::LifetimeRowCountMismatch { period, row_count, expected } => {
                text = owned("lifetime execution requires every period's batch to have the same entity row count (positional alignment): period ");
                text.append(usize_text(*period).as_str());
                text.append(" has ");
                text.append(usize_text(*row_count).as_str());
                text.append(" rows but period 0 has ");
                text.append(usize_text(*expected).as_str());
            },
            EvalError::LifetimeOutputWithoutReduction(name) => {
                text = owned("lifetime execution only supports outputs whose formula contains an over-periods reduction; `");
                text.append(name.as_str());
                text.append("` does not — use the per-period execute / execute_f64 entry points instead");
            },
            EvalError::LifetimeAmbiguousLeaf(name) => {
                text = owned("lifetime execution cannot evaluate `");
                text.append(name.as_str());
                text.append("` outside an over-periods reduction because it is period-specific; wrap it in a reduction (e.g. sum_over_periods) so its period is defined");
            },
            EvalError::LifetimePeriodVaryingInput { input, first_period, first_value, second_period, second_value } => {
                text = owned("lifetime execution cannot evaluate input `");
                text.append(input.as_str());
                text.append("` outside an over-periods reduction: its value is not period-invariant for at least one entity — ");
                text.append(first_period.as_str());
                text.append(" it is ");
                text.append(first_value.as_str());
                text.append(" but ");
                text.append(second_period.as_str());
                text.append(" it is ");
                text.append(second_value.as_str());
                text.append("; wrap it in a reduction (e.g. sum_over_periods) so its period is defined, or supply the same value for every period");
            },
            EvalError::LifetimePeriodsNotAscending { earlier_index, earlier, later_index, later } => {
                text = owned("lifetime execution requires supplied periods in strictly ascending order by start date, but period ");
                text.append(usize_text(*earlier_index).as_str());
                text.append(" (");
                text.append(earlier.as_str());
                text.append(") does not start before period ");
                text.append(usize_text(*later_index).as_str());
                text.append(" (");
                text.append(later.as_str());
                text.append(")");
            },
            EvalError::OverPeriodsTopNOutOfRange { reduction, n, period_count } => {
                text = owned(reduction);
                text.append(" requires an integer n with 1 <= n <= the ");
                text.append(usize_text(*period_count).as_str());
                text.append(" supplied periods, but n resolved to ");
                text.append(n.as_str());
                text.append(" for at least one entity; a top-N sum over more periods than exist only pads with zeros (a no-op), so this masks a data error — supply an n within range or pad the period history explicitly");
            },
            EvalError::OverPeriodsTopNPeriodVarying { reduction, first_period, first_value, second_period, second_value } => {
                text = owned(reduction);
                text.append("'s n is not period-invariant for at least one entity — ");
                text.append(first_period.as_str());
                text.append(" it is ");
                text.append(first_value.as_str());
                text.append(" but ");
                text.append(second_period.as_str());
                text.append(" it is ");
                text.append(second_value.as_str());
                text.append("; n must resolve to the same value in every supplied period (parameter- and input-sourced n are held to the same contract)");
            },
        }
        text
    }
}

/// The message of a dense compilation error.
pub open spec fn dense_error_text(error: crate::lowering::DenseErrorView) -> Seq<char> {
    match error {
        crate::lowering::DenseErrorView::AmbiguousRootEntity => "dense compilation requires an explicit entity because the RuleSpec module defines multiple derived entities"@,
        crate::lowering::DenseErrorView::UnknownEntity(name) => "dense compilation could not find derived outputs for entity `"@ + name + "`"@,
        crate::lowering::DenseErrorView::Unsupported(what) => "dense compilation does not yet support "@ + what,
        crate::lowering::DenseErrorView::NestedOverPeriods { outer, inner } => "over-periods reductions cannot be nested: `"@ + outer + "` contains `"@ + inner + "` in its argument — reduce over the period axis once"@,
        crate::lowering::DenseErrorView::Spec(error) => compile_error_text(error),
        crate::lowering::DenseErrorView::CrossEntityDependency { derived, dependency, entity } => "dense compilation only supports dependencies within the same root entity; `"@ + dependency + "` from `"@ + derived + "` crosses into `"@ + entity + "`"@,
    }
}

impl DenseCompileError {
    /// The message of the error.
    pub fn to_text(&self) -> (r: String)
        ensures
            r@ == dense_error_text(self@),
    {
        let mut text = String::new();
        match self {
            DenseCompileError::AmbiguousRootEntity => {
                text = owned("dense compilation requires an explicit entity because the RuleSpec module defines multiple derived entities");
            },
            DenseCompileError::UnknownEntity(name) => {
                text = owned("dense compilation could not find derived outputs for entity `");
                text.append(name.as_str());
                text.append("`");
            },
            DenseCompileError::Unsupported(what) => {
                text = owned("dense compilation does not yet support ");
                text.append(what.as_str());
            },
            DenseCompileError::NestedOverPeriods { outer, inner } => {
                text = owned("over-periods reductions cannot be nested: `");
                text.append(outer);
                text.append("` contains `");
                text.append(inner);
                text.append("` in its argument — reduce over the period axis once");
            },
            DenseCompileError::Spec(error) => {
                text = error.to_text();
            },
            DenseCompileError::CrossEntityDependency { derived, dependency, entity } => {
                text = owned("dense compilation only supports dependencies within the same root entity; `");
                text.append(dependency.as_str());
                text.append("` from `");
                text.append(derived.as_str());
                text.append("` crosses into `");
                text.append(entity.as_str());
                text.append("`");
            },
        }
        text
    }
}

/// The message of a compilation error.
pub open spec fn compile_error_text(error: CompileErrorView) -> Seq<char> {
    match error {
        CompileErrorView::RoundingUnit { derived } => "derived `"@ + derived + "` declares rounding, but its unit is no declared currency"@,
        CompileErrorView::UnknownDerivedDependency { derived, dependency } => "unknown derived dependency `"@ + dependency + "` referenced from `"@ + derived + "`"@,
        CompileErrorView::DuplicateDerivedRule { name } => "duplicate derived rule `"@ + name + "`"@,
        CompileErrorView::CyclicDependency { cycle } => "cyclic derived dependency detected involving: "@ + cycle,
        CompileErrorView::UnknownRelationDependency { relation, dependency } => "unknown relation dependency `"@ + dependency + "` referenced from relation `"@ + relation + "`"@,
        CompileErrorView::CyclicRelationDependency { cycle } => "cyclic relation dependency detected involving: "@ + cycle,
        CompileErrorView::AmbiguousRuleSpecYaml { path } => "ambiguous RuleSpec module YAML `"@ + path + "` has a top-level `rules:` key but no RuleSpec discriminator (`format: rulespec/v1` or `schema: axiom.rules.*`)"@,
        CompileErrorView::UnsupportedArtifactFormatVersion { path, found, supported } => "compiled artefact `"@ + path + "` has artifact_format_version "@ + int_text(found as int) + ", but this engine supports up to "@ + int_text(supported as int) + "; recompile the program with this engine or upgrade the engine"@,
        CompileErrorView::DeserializeArtifact { path, error } => "failed to parse compiled artefact `"@ + path + "`: "@ + error,
        CompileErrorView::ParseProvisionRecord { path, line, error } => "failed to parse corpus provision record at `"@ + path + "` line "@ + int_text(line as int) + ": "@ + error,
        CompileErrorView::RuleSpec { path, error } => "failed to load RuleSpec module `"@ + path + "`: "@ + match error {
            Some(text) => text,
            None => "missing RuleSpec discriminator"@,
        },
    }
}

impl CompileError {
    /// The message of the error.
    pub fn to_text(&self) -> (r: String)
        ensures
            r@ == compile_error_text(self@),
    {
        let mut text = String::new();
        match self {
            CompileError::RoundingUnit { derived } => {
                text = owned("derived `");
                text.append(derived.as_str());
                text.append("` declares rounding, but its unit is no declared currency");
            },
            CompileError::UnknownDerivedDependency { derived, dependency } => {
                text = owned("unknown derived dependency `");
                text.append(dependency.as_str());
                text.append("` referenced from `");
                text.append(derived.as_str());
                text.append("`");
            },
            CompileError::DuplicateDerivedRule { name } => {
                text = owned("duplicate derived rule `");
                text.append(name.as_str());
                text.append("`");
            },
            CompileError::CyclicDependency { cycle } => {
                text = owned("cyclic derived dependency detected involving: ");
                text.append(cycle.as_str());
            },
            CompileError::UnknownRelationDependency { relation, dependency } => {
                text = owned("unknown relation dependency `");
                text.append(dependency.as_str());
                text.append("` referenced from relation `");
                text.append(relation.as_str());
                text.append("`");
            },
            CompileError::CyclicRelationDependency { cycle } => {
                text = owned("cyclic relation dependency detected involving: ");
                text.append(cycle.as_str());
            },
            CompileError::AmbiguousRuleSpecYaml { path } => {
                text = owned("ambiguous RuleSpec module YAML `");
                text.append(path.as_str());
                text.append("` has a top-level `rules:` key but no RuleSpec discriminator (`format: rulespec/v1` or `schema: axiom.rules.*`)");
            },
            CompileError::UnsupportedArtifactFormatVersion { path, found, supported } => {
                text = owned("compiled artefact `");
                text.append(path.as_str());
                text.append("` has artifact_format_version ");
                text.append(u64_text(*found as u64).as_str());
                text.append(", but this engine supports up to ");
                text.append(u64_text(*supported as u64).as_str());
                text.append("; recompile the program with this engine or upgrade the engine");
            },
            CompileError::DeserializeArtifact { path, error } => {
                text = owned("failed to parse compiled artefact `");
                text.append(path.as_str());
                text.append("`: ");
                text.append(error.as_str());
            },
            CompileError::ParseProvisionRecord { path, line, error } => {
                text = owned("failed to parse corpus provision record at `");
                text.append(path.as_str());
                text.append("` line ");
                text.append(usize_text(*line).as_str());
                text.append(": ");
                text.append(error.as_str());
            },
            CompileError::RuleSpec { path, error } => {
                text = owned("failed to load RuleSpec module `");
                text.append(path.as_str());
                text.append("`: ");
                match error {
                    RuleSpecError::Load(words) => text.append(words.as_str()),
                    RuleSpecError::MissingDiscriminator => text.append(
                        "missing RuleSpec discriminator",
                    ),
                }
            },
        }
        text
    }
}

/// The message of a migration error.
pub open spec fn migration_error_text(error: MigrationErrorView) -> Seq<char> {
    match error {
        MigrationErrorView::Spec(error) => compile_error_text(error),
        MigrationErrorView::UnknownRelation { relation, hint } => "--relation-entities names relation `"@ + relation + "`, which the artifact does not declare as a data relation"@ + hint,
        MigrationErrorView::OverrideArity { relation, arity, found } => "--relation-entities gives relation `"@ + relation + "` "@ + int_text(found as int) + " kinds, but its arity is "@ + int_text(arity as int),
        MigrationErrorView::OverrideContradictsExecution { relation, slot, given, executed } => "--relation-entities gives relation `"@ + relation + "` slot "@ + int_text(slot as int) + " kind `"@ + given + "`, but the artifact's executable nodes read `"@ + executed + "` ids there; the migration types an artifact as it executes and never reorders its slots, so recompile from source to change the orientation"@,
        MigrationErrorView::Uninferable(lines) => "cannot infer every slot kind from executable usage; pass `--relation-entities <relation>=<Kind>,<Kind>` (kinds in tuple order) for:\n"@ + lines,
        MigrationErrorView::DeclarationContradictsExecution { relation, declared, executed } => {
            "relation `"@ + relation + "` declares slot kinds "@ + quoted_list(declared)
                + ", but the artifact's executable nodes read "@ + executed
                + "; pass `--relation-entities "@ + relation
                + "=<Kind>,...` in executed order to type the artifact as it runs, or recompile from source so the slots follow the declaration"@
        },
        MigrationErrorView::StillIllTyped(found) => {
            "the migrated artifact still fails relation entity typing; recompile it from source:\n"@
                + violations_text(found, found.len())
        },
    }
}

impl ArtifactRelationMigrationError {
    /// The message of the error.
    pub fn to_text(&self) -> (r: String)
        ensures
            r@ == migration_error_text(self@),
    {
        let mut text = String::new();
        match self {
            ArtifactRelationMigrationError::Spec(error) => {
                text = error.to_text();
            },
            ArtifactRelationMigrationError::UnknownRelation { relation, hint } => {
                text = owned("--relation-entities names relation `");
                text.append(relation.as_str());
                text.append("`, which the artifact does not declare as a data relation");
                text.append(hint.as_str());
            },
            ArtifactRelationMigrationError::OverrideArity { relation, arity, found } => {
                text = owned("--relation-entities gives relation `");
                text.append(relation.as_str());
                text.append("` ");
                text.append(usize_text(*found).as_str());
                text.append(" kinds, but its arity is ");
                text.append(usize_text(*arity).as_str());
            },
            ArtifactRelationMigrationError::OverrideContradictsExecution { relation, slot, given, executed } => {
                text = owned("--relation-entities gives relation `");
                text.append(relation.as_str());
                text.append("` slot ");
                text.append(usize_text(*slot).as_str());
                text.append(" kind `");
                text.append(given.as_str());
                text.append("`, but the artifact's executable nodes read `");
                text.append(executed.as_str());
                text.append("` ids there; the migration types an artifact as it executes and never reorders its slots, so recompile from source to change the orientation");
            },
            ArtifactRelationMigrationError::Uninferable(lines) => {
                text = owned("cannot infer every slot kind from executable usage; pass `--relation-entities <relation>=<Kind>,<Kind>` (kinds in tuple order) for:\n");
                text.append(lines.as_str());
            },
            ArtifactRelationMigrationError::DeclarationContradictsExecution {
                relation,
                declared,
                executed,
            } => {
                text = owned("relation `");
                text.append(relation.as_str());
                text.append("` declares slot kinds ");
                text.append(quote_list(declared).as_str());
                text.append(", but the artifact's executable nodes read ");
                text.append(executed.as_str());
                text.append("; pass `--relation-entities ");
                text.append(relation.as_str());
                text.append(
                    "=<Kind>,...` in executed order to type the artifact as it runs, or recompile from source so the slots follow the declaration",
                );
            },
            ArtifactRelationMigrationError::StillIllTyped(report) => {
                text = owned(
                    "the migrated artifact still fails relation entity typing; recompile it from source:\n",
                );
                text.append(report.to_text().as_str());
                proof {
                    same_report_text(report.violations@, report.violations@.len());
                    assert(violation_views(report.violations@).len() == report.violations@.len());
                }
            },
        }
        text
    }
}

/// Texts in quotes, in brackets.
pub open spec fn quoted_list(list: Seq<Seq<char>>) -> Seq<char> {
    let each = list.map_values(|t: Seq<char>| quoted(t));
    "["@ + joined_by(each, each.len(), ", "@) + "]"@
}

fn quote_list(list: &Vec<String>) -> (r: String)
    ensures
        r@ == quoted_list(texts(list@)),
{
    let ghost each = texts(list@).map_values(|t: Seq<char>| quoted(t));
    let mut out: Vec<String> = Vec::new();
    let mut i: usize = 0;
    while i < list.len()
        invariant
            i <= list@.len(),
            each == texts(list@).map_values(|t: Seq<char>| quoted(t)),
            texts(out@) =~= each.take(i as int),
        decreases list@.len() - i,
    {
        let ghost before = out@;
        let item = debug_text(list[i].as_str());
        out.push(item);
        proof {
            assert(each[i as int] == item@);
            assert(texts(out@) =~= texts(before).push(item@));
            assert(each.take(i + 1) =~= each.take(i as int).push(item@));
        }
        i = i + 1;
    }
    assert(each.take(i as int) =~= each);
    assert(out@.len() == texts(out@).len());
    let mut text = owned("[");
    text.append(join(&out, ", ").as_str());
    text.append("]");
    text
}

/// The first `n` violations, a line each.
pub open spec fn violations_text(found: Seq<ViolationView>, n: nat) -> Seq<char>
    decreases n,
{
    if n == 0 || n > found.len() {
        Seq::empty()
    } else {
        let line = "["@ + found[n - 1].code.name() + "] "@ + found[n - 1].message;
        if n == 1 {
            line
        } else {
            violations_text(found, (n - 1) as nat) + "\n"@ + line
        }
    }
}

proof fn same_report_text(list: Seq<RelationTypingViolation>, n: nat)
    requires
        n <= list.len(),
    ensures
        violations_text(violation_views(list), n) == report_text(list, n),
    decreases n,
{
    if n > 0 {
        same_report_text(list, (n - 1) as nat);
        assert(violation_views(list)[n - 1] == list[n - 1]@);
    }
}

/// The message of a pin that does not bind.
pub open spec fn pin_error_text(error: PinErrorView) -> Seq<char> {
    match error {
        PinErrorView::UnknownPinnedRule { rule } => "pinned rule `"@ + rule
            + "` does not exist in the program"@,
        PinErrorView::JudgmentRuleNotPinnable { rule } => "rule `"@ + rule
            + "` is a judgment and cannot be pinned to a scalar value"@,
    }
}

impl PinError {
    /// The message of the error.
    pub fn to_text(&self) -> (r: String)
        ensures
            r@ == pin_error_text(self@),
    {
        match self {
            PinError::UnknownPinnedRule { rule } => {
                let mut text = owned("pinned rule `");
                text.append(rule.as_str());
                text.append("` does not exist in the program");
                text
            },
            PinError::JudgmentRuleNotPinnable { rule } => {
                let mut text = owned("rule `");
                text.append(rule.as_str());
                text.append("` is a judgment and cannot be pinned to a scalar value");
                text
            },
        }
    }
}

/// The message of a request that was refused.
pub open spec fn api_error_text(error: ApiError) -> Seq<char> {
    match error {
        ApiError::Eval(error) => error_text(error@),
        ApiError::AssessmentDateBeforePeriodStart { assessment_date, period_start } =>
            "assessment_date "@ + assessment_date.text() + " is before the query period start "@
            + period_start.text()
            + "; a determination cannot be assessed before the period it covers begins (see docs/bitemporal.md)"@,
        ApiError::Pin(error) => pin_error_text(error@),
        ApiError::Spec(error) => compile_error_text(error@),
    }
}

impl ApiError {
    /// The message of the error.
    pub fn to_text(&self) -> (r: String)
        ensures
            r@ == api_error_text(*self),
    {
        match self {
            ApiError::Eval(error) => error.to_text(),
            ApiError::AssessmentDateBeforePeriodStart { assessment_date, period_start } => {
                let mut text = owned("assessment_date ");
                text.append(assessment_date.to_text().as_str());
                text.append(" is before the query period start ");
                text.append(period_start.to_text().as_str());
                text.append(
                    "; a determination cannot be assessed before the period it covers begins (see docs/bitemporal.md)",
                );
                text
            },
            ApiError::Pin(error) => error.to_text(),
            ApiError::Spec(error) => error.to_text(),
        }
    }
}

impl NamespaceCollisionError {
    /// The message of the error.
    pub fn to_text(&self) -> (r: String)
        ensures
            r@ == "duplicate "@ + self.namespace@ + " name `"@ + self.name@ + "`"@,
    {
        let mut text = owned("duplicate ");
        text.append(self.namespace);
        text.append(" name `");
        text.append(self.name.as_str());
        text.append("`");
        text
    }
}

/// The message of a lifetime request that was refused.
pub open spec fn lifetime_error_text(error: LifetimeApiError) -> Seq<char> {
    match error {
        LifetimeApiError::Request { field, message } => "invalid lifetime request at "@ + field@
            + ": "@ + message@,
        LifetimeApiError::Unsupported(what) => "unsupported lifetime request: "@ + what@,
        LifetimeApiError::Output(what) => "invalid lifetime output: "@ + what@,
        LifetimeApiError::Json(message) => message@,
        LifetimeApiError::Artifact(error) => compile_error_text(error@),
        LifetimeApiError::Compile(error) => dense_error_text(error@),
        LifetimeApiError::Spec(error) => compile_error_text(error@),
        LifetimeApiError::Evaluation(error) => error_text(error@),
    }
}

impl LifetimeApiError {
    /// The message of the error.
    pub fn to_text(&self) -> (r: String)
        ensures
            r@ == lifetime_error_text(*self),
    {
        match self {
            LifetimeApiError::Request { field, message } => {
                let mut text = owned("invalid lifetime request at ");
                text.append(field.as_str());
                text.append(": ");
                text.append(message.as_str());
                text
            },
            LifetimeApiError::Unsupported(what) => {
                let mut text = owned("unsupported lifetime request: ");
                text.append(what.as_str());
                text
            },
            LifetimeApiError::Output(what) => {
                let mut text = owned("invalid lifetime output: ");
                text.append(what.as_str());
                text
            },
            LifetimeApiError::Json(message) => message.clone(),
            LifetimeApiError::Artifact(error) => error.to_text(),
            LifetimeApiError::Compile(error) => error.to_text(),
            LifetimeApiError::Spec(error) => error.to_text(),
            LifetimeApiError::Evaluation(error) => error.to_text(),
        }
    }
}

/// An error as it is reported: bounded, with the field of the request where one is at fault.
#[derive(Debug)]
pub struct LifetimeDiagnostic {
    pub schema: &'static str,
    pub category: &'static str,
    pub field: Option<String>,
    pub message: String,
}

/// The first characters of a text.
pub open spec fn cut(s: Seq<char>) -> Seq<char> {
    if s.len() <= MAX_STRING_BYTES {
        s
    } else {
        s.take(MAX_STRING_BYTES as int)
    }
}

fn cut_text(s: &str) -> (r: String)
    ensures
        r@ == cut(s@),
{
    let chars = chars_of(s);
    if chars.len() <= MAX_STRING_BYTES {
        return owned(s);
    }
    let r = text_between(&chars, 0, MAX_STRING_BYTES);
    assert(r@ =~= s@.take(MAX_STRING_BYTES as int));
    r
}

impl LifetimeApiError {
    /// The error as it is reported.
    pub fn diagnostic(&self) -> (r: LifetimeDiagnostic)
        ensures
            r.schema@ == "axiom-rules-engine/lifetime-error/v1"@,
            r.category@ == self.category_name(),
            match (*self, r.field) {
                (LifetimeApiError::Request { field, .. }, Some(shown)) => shown@ == cut(field@),
                (LifetimeApiError::Request { .. }, None) => false,
                (_, shown) => shown is None,
            },
            r.message@ == cut(lifetime_error_text(*self)),
    {
        let field = match self {
            LifetimeApiError::Request { field, .. } => Some(cut_text(field.as_str())),
            _ => None,
        };
        LifetimeDiagnostic {
            schema: "axiom-rules-engine/lifetime-error/v1",
            category: self.category(),
            field,
            message: cut_text(self.to_text().as_str()),
        }
    }
}

} // verus!
