//! Dense execution in decimals matches the interpreter: a row of a batch has the values that
//! the rules have for its entity.
use crate::column::{numbered, table_kind_of, ColumnKind};
use crate::compiler::{
    relation_based, rule_shown, stands_for, tables_based, tables_read, tables_shown,
};
use crate::date::Date;
use crate::decimal::Decimal;
use crate::dense::{
    group_of, kept_count, kept_failure, kept_number, kept_test, kept_total, member_error,
    related_cell, related_step, relation_of, root_cell, root_connective, root_extremum,
    root_outcome, root_outcome_step, root_step, root_sum, rule_cell, rule_outcome, CompiledJudgmentExpr,
    CompiledRelatedScalarExpr, CompiledScalarExpr, CompiledSemantics, DenseCompiledProgram,
    DenseFacts, RelationBatchView, RelationKeyView,
};
use crate::engine::{
    judgment_meaning, judgment_meaning_at, judgment_terminates, scalar_meaning, scalar_meaning_at,
    scalar_terminates,
};
use crate::error::ErrorView;
use crate::kinds::{related_is_step, root_is_step, root_outcome_is_step};
use crate::lowering::{
    compiled_source, info_of, lookup_key, program_has, shows_judgment, shows_judgments,
    shows_scalar, shows_scalars, slot_entity, source_key, CompileFacts, Tables,
};
use crate::member_agreement::{count_run_prefix, member_ids, members_match, total_run_prefix};
use crate::model::{
    derived_version_at, parameter_version_at, position_from_meaning, position_of, ComparisonOp,
    Derived, DerivedSemantics, IndexedParameter, JudgmentExpr, JudgmentOutcome, ParameterVersion,
    RelatedValueRef, RelationDerivation, Rounding, SCALAR_ENTITY, ScalarExpr, ScalarValue,
};
use crate::reading::{is_compiled, lists, reads_relation, Read};
use crate::related_agreement::{related_judgment_matches, related_rule_matches};
use crate::semantics::{
    connective_run, count_run, extremum_run, input_value, judgment_run, judgment_run_is_step,
    output_rounded, related_run, rule_formula, rule_judgment, rule_scalar, scalar_run,
    scalar_run_is_step, stated_related, sum_run, total_run, values_compare, Facts,
    RelationContext,
};
use crate::text::sorted_texts;
use vstd::prelude::*;

verus! {

/// Whether two values are the same, an integer and the decimal of the same number among them.
pub open spec fn same_scalar(a: ScalarValue, b: ScalarValue) -> bool {
    match (a, b) {
        (ScalarValue::Bool(x), ScalarValue::Bool(y)) => x == y,
        (ScalarValue::Text(x), ScalarValue::Text(y)) => x@ == y@,
        (ScalarValue::Date(x), ScalarValue::Date(y)) => x == y,
        _ => a.number() is Some && a.number() == b.number(),
    }
}

/// Whether two evaluations give the same value, or both fail.
pub open spec fn same_result(
    a: Result<ScalarValue, ErrorView>,
    b: Result<ScalarValue, ErrorView>,
) -> bool {
    match (a, b) {
        (Ok(x), Ok(y)) => same_scalar(x, y),
        (Err(_), Err(_)) => true,
        _ => false,
    }
}

/// Whether two evaluations give the same outcome, or both fail.
pub open spec fn same_outcome(
    a: Result<JudgmentOutcome, ErrorView>,
    b: Result<JudgmentOutcome, ErrorView>,
) -> bool {
    match (a, b) {
        (Ok(x), Ok(y)) => x == y,
        (Err(_), Err(_)) => true,
        _ => false,
    }
}

/// Whether two evaluations give the same number, or both fail.
pub open spec fn same_number(a: Result<Decimal, ErrorView>, b: Result<Decimal, ErrorView>) -> bool {
    match (a, b) {
        (Ok(x), Ok(y)) => x == y,
        (Err(_), Err(_)) => true,
        _ => false,
    }
}

/// Whether a column states for a row what the facts state for its entity. A column that is
/// absent is an input that no entity has.
pub open spec fn input_stated(
    dx: DenseFacts,
    cx: Facts,
    ids: Seq<Seq<char>>,
    i: int,
    row: int,
) -> bool {
    match (dx.batch.inputs[i], input_value(cx, dx.program.root_inputs@[i]@, ids[row])) {
        (Some(column), Ok(value)) => same_scalar(column.cell(row), value),
        (None, Err(ErrorView::MissingInput { .. })) => true,
        _ => false,
    }
}

/// Whether a column of a relation states for a related row what the facts state for its entity.
pub open spec fn related_stated(
    dx: DenseFacts,
    cx: Facts,
    members: Seq<Seq<Seq<char>>>,
    rel: int,
    i: int,
    k: int,
) -> bool {
    match (
        dx.batch.relations[rel].inputs[i],
        input_value(cx, dx.program.relations@[rel].related_inputs@[i]@, members[rel][k]),
    ) {
        (Some(column), Ok(value)) => same_scalar(column.cell(k), value),
        (None, Err(ErrorView::MissingInput { .. })) => true,
        _ => false,
    }
}

/// Whether the related rows of a row stand for the entities that the facts relate to its
/// entity, in the order in which they are read. A derived relation has the rows of the stated
/// relation below it.
pub open spec fn members_stated(
    dx: DenseFacts,
    cx: Facts,
    ids: Seq<Seq<char>>,
    members: Seq<Seq<Seq<char>>>,
    rel: int,
    row: int,
) -> bool {
    let key = dx.program.relations@[rel].key@;
    let (lo, hi) = (dx.first_of(rel as nat, row), dx.end_of(rel as nat, row));
    &&& 0 <= lo <= hi <= members[rel].len()
    &&& cx.program.relation(key.name) matches Some(schema) && {
        &&& key.current_slot < schema.arity
        &&& key.related_slot < schema.arity
        &&& schema.derivation is None
    }
    &&& members[rel].subrange(lo, hi) == sorted_texts(
        stated_related(
            cx,
            key.name,
            key.current_slot,
            key.related_slot,
            ids[row],
            cx.data.relations.len(),
        ),
    )
}

/// Whether a relation that filters a derived one has the related rows of that one.
pub open spec fn shares_rows(dx: DenseFacts, members: Seq<Seq<Seq<char>>>, rel: int) -> bool {
    dx.program.relations@[rel].parent_relation matches Some(parent) ==> {
        &&& dx.batch.relations[parent as int].offsets == dx.batch.relations[rel].offsets
        &&& members[parent as int] == members[rel]
    }
}

/// Whether a batch states for its rows, and for their related rows, what facts state for
/// entities.
pub open spec fn batch_states(
    dx: DenseFacts,
    cx: Facts,
    ids: Seq<Seq<char>>,
    members: Seq<Seq<Seq<char>>>,
) -> bool {
    &&& dx.bound_well()
    &&& dx.batch.row_count == ids.len()
    &&& dx.start == cx.period.start
    &&& dx.end == cx.period.end
    &&& dx.enforce_commencement
    &&& forall|i: int, row: int|
        0 <= i < dx.program.root_inputs@.len() && 0 <= row < ids.len() ==> #[trigger] input_stated(
            dx,
            cx,
            ids,
            i,
            row,
        )
    &&& forall|rel: int, row: int|
        0 <= rel < dx.program.relations@.len() && 0 <= row < ids.len()
            ==> #[trigger] members_stated(dx, cx, ids, members, rel, row)
    &&& forall|rel: int, i: int, k: int|
        0 <= rel < dx.program.relations@.len() && 0 <= i
            < dx.program.relations@[rel].related_inputs@.len() && 0 <= k < members[rel].len()
            ==> #[trigger] related_stated(dx, cx, members, rel, i, k)
    &&& forall|rel: int|
        0 <= rel < dx.program.relations@.len() ==> #[trigger] shares_rows(dx, members, rel)
}

/// Whether a table mixes numbers with other values nowhere.
pub open spec fn is_uniform(version: ParameterVersion) -> bool {
    table_kind_of(version.values@) == ColumnKind::Decimal ==> forall|key: i64|
        version.values@.contains_key(key) ==> (#[trigger] version.values@[key]).number() is Some
}

pub open spec fn tables_uniform(p: DenseCompiledProgram) -> bool {
    forall|i: int, j: int|
        0 <= i < p.parameters@.len() && 0 <= j < p.parameters@[i].parameter.versions@.len()
            ==> is_uniform(#[trigger] p.parameters@[i].parameter.versions@[j])
}

/// Whether the unit that a rule names is declared.
pub open spec fn has_unit(kx: CompileFacts, d: Derived) -> bool {
    d.unit matches Some(unit) ==> kx.program.unit(unit@) is Some
}

/// Whether a rule means the same where it is put in place of its name: it has one formula, which
/// is not rounded.
pub open spec fn is_single(kx: CompileFacts, d: Derived) -> bool {
    d.rounding is None && d.versions@.len() == 0 && has_unit(kx, d)
}

/// Whether a formula that is put in place over the current rows reads, `deep` rules deep, rules
/// only that have one formula each; and at home these rows' inputs, elsewhere no input.
pub open spec fn fixed_scalar(kx: CompileFacts, home: bool, deep: nat, e: ScalarExpr) -> bool
    decreases 2 * deep + 1, e, 1int, 0int,
{
    match e {
        ScalarExpr::Input(_) => home,
        ScalarExpr::InputOrElse { .. } => home,
        ScalarExpr::Derived(name) => is_placed(kx, home, deep, name@),
        ScalarExpr::ParameterLookup { index, .. } => fixed_scalar(kx, home, deep, *index),
        ScalarExpr::Add(items) => fixed_scalars(kx, home, deep, items@, items@.len()),
        ScalarExpr::Max(items) => fixed_scalars(kx, home, deep, items@, items@.len()),
        ScalarExpr::Min(items) => fixed_scalars(kx, home, deep, items@, items@.len()),
        ScalarExpr::Sub(a, b) => fixed_scalar(kx, home, deep, *a)
            && fixed_scalar(kx, home, deep, *b),
        ScalarExpr::Mul(a, b) => fixed_scalar(kx, home, deep, *a)
            && fixed_scalar(kx, home, deep, *b),
        ScalarExpr::Div(a, b) => fixed_scalar(kx, home, deep, *a)
            && fixed_scalar(kx, home, deep, *b),
        ScalarExpr::Ceil(a) => fixed_scalar(kx, home, deep, *a),
        ScalarExpr::Floor(a) => fixed_scalar(kx, home, deep, *a),
        ScalarExpr::DateAddDays { date, days } => fixed_scalar(kx, home, deep, *date)
            && fixed_scalar(
            kx,
            home,
            deep,
            *days,
        ),
        ScalarExpr::DateAddMonths { date, months } => fixed_scalar(kx, home, deep, *date)
            && fixed_scalar(
            kx,
            home,
            deep,
            *months,
        ),
        ScalarExpr::DateAddYears { date, years } => fixed_scalar(kx, home, deep, *date)
            && fixed_scalar(
            kx,
            home,
            deep,
            *years,
        ),
        ScalarExpr::DaysBetween { from, to } => fixed_scalar(kx, home, deep, *from)
            && fixed_scalar(kx, home, deep, *to),
        ScalarExpr::If { condition, then_expr, else_expr } => fixed_judgment(kx, home, deep, *condition)
            && fixed_scalar(kx, home, deep, *then_expr) && fixed_scalar(kx, home, deep, *else_expr),
        _ => true,
    }
}

/// Whether the first `n` formulas read such rules and inputs only.
pub open spec fn fixed_scalars(
    kx: CompileFacts,
    home: bool,
    deep: nat,
    items: Seq<ScalarExpr>,
    n: nat,
) -> bool
    decreases 2 * deep + 1, items, 0int, n,
{
    n == 0
        || n > items.len()
        || (fixed_scalars(kx, home, deep, items, (n - 1) as nat) && fixed_scalar(
        kx,
        home,
        deep,
        items[n - 1],
    ))
}

/// Whether a judgment reads such rules and inputs only.
pub open spec fn fixed_judgment(kx: CompileFacts, home: bool, deep: nat, e: JudgmentExpr) -> bool
    decreases 2 * deep + 1, e, 1int, 0int,
{
    match e {
        JudgmentExpr::Comparison { left, right, .. } => fixed_scalar(kx, home, deep, left)
            && fixed_scalar(
            kx,
            home,
            deep,
            right,
        ),
        JudgmentExpr::Derived(name) => is_placed(kx, home, deep, name@),
        JudgmentExpr::RelationMember { .. } => false,
        JudgmentExpr::And(items) => fixed_judgments(kx, home, deep, items@, items@.len()),
        JudgmentExpr::Or(items) => fixed_judgments(kx, home, deep, items@, items@.len()),
        JudgmentExpr::Not(item) => fixed_judgment(kx, home, deep, *item),
    }
}

/// Whether the first `n` judgments read such rules and inputs only.
pub open spec fn fixed_judgments(
    kx: CompileFacts,
    home: bool,
    deep: nat,
    items: Seq<JudgmentExpr>,
    n: nat,
) -> bool
    decreases 2 * deep + 1, items, 0int, n,
{
    n == 0
        || n > items.len()
        || (fixed_judgments(kx, home, deep, items, (n - 1) as nat) && fixed_judgment(
        kx,
        home,
        deep,
        items[n - 1],
    ))
}

/// Whether a rule that is put in place over the current rows reads, `deep` rules deep, rules only
/// that have one formula each.
pub open spec fn is_placed(kx: CompileFacts, home: bool, deep: nat, name: Seq<char>) -> bool
    decreases 2 * deep, kx, 0int, 0int,
{
    deep > 0 && match kx.position(name) {
        Some(p) => is_single(kx, kx.rule_at(p)) && match kx.rule_at(p).semantics {
            DerivedSemantics::Scalar(e) => fixed_scalar(kx, home, (deep - 1) as nat, e),
            DerivedSemantics::Judgment(e) => fixed_judgment(kx, home, (deep - 1) as nat, e),
        },
        None => false,
    }
}

/// The entity of the current rows of a relation, where it is derived and says so.
pub open spec fn current_of(kx: CompileFacts, relation: Seq<char>) -> Option<Seq<char>> {
    match kx.derivation(relation) {
        Some(d) => slot_entity(d.slot_entities@, d.current_slot),
        None => None,
    }
}

/// Whether a formula over related rows may read a rule by this name: one of the related rows, a
/// constant, or in the test of a derived relation one of the current rows.
pub open spec fn is_own(
    kx: CompileFacts,
    current: Option<Seq<char>>,
    source: Option<RelationDerivation>,
    deep: nat,
    name: Seq<char>,
) -> bool
    decreases 2 * deep, kx, 0int, 0int,
{
    deep > 0 && match kx.position(name) {
        Some(p) => {
            let d = kx.rule_at(p);
            if current == Some(d.entity@) || d.entity@ == kx.root {
                source is Some && current == Some(d.entity@) && is_placed(kx, true, deep, name)
            } else {
                is_single(kx, d) && match d.semantics {
                    DerivedSemantics::Scalar(e) => if d.entity@ == SCALAR_ENTITY@ {
                        fixed_scalar(kx, false, (deep - 1) as nat, e)
                    } else {
                        own_scalar(kx, current, None, (deep - 1) as nat, e)
                    },
                    DerivedSemantics::Judgment(e) => own_judgment(
                        kx,
                        current,
                        None,
                        (deep - 1) as nat,
                        e,
                    ),
                }
            }
        },
        None => false,
    }
}

/// Whether a formula over related rows reads rules of the related rows and constants only, and
/// in the test of a derived relation rules of the current rows.
pub open spec fn own_scalar(
    kx: CompileFacts,
    current: Option<Seq<char>>,
    source: Option<RelationDerivation>,
    deep: nat,
    e: ScalarExpr,
) -> bool
    decreases 2 * deep + 1, e, 1int, 0int,
{
    match e {
        ScalarExpr::Derived(name) => is_own(kx, current, source, deep, name@),
        ScalarExpr::ParameterLookup { index, .. } => own_scalar(kx, current, source, deep, *index),
        ScalarExpr::Add(items) => own_scalars(kx, current, source, deep, items@, items@.len()),
        ScalarExpr::Max(items) => own_scalars(kx, current, source, deep, items@, items@.len()),
        ScalarExpr::Min(items) => own_scalars(kx, current, source, deep, items@, items@.len()),
        ScalarExpr::Sub(a, b) => own_scalar(kx, current, source, deep, *a)
            && own_scalar(kx, current, source, deep, *b),
        ScalarExpr::Mul(a, b) => own_scalar(kx, current, source, deep, *a)
            && own_scalar(kx, current, source, deep, *b),
        ScalarExpr::Div(a, b) => own_scalar(kx, current, source, deep, *a)
            && own_scalar(kx, current, source, deep, *b),
        ScalarExpr::Ceil(a) => own_scalar(kx, current, source, deep, *a),
        ScalarExpr::Floor(a) => own_scalar(kx, current, source, deep, *a),
        ScalarExpr::DateAddDays { date, days } => own_scalar(kx, current, source, deep, *date)
            && own_scalar(kx, current, source, deep, *days),
        ScalarExpr::DateAddMonths { date, months } => own_scalar(kx, current, source, deep, *date)
            && own_scalar(
            kx,
            current,
            source,
            deep,
            *months,
        ),
        ScalarExpr::DateAddYears { date, years } => own_scalar(kx, current, source, deep, *date)
            && own_scalar(kx, current, source, deep, *years),
        ScalarExpr::DaysBetween { from, to } => own_scalar(kx, current, source, deep, *from)
            && own_scalar(kx, current, source, deep, *to),
        ScalarExpr::If { condition, then_expr, else_expr } => own_judgment(
            kx,
            current,
            source,
            deep,
            *condition,
        )
            && own_scalar(kx, current, source, deep, *then_expr)
                && own_scalar(kx, current, source, deep, *else_expr),
        _ => true,
    }
}

/// Whether the first `n` formulas read such rules only.
pub open spec fn own_scalars(
    kx: CompileFacts,
    current: Option<Seq<char>>,
    source: Option<RelationDerivation>,
    deep: nat,
    items: Seq<ScalarExpr>,
    n: nat,
) -> bool
    decreases 2 * deep + 1, items, 0int, n,
{
    n == 0
        || n > items.len()
        || (own_scalars(kx, current, source, deep, items, (n - 1) as nat) && own_scalar(
        kx,
        current,
        source,
        deep,
        items[n - 1],
    ))
}

/// Whether a test on related rows reads such rules only, and asks for membership in no relation
/// but the source of the derived relation that it is the test of.
pub open spec fn own_judgment(
    kx: CompileFacts,
    current: Option<Seq<char>>,
    source: Option<RelationDerivation>,
    deep: nat,
    e: JudgmentExpr,
) -> bool
    decreases 2 * deep + 1, e, 1int, 0int,
{
    match e {
        JudgmentExpr::Comparison { left, right, .. } => own_scalar(kx, current, source, deep, left)
            && own_scalar(
            kx,
            current,
            source,
            deep,
            right,
        ),
        JudgmentExpr::Derived(name) => is_own(kx, current, source, deep, name@),
        JudgmentExpr::RelationMember { relation, current_slot, related_slot } => source matches Some(
            d,
        ) && source_key(d) == lookup_key(relation@, current_slot as nat, related_slot as nat),
        JudgmentExpr::And(items) => own_judgments(kx, current, source, deep, items@, items@.len()),
        JudgmentExpr::Or(items) => own_judgments(kx, current, source, deep, items@, items@.len()),
        JudgmentExpr::Not(item) => own_judgment(kx, current, source, deep, *item),
    }
}

/// Whether the first `n` tests read such rules only.
pub open spec fn own_judgments(
    kx: CompileFacts,
    current: Option<Seq<char>>,
    source: Option<RelationDerivation>,
    deep: nat,
    items: Seq<JudgmentExpr>,
    n: nat,
) -> bool
    decreases 2 * deep + 1, items, 0int, n,
{
    n == 0
        || n > items.len()
        || (own_judgments(kx, current, source, deep, items, (n - 1) as nat) && own_judgment(
        kx,
        current,
        source,
        deep,
        items[n - 1],
    ))
}

/// Whether the slots by which a derived relation is read are slots of it.
pub open spec fn slots_fit(
    kx: CompileFacts,
    relation: Seq<char>,
    current_slot: nat,
    related_slot: nat,
) -> bool {
    kx.derivation(relation) is Some ==> (kx.program.relation(relation) matches Some(schema)
        && current_slot < schema.arity && related_slot < schema.arity)
}

/// Whether the aggregations of a formula read rules of the related rows and constants only.
pub open spec fn fit_scalar(kx: CompileFacts, e: ScalarExpr) -> bool
    decreases e, 1int, 0int,
{
    match e {
        ScalarExpr::ParameterLookup { index, .. } => fit_scalar(kx, *index),
        ScalarExpr::Add(items) => fit_scalars(kx, items@, items@.len()),
        ScalarExpr::Max(items) => fit_scalars(kx, items@, items@.len()),
        ScalarExpr::Min(items) => fit_scalars(kx, items@, items@.len()),
        ScalarExpr::Sub(a, b) => fit_scalar(kx, *a) && fit_scalar(kx, *b),
        ScalarExpr::Mul(a, b) => fit_scalar(kx, *a) && fit_scalar(kx, *b),
        ScalarExpr::Div(a, b) => fit_scalar(kx, *a) && fit_scalar(kx, *b),
        ScalarExpr::Ceil(a) => fit_scalar(kx, *a),
        ScalarExpr::Floor(a) => fit_scalar(kx, *a),
        ScalarExpr::DateAddDays { date, days } => fit_scalar(kx, *date) && fit_scalar(kx, *days),
        ScalarExpr::DateAddMonths { date, months } => fit_scalar(kx, *date) && fit_scalar(
            kx,
            *months,
        ),
        ScalarExpr::DateAddYears { date, years } => fit_scalar(kx, *date) && fit_scalar(kx, *years),
        ScalarExpr::DaysBetween { from, to } => fit_scalar(kx, *from) && fit_scalar(kx, *to),
        ScalarExpr::If { condition, then_expr, else_expr } => fit_judgment(kx, *condition)
            && fit_scalar(kx, *then_expr) && fit_scalar(kx, *else_expr),
        ScalarExpr::CountRelated { relation, current_slot, related_slot, where_clause } => {
            &&& slots_fit(kx, relation@, current_slot as nat, related_slot as nat)
            &&& where_clause matches Some(w) ==> own_judgment(
                kx,
                current_of(kx, relation@),
                None,
                kx.rules(),
                *w,
            )
        },
        ScalarExpr::SumRelated { relation, current_slot, related_slot, value, where_clause } => {
            &&& slots_fit(kx, relation@, current_slot as nat, related_slot as nat)
            &&& value matches RelatedValueRef::Derived(name) ==> is_own(
                kx,
                current_of(kx, relation@),
                None,
                kx.rules(),
                name@,
            )
            &&& where_clause matches Some(w) ==> own_judgment(
                kx,
                current_of(kx, relation@),
                None,
                kx.rules(),
                *w,
            )
        },
        _ => true,
    }
}

/// Whether the aggregations of the first `n` formulas read rules of the related rows and constants
/// only.
pub open spec fn fit_scalars(kx: CompileFacts, items: Seq<ScalarExpr>, n: nat) -> bool
    decreases items, 0int, n,
{
    n == 0 || n > items.len() || (fit_scalars(kx, items, (n - 1) as nat) && fit_scalar(
        kx,
        items[n - 1],
    ))
}

/// Whether the aggregations of a judgment read rules of the related rows and constants only.
pub open spec fn fit_judgment(kx: CompileFacts, e: JudgmentExpr) -> bool
    decreases e, 1int, 0int,
{
    match e {
        JudgmentExpr::Comparison { left, right, .. } => fit_scalar(kx, left) && fit_scalar(
            kx,
            right,
        ),
        JudgmentExpr::And(items) => fit_judgments(kx, items@, items@.len()),
        JudgmentExpr::Or(items) => fit_judgments(kx, items@, items@.len()),
        JudgmentExpr::Not(item) => fit_judgment(kx, *item),
        _ => true,
    }
}

/// Whether the aggregations of the first `n` judgments read rules of the related rows and constants
/// only.
pub open spec fn fit_judgments(kx: CompileFacts, items: Seq<JudgmentExpr>, n: nat) -> bool
    decreases items, 0int, n,
{
    n == 0 || n > items.len() || (fit_judgments(kx, items, (n - 1) as nat) && fit_judgment(
        kx,
        items[n - 1],
    ))
}

/// Whether the aggregations of a compiled rule read rules of the related rows and constants only,
/// and its unit is declared.
pub open spec fn is_fitting(kx: CompileFacts, p: nat) -> bool {
    &&& has_unit(kx, kx.rule_at(p))
    &&& match compiled_source(kx.rule_at(p)) {
        Some(DerivedSemantics::Scalar(e)) => fit_scalar(kx, e),
        Some(DerivedSemantics::Judgment(e)) => fit_judgment(kx, e),
        None => true,
    }
}

/// Whether the related rows are read by rules of their own and constants only.
pub open spec fn reads_own_rows(kx: CompileFacts) -> bool {
    forall|name: Seq<char>| #[trigger]
        is_compiled(kx, name) ==> (kx.position(name) matches Some(p) ==> is_fitting(kx, p))
}

/// Whether a derived relation is tested by rules of the rows that it relates and constants only.
pub open spec fn is_derived_own(kx: CompileFacts, d: RelationDerivation) -> bool {
    &&& own_judgment(
        kx,
        slot_entity(d.slot_entities@, d.current_slot),
        Some(d),
        kx.rules(),
        d.predicate,
    )
    &&& slots_fit(kx, d.source_relation@, d.current_slot as nat, d.related_slot as nat)
}

/// Whether every relation that is read is stated or derived, none both, and the derived ones are
/// tested by rules of the rows that they relate and constants only.
pub open spec fn relations_own(kx: CompileFacts, cx: Facts) -> bool {
    forall|key: RelationKeyView| #[trigger]
        reads_relation(kx, key) ==> (kx.derivation(key.name) matches Some(d) ==> is_derived_own(
            kx,
            d,
        ) && is_unstated(cx, key.name))
}

/// Whether no record states members of a relation.
pub open spec fn is_unstated(cx: Facts, relation: Seq<char>) -> bool {
    forall|i: int|
        0 <= i < cx.data.relations.len() ==> (#[trigger] cx.data.relations[i]).name@ != relation
}

/// A compiled program on a batch, and its source on facts.
pub ghost struct Pairing {
    pub dx: DenseFacts,
    pub cx: Facts,
    pub ids: Seq<Seq<char>>,
    pub members: Seq<Seq<Seq<char>>>,
    pub kx: CompileFacts,
    pub tables: Tables,
    /// Where formulas over related rows stand: in the filter of a derived relation, with the two
    /// entities that it relates, or elsewhere.
    pub level: nat,
    pub context: Option<RelationContext>,
    /// The derived relation that the filter is the test of.
    pub source: Option<RelationDerivation>,
}

/// Where a rule's own formula stands.
pub open spec fn outside(s: Pairing) -> Pairing {
    Pairing { context: None, source: None, ..s }
}

pub open spec fn paired(s: Pairing) -> bool {
    &&& s.kx.program == s.cx.program
    &&& program_has(s.dx.program, s.tables)
    &&& tables_based(s.kx, s.tables)
    &&& tables_shown(s.kx, s.tables)
    &&& tables_read(s.kx, s.tables)
    &&& relations_own(s.kx, s.cx)
    &&& batch_states(s.dx, s.cx, s.ids, s.members)
    &&& reads_own_rows(s.kx)
    &&& tables_uniform(s.dx.program)
}

/// Whether a related row is one of the batch, and the one that a filter tests.
pub open spec fn related_row(s: Pairing, rel: nat, k: int) -> bool {
    &&& rel < s.tables.relations.len()
    &&& 0 <= k < s.members[rel as int].len()
    &&& s.context matches Some(c) ==> {
        &&& c.related_id == s.members[rel as int][k]
        &&& c.current_entity == current_at(s, rel)
        &&& 0 <= s.dx.owner(rel, k) < s.ids.len()
        &&& c.current_id == s.ids[s.dx.owner(rel, k)]
    }
    &&& s.source is Some ==> s.context is Some
}

/// The entity of the current rows of a relation of the batch, where it is derived and says so.
pub open spec fn current_at(s: Pairing, rel: nat) -> Option<Seq<char>> {
    current_of(s.kx, s.tables.lookups[rel as int].name)
}

/// Whether the interpreter finds the related entity that a filter tests in the relation that it
/// filters.
pub open spec fn is_found(s: Pairing, f: nat) -> bool {
    s.source matches Some(d) ==> (s.context matches Some(c) && (f > 0 ==> (related_run(
        s.cx,
        (f - 1) as nat,
        source_key(d).name,
        source_key(d).current_slot,
        source_key(d).related_slot,
        c.current_id,
    ) matches Some(run) ==> (run.value matches Ok(ids) && ids.contains(c.related_id)))))
}

/// A related row is owned by the row among whose related rows it stands.
pub(crate) proof fn owner_is(dx: DenseFacts, rel: nat, row: int, k: int)
    requires
        dx.bound_well(),
        rel < dx.program.relations@.len(),
        0 <= row < dx.batch.row_count,
        dx.first_of(rel, row) <= k < dx.end_of(rel, row),
    ensures
        dx.owner(rel, k) == row,
{
    let groups = dx.batch.relations[rel as int];
    assert(groups.well_formed(dx.batch.row_count));
    group_is(groups, dx.batch.row_count, dx.batch.row_count, row, k);
}

proof fn group_is(groups: RelationBatchView, count: nat, n: nat, row: int, k: int)
    requires
        groups.well_formed(count),
        0 <= row < n <= count,
        groups.offsets[row] <= k < groups.offsets[row + 1],
    ensures
        group_of(groups.offsets, n, k) == row,
    decreases n,
{
    if row < n - 1 {
        assert(groups.offsets[row + 1] <= groups.offsets[n - 1]);
        group_is(groups, count, (n - 1) as nat, row, k);
    }
}

/// A rule that has a place is a rule of the program.
pub(crate) proof fn rule_has_place(s: Pairing, name: Seq<char>)
    requires
        paired(s),
        s.kx.position(name) is Some,
    ensures
        s.cx.program.rule(name) == Some(s.kx.rule_at(s.kx.position(name)->Some_0)),
{
    position_from_meaning(s.cx.program.derived@, name, 0);
}

/// A relation of a compiled program that is derived is tested as it should, and not stated.
pub(crate) proof fn relation_is_own(s: Pairing, rel: nat)
    requires
        paired(s),
        rel < s.tables.relations.len(),
    ensures
        s.kx.derivation(s.tables.lookups[rel as int].name) matches Some(d) ==> is_derived_own(
            s.kx,
            d,
        ) && is_unstated(s.cx, s.tables.lookups[rel as int].name),
{
    assert(relation_based(s.kx, s.tables, rel as int));
    let key = s.tables.lookups[rel as int];
    assert(lists(s.tables, Read::Relation(key)));
    assert(reads_relation(s.kx, key));
}

/// Whether a rule is put in place over the current rows of a relation.
pub open spec fn is_at_current(s: Pairing, rel: nat, name: Seq<char>) -> bool {
    let entity = s.kx.rule_at(s.kx.position(name)->Some_0).entity@;
    current_at(s, rel) == Some(entity) || entity == s.kx.root
}

/// A compiled relation says of its current rows what its source says.
pub(crate) proof fn current_is_known(s: Pairing, rel: nat)
    requires
        paired(s),
        rel < s.tables.relations.len(),
    ensures
        info_of(s.tables.relations[rel as int]).current == current_at(s, rel),
{
    assert(relation_based(s.kx, s.tables, rel as int));
}

pub(crate) proof fn same_scalar_reads(a: ScalarValue, b: ScalarValue)
    requires
        same_scalar(a, b),
    ensures
        a.number() == b.number(),
        a.day() == b.day(),
        a.index() == b.index(),
{
    if let ScalarValue::Integer(i) = a {
        Decimal::int_as_index(i);
    }
    if let ScalarValue::Integer(i) = b {
        Decimal::int_as_index(i);
    }
}

pub(crate) proof fn compared_alike(
    a: ScalarValue,
    u: ScalarValue,
    op: ComparisonOp,
    b: ScalarValue,
    v: ScalarValue,
)
    requires
        same_scalar(a, u),
        same_scalar(b, v),
    ensures
        match (values_compare(a, op, b), values_compare(u, op, v)) {
            (Ok(x), Ok(y)) => x == y,
            (Err(_), Err(_)) => true,
            _ => false,
        },
{
    same_scalar_reads(a, u);
    same_scalar_reads(b, v);
}

pub(crate) proof fn same_rounded(rounding: Rounding, a: ScalarValue, b: ScalarValue)
    requires
        same_scalar(a, b),
    ensures
        same_scalar(output_rounded(Some(rounding), a), output_rounded(Some(rounding), b)),
{
    if let ScalarValue::Integer(i) = a {
        Decimal::int_rounded(i, rounding.minor_units as nat, rounding.mode);
    }
    if let ScalarValue::Integer(i) = b {
        Decimal::int_rounded(i, rounding.minor_units as nat, rounding.mode);
    }
}

pub(crate) proof fn same_versions(a: IndexedParameter, b: IndexedParameter, date: Date, n: nat)
    requires
        crate::compiler::same_parameter(a, b),
        n <= a.versions@.len(),
    ensures
        parameter_version_at(a.versions@, date, n) == parameter_version_at(b.versions@, date, n),
        parameter_version_at(a.versions@, date, n) matches Some(i) ==> i < n,
    decreases n,
{
    if n > 0 {
        same_versions(a, b, date, (n - 1) as nat);
        assert(a.versions@[n - 1].effective_from == b.versions@[n - 1].effective_from);
        if let Some(i) = parameter_version_at(a.versions@, date, (n - 1) as nat) {
            assert(a.versions@[i as int].effective_from == b.versions@[i as int].effective_from);
        }
    }
}

/// A compiled rule is a rule of the program.
pub(crate) proof fn rule_is_there(s: Pairing, i: nat)
    requires
        paired(s),
        i < s.tables.derived.len(),
    ensures
        rule_shown(s.kx, s.tables, i as int),
        s.kx.position(s.tables.derived[i as int].name@) matches Some(at) && s.cx.program.rule(
            s.tables.derived[i as int].name@,
        ) == Some(s.kx.rule_at(at)) && is_fitting(s.kx, at),
{
    let name = s.tables.derived[i as int].name@;
    assert(rule_shown(s.kx, s.tables, i as int));
    position_from_meaning(s.cx.program.derived@, name, 0);
    assert(lists(s.tables, Read::Rule(name)));
    assert(is_compiled(s.kx, name));
}

pub(crate) proof fn rule_matches(s: Pairing, f: nat, i: nat, row: int)
    requires
        paired(s),
        i < s.tables.derived.len(),
        0 <= row < s.ids.len(),
    ensures
        rule_scalar(s.cx, f, s.tables.derived[i as int].name@, s.ids[row]) matches Some(run)
            ==> same_result(rule_cell(s.dx, i, row), run.value),
    decreases 2 * f + 1, s, 0int, 0int,
{
    let c = s.tables.derived[i as int];
    let name = c.name@;
    rule_is_there(s, i);
    let d = s.cx.program.rule(name)->Some_0;
    reveal_with_fuel(derived_version_at, 2);
    if rule_scalar(s.cx, f, name, s.ids[row]) is Some {
        match (compiled_source(d), c.semantics) {
            (Some(DerivedSemantics::Scalar(e)), CompiledSemantics::Scalar(x)) => {
                scalar_matches(s, f, i, name, x, e, row);
                if let Ok((_, DerivedSemantics::Scalar(g))) = rule_formula(s.cx, name) {
                    assert(g == e);
                    let run = scalar_run(s.cx, f, e, s.ids[row], None)->Some_0;
                    if let (Ok(a), Ok(b)) = (root_cell(s.dx, i, 2, x, row), run.value) {
                        if let Some(rounding) = d.rounding {
                            same_rounded(rounding, a, b);
                        }
                    }
                }
            },
            _ => {},
        }
    }
}

pub(crate) proof fn judgment_rule_matches(s: Pairing, f: nat, i: nat, row: int)
    requires
        paired(s),
        i < s.tables.derived.len(),
        0 <= row < s.ids.len(),
    ensures
        rule_judgment(s.cx, f, s.tables.derived[i as int].name@, s.ids[row]) matches Some(run)
            ==> same_outcome(rule_outcome(s.dx, i, row), run.value),
    decreases 2 * f + 1, s, 0int, 0int,
{
    let c = s.tables.derived[i as int];
    let name = c.name@;
    rule_is_there(s, i);
    let d = s.cx.program.rule(name)->Some_0;
    reveal_with_fuel(derived_version_at, 2);
    if rule_judgment(s.cx, f, name, s.ids[row]) is Some {
        match (compiled_source(d), c.semantics) {
            (Some(DerivedSemantics::Judgment(e)), CompiledSemantics::Judgment(x)) => {
                judgment_matches(s, f, i, name, x, e, row);
            },
            _ => {},
        }
    }
}

pub(crate) proof fn scalar_matches(
    s: Pairing,
    f: nat,
    bound: nat,
    rule: Seq<char>,
    c: CompiledScalarExpr,
    e: ScalarExpr,
    row: int,
)
    requires
        paired(s),
        bound <= s.tables.derived.len(),
        0 <= row < s.ids.len(),
        shows_scalar(s.kx, s.tables, bound, rule, c, e),
        fit_scalar(s.kx, e),
    ensures
        scalar_run(s.cx, f, e, s.ids[row], None) matches Some(run) ==> same_result(
            root_cell(s.dx, bound, 2, c, row),
            run.value,
        ),
    decreases 2 * f, e, 2int, 0int,
{
    match e {
        ScalarExpr::ParameterLookup { .. } => {
            lookup_matches(s, f, bound, rule, c, e, row);
        },
        ScalarExpr::Add(..)
        | ScalarExpr::Max(..)
        | ScalarExpr::Min(..) => {
            list_matches(s, f, bound, rule, c, e, row);
        },
        ScalarExpr::Sub(..)
        | ScalarExpr::Mul(..)
        | ScalarExpr::Div(..)
        | ScalarExpr::Ceil(..)
        | ScalarExpr::Floor(..) => {
            arithmetic_matches(s, f, bound, rule, c, e, row);
        },
        ScalarExpr::DateAddDays { .. }
        | ScalarExpr::DateAddMonths { .. }
        | ScalarExpr::DateAddYears { .. } => {
            shift_matches(s, f, bound, rule, c, e, row);
        },
        ScalarExpr::DaysBetween { .. } => {
            between_matches(s, f, bound, rule, c, e, row);
        },
        ScalarExpr::If { .. } => {
            branch_matches(s, f, bound, rule, c, e, row);
        },
        ScalarExpr::CountRelated { .. } => {
            count_matches(s, f, bound, rule, c, e, row);
        },
        ScalarExpr::SumRelated { .. } => {
            total_matches(s, f, bound, rule, c, e, row);
        },
        _ => {
            leaf_matches(s, f, bound, rule, c, e, row);
        },
    }
}

pub(crate) proof fn leaf_matches(
    s: Pairing,
    f: nat,
    bound: nat,
    rule: Seq<char>,
    c: CompiledScalarExpr,
    e: ScalarExpr,
    row: int,
)
    requires
        paired(s),
        bound <= s.tables.derived.len(),
        0 <= row < s.ids.len(),
        shows_scalar(s.kx, s.tables, bound, rule, c, e),
        !(e is CountRelated || e is SumRelated || e is ParameterLookup || e is Add || e is Max
            || e is Min || e is Sub || e is Mul || e is Div || e is Ceil || e is Floor
            || e is DateAddDays || e is DateAddMonths || e is DateAddYears || e is DaysBetween
            || e is If),
        fit_scalar(s.kx, e),
    ensures
        scalar_run(s.cx, f, e, s.ids[row], None) matches Some(run) ==> same_result(
            root_cell(s.dx, bound, 2, c, row),
            run.value,
        ),
    decreases 2 * f, e, 1int, 0int,
{
    scalar_run_is_step(s.cx, f, e, s.ids[row], None);
    root_is_step(s.dx, bound, 2, c);
    assert(root_cell(s.dx, bound, 2, c, row) == root_step(s.dx, bound, 2, c, row));
    match (e, c) {
        (ScalarExpr::Input(name), CompiledScalarExpr::Input(i)) => {
            assert(input_stated(s.dx, s.cx, s.ids, i as int, row));
        },
        (ScalarExpr::InputOrElse { .. }, CompiledScalarExpr::InputOrElse { input, .. }) => {
            assert(input_stated(s.dx, s.cx, s.ids, input as int, row));
        },
        (ScalarExpr::Derived(name), CompiledScalarExpr::Derived(i)) => {
            rule_is_there(s, i as nat);
            if f > 0 {
                rule_matches(s, (f - 1) as nat, i as nat, row);
            }
        },
        _ => {},
    }
}

pub(crate) proof fn lookup_matches(
    s: Pairing,
    f: nat,
    bound: nat,
    rule: Seq<char>,
    c: CompiledScalarExpr,
    e: ScalarExpr,
    row: int,
)
    requires
        paired(s),
        bound <= s.tables.derived.len(),
        0 <= row < s.ids.len(),
        shows_scalar(s.kx, s.tables, bound, rule, c, e),
        e is ParameterLookup,
        fit_scalar(s.kx, e),
    ensures
        scalar_run(s.cx, f, e, s.ids[row], None) matches Some(run) ==> same_result(
            root_cell(s.dx, bound, 2, c, row),
            run.value,
        ),
    decreases 2 * f, e, 1int, 0int,
{
    scalar_run_is_step(s.cx, f, e, s.ids[row], None);
    root_is_step(s.dx, bound, 2, c);
    assert(root_cell(s.dx, bound, 2, c, row) == root_step(s.dx, bound, 2, c, row));
    let ent = s.ids[row];
    match (e, c) {
        (
            ScalarExpr::ParameterLookup { parameter, index },
            CompiledScalarExpr::ParameterLookup { parameter: i, index: k },
        ) => {
            scalar_matches(s, f, bound, rule, *k, *index, row);
            let given = s.tables.parameters[i as int].parameter;
            let source = s.cx.program.parameter(parameter@)->Some_0;
            same_versions(given, source, s.dx.start, given.versions@.len());
            if let Some(run) = scalar_run(s.cx, f, *index, ent, None) {
                if let (Ok(a), Ok(b)) = (root_cell(s.dx, bound, 2, *k, row), run.value) {
                    same_scalar_reads(a, b);
                }
            }
            if let Some(j) = parameter_version_at(
                given.versions@,
                s.dx.start,
                given.versions@.len(),
            ) {
                assert(given.versions@[j as int].values@ == source.versions@[j as int].values@);
                assert(
                    is_uniform(s.dx.program.parameters@[i as int].parameter.versions@[j as int])
                );
            }
        },
        _ => {},
    }
}

pub(crate) proof fn list_matches(
    s: Pairing,
    f: nat,
    bound: nat,
    rule: Seq<char>,
    c: CompiledScalarExpr,
    e: ScalarExpr,
    row: int,
)
    requires
        paired(s),
        bound <= s.tables.derived.len(),
        0 <= row < s.ids.len(),
        shows_scalar(s.kx, s.tables, bound, rule, c, e),
        e is Add || e is Max || e is Min,
        fit_scalar(s.kx, e),
    ensures
        scalar_run(s.cx, f, e, s.ids[row], None) matches Some(run) ==> same_result(
            root_cell(s.dx, bound, 2, c, row),
            run.value,
        ),
    decreases 2 * f, e, 1int, 0int,
{
    scalar_run_is_step(s.cx, f, e, s.ids[row], None);
    root_is_step(s.dx, bound, 2, c);
    assert(root_cell(s.dx, bound, 2, c, row) == root_step(s.dx, bound, 2, c, row));
    match (e, c) {
        (ScalarExpr::Add(items), CompiledScalarExpr::Add(list)) => {
            sum_matches(s, f, bound, rule, list@, items@, items@.len(), row);
        },
        (ScalarExpr::Max(items), CompiledScalarExpr::Max(list)) => {
            if items@.len() > 0 {
                extremum_matches(s, f, bound, rule, list@, items@, items@.len(), true, row);
            }
        },
        (ScalarExpr::Min(items), CompiledScalarExpr::Min(list)) => {
            if items@.len() > 0 {
                extremum_matches(s, f, bound, rule, list@, items@, items@.len(), false, row);
            }
        },
        _ => {},
    }
}

pub(crate) proof fn arithmetic_matches(
    s: Pairing,
    f: nat,
    bound: nat,
    rule: Seq<char>,
    c: CompiledScalarExpr,
    e: ScalarExpr,
    row: int,
)
    requires
        paired(s),
        bound <= s.tables.derived.len(),
        0 <= row < s.ids.len(),
        shows_scalar(s.kx, s.tables, bound, rule, c, e),
        e is Sub || e is Mul || e is Div || e is Ceil || e is Floor,
        fit_scalar(s.kx, e),
    ensures
        scalar_run(s.cx, f, e, s.ids[row], None) matches Some(run) ==> same_result(
            root_cell(s.dx, bound, 2, c, row),
            run.value,
        ),
    decreases 2 * f, e, 1int, 0int,
{
    scalar_run_is_step(s.cx, f, e, s.ids[row], None);
    root_is_step(s.dx, bound, 2, c);
    assert(root_cell(s.dx, bound, 2, c, row) == root_step(s.dx, bound, 2, c, row));
    match (e, c) {
        (ScalarExpr::Sub(a, b), CompiledScalarExpr::Sub(x, y)) => {
            pair_matches(s, f, bound, rule, *x, *a, *y, *b, row, e);
        },
        (ScalarExpr::Mul(a, b), CompiledScalarExpr::Mul(x, y)) => {
            pair_matches(s, f, bound, rule, *x, *a, *y, *b, row, e);
        },
        (ScalarExpr::Div(a, b), CompiledScalarExpr::Div(x, y)) => {
            pair_matches(s, f, bound, rule, *x, *a, *y, *b, row, e);
        },
        (ScalarExpr::Ceil(a), CompiledScalarExpr::Ceil(x)) => {
            pair_matches(s, f, bound, rule, *x, *a, *x, *a, row, e);
        },
        (ScalarExpr::Floor(a), CompiledScalarExpr::Floor(x)) => {
            pair_matches(s, f, bound, rule, *x, *a, *x, *a, row, e);
        },
        _ => {},
    }
}

pub(crate) proof fn shift_matches(
    s: Pairing,
    f: nat,
    bound: nat,
    rule: Seq<char>,
    c: CompiledScalarExpr,
    e: ScalarExpr,
    row: int,
)
    requires
        paired(s),
        bound <= s.tables.derived.len(),
        0 <= row < s.ids.len(),
        shows_scalar(s.kx, s.tables, bound, rule, c, e),
        e is DateAddDays || e is DateAddMonths || e is DateAddYears,
        fit_scalar(s.kx, e),
    ensures
        scalar_run(s.cx, f, e, s.ids[row], None) matches Some(run) ==> same_result(
            root_cell(s.dx, bound, 2, c, row),
            run.value,
        ),
    decreases 2 * f, e, 1int, 0int,
{
    scalar_run_is_step(s.cx, f, e, s.ids[row], None);
    root_is_step(s.dx, bound, 2, c);
    assert(root_cell(s.dx, bound, 2, c, row) == root_step(s.dx, bound, 2, c, row));
    match (e, c) {
        (
            ScalarExpr::DateAddDays { date, days },
            CompiledScalarExpr::DateShift { date: x, count, .. },
        ) => {
            pair_matches(s, f, bound, rule, *x, *date, *count, *days, row, e);
        },
        (
            ScalarExpr::DateAddMonths { date, months },
            CompiledScalarExpr::DateShift { date: x, count, .. },
        ) => {
            pair_matches(s, f, bound, rule, *x, *date, *count, *months, row, e);
        },
        (
            ScalarExpr::DateAddYears { date, years },
            CompiledScalarExpr::DateShift { date: x, count, .. },
        ) => {
            pair_matches(s, f, bound, rule, *x, *date, *count, *years, row, e);
        },
        _ => {},
    }
}

pub(crate) proof fn between_matches(
    s: Pairing,
    f: nat,
    bound: nat,
    rule: Seq<char>,
    c: CompiledScalarExpr,
    e: ScalarExpr,
    row: int,
)
    requires
        paired(s),
        bound <= s.tables.derived.len(),
        0 <= row < s.ids.len(),
        shows_scalar(s.kx, s.tables, bound, rule, c, e),
        e is DaysBetween,
        fit_scalar(s.kx, e),
    ensures
        scalar_run(s.cx, f, e, s.ids[row], None) matches Some(run) ==> same_result(
            root_cell(s.dx, bound, 2, c, row),
            run.value,
        ),
    decreases 2 * f, e, 1int, 0int,
{
    scalar_run_is_step(s.cx, f, e, s.ids[row], None);
    root_is_step(s.dx, bound, 2, c);
    assert(root_cell(s.dx, bound, 2, c, row) == root_step(s.dx, bound, 2, c, row));
    match (e, c) {
        (
            ScalarExpr::DaysBetween { from, to },
            CompiledScalarExpr::DaysBetween { from: x, to: y },
        ) => {
            pair_matches(s, f, bound, rule, *x, *from, *y, *to, row, e);
            if let (Ok(ScalarValue::Date(a)), Ok(ScalarValue::Date(b))) = (
                root_cell(s.dx, bound, 2, *x, row),
                root_cell(s.dx, bound, 2, *y, row),
            ) {
                Date::number_is_small(a);
                Date::number_is_small(b);
            }
        },
        _ => {},
    }
}

pub(crate) proof fn branch_matches(
    s: Pairing,
    f: nat,
    bound: nat,
    rule: Seq<char>,
    c: CompiledScalarExpr,
    e: ScalarExpr,
    row: int,
)
    requires
        paired(s),
        bound <= s.tables.derived.len(),
        0 <= row < s.ids.len(),
        shows_scalar(s.kx, s.tables, bound, rule, c, e),
        e is If,
        fit_scalar(s.kx, e),
    ensures
        scalar_run(s.cx, f, e, s.ids[row], None) matches Some(run) ==> same_result(
            root_cell(s.dx, bound, 2, c, row),
            run.value,
        ),
    decreases 2 * f, e, 1int, 0int,
{
    scalar_run_is_step(s.cx, f, e, s.ids[row], None);
    root_is_step(s.dx, bound, 2, c);
    assert(root_cell(s.dx, bound, 2, c, row) == root_step(s.dx, bound, 2, c, row));
    let ent = s.ids[row];
    match (e, c) {
        (
            ScalarExpr::If { condition, then_expr, else_expr },
            CompiledScalarExpr::If { condition: q, then_expr: x, else_expr: y },
        ) => {
            judgment_matches(s, f, bound, rule, *q, *condition, row);
            scalar_matches(s, f, bound, rule, *x, *then_expr, row);
            match (*else_expr, *y) {
                (ScalarExpr::NoMatch { .. }, CompiledScalarExpr::NoMatch { .. }) => {
                    scalar_run_is_step(s.cx, f, *else_expr, ent, None);
                    root_is_step(s.dx, bound, 2, *y);
                    assert(root_cell(s.dx, bound, 2, *y, row) == root_step(
                        s.dx,
                        bound,
                        2,
                        *y,
                        row,
                    ));
                },
                _ => {
                    scalar_matches(s, f, bound, rule, *y, *else_expr, row);
                },
            }
        },
        _ => {},
    }
}

/// Two parts of a formula match, and read alike as numbers, days and counts.
pub(crate) proof fn pair_matches(
    s: Pairing,
    f: nat,
    bound: nat,
    rule: Seq<char>,
    x: CompiledScalarExpr,
    a: ScalarExpr,
    y: CompiledScalarExpr,
    b: ScalarExpr,
    row: int,
    e: ScalarExpr,
)
    requires
        paired(s),
        bound <= s.tables.derived.len(),
        0 <= row < s.ids.len(),
        shows_scalar(s.kx, s.tables, bound, rule, x, a),
        shows_scalar(s.kx, s.tables, bound, rule, y, b),
        decreases_to!(e => a),
        decreases_to!(e => b),
        fit_scalar(s.kx, a),
        fit_scalar(s.kx, b),
    ensures
        reads_match(s, f, bound, x, a, row),
        reads_match(s, f, bound, y, b, row),
    decreases 2 * f, e, 0int, 0int,
{
    scalar_matches(s, f, bound, rule, x, a, row);
    scalar_matches(s, f, bound, rule, y, b, row);
    reads_follow(s, f, bound, x, a, row);
    reads_follow(s, f, bound, y, b, row);
}

/// Whether a part of a formula matches, and reads alike as a number, a day and a count.
pub open spec fn reads_match(
    s: Pairing,
    f: nat,
    bound: nat,
    x: CompiledScalarExpr,
    a: ScalarExpr,
    row: int,
) -> bool {
    scalar_run(s.cx, f, a, s.ids[row], None) matches Some(run) ==> match (
        root_cell(s.dx, bound, 2, x, row),
        run.value,
    ) {
        (Ok(u), Ok(v)) => u.number() == v.number() && u.day() == v.day() && u.index() == v.index(),
        (Err(_), Err(_)) => true,
        _ => false,
    }
}

pub(crate) proof fn reads_follow(
    s: Pairing,
    f: nat,
    bound: nat,
    x: CompiledScalarExpr,
    a: ScalarExpr,
    row: int,
)
    requires
        scalar_run(s.cx, f, a, s.ids[row], None) matches Some(run) ==> same_result(
            root_cell(s.dx, bound, 2, x, row),
            run.value,
        ),
    ensures
        reads_match(s, f, bound, x, a, row),
{
    if let Some(run) = scalar_run(s.cx, f, a, s.ids[row], None) {
        if let (Ok(u), Ok(v)) = (root_cell(s.dx, bound, 2, x, row), run.value) {
            same_scalar_reads(u, v);
        }
    }
}

pub(crate) proof fn sum_matches(
    s: Pairing,
    f: nat,
    bound: nat,
    rule: Seq<char>,
    list: Seq<CompiledScalarExpr>,
    items: Seq<ScalarExpr>,
    n: nat,
    row: int,
)
    requires
        paired(s),
        bound <= s.tables.derived.len(),
        0 <= row < s.ids.len(),
        list.len() == items.len(),
        n <= items.len(),
        shows_scalars(s.kx, s.tables, bound, rule, list, items, n),
        fit_scalars(s.kx, items, n),
    ensures
        sum_run(s.cx, f, items, n, s.ids[row], None) matches Some(run) ==> same_number(
            root_sum(s.dx, bound, 2, list, n, row),
            run.value,
        ),
    decreases 2 * f, items, 0int, n,
{
    if n > 0 {
        sum_matches(s, f, bound, rule, list, items, (n - 1) as nat, row);
        scalar_matches(s, f, bound, rule, list[n - 1], items[n - 1], row);
        reads_follow(s, f, bound, list[n - 1], items[n - 1], row);
    }
}

pub(crate) proof fn extremum_matches(
    s: Pairing,
    f: nat,
    bound: nat,
    rule: Seq<char>,
    list: Seq<CompiledScalarExpr>,
    items: Seq<ScalarExpr>,
    n: nat,
    largest: bool,
    row: int,
)
    requires
        paired(s),
        bound <= s.tables.derived.len(),
        0 <= row < s.ids.len(),
        list.len() == items.len(),
        1 <= n <= items.len(),
        shows_scalars(s.kx, s.tables, bound, rule, list, items, n),
        fit_scalars(s.kx, items, n),
    ensures
        extremum_run(s.cx, f, items, n, largest, s.ids[row], None) matches Some(run)
            ==> same_number(root_extremum(s.dx, bound, 2, list, n, largest, row), run.value),
    decreases 2 * f, items, 0int, n,
{
    if n > 1 {
        extremum_matches(s, f, bound, rule, list, items, (n - 1) as nat, largest, row);
    }
    scalar_matches(s, f, bound, rule, list[n - 1], items[n - 1], row);
    reads_follow(s, f, bound, list[n - 1], items[n - 1], row);
}

pub(crate) proof fn judgment_matches(
    s: Pairing,
    f: nat,
    bound: nat,
    rule: Seq<char>,
    c: CompiledJudgmentExpr,
    e: JudgmentExpr,
    row: int,
)
    requires
        paired(s),
        bound <= s.tables.derived.len(),
        0 <= row < s.ids.len(),
        shows_judgment(s.kx, s.tables, bound, rule, c, e),
        fit_judgment(s.kx, e),
    ensures
        judgment_run(s.cx, f, e, s.ids[row], None) matches Some(run) ==> same_outcome(
            root_outcome(s.dx, bound, 2, c, row),
            run.value,
        ),
    decreases 2 * f, e, 1int, 0int,
{
    let ent = s.ids[row];
    judgment_run_is_step(s.cx, f, e, ent, None);
    root_outcome_is_step(s.dx, bound, 2, c);
    assert(root_outcome(s.dx, bound, 2, c, row) == root_outcome_step(s.dx, bound, 2, c, row));
    match (e, c) {
        (
            JudgmentExpr::Comparison { left, op, right },
            CompiledJudgmentExpr::Comparison { left: x, right: y, .. },
        ) => {
            scalar_matches(s, f, bound, rule, x, left, row);
            scalar_matches(s, f, bound, rule, y, right, row);
            if let (Some(run), Some(next)) = (
                scalar_run(s.cx, f, left, ent, None),
                scalar_run(s.cx, f, right, ent, None),
            ) {
                if let (Ok(a), Ok(b), Ok(u), Ok(v)) = (
                    root_cell(s.dx, bound, 2, x, row),
                    root_cell(s.dx, bound, 2, y, row),
                    run.value,
                    next.value,
                ) {
                    compared_alike(a, u, op, b, v);
                }
            }
        },
        (JudgmentExpr::Derived(name), CompiledJudgmentExpr::Derived(i)) => {
            rule_is_there(s, i as nat);
            if f > 0 {
                judgment_rule_matches(s, (f - 1) as nat, i as nat, row);
            }
        },
        (JudgmentExpr::And(items), CompiledJudgmentExpr::And(list)) => {
            connective_matches(
                s,
                f,
                bound,
                rule,
                list@,
                items@,
                0,
                JudgmentOutcome::NotHolds,
                false,
                row,
            );
        },
        (JudgmentExpr::Or(items), CompiledJudgmentExpr::Or(list)) => {
            connective_matches(
                s,
                f,
                bound,
                rule,
                list@,
                items@,
                0,
                JudgmentOutcome::Holds,
                false,
                row,
            );
        },
        (JudgmentExpr::Not(item), CompiledJudgmentExpr::Not(x)) => {
            judgment_matches(s, f, bound, rule, *x, *item, row);
        },
        _ => {},
    }
}

pub(crate) proof fn shows_judgments_each(
    kx: CompileFacts,
    t: Tables,
    bound: nat,
    rule: Seq<char>,
    list: Seq<CompiledJudgmentExpr>,
    items: Seq<JudgmentExpr>,
    n: nat,
    i: int,
)
    requires
        shows_judgments(kx, t, bound, rule, list, items, n),
        0 <= i < n <= items.len(),
        n <= list.len(),
    ensures
        shows_judgment(kx, t, bound, rule, list[i], items[i]),
    decreases n,
{
    if i < n - 1 {
        shows_judgments_each(kx, t, bound, rule, list, items, (n - 1) as nat, i);
    }
}

/// A state that an item has decided, or an error, stays.
pub(crate) proof fn settled_stays(
    dx: DenseFacts,
    bound: nat,
    level: nat,
    list: Seq<CompiledJudgmentExpr>,
    n: nat,
    m: nat,
    decisive: JudgmentOutcome,
    row: int,
)
    requires
        n <= m <= list.len(),
        root_connective(
            dx,
            bound,
            level,
            list,
            n,
            decisive,
            row,
        ) matches Ok(state) ==> state.decided,
    ensures
        root_connective(dx, bound, level, list, m, decisive, row) == root_connective(
            dx,
            bound,
            level,
            list,
            n,
            decisive,
            row,
        ),
    decreases m,
{
    if n < m {
        settled_stays(dx, bound, level, list, n, (m - 1) as nat, decisive, row);
    }
}

pub(crate) proof fn connective_matches(
    s: Pairing,
    f: nat,
    bound: nat,
    rule: Seq<char>,
    list: Seq<CompiledJudgmentExpr>,
    items: Seq<JudgmentExpr>,
    from: nat,
    decisive: JudgmentOutcome,
    undetermined: bool,
    row: int,
)
    requires
        paired(s),
        bound <= s.tables.derived.len(),
        0 <= row < s.ids.len(),
        list.len() == items.len(),
        from <= items.len(),
        shows_judgments(s.kx, s.tables, bound, rule, list, items, items.len()),
        root_connective(s.dx, bound, 2, list, from, decisive, row) matches Ok(state)
            && !state.decided && state.undetermined == undetermined,
        fit_judgments(s.kx, items, items.len()),
    ensures
        connective_run(s.cx, f, items, from, decisive, undetermined, s.ids[row], None) matches Some(
            run,
        ) ==> same_outcome(
            crate::column::connective_outcome(
                decisive,
                root_connective(s.dx, bound, 2, list, list.len(), decisive, row),
            ),
            run.value,
        ),
    decreases 2 * f, items, 0int, items.len() - from,
{
    if from < items.len() {
        shows_judgments_each(
            s.kx,
            s.tables,
            bound,
            rule,
            list,
            items,
            items.len(),
            from as int,
        );
        fit_judgments_each(s.kx, items, items.len(), from as int);
        judgment_matches(s, f, bound, rule, list[from as int], items[from as int], row);
        if let Some(run) = judgment_run(s.cx, f, items[from as int], s.ids[row], None) {
            match run.value {
                Ok(o) if o != decisive => {
                    connective_matches(
                        s,
                        f,
                        bound,
                        rule,
                        list,
                        items,
                        from + 1,
                        decisive,
                        undetermined || o is Undetermined,
                        row,
                    );
                },
                _ => {
                    settled_stays(s.dx, bound, 2, list, from + 1, list.len(), decisive, row);
                },
            }
        }
    }
}

pub(crate) proof fn fit_judgments_each(kx: CompileFacts, items: Seq<JudgmentExpr>, n: nat, i: int)
    requires
        fit_judgments(kx, items, n),
        0 <= i < n <= items.len(),
    ensures
        fit_judgment(kx, items[i]),
    decreases n,
{
    if i < n - 1 {
        fit_judgments_each(kx, items, (n - 1) as nat, i);
    }
}

/// What counting the members among the first related rows of a row gives, or that it fails.
pub open spec fn counts_match(
    s: Pairing,
    f: nat,
    bound: nat,
    c: CompiledScalarExpr,
    e: ScalarExpr,
    lo: int,
    hi: int,
) -> bool {
    let ids = member_ids(s, relation_of(c), lo, hi);
    count_run(s.cx, f, e, ids, ids.len()) matches Some(run) ==> match (
        kept_failure(s.dx, bound, 2, c, lo, hi),
        run.value,
    ) {
        (None, Ok(count)) => kept_count(s.dx, bound, 2, c, lo, hi) == count,
        (Some(_), Err(_)) => true,
        _ => false,
    }
}

/// What summing the members among the first related rows of a row gives, or that it fails.
pub open spec fn totals_match(
    s: Pairing,
    f: nat,
    bound: nat,
    c: CompiledScalarExpr,
    e: ScalarExpr,
    lo: int,
    hi: int,
) -> bool {
    let ids = member_ids(s, relation_of(c), lo, hi);
    total_run(s.cx, f, e, ids, ids.len()) matches Some(run) ==> {
        let failed = kept_failure(s.dx, bound, 2, c, lo, hi) is Some;
        let total = kept_total(s.dx, bound, 2, c, lo, hi);
        match run.value {
            Ok(d) => !failed && total == Ok::<Decimal, ErrorView>(d),
            Err(_) => failed || total is Err,
        }
    }
}

/// Whether related rows are rows of a relation.
pub open spec fn ranges_over(s: Pairing, rel: nat, lo: int, hi: int) -> bool {
    &&& rel < s.tables.relations.len()
    &&& 0 <= lo <= hi <= s.members[rel as int].len()
}

pub(crate) proof fn counted_matches(
    s: Pairing,
    f: nat,
    bound: nat,
    rule: Seq<char>,
    c: CompiledScalarExpr,
    e: ScalarExpr,
    lo: int,
    hi: int,
)
    requires
        paired(s),
        e is CountRelated,
        shows_scalar(s.kx, s.tables, bound, rule, c, e),
        fit_scalar(s.kx, e),
        ranges_over(s, relation_of(c), lo, hi),
    ensures
        counts_match(s, f, bound, c, e, lo, hi),
    decreases 2 * f, e, 0int, hi - lo,
{
    if lo < hi {
        counted_matches(s, f, bound, rule, c, e, lo, hi - 1);
        let k = hi - 1;
        let before = member_ids(s, relation_of(c), lo, k);
        let ids = member_ids(s, relation_of(c), lo, hi);
        count_run_prefix(s.cx, f, e, before, ids, before.len());
        if let (
            ScalarExpr::CountRelated { where_clause: Some(w), .. },
            CompiledScalarExpr::CountRelated { relation, predicate: Some(q) },
        ) = (e, c) {
            related_judgment_matches(
                Pairing { level: 2, context: None, source: None, ..s },
                f,
                bound,
                relation as nat,
                rule,
                s.kx.rules(),
                s.kx.rules(),
                *q,
                *w,
                k,
            );
        }
        assert(kept_number(s.dx, bound, 2, c, k) is Ok);
        assert(member_error(s.dx, bound, 2, c, k) is Some <==> kept_test(
            s.dx,
            bound,
            2,
            c,
            k,
        ) is Err);
    }
}

/// A count for a row is the count for its entity.
pub(crate) proof fn count_matches(
    s: Pairing,
    f: nat,
    bound: nat,
    rule: Seq<char>,
    c: CompiledScalarExpr,
    e: ScalarExpr,
    row: int,
)
    requires
        paired(s),
        bound <= s.tables.derived.len(),
        0 <= row < s.ids.len(),
        shows_scalar(s.kx, s.tables, bound, rule, c, e),
        e is CountRelated,
        fit_scalar(s.kx, e),
    ensures
        scalar_run(s.cx, f, e, s.ids[row], None) matches Some(run) ==> same_result(
            root_cell(s.dx, bound, 2, c, row),
            run.value,
        ),
    decreases 2 * f, e, 1int, 0int,
{
    scalar_run_is_step(s.cx, f, e, s.ids[row], None);
    root_is_step(s.dx, bound, 2, c);
    assert(root_cell(s.dx, bound, 2, c, row) == root_step(s.dx, bound, 2, c, row));
    let rel = relation_of(c);
    if f > 0 {
        members_match(s, (f - 1) as nat, rel, row);
        let (lo, hi) = (s.dx.first_of(rel, row), s.dx.end_of(rel, row));
        counted_matches(s, f, bound, rule, c, e, lo, hi);
    }
}

pub(crate) proof fn summed_matches(
    s: Pairing,
    f: nat,
    bound: nat,
    rule: Seq<char>,
    c: CompiledScalarExpr,
    e: ScalarExpr,
    lo: int,
    hi: int,
)
    requires
        paired(s),
        e is SumRelated,
        shows_scalar(s.kx, s.tables, bound, rule, c, e),
        fit_scalar(s.kx, e),
        ranges_over(s, relation_of(c), lo, hi),
    ensures
        totals_match(s, f, bound, c, e, lo, hi),
    decreases 2 * f, e, 0int, hi - lo,
{
    if lo < hi {
        summed_matches(s, f, bound, rule, c, e, lo, hi - 1);
        let rel = relation_of(c);
        let k = hi - 1;
        let id = s.members[rel as int][k];
        let before = member_ids(s, rel, lo, k);
        let ids = member_ids(s, rel, lo, hi);
        total_run_prefix(s.cx, f, e, before, ids, before.len());
        if let (
            ScalarExpr::SumRelated { value, where_clause, .. },
            CompiledScalarExpr::SumRelated { relation, value: v, predicate },
        ) = (e, c) {
            if let (Some(w), Some(q)) = (where_clause, predicate) {
                related_judgment_matches(
                    Pairing { level: 2, context: None, source: None, ..s },
                    f,
                    bound,
                    rel,
                    rule,
                    s.kx.rules(),
                    s.kx.rules(),
                    *q,
                    *w,
                    k,
                );
            }
            assert(kept_number(s.dx, bound, 2, c, k) == numbered(
                related_cell(s.dx, bound, 2, rel, *v, k),
            ));
            assert(member_error(s.dx, bound, 2, c, k) is Some <==> (kept_test(
                s.dx,
                bound,
                2,
                c,
                k,
            ) matches Ok(kept) ==> kept && kept_number(s.dx, bound, 2, c, k) is Err));
            match value {
                RelatedValueRef::Input(name) => {
                    related_is_step(s.dx, bound, 2, rel, *v);
                    assert(related_cell(s.dx, bound, 2, rel, *v, k) == related_step(
                        s.dx,
                        bound,
                        2,
                        rel,
                        *v,
                        k,
                    ));
                    if let CompiledRelatedScalarExpr::Input(i) = *v {
                        assert(related_stated(s.dx, s.cx, s.members, rel as int, i as int, k));
                    }
                    if let (Ok(a), Ok(b)) = (
                        related_cell(s.dx, bound, 2, rel, *v, k),
                        input_value(s.cx, name@, id),
                    ) {
                        same_scalar_reads(a, b);
                    }
                },
                RelatedValueRef::Derived(name) => {
                    if f > 0 {
                        related_rule_matches(
                            Pairing { level: 2, context: None, source: None, ..s },
                            (f - 1) as nat,
                            bound,
                            rel,
                            s.kx.rules(),
                    s.kx.rules(),
                            *v,
                            name@,
                            k,
                        );
                        if let Some(run) = rule_scalar(s.cx, (f - 1) as nat, name@, id) {
                            if let (Ok(a), Ok(b)) = (
                                related_cell(s.dx, bound, 2, rel, *v, k),
                                run.value,
                            ) {
                                same_scalar_reads(a, b);
                            }
                        }
                    }
                },
            }
        }
    }
}

/// A sum for a row is the sum for its entity.
pub(crate) proof fn total_matches(
    s: Pairing,
    f: nat,
    bound: nat,
    rule: Seq<char>,
    c: CompiledScalarExpr,
    e: ScalarExpr,
    row: int,
)
    requires
        paired(s),
        bound <= s.tables.derived.len(),
        0 <= row < s.ids.len(),
        shows_scalar(s.kx, s.tables, bound, rule, c, e),
        e is SumRelated,
        fit_scalar(s.kx, e),
    ensures
        scalar_run(s.cx, f, e, s.ids[row], None) matches Some(run) ==> same_result(
            root_cell(s.dx, bound, 2, c, row),
            run.value,
        ),
    decreases 2 * f, e, 1int, 0int,
{
    scalar_run_is_step(s.cx, f, e, s.ids[row], None);
    root_is_step(s.dx, bound, 2, c);
    assert(root_cell(s.dx, bound, 2, c, row) == root_step(s.dx, bound, 2, c, row));
    let rel = relation_of(c);
    if f > 0 {
        members_match(s, (f - 1) as nat, rel, row);
        let (lo, hi) = (s.dx.first_of(rel, row), s.dx.end_of(rel, row));
        summed_matches(s, f, bound, rule, c, e, lo, hi);
    }
}

/// Dense execution in decimals matches the interpreter: on a batch that states for its rows and
/// their related rows what the facts state for their entities, a rule has for a row the value
/// that it has for the entity, or fails for both. A relation is stated or derived, not both. A
/// formula over related rows reads rules of the related rows and constants, and the filter of a
/// derived relation also rules of what it says its current rows are, in one version and not
/// rounded: such a rule is put in place of its name, as its formula stands.
pub proof fn dense_rows_match_explain(
    p: DenseCompiledProgram,
    kx: CompileFacts,
    dx: DenseFacts,
    cx: Facts,
    ids: Seq<Seq<char>>,
    members: Seq<Seq<Seq<char>>>,
    name: Seq<char>,
    row: int,
)
    requires
        stands_for(p, kx),
        relations_own(kx, cx),
        reads_own_rows(kx),
        dx.program == p,
        cx.program == kx.program,
        batch_states(dx, cx, ids, members),
        tables_uniform(p),
        position_of(p.derived@, name) is Some,
        0 <= row < ids.len(),
    ensures
        scalar_terminates(cx, name, ids[row]) ==> same_result(
            rule_cell(dx, position_of(p.derived@, name)->Some_0, row),
            scalar_meaning(cx, name, ids[row]).value,
        ),
        judgment_terminates(cx, name, ids[row]) ==> same_outcome(
            rule_outcome(dx, position_of(p.derived@, name)->Some_0, row),
            judgment_meaning(cx, name, ids[row]).value,
        ),
{
    let tables = choose|t: Tables| #[trigger]
        program_has(p, t) && tables_based(kx, t) && tables_shown(kx, t) && tables_read(kx, t);
    let s = Pairing { dx, cx, ids, members, kx, tables, level: 2, context: None, source: None };
    let i = position_of(p.derived@, name)->Some_0;
    position_from_meaning(p.derived@, name, 0);
    assert(tables.derived[i as int].name@ == name);
    if scalar_terminates(cx, name, ids[row]) {
        let f = choose|f: nat| #[trigger] rule_scalar(cx, f, name, ids[row]) is Some;
        rule_matches(s, f, i, row);
        scalar_meaning_at(cx, f, name, ids[row]);
    }
    if judgment_terminates(cx, name, ids[row]) {
        let f = choose|f: nat| #[trigger] rule_judgment(cx, f, name, ids[row]) is Some;
        judgment_rule_matches(s, f, i, row);
        judgment_meaning_at(cx, f, name, ids[row]);
    }
}

} // verus!
