//! Formulas over related rows have the values that they have for the related entities.
use crate::constant_agreement::{
    current_is_decided, current_scalar_matches, placed_judgment_matches, placed_matches,
};
use crate::date::Date;
use crate::dense::{
    related_cell, related_connective, related_extremum, related_outcome, related_outcome_step,
    related_step, related_sum, CompiledRelatedJudgmentExpr, CompiledRelatedScalarExpr, DenseFacts,
};
use crate::dense_agreement::{
    compared_alike, current_at, current_is_known, is_at_current, is_found, is_own, is_uniform,
    outside, own_judgment, own_judgments, own_scalar, own_scalars, paired, related_row,
    related_stated, rule_has_place, same_number, same_outcome, same_result, same_scalar_reads,
    same_versions, Pairing,
};
use crate::kinds::{related_is_step, related_outcome_is_step};
use crate::lowering::{
    shows_related, shows_related_judgment, shows_related_judgment_rule, shows_related_judgments,
    shows_related_rule, shows_relateds, CompileFacts, Tables,
};
use crate::model::{
    parameter_version_at, DerivedSemantics, JudgmentExpr, JudgmentOutcome, RelationDerivation,
    SCALAR_ENTITY, ScalarExpr, ScalarValue,
};
use crate::semantics::{
    connective_run, extremum_run, judgment_run, judgment_run_is_step, rule_judgment, rule_scalar,
    scalar_run, scalar_run_is_step, sum_run,
};
use vstd::prelude::*;

verus! {

pub(crate) proof fn own_judgments_each(
    kx: CompileFacts,
    current: Option<Seq<char>>,
    source: Option<RelationDerivation>,
    deep: nat,
    items: Seq<JudgmentExpr>,
    n: nat,
    i: int,
)
    requires
        own_judgments(kx, current, source, deep, items, n),
        0 <= i < n <= items.len(),
    ensures
        own_judgment(kx, current, source, deep, items[i]),
    decreases n,
{
    if i < n - 1 {
        own_judgments_each(kx, current, source, deep, items, (n - 1) as nat, i);
    }
}

pub(crate) proof fn related_scalar_matches(
    s: Pairing,
    f: nat,
    bound: nat,
    rel: nat,
    rule: Seq<char>,
    depth: nat,
    deep: nat,
    c: CompiledRelatedScalarExpr,
    e: ScalarExpr,
    k: int,
)
    requires
        paired(s),
        related_row(s, rel, k),
        is_found(s, f),
        shows_related(s.kx, s.tables, rel, rule, depth, c, e),
        own_scalar(s.kx, current_at(s, rel), s.source, deep, e),
    ensures
        scalar_run(
            s.cx,
            f,
            e,
            s.members[rel as int][k],
            s.context,
        ) matches Some(run) ==> same_result(
            related_cell(s.dx, bound, s.level, rel, c, k),
            run.value,
        ),
    decreases 2 * f, e, 2int, 0int,
{
    match e {
        ScalarExpr::ParameterLookup { .. } => {
            related_lookup_matches(s, f, bound, rel, rule, depth, deep, c, e, k);
        },
        ScalarExpr::Add(..)
        | ScalarExpr::Max(..)
        | ScalarExpr::Min(..) => {
            related_list_matches(s, f, bound, rel, rule, depth, deep, c, e, k);
        },
        ScalarExpr::Sub(..)
        | ScalarExpr::Mul(..)
        | ScalarExpr::Div(..)
        | ScalarExpr::Ceil(..)
        | ScalarExpr::Floor(..) => {
            related_arithmetic_matches(s, f, bound, rel, rule, depth, deep, c, e, k);
        },
        ScalarExpr::DateAddDays { .. }
        | ScalarExpr::DateAddMonths { .. }
        | ScalarExpr::DateAddYears { .. } => {
            related_shift_matches(s, f, bound, rel, rule, depth, deep, c, e, k);
        },
        ScalarExpr::DaysBetween { .. } => {
            related_between_matches(s, f, bound, rel, rule, depth, deep, c, e, k);
        },
        ScalarExpr::If { .. } => {
            related_branch_matches(s, f, bound, rel, rule, depth, deep, c, e, k);
        },
        ScalarExpr::Derived(name) => {
            scalar_run_is_step(s.cx, f, e, s.members[rel as int][k], s.context);
            assert(is_own(s.kx, current_at(s, rel), s.source, deep, name@));
            rule_has_place(s, name@);
            if f > 0 {
                let g = (f - 1) as nat;
                if is_at_current(s, rel, name@) {
                    home_rule_matches(s, g, bound, rel, depth, deep, c, name@, k);
                } else {
                    related_rule_matches(s, g, bound, rel, depth, deep, c, name@, k);
                }
            }
        },
        _ => {
            related_leaf_matches(s, f, bound, rel, rule, depth, deep, c, e, k);
        },
    }
}

pub(crate) proof fn related_leaf_matches(
    s: Pairing,
    f: nat,
    bound: nat,
    rel: nat,
    rule: Seq<char>,
    depth: nat,
    deep: nat,
    c: CompiledRelatedScalarExpr,
    e: ScalarExpr,
    k: int,
)
    requires
        paired(s),
        related_row(s, rel, k),
        is_found(s, f),
        shows_related(s.kx, s.tables, rel, rule, depth, c, e),
        !(e is Derived || e is ParameterLookup || e is Add || e is Max || e is Min || e is Sub
            || e is Mul || e is Div || e is Ceil || e is Floor || e is DateAddDays
            || e is DateAddMonths || e is DateAddYears || e is DaysBetween || e is If),
        own_scalar(s.kx, current_at(s, rel), s.source, deep, e),
    ensures
        scalar_run(
            s.cx,
            f,
            e,
            s.members[rel as int][k],
            s.context,
        ) matches Some(run) ==> same_result(
            related_cell(s.dx, bound, s.level, rel, c, k),
            run.value,
        ),
    decreases 2 * f, e, 1int, 0int,
{
    scalar_run_is_step(s.cx, f, e, s.members[rel as int][k], s.context);
    related_is_step(s.dx, bound, s.level, rel, c);
    assert(
        related_cell(
            s.dx,
            bound,
            s.level,
            rel,
            c,
            k,
        ) == related_step(s.dx, bound, s.level, rel, c, k)
    );
    match (e, c) {
        (ScalarExpr::Input(name), CompiledRelatedScalarExpr::Input(i)) => {
            assert(related_stated(s.dx, s.cx, s.members, rel as int, i as int, k));
        },
        (ScalarExpr::InputOrElse { .. }, CompiledRelatedScalarExpr::InputOrElse { input, .. }) => {
            assert(related_stated(s.dx, s.cx, s.members, rel as int, input as int, k));
        },
        _ => {},
    }
}

pub(crate) proof fn related_lookup_matches(
    s: Pairing,
    f: nat,
    bound: nat,
    rel: nat,
    rule: Seq<char>,
    depth: nat,
    deep: nat,
    c: CompiledRelatedScalarExpr,
    e: ScalarExpr,
    k: int,
)
    requires
        paired(s),
        related_row(s, rel, k),
        is_found(s, f),
        shows_related(s.kx, s.tables, rel, rule, depth, c, e),
        e is ParameterLookup,
        own_scalar(s.kx, current_at(s, rel), s.source, deep, e),
    ensures
        scalar_run(
            s.cx,
            f,
            e,
            s.members[rel as int][k],
            s.context,
        ) matches Some(run) ==> same_result(
            related_cell(s.dx, bound, s.level, rel, c, k),
            run.value,
        ),
    decreases 2 * f, e, 1int, 0int,
{
    scalar_run_is_step(s.cx, f, e, s.members[rel as int][k], s.context);
    related_is_step(s.dx, bound, s.level, rel, c);
    assert(
        related_cell(
            s.dx,
            bound,
            s.level,
            rel,
            c,
            k,
        ) == related_step(s.dx, bound, s.level, rel, c, k)
    );
    let ent = s.members[rel as int][k];
    match (e, c) {
        (
            ScalarExpr::ParameterLookup { parameter, index },
            CompiledRelatedScalarExpr::ParameterLookup { parameter: i, index: key },
        ) => {
            related_scalar_matches(s, f, bound, rel, rule, depth, deep, *key, *index, k);
            let given = s.tables.parameters[i as int].parameter;
            let source = s.cx.program.parameter(parameter@)->Some_0;
            same_versions(given, source, s.dx.start, given.versions@.len());
            if let Some(run) = scalar_run(s.cx, f, *index, ent, s.context) {
                if let (Ok(a), Ok(b)) = (
                    related_cell(s.dx, bound, s.level, rel, *key, k),
                    run.value,
                ) {
                    same_scalar_reads(a, b);
                }
            }
            if let Some(j) = parameter_version_at(
                given.versions@,
                s.dx.start,
                given.versions@.len(),
            ) {
                assert(given.versions@[j as int].values@ == source.versions@[j as int].values@);
                assert(
                    is_uniform(s.dx.program.parameters@[i as int].parameter.versions@[j as int])
                );
            }
        },
        _ => {},
    }
}

pub(crate) proof fn related_list_matches(
    s: Pairing,
    f: nat,
    bound: nat,
    rel: nat,
    rule: Seq<char>,
    depth: nat,
    deep: nat,
    c: CompiledRelatedScalarExpr,
    e: ScalarExpr,
    k: int,
)
    requires
        paired(s),
        related_row(s, rel, k),
        is_found(s, f),
        shows_related(s.kx, s.tables, rel, rule, depth, c, e),
        e is Add || e is Max || e is Min,
        own_scalar(s.kx, current_at(s, rel), s.source, deep, e),
    ensures
        scalar_run(
            s.cx,
            f,
            e,
            s.members[rel as int][k],
            s.context,
        ) matches Some(run) ==> same_result(
            related_cell(s.dx, bound, s.level, rel, c, k),
            run.value,
        ),
    decreases 2 * f, e, 1int, 0int,
{
    scalar_run_is_step(s.cx, f, e, s.members[rel as int][k], s.context);
    related_is_step(s.dx, bound, s.level, rel, c);
    assert(
        related_cell(
            s.dx,
            bound,
            s.level,
            rel,
            c,
            k,
        ) == related_step(s.dx, bound, s.level, rel, c, k)
    );
    match (e, c) {
        (ScalarExpr::Add(items), CompiledRelatedScalarExpr::Add(list)) => {
            related_sum_matches(
                s,
                f,
                bound,
                rel,
                rule,
                depth,
                deep,
                list@,
                items@,
                items@.len(),
                k,
            );
        },
        (ScalarExpr::Max(items), CompiledRelatedScalarExpr::Max(list)) => {
            if items@.len() > 0 {
                related_extremum_matches(
                    s,
                    f,
                    bound,
                    rel,
                    rule,
                    depth,
                    deep,
                    list@,
                    items@,
                    items@.len(),
                    true,
                    k,
                );
            }
        },
        (ScalarExpr::Min(items), CompiledRelatedScalarExpr::Min(list)) => {
            if items@.len() > 0 {
                related_extremum_matches(
                    s,
                    f,
                    bound,
                    rel,
                    rule,
                    depth,
                    deep,
                    list@,
                    items@,
                    items@.len(),
                    false,
                    k,
                );
            }
        },
        _ => {},
    }
}

pub(crate) proof fn related_arithmetic_matches(
    s: Pairing,
    f: nat,
    bound: nat,
    rel: nat,
    rule: Seq<char>,
    depth: nat,
    deep: nat,
    c: CompiledRelatedScalarExpr,
    e: ScalarExpr,
    k: int,
)
    requires
        paired(s),
        related_row(s, rel, k),
        is_found(s, f),
        shows_related(s.kx, s.tables, rel, rule, depth, c, e),
        e is Sub || e is Mul || e is Div || e is Ceil || e is Floor,
        own_scalar(s.kx, current_at(s, rel), s.source, deep, e),
    ensures
        scalar_run(
            s.cx,
            f,
            e,
            s.members[rel as int][k],
            s.context,
        ) matches Some(run) ==> same_result(
            related_cell(s.dx, bound, s.level, rel, c, k),
            run.value,
        ),
    decreases 2 * f, e, 1int, 0int,
{
    scalar_run_is_step(s.cx, f, e, s.members[rel as int][k], s.context);
    related_is_step(s.dx, bound, s.level, rel, c);
    assert(
        related_cell(
            s.dx,
            bound,
            s.level,
            rel,
            c,
            k,
        ) == related_step(s.dx, bound, s.level, rel, c, k)
    );
    match (e, c) {
        (ScalarExpr::Sub(a, b), CompiledRelatedScalarExpr::Sub(x, y)) => {
            related_pair_matches(s, f, bound, rel, rule, depth, deep, *x, *a, *y, *b, k, e);
        },
        (ScalarExpr::Mul(a, b), CompiledRelatedScalarExpr::Mul(x, y)) => {
            related_pair_matches(s, f, bound, rel, rule, depth, deep, *x, *a, *y, *b, k, e);
        },
        (ScalarExpr::Div(a, b), CompiledRelatedScalarExpr::Div(x, y)) => {
            related_pair_matches(s, f, bound, rel, rule, depth, deep, *x, *a, *y, *b, k, e);
        },
        (ScalarExpr::Ceil(a), CompiledRelatedScalarExpr::Ceil(x)) => {
            related_pair_matches(s, f, bound, rel, rule, depth, deep, *x, *a, *x, *a, k, e);
        },
        (ScalarExpr::Floor(a), CompiledRelatedScalarExpr::Floor(x)) => {
            related_pair_matches(s, f, bound, rel, rule, depth, deep, *x, *a, *x, *a, k, e);
        },
        _ => {},
    }
}

pub(crate) proof fn related_shift_matches(
    s: Pairing,
    f: nat,
    bound: nat,
    rel: nat,
    rule: Seq<char>,
    depth: nat,
    deep: nat,
    c: CompiledRelatedScalarExpr,
    e: ScalarExpr,
    k: int,
)
    requires
        paired(s),
        related_row(s, rel, k),
        is_found(s, f),
        shows_related(s.kx, s.tables, rel, rule, depth, c, e),
        e is DateAddDays || e is DateAddMonths || e is DateAddYears,
        own_scalar(s.kx, current_at(s, rel), s.source, deep, e),
    ensures
        scalar_run(
            s.cx,
            f,
            e,
            s.members[rel as int][k],
            s.context,
        ) matches Some(run) ==> same_result(
            related_cell(s.dx, bound, s.level, rel, c, k),
            run.value,
        ),
    decreases 2 * f, e, 1int, 0int,
{
    scalar_run_is_step(s.cx, f, e, s.members[rel as int][k], s.context);
    related_is_step(s.dx, bound, s.level, rel, c);
    assert(
        related_cell(
            s.dx,
            bound,
            s.level,
            rel,
            c,
            k,
        ) == related_step(s.dx, bound, s.level, rel, c, k)
    );
    match (e, c) {
        (
            ScalarExpr::DateAddDays { date, days },
            CompiledRelatedScalarExpr::DateShift { date: x, count, .. },
        ) => {
            related_pair_matches(
                s,
                f,
                bound,
                rel,
                rule,
                depth,
                deep,
                *x,
                *date,
                *count,
                *days,
                k,
                e,
            );
        },
        (
            ScalarExpr::DateAddMonths { date, months },
            CompiledRelatedScalarExpr::DateShift { date: x, count, .. },
        ) => {
            related_pair_matches(
                s,
                f,
                bound,
                rel,
                rule,
                depth,
                deep,
                *x,
                *date,
                *count,
                *months,
                k,
                e,
            );
        },
        (
            ScalarExpr::DateAddYears { date, years },
            CompiledRelatedScalarExpr::DateShift { date: x, count, .. },
        ) => {
            related_pair_matches(
                s,
                f,
                bound,
                rel,
                rule,
                depth,
                deep,
                *x,
                *date,
                *count,
                *years,
                k,
                e,
            );
        },
        _ => {},
    }
}

pub(crate) proof fn related_between_matches(
    s: Pairing,
    f: nat,
    bound: nat,
    rel: nat,
    rule: Seq<char>,
    depth: nat,
    deep: nat,
    c: CompiledRelatedScalarExpr,
    e: ScalarExpr,
    k: int,
)
    requires
        paired(s),
        related_row(s, rel, k),
        is_found(s, f),
        shows_related(s.kx, s.tables, rel, rule, depth, c, e),
        e is DaysBetween,
        own_scalar(s.kx, current_at(s, rel), s.source, deep, e),
    ensures
        scalar_run(
            s.cx,
            f,
            e,
            s.members[rel as int][k],
            s.context,
        ) matches Some(run) ==> same_result(
            related_cell(s.dx, bound, s.level, rel, c, k),
            run.value,
        ),
    decreases 2 * f, e, 1int, 0int,
{
    scalar_run_is_step(s.cx, f, e, s.members[rel as int][k], s.context);
    related_is_step(s.dx, bound, s.level, rel, c);
    assert(
        related_cell(
            s.dx,
            bound,
            s.level,
            rel,
            c,
            k,
        ) == related_step(s.dx, bound, s.level, rel, c, k)
    );
    match (e, c) {
        (
            ScalarExpr::DaysBetween { from, to },
            CompiledRelatedScalarExpr::DaysBetween { from: x, to: y },
        ) => {
            related_pair_matches(s, f, bound, rel, rule, depth, deep, *x, *from, *y, *to, k, e);
            if let (Ok(ScalarValue::Date(a)), Ok(ScalarValue::Date(b))) = (
                related_cell(s.dx, bound, s.level, rel, *x, k),
                related_cell(s.dx, bound, s.level, rel, *y, k),
            ) {
                Date::number_is_small(a);
                Date::number_is_small(b);
            }
        },
        _ => {},
    }
}

pub(crate) proof fn related_branch_matches(
    s: Pairing,
    f: nat,
    bound: nat,
    rel: nat,
    rule: Seq<char>,
    depth: nat,
    deep: nat,
    c: CompiledRelatedScalarExpr,
    e: ScalarExpr,
    k: int,
)
    requires
        paired(s),
        related_row(s, rel, k),
        is_found(s, f),
        shows_related(s.kx, s.tables, rel, rule, depth, c, e),
        e is If,
        own_scalar(s.kx, current_at(s, rel), s.source, deep, e),
    ensures
        scalar_run(
            s.cx,
            f,
            e,
            s.members[rel as int][k],
            s.context,
        ) matches Some(run) ==> same_result(
            related_cell(s.dx, bound, s.level, rel, c, k),
            run.value,
        ),
    decreases 2 * f, e, 1int, 0int,
{
    scalar_run_is_step(s.cx, f, e, s.members[rel as int][k], s.context);
    related_is_step(s.dx, bound, s.level, rel, c);
    assert(
        related_cell(
            s.dx,
            bound,
            s.level,
            rel,
            c,
            k,
        ) == related_step(s.dx, bound, s.level, rel, c, k)
    );
    let ent = s.members[rel as int][k];
    match (e, c) {
        (
            ScalarExpr::If { condition, then_expr, else_expr },
            CompiledRelatedScalarExpr::If { condition: q, then_expr: x, else_expr: y },
        ) => {
            related_judgment_matches(s, f, bound, rel, rule, depth, deep, *q, *condition, k);
            related_scalar_matches(s, f, bound, rel, rule, depth, deep, *x, *then_expr, k);
            match (*else_expr, *y) {
                (ScalarExpr::NoMatch { .. }, CompiledRelatedScalarExpr::NoMatch { .. }) => {
                    scalar_run_is_step(s.cx, f, *else_expr, ent, s.context);
                    related_is_step(s.dx, bound, s.level, rel, *y);
                    assert(related_cell(s.dx, bound, s.level, rel, *y, k) == related_step(
                        s.dx,
                        bound,
                        s.level,
                        rel,
                        *y,
                        k,
                    ));
                },
                _ => {
                    related_scalar_matches(s, f, bound, rel, rule, depth, deep, *y, *else_expr, k);
                },
            }
        },
        _ => {},
    }
}

/// Two parts of a formula match, and read alike as numbers, days and counts.
pub(crate) proof fn related_pair_matches(
    s: Pairing,
    f: nat,
    bound: nat,
    rel: nat,
    rule: Seq<char>,
    depth: nat,
    deep: nat,
    x: CompiledRelatedScalarExpr,
    a: ScalarExpr,
    y: CompiledRelatedScalarExpr,
    b: ScalarExpr,
    k: int,
    e: ScalarExpr,
)
    requires
        paired(s),
        related_row(s, rel, k),
        is_found(s, f),
        shows_related(s.kx, s.tables, rel, rule, depth, x, a),
        shows_related(s.kx, s.tables, rel, rule, depth, y, b),
        decreases_to!(e => a),
        decreases_to!(e => b),
        own_scalar(s.kx, current_at(s, rel), s.source, deep, a),
        own_scalar(s.kx, current_at(s, rel), s.source, deep, b),
    ensures
        related_reads_match(s, f, bound, rel, x, a, k),
        related_reads_match(s, f, bound, rel, y, b, k),
    decreases 2 * f, e, 0int, 0int,
{
    related_scalar_matches(s, f, bound, rel, rule, depth, deep, x, a, k);
    related_scalar_matches(s, f, bound, rel, rule, depth, deep, y, b, k);
    related_reads_follow(s, f, bound, rel, x, a, k);
    related_reads_follow(s, f, bound, rel, y, b, k);
}

pub(crate) proof fn related_reads_follow(
    s: Pairing,
    f: nat,
    bound: nat,
    rel: nat,
    x: CompiledRelatedScalarExpr,
    a: ScalarExpr,
    k: int,
)
    requires
        scalar_run(
            s.cx,
            f,
            a,
            s.members[rel as int][k],
            s.context,
        ) matches Some(run) ==> same_result(
            related_cell(s.dx, bound, s.level, rel, x, k),
            run.value,
        ),
    ensures
        related_reads_match(s, f, bound, rel, x, a, k),
{
    if let Some(run) = scalar_run(s.cx, f, a, s.members[rel as int][k], s.context) {
        if let (Ok(u), Ok(v)) = (related_cell(s.dx, bound, s.level, rel, x, k), run.value) {
            same_scalar_reads(u, v);
        }
    }
}

pub(crate) proof fn related_sum_matches(
    s: Pairing,
    f: nat,
    bound: nat,
    rel: nat,
    rule: Seq<char>,
    depth: nat,
    deep: nat,
    list: Seq<CompiledRelatedScalarExpr>,
    items: Seq<ScalarExpr>,
    n: nat,
    k: int,
)
    requires
        paired(s),
        related_row(s, rel, k),
        is_found(s, f),
        list.len() == items.len(),
        n <= items.len(),
        shows_relateds(s.kx, s.tables, rel, rule, depth, list, items, n),
        own_scalars(s.kx, current_at(s, rel), s.source, deep, items, n),
    ensures
        sum_run(
            s.cx,
            f,
            items,
            n,
            s.members[rel as int][k],
            s.context,
        ) matches Some(run) ==> same_number(
            related_sum(s.dx, bound, s.level, rel, list, n, k),
            run.value,
        ),
    decreases 2 * f, items, 0int, n,
{
    if n > 0 {
        related_sum_matches(s, f, bound, rel, rule, depth, deep, list, items, (n - 1) as nat, k);
        related_scalar_matches(s, f, bound, rel, rule, depth, deep, list[n - 1], items[n - 1], k);
        related_reads_follow(s, f, bound, rel, list[n - 1], items[n - 1], k);
    }
}

pub(crate) proof fn related_extremum_matches(
    s: Pairing,
    f: nat,
    bound: nat,
    rel: nat,
    rule: Seq<char>,
    depth: nat,
    deep: nat,
    list: Seq<CompiledRelatedScalarExpr>,
    items: Seq<ScalarExpr>,
    n: nat,
    largest: bool,
    k: int,
)
    requires
        paired(s),
        related_row(s, rel, k),
        is_found(s, f),
        list.len() == items.len(),
        1 <= n <= items.len(),
        shows_relateds(s.kx, s.tables, rel, rule, depth, list, items, n),
        own_scalars(s.kx, current_at(s, rel), s.source, deep, items, n),
    ensures
        extremum_run(
            s.cx,
            f,
            items,
            n,
            largest,
            s.members[rel as int][k],
            s.context,
        ) matches Some(run)
            ==> same_number(
                related_extremum(s.dx, bound, s.level, rel, list, n, largest, k),
                run.value,
            ),
    decreases 2 * f, items, 0int, n,
{
    if n > 1 {
        related_extremum_matches(
            s,
            f,
            bound,
            rel,
            rule,
            depth,
            deep,
            list,
            items,
            (n - 1) as nat,
            largest,
            k,
        );
    }
    related_scalar_matches(s, f, bound, rel, rule, depth, deep, list[n - 1], items[n - 1], k);
    related_reads_follow(s, f, bound, rel, list[n - 1], items[n - 1], k);
}

pub(crate) proof fn related_judgment_matches(
    s: Pairing,
    f: nat,
    bound: nat,
    rel: nat,
    rule: Seq<char>,
    depth: nat,
    deep: nat,
    c: CompiledRelatedJudgmentExpr,
    e: JudgmentExpr,
    k: int,
)
    requires
        paired(s),
        related_row(s, rel, k),
        is_found(s, f),
        shows_related_judgment(s.kx, s.tables, rel, rule, depth, c, e),
        own_judgment(s.kx, current_at(s, rel), s.source, deep, e),
    ensures
        judgment_run(
            s.cx,
            f,
            e,
            s.members[rel as int][k],
            s.context,
        ) matches Some(run) ==> same_outcome(
            related_outcome(s.dx, bound, s.level, rel, c, k),
            run.value,
        ),
    decreases 2 * f, e, 1int, 0int,
{
    let ent = s.members[rel as int][k];
    judgment_run_is_step(s.cx, f, e, ent, s.context);
    if let JudgmentExpr::Derived(name) = e {
        assert(is_own(s.kx, current_at(s, rel), s.source, deep, name@));
        rule_has_place(s, name@);
        if f > 0 {
            let g = (f - 1) as nat;
            if is_at_current(s, rel, name@) {
                home_judgment_matches(s, g, bound, rel, depth, deep, c, name@, k);
            } else {
                related_judgment_rule_matches(s, g, bound, rel, depth, deep, c, name@, k);
            }
        }
    }
    related_outcome_is_step(s.dx, bound, s.level, rel, c);
    assert(
        related_outcome(
            s.dx,
            bound,
            s.level,
            rel,
            c,
            k,
        ) == related_outcome_step(s.dx, bound, s.level, rel, c, k)
    );
    match (e, c) {
        (
            JudgmentExpr::Comparison { left, op, right },
            CompiledRelatedJudgmentExpr::Comparison { left: x, right: y, .. },
        ) => {
            related_scalar_matches(s, f, bound, rel, rule, depth, deep, x, left, k);
            related_scalar_matches(s, f, bound, rel, rule, depth, deep, y, right, k);
            if let (Some(run), Some(next)) = (
                scalar_run(s.cx, f, left, ent, s.context),
                scalar_run(s.cx, f, right, ent, s.context),
            ) {
                if let (Ok(a), Ok(b), Ok(u), Ok(v)) = (
                    related_cell(s.dx, bound, s.level, rel, x, k),
                    related_cell(s.dx, bound, s.level, rel, y, k),
                    run.value,
                    next.value,
                ) {
                    compared_alike(a, u, op, b, v);
                }
            }
        },
        (JudgmentExpr::And(items), CompiledRelatedJudgmentExpr::And(list)) => {
            related_connective_matches(
                s,
                f,
                bound,
                rel,
                rule,
                depth,
                deep,
                list@,
                items@,
                0,
                JudgmentOutcome::NotHolds,
                false,
                k,
            );
        },
        (JudgmentExpr::Or(items), CompiledRelatedJudgmentExpr::Or(list)) => {
            related_connective_matches(
                s,
                f,
                bound,
                rel,
                rule,
                depth,
                deep,
                list@,
                items@,
                0,
                JudgmentOutcome::Holds,
                false,
                k,
            );
        },
        (JudgmentExpr::Not(item), CompiledRelatedJudgmentExpr::Not(x)) => {
            related_judgment_matches(s, f, bound, rel, rule, depth, deep, *x, *item, k);
        },
        _ => {},
    }
}

pub(crate) proof fn shows_related_judgments_each(
    kx: CompileFacts,
    t: Tables,
    rel: nat,
    rule: Seq<char>,
    depth: nat,
    list: Seq<CompiledRelatedJudgmentExpr>,
    items: Seq<JudgmentExpr>,
    n: nat,
    i: int,
)
    requires
        shows_related_judgments(kx, t, rel, rule, depth, list, items, n),
        0 <= i < n <= items.len(),
        n <= list.len(),
    ensures
        shows_related_judgment(kx, t, rel, rule, depth, list[i], items[i]),
    decreases n,
{
    if i < n - 1 {
        shows_related_judgments_each(kx, t, rel, rule, depth, list, items, (n - 1) as nat, i);
    }
}

/// A state that an item has decided, or an error, stays.
pub(crate) proof fn related_settled_stays(
    dx: DenseFacts,
    bound: nat,
    level: nat,
    rel: nat,
    list: Seq<CompiledRelatedJudgmentExpr>,
    n: nat,
    m: nat,
    decisive: JudgmentOutcome,
    k: int,
)
    requires
        n <= m <= list.len(),
        related_connective(
            dx,
            bound,
            level,
            rel,
            list,
            n,
            decisive,
            k,
        ) matches Ok(state) ==> state.decided,
    ensures
        related_connective(dx, bound, level, rel, list, m, decisive, k) == related_connective(
            dx,
            bound,
            level,
            rel,
            list,
            n,
            decisive,
            k,
        ),
    decreases m,
{
    if n < m {
        related_settled_stays(dx, bound, level, rel, list, n, (m - 1) as nat, decisive, k);
    }
}

pub(crate) proof fn related_connective_matches(
    s: Pairing,
    f: nat,
    bound: nat,
    rel: nat,
    rule: Seq<char>,
    depth: nat,
    deep: nat,
    list: Seq<CompiledRelatedJudgmentExpr>,
    items: Seq<JudgmentExpr>,
    from: nat,
    decisive: JudgmentOutcome,
    undetermined: bool,
    k: int,
)
    requires
        paired(s),
        related_row(s, rel, k),
        is_found(s, f),
        list.len() == items.len(),
        from <= items.len(),
        shows_related_judgments(s.kx, s.tables, rel, rule, depth, list, items, items.len()),
        related_connective(s.dx, bound, s.level, rel, list, from, decisive, k) matches Ok(state)
            && !state.decided && state.undetermined == undetermined,
        own_judgments(s.kx, current_at(s, rel), s.source, deep, items, items.len()),
    ensures
        connective_run(
            s.cx,
            f,
            items,
            from,
            decisive,
            undetermined,
            s.members[rel as int][k],
            s.context,
        ) matches Some(
            run,
        ) ==> same_outcome(
            crate::column::connective_outcome(
                decisive,
                related_connective(s.dx, bound, s.level, rel, list, list.len(), decisive, k),
            ),
            run.value,
        ),
    decreases 2 * f, items, 0int, items.len() - from,
{
    if from < items.len() {
        shows_related_judgments_each(
            s.kx,
            s.tables,
            rel,
            rule,
            depth,
            list,
            items,
            items.len(),
            from as int,
        );
        own_judgments_each(
            s.kx,
            current_at(s, rel),
            s.source,
            deep,
            items,
            items.len(),
            from as int,
        );
        related_judgment_matches(
            s,
            f,
            bound,
            rel,
            rule,
            depth,
            deep,
            list[from as int],
            items[from as int],
            k,
        );
        if let Some(run) = judgment_run(
            s.cx,
            f,
            items[from as int],
            s.members[rel as int][k],
            s.context,
        ) {
            match run.value {
                Ok(o) if o != decisive => {
                    related_connective_matches(
                        s,
                        f,
                        bound,
                        rel,
                        rule,
                        depth,
                        deep,
                        list,
                        items,
                        from + 1,
                        decisive,
                        undetermined || o is Undetermined,
                        k,
                    );
                },
                _ => {
                    related_settled_stays(
                        s.dx,
                        bound,
                        s.level,
                        rel,
                        list,
                        from + 1,
                        list.len(),
                        decisive,
                        k,
                    );
                },
            }
        }
    }
}

/// Whether a part of a formula matches, and reads alike as a number, a day and a count.
pub open spec fn related_reads_match(
    s: Pairing,
    f: nat,
    bound: nat,
    rel: nat,
    x: CompiledRelatedScalarExpr,
    a: ScalarExpr,
    k: int,
) -> bool {
    scalar_run(s.cx, f, a, s.members[rel as int][k], s.context) matches Some(run) ==> match (
        related_cell(s.dx, bound, s.level, rel, x, k),
        run.value,
    ) {
        (Ok(u), Ok(v)) => u.number() == v.number() && u.day() == v.day() && u.index() == v.index(),
        (Err(_), Err(_)) => true,
        _ => false,
    }
}

/// A rule that is put in place for a related row has the value that it has for the entity.
pub(crate) proof fn related_rule_matches(
    s: Pairing,
    f: nat,
    bound: nat,
    rel: nat,
    depth: nat,
    deep: nat,
    c: CompiledRelatedScalarExpr,
    name: Seq<char>,
    k: int,
)
    requires
        paired(s),
        related_row(s, rel, k),
        is_own(s.kx, current_at(s, rel), s.source, deep, name),
        !is_at_current(s, rel, name),
        shows_related_rule(s.kx, s.tables, rel, depth, c, name),
    ensures
        rule_scalar(s.cx, f, name, s.members[rel as int][k]) matches Some(run) ==> same_result(
            related_cell(s.dx, bound, s.level, rel, c, k),
            run.value,
        ),
    decreases 2 * f + 1, s, 0int, 0int,
{
    rule_has_place(s, name);
    current_is_known(s, rel);
    let d = s.cx.program.rule(name)->Some_0;
    if let DerivedSemantics::Scalar(e) = d.semantics {
        if d.entity@ == SCALAR_ENTITY@ {
            related_is_step(s.dx, bound, s.level, rel, c);
            assert(related_cell(s.dx, bound, s.level, rel, c, k) == related_step(
                s.dx,
                bound,
                s.level,
                rel,
                c,
                k,
            ));
            if let CompiledRelatedScalarExpr::RootScalar(x) = c {
                current_scalar_matches(
                    s,
                    f,
                    bound,
                    name,
                    (depth - 1) as nat,
                    false,
                    (deep - 1) as nat,
                    *x,
                    e,
                    s.members[rel as int][k],
                    s.dx.owner(rel, k),
                );
            }
        } else {
            related_scalar_matches(
                outside(s),
                f,
                bound,
                rel,
                name,
                (depth - 1) as nat,
                (deep - 1) as nat,
                c,
                e,
                k,
            );
        }
    }
}

/// A judgment rule that is put in place for a related row has the outcome that it has for the
/// entity.
pub(crate) proof fn related_judgment_rule_matches(
    s: Pairing,
    f: nat,
    bound: nat,
    rel: nat,
    depth: nat,
    deep: nat,
    c: CompiledRelatedJudgmentExpr,
    name: Seq<char>,
    k: int,
)
    requires
        paired(s),
        related_row(s, rel, k),
        is_own(s.kx, current_at(s, rel), s.source, deep, name),
        !is_at_current(s, rel, name),
        shows_related_judgment_rule(s.kx, s.tables, rel, depth, c, name),
    ensures
        rule_judgment(s.cx, f, name, s.members[rel as int][k]) matches Some(run) ==> same_outcome(
            related_outcome(s.dx, bound, s.level, rel, c, k),
            run.value,
        ),
    decreases 2 * f + 1, s, 0int, 0int,
{
    rule_has_place(s, name);
    current_is_known(s, rel);
    let d = s.cx.program.rule(name)->Some_0;
    if let DerivedSemantics::Judgment(e) = d.semantics {
        related_judgment_matches(
            outside(s),
            f,
            bound,
            rel,
            name,
            (depth - 1) as nat,
            (deep - 1) as nat,
            c,
            e,
            k,
        );
    }
}

/// A rule of the current rows that a test reads has the value that it has for the current entity.
pub(crate) proof fn home_rule_matches(
    s: Pairing,
    f: nat,
    bound: nat,
    rel: nat,
    depth: nat,
    deep: nat,
    c: CompiledRelatedScalarExpr,
    name: Seq<char>,
    k: int,
)
    requires
        paired(s),
        related_row(s, rel, k),
        is_own(s.kx, current_at(s, rel), s.source, deep, name),
        is_at_current(s, rel, name),
        shows_related_rule(s.kx, s.tables, rel, depth, c, name),
    ensures
        rule_scalar(s.cx, f, name, s.context->0.current_id) matches Some(run) ==> same_result(
            related_cell(s.dx, bound, s.level, rel, c, k),
            run.value,
        ),
    decreases 2 * f + 1, s, 0int, 0int,
{
    current_is_known(s, rel);
    rule_has_place(s, name);
    related_is_step(s.dx, bound, s.level, rel, c);
    assert(related_cell(s.dx, bound, s.level, rel, c, k) == related_step(
        s.dx,
        bound,
        s.level,
        rel,
        c,
        k,
    ));
    if let CompiledRelatedScalarExpr::RootScalar(x) = c {
        let (ent, row) = (s.context->0.current_id, s.dx.owner(rel, k));
        placed_matches(s, f, bound, depth, true, deep, *x, name, ent, row);
    }
}

/// A judgment rule of the current rows that a test reads has the outcome that it has for the
/// current entity.
pub(crate) proof fn home_judgment_matches(
    s: Pairing,
    f: nat,
    bound: nat,
    rel: nat,
    depth: nat,
    deep: nat,
    c: CompiledRelatedJudgmentExpr,
    name: Seq<char>,
    k: int,
)
    requires
        paired(s),
        related_row(s, rel, k),
        is_own(s.kx, current_at(s, rel), s.source, deep, name),
        is_at_current(s, rel, name),
        shows_related_judgment_rule(s.kx, s.tables, rel, depth, c, name),
    ensures
        rule_judgment(s.cx, f, name, s.context->0.current_id) matches Some(run) ==> same_outcome(
            related_outcome(s.dx, bound, s.level, rel, c, k),
            run.value,
        ),
    decreases 2 * f + 1, s, 0int, 0int,
{
    current_is_known(s, rel);
    rule_has_place(s, name);
    related_outcome_is_step(s.dx, bound, s.level, rel, c);
    assert(related_outcome(s.dx, bound, s.level, rel, c, k) == related_outcome_step(
        s.dx,
        bound,
        s.level,
        rel,
        c,
        k,
    ));
    if let CompiledRelatedJudgmentExpr::RootJudgment(x) = c {
        let (ent, row) = (s.context->0.current_id, s.dx.owner(rel, k));
        placed_judgment_matches(s, f, bound, depth, true, deep, *x, name, ent, row);
        let d = s.kx.rule_at(s.kx.position(name)->Some_0);
        if let DerivedSemantics::Judgment(e) = d.semantics {
            current_is_decided(s, bound, name, (depth - 1) as nat, *x, e, row);
        }
    }
}

} // verus!
