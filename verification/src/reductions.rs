//! Reductions over periods: which formulas hold one, and lifetime execution.
use crate::batch::{
    bound_batch, bound_batch_fits, first_row_error, listed_outputs, outputs_are, request_failure,
    requested_rule, same_values, DenseBatchSpec, DenseExecutionResult, DenseOutputValue, RuleValue,
};
use crate::dense::{
    judgment_fits, judgments_fit, judgments_fit_each, scalar_fits, scalars_fit, scalars_fit_each,
    BatchView, CompiledJudgmentExpr, CompiledRelatedJudgmentExpr, CompiledRelatedScalarExpr,
    CompiledScalarExpr, CompiledSemantics, DenseCompiledProgram, DenseFacts,
};
use crate::error::{ErrorView, EvalError};
use crate::executor::DenseExecutor;
use crate::kinds::mixed_branches;
use crate::lazy::{RowErrors, RowMask};
use crate::lifetime::{
    life_rule, life_rule_kind, life_rule_outcome, life_rule_typed, LifetimeFacts,
};
use crate::lifetime_executor::LifetimeExecutor;
use crate::mixing::{
    all_rows, fresh, life_fresh, life_rule_judgment_work, life_rule_work, rows_of, LifeWorked,
};
use crate::model::{find_index, OverPeriodsKind, Period};
use vstd::prelude::*;
use vstd::string::*;

verus! {

/// Whether a rule's formula holds a reduction over periods, directly or through the
/// rules that it refers to.
pub open spec fn rule_reduces(p: DenseCompiledProgram, i: nat) -> bool
    decreases i, 1int, p, 0int, 0int,
{
    match p.derived@[i as int].semantics {
        CompiledSemantics::Scalar(e) => scalar_reduces(p, i, e),
        CompiledSemantics::Judgment(e) => judgment_reduces(p, i, e),
    }
}

/// Whether a formula holds a reduction over periods. Aggregations over relations are
/// not searched.
pub open spec fn scalar_reduces(p: DenseCompiledProgram, bound: nat, e: CompiledScalarExpr) -> bool
    decreases bound, 0int, e, 1int, 0int,
{
    match e {
        CompiledScalarExpr::OverPeriods { .. } => true,
        CompiledScalarExpr::Derived(i) => i < bound && rule_reduces(p, i as nat),
        CompiledScalarExpr::ParameterLookup { index, .. } => scalar_reduces(p, bound, *index),
        CompiledScalarExpr::Add(items) => any_reduces(p, bound, items@, items@.len()),
        CompiledScalarExpr::Max(items) => any_reduces(p, bound, items@, items@.len()),
        CompiledScalarExpr::Min(items) => any_reduces(p, bound, items@, items@.len()),
        CompiledScalarExpr::Sub(a, b) => scalar_reduces(p, bound, *a) || scalar_reduces(
            p,
            bound,
            *b,
        ),
        CompiledScalarExpr::Mul(a, b) => scalar_reduces(p, bound, *a) || scalar_reduces(
            p,
            bound,
            *b,
        ),
        CompiledScalarExpr::Div(a, b) => scalar_reduces(p, bound, *a) || scalar_reduces(
            p,
            bound,
            *b,
        ),
        CompiledScalarExpr::Ceil(a) => scalar_reduces(p, bound, *a),
        CompiledScalarExpr::Floor(a) => scalar_reduces(p, bound, *a),
        CompiledScalarExpr::DateShift { date, count, .. } => scalar_reduces(p, bound, *date)
            || scalar_reduces(p, bound, *count),
        CompiledScalarExpr::DaysBetween { from, to } => scalar_reduces(p, bound, *from)
            || scalar_reduces(p, bound, *to),
        CompiledScalarExpr::If { condition, then_expr, else_expr } => judgment_reduces(
            p,
            bound,
            *condition,
        ) || scalar_reduces(p, bound, *then_expr) || scalar_reduces(p, bound, *else_expr),
        CompiledScalarExpr::NoMatch { subject, placeholder, .. } => scalar_reduces(
            p,
            bound,
            *subject,
        ) || scalar_reduces(p, bound, *placeholder),
        _ => false,
    }
}

/// Whether one of the first `n` items holds a reduction.
pub open spec fn any_reduces(
    p: DenseCompiledProgram,
    bound: nat,
    items: Seq<CompiledScalarExpr>,
    n: nat,
) -> bool
    decreases bound, 0int, items, 0int, n,
{
    n > 0 && n <= items.len() && (any_reduces(p, bound, items, (n - 1) as nat) || scalar_reduces(
        p,
        bound,
        items[n - 1],
    ))
}

pub open spec fn judgment_reduces(
    p: DenseCompiledProgram,
    bound: nat,
    e: CompiledJudgmentExpr,
) -> bool
    decreases bound, 0int, e, 1int, 0int,
{
    match e {
        CompiledJudgmentExpr::Comparison { left, right, .. } => scalar_reduces(p, bound, left)
            || scalar_reduces(p, bound, right),
        CompiledJudgmentExpr::Derived(i) => i < bound && rule_reduces(p, i as nat),
        CompiledJudgmentExpr::And(items) => any_judgment_reduces(p, bound, items@, items@.len()),
        CompiledJudgmentExpr::Or(items) => any_judgment_reduces(p, bound, items@, items@.len()),
        CompiledJudgmentExpr::Not(item) => judgment_reduces(p, bound, *item),
    }
}

/// Whether one of the first `n` items holds a reduction.
pub open spec fn any_judgment_reduces(
    p: DenseCompiledProgram,
    bound: nat,
    items: Seq<CompiledJudgmentExpr>,
    n: nat,
) -> bool
    decreases bound, 0int, items, 0int, n,
{
    n > 0 && n <= items.len() && (any_judgment_reduces(p, bound, items, (n - 1) as nat)
        || judgment_reduces(p, bound, items[n - 1]))
}

proof fn any_reduces_kept(
    p: DenseCompiledProgram,
    bound: nat,
    items: Seq<CompiledScalarExpr>,
    m: nat,
    n: nat,
)
    requires
        m <= n <= items.len(),
        any_reduces(p, bound, items, m),
    ensures
        any_reduces(p, bound, items, n),
    decreases n,
{
    if m < n {
        any_reduces_kept(p, bound, items, m, (n - 1) as nat);
    }
}

proof fn any_judgment_reduces_kept(
    p: DenseCompiledProgram,
    bound: nat,
    items: Seq<CompiledJudgmentExpr>,
    m: nat,
    n: nat,
)
    requires
        m <= n <= items.len(),
        any_judgment_reduces(p, bound, items, m),
    ensures
        any_judgment_reduces(p, bound, items, n),
    decreases n,
{
    if m < n {
        any_judgment_reduces_kept(p, bound, items, m, (n - 1) as nat);
    }
}

/// The first of two, where there is one.
pub open spec fn either(
    a: Option<OverPeriodsKind>,
    b: Option<OverPeriodsKind>,
) -> Option<OverPeriodsKind> {
    if a is Some {
        a
    } else {
        b
    }
}

/// The first reduction inside a formula, conditions and `where` clauses included, found by its
/// structure alone: a reduction that is reached through a rule is not found.
pub open spec fn nested_kind(e: CompiledScalarExpr) -> Option<OverPeriodsKind>
    decreases e, 1int, 0int,
{
    match e {
        CompiledScalarExpr::OverPeriods { kind, .. } => Some(kind),
        CompiledScalarExpr::ParameterLookup { index, .. } => nested_kind(*index),
        CompiledScalarExpr::Add(items) => nested_in(items@, items@.len()),
        CompiledScalarExpr::Max(items) => nested_in(items@, items@.len()),
        CompiledScalarExpr::Min(items) => nested_in(items@, items@.len()),
        CompiledScalarExpr::Sub(a, b) => either(nested_kind(*a), nested_kind(*b)),
        CompiledScalarExpr::Mul(a, b) => either(nested_kind(*a), nested_kind(*b)),
        CompiledScalarExpr::Div(a, b) => either(nested_kind(*a), nested_kind(*b)),
        CompiledScalarExpr::Ceil(a) => nested_kind(*a),
        CompiledScalarExpr::Floor(a) => nested_kind(*a),
        CompiledScalarExpr::DateShift { date, count, .. } => either(
            nested_kind(*date),
            nested_kind(*count),
        ),
        CompiledScalarExpr::DaysBetween { from, to } => either(nested_kind(*from), nested_kind(*to)),
        CompiledScalarExpr::If { condition, then_expr, else_expr } => either(
            nested_judgment_kind(*condition),
            either(nested_kind(*then_expr), nested_kind(*else_expr)),
        ),
        CompiledScalarExpr::NoMatch { subject, placeholder, .. } => either(
            nested_kind(*subject),
            nested_kind(*placeholder),
        ),
        CompiledScalarExpr::CountRelated { predicate, .. } => match predicate {
            Some(test) => nested_related_judgment_kind(*test),
            None => None,
        },
        CompiledScalarExpr::SumRelated { value, predicate, .. } => either(
            nested_related_kind(*value),
            match predicate {
                Some(test) => nested_related_judgment_kind(*test),
                None => None,
            },
        ),
        _ => None,
    }
}

/// The first reduction inside a judgment.
pub open spec fn nested_judgment_kind(e: CompiledJudgmentExpr) -> Option<OverPeriodsKind>
    decreases e, 1int, 0int,
{
    match e {
        CompiledJudgmentExpr::Comparison { left, right, .. } => either(
            nested_kind(left),
            nested_kind(right),
        ),
        CompiledJudgmentExpr::Derived(_) => None,
        CompiledJudgmentExpr::And(items) => nested_in_judgments(items@, items@.len()),
        CompiledJudgmentExpr::Or(items) => nested_in_judgments(items@, items@.len()),
        CompiledJudgmentExpr::Not(item) => nested_judgment_kind(*item),
    }
}

/// The first reduction inside the first `n` judgments.
pub open spec fn nested_in_judgments(items: Seq<CompiledJudgmentExpr>, n: nat) -> Option<
    OverPeriodsKind,
>
    decreases items, 0int, n,
{
    if n == 0 || n > items.len() {
        None
    } else {
        either(
            nested_in_judgments(items, (n - 1) as nat),
            nested_judgment_kind(items[n - 1]),
        )
    }
}

/// The first reduction inside a formula over related rows.
pub open spec fn nested_related_kind(e: CompiledRelatedScalarExpr) -> Option<OverPeriodsKind>
    decreases e, 1int, 0int,
{
    match e {
        CompiledRelatedScalarExpr::RootScalar(a) => nested_kind(*a),
        CompiledRelatedScalarExpr::ParameterLookup { index, .. } => nested_related_kind(*index),
        CompiledRelatedScalarExpr::Add(items) => nested_in_related(items@, items@.len()),
        CompiledRelatedScalarExpr::Max(items) => nested_in_related(items@, items@.len()),
        CompiledRelatedScalarExpr::Min(items) => nested_in_related(items@, items@.len()),
        CompiledRelatedScalarExpr::Sub(a, b) => either(
            nested_related_kind(*a),
            nested_related_kind(*b),
        ),
        CompiledRelatedScalarExpr::Mul(a, b) => either(
            nested_related_kind(*a),
            nested_related_kind(*b),
        ),
        CompiledRelatedScalarExpr::Div(a, b) => either(
            nested_related_kind(*a),
            nested_related_kind(*b),
        ),
        CompiledRelatedScalarExpr::Ceil(a) => nested_related_kind(*a),
        CompiledRelatedScalarExpr::Floor(a) => nested_related_kind(*a),
        CompiledRelatedScalarExpr::DateShift { date, count, .. } => either(
            nested_related_kind(*date),
            nested_related_kind(*count),
        ),
        CompiledRelatedScalarExpr::DaysBetween { from, to } => either(
            nested_related_kind(*from),
            nested_related_kind(*to),
        ),
        CompiledRelatedScalarExpr::If { condition, then_expr, else_expr } => either(
            nested_related_judgment_kind(*condition),
            either(nested_related_kind(*then_expr), nested_related_kind(*else_expr)),
        ),
        CompiledRelatedScalarExpr::NoMatch { subject, placeholder, .. } => either(
            nested_related_kind(*subject),
            nested_related_kind(*placeholder),
        ),
        _ => None,
    }
}

/// The first reduction inside the first `n` formulas over related rows.
pub open spec fn nested_in_related(items: Seq<CompiledRelatedScalarExpr>, n: nat) -> Option<
    OverPeriodsKind,
>
    decreases items, 0int, n,
{
    if n == 0 || n > items.len() {
        None
    } else {
        either(nested_in_related(items, (n - 1) as nat), nested_related_kind(items[n - 1]))
    }
}

/// The first reduction inside a test on related rows.
pub open spec fn nested_related_judgment_kind(e: CompiledRelatedJudgmentExpr) -> Option<
    OverPeriodsKind,
>
    decreases e, 1int, 0int,
{
    match e {
        CompiledRelatedJudgmentExpr::Literal(_) => None,
        CompiledRelatedJudgmentExpr::Comparison { left, right, .. } => either(
            nested_related_kind(left),
            nested_related_kind(right),
        ),
        CompiledRelatedJudgmentExpr::RootJudgment(a) => nested_judgment_kind(*a),
        CompiledRelatedJudgmentExpr::And(items) => nested_in_related_judgments(
            items@,
            items@.len(),
        ),
        CompiledRelatedJudgmentExpr::Or(items) => nested_in_related_judgments(
            items@,
            items@.len(),
        ),
        CompiledRelatedJudgmentExpr::Not(item) => nested_related_judgment_kind(*item),
    }
}

/// The first reduction inside the first `n` tests on related rows.
pub open spec fn nested_in_related_judgments(
    items: Seq<CompiledRelatedJudgmentExpr>,
    n: nat,
) -> Option<OverPeriodsKind>
    decreases items, 0int, n,
{
    if n == 0 || n > items.len() {
        None
    } else {
        either(
            nested_in_related_judgments(items, (n - 1) as nat),
            nested_related_judgment_kind(items[n - 1]),
        )
    }
}

/// The first reduction inside the first `n` items.
pub open spec fn nested_in(items: Seq<CompiledScalarExpr>, n: nat) -> Option<OverPeriodsKind>
    decreases items, 0int, n,
{
    if n == 0 || n > items.len() {
        None
    } else {
        either(nested_in(items, (n - 1) as nat), nested_kind(items[n - 1]))
    }
}

proof fn nested_in_kept(items: Seq<CompiledScalarExpr>, m: nat, n: nat)
    requires
        m <= n <= items.len(),
        nested_in(items, m) is Some,
    ensures
        nested_in(items, n) == nested_in(items, m),
    decreases n,
{
    if m < n {
        nested_in_kept(items, m, (n - 1) as nat);
    }
}

fn nested_in_items(items: &Vec<CompiledScalarExpr>) -> (r: Option<OverPeriodsKind>)
    ensures
        r == nested_in(items@, items@.len()),
    decreases items@, 0int,
{
    let mut i: usize = 0;
    while i < items.len()
        invariant
            i <= items@.len(),
            nested_in(items@, i as nat) is None,
        decreases items@.len() - i,
    {
        let found = nested_over_periods_kind(&items[i]);
        if found.is_some() {
            proof {
                nested_in_kept(items@, (i + 1) as nat, items@.len());
            }
            return found;
        }
        i = i + 1;
    }
    None
}

fn nested_in_either(a: &CompiledScalarExpr, b: &CompiledScalarExpr, Ghost(whole): Ghost<CompiledScalarExpr>) -> (r: Option<OverPeriodsKind>)
    requires
        decreases_to!(whole => *a),
        decreases_to!(whole => *b),
    ensures
        r == either(nested_kind(*a), nested_kind(*b)),
    decreases whole, 0int,
{
    let found = nested_over_periods_kind(a);
    if found.is_some() {
        found
    } else {
        nested_over_periods_kind(b)
    }
}

proof fn nested_in_judgments_kept(items: Seq<CompiledJudgmentExpr>, m: nat, n: nat)
    requires
        m <= n <= items.len(),
        nested_in_judgments(items, m) is Some,
    ensures
        nested_in_judgments(items, n) == nested_in_judgments(items, m),
    decreases n,
{
    if m < n {
        nested_in_judgments_kept(items, m, (n - 1) as nat);
    }
}

fn nested_in_judgment_items(items: &Vec<CompiledJudgmentExpr>) -> (r: Option<OverPeriodsKind>)
    ensures
        r == nested_in_judgments(items@, items@.len()),
    decreases items@, 0int,
{
    let mut i: usize = 0;
    while i < items.len()
        invariant
            i <= items@.len(),
            nested_in_judgments(items@, i as nat) is None,
        decreases items@.len() - i,
    {
        let found = nested_judgment_reduction(&items[i]);
        if found.is_some() {
            proof {
                nested_in_judgments_kept(items@, (i + 1) as nat, items@.len());
            }
            return found;
        }
        i = i + 1;
    }
    None
}

proof fn nested_in_related_kept(items: Seq<CompiledRelatedScalarExpr>, m: nat, n: nat)
    requires
        m <= n <= items.len(),
        nested_in_related(items, m) is Some,
    ensures
        nested_in_related(items, n) == nested_in_related(items, m),
    decreases n,
{
    if m < n {
        nested_in_related_kept(items, m, (n - 1) as nat);
    }
}

fn nested_in_related_items(items: &Vec<CompiledRelatedScalarExpr>) -> (r: Option<OverPeriodsKind>)
    ensures
        r == nested_in_related(items@, items@.len()),
    decreases items@, 0int,
{
    let mut i: usize = 0;
    while i < items.len()
        invariant
            i <= items@.len(),
            nested_in_related(items@, i as nat) is None,
        decreases items@.len() - i,
    {
        let found = nested_related_reduction(&items[i]);
        if found.is_some() {
            proof {
                nested_in_related_kept(items@, (i + 1) as nat, items@.len());
            }
            return found;
        }
        i = i + 1;
    }
    None
}

proof fn nested_in_related_judgments_kept(items: Seq<CompiledRelatedJudgmentExpr>, m: nat, n: nat)
    requires
        m <= n <= items.len(),
        nested_in_related_judgments(items, m) is Some,
    ensures
        nested_in_related_judgments(items, n) == nested_in_related_judgments(items, m),
    decreases n,
{
    if m < n {
        nested_in_related_judgments_kept(items, m, (n - 1) as nat);
    }
}

fn nested_in_related_judgment_items(items: &Vec<CompiledRelatedJudgmentExpr>) -> (r: Option<OverPeriodsKind>)
    ensures
        r == nested_in_related_judgments(items@, items@.len()),
    decreases items@, 0int,
{
    let mut i: usize = 0;
    while i < items.len()
        invariant
            i <= items@.len(),
            nested_in_related_judgments(items@, i as nat) is None,
        decreases items@.len() - i,
    {
        let found = nested_related_judgment_reduction(&items[i]);
        if found.is_some() {
            proof {
                nested_in_related_judgments_kept(items@, (i + 1) as nat, items@.len());
            }
            return found;
        }
        i = i + 1;
    }
    None
}

fn nested_in_related_either(
    a: &CompiledRelatedScalarExpr,
    b: &CompiledRelatedScalarExpr,
    Ghost(whole): Ghost<CompiledRelatedScalarExpr>,
) -> (r: Option<OverPeriodsKind>)
    requires
        decreases_to!(whole => *a),
        decreases_to!(whole => *b),
    ensures
        r == either(nested_related_kind(*a), nested_related_kind(*b)),
    decreases whole, 0int,
{
    let found = nested_related_reduction(a);
    if found.is_some() {
        found
    } else {
        nested_related_reduction(b)
    }
}

/// The first reduction inside a judgment.
fn nested_judgment_reduction(expr: &CompiledJudgmentExpr) -> (r: Option<OverPeriodsKind>)
    ensures
        r == nested_judgment_kind(*expr),
    decreases *expr, 1int,
{
    match expr {
        CompiledJudgmentExpr::Comparison { left, right, .. } => {
            let found = nested_over_periods_kind(left);
            if found.is_some() {
                found
            } else {
                nested_over_periods_kind(right)
            }
        },
        CompiledJudgmentExpr::Derived(_) => None,
        CompiledJudgmentExpr::And(items) => nested_in_judgment_items(items),
        CompiledJudgmentExpr::Or(items) => nested_in_judgment_items(items),
        CompiledJudgmentExpr::Not(item) => nested_judgment_reduction(item),
    }
}

/// The first reduction inside a formula over related rows.
fn nested_related_reduction(expr: &CompiledRelatedScalarExpr) -> (r: Option<OverPeriodsKind>)
    ensures
        r == nested_related_kind(*expr),
    decreases *expr, 1int,
{
    match expr {
        CompiledRelatedScalarExpr::RootScalar(a) => nested_over_periods_kind(a),
        CompiledRelatedScalarExpr::ParameterLookup { index, .. } => nested_related_reduction(
            index,
        ),
        CompiledRelatedScalarExpr::Add(items) => nested_in_related_items(items),
        CompiledRelatedScalarExpr::Max(items) => nested_in_related_items(items),
        CompiledRelatedScalarExpr::Min(items) => nested_in_related_items(items),
        CompiledRelatedScalarExpr::Sub(a, b) => nested_in_related_either(a, b, Ghost(*expr)),
        CompiledRelatedScalarExpr::Mul(a, b) => nested_in_related_either(a, b, Ghost(*expr)),
        CompiledRelatedScalarExpr::Div(a, b) => nested_in_related_either(a, b, Ghost(*expr)),
        CompiledRelatedScalarExpr::Ceil(a) => nested_related_reduction(a),
        CompiledRelatedScalarExpr::Floor(a) => nested_related_reduction(a),
        CompiledRelatedScalarExpr::DateShift { date, count, .. } => nested_in_related_either(
            date,
            count,
            Ghost(*expr),
        ),
        CompiledRelatedScalarExpr::DaysBetween { from, to } => nested_in_related_either(
            from,
            to,
            Ghost(*expr),
        ),
        CompiledRelatedScalarExpr::If { condition, then_expr, else_expr } => {
            let found = nested_related_judgment_reduction(condition);
            if found.is_some() {
                found
            } else {
                nested_in_related_either(then_expr, else_expr, Ghost(*expr))
            }
        },
        CompiledRelatedScalarExpr::NoMatch { subject, placeholder, .. } => {
            nested_in_related_either(subject, placeholder, Ghost(*expr))
        },
        CompiledRelatedScalarExpr::Literal(_)
        | CompiledRelatedScalarExpr::Input(_)
        | CompiledRelatedScalarExpr::InputOrElse { .. }
        | CompiledRelatedScalarExpr::PeriodStart
        | CompiledRelatedScalarExpr::PeriodEnd => None,
    }
}

/// The first reduction inside a test on related rows.
fn nested_related_judgment_reduction(expr: &CompiledRelatedJudgmentExpr) -> (r: Option<
    OverPeriodsKind,
>)
    ensures
        r == nested_related_judgment_kind(*expr),
    decreases *expr, 1int,
{
    match expr {
        CompiledRelatedJudgmentExpr::Literal(_) => None,
        CompiledRelatedJudgmentExpr::Comparison { left, right, .. } => {
            let found = nested_related_reduction(left);
            if found.is_some() {
                found
            } else {
                nested_related_reduction(right)
            }
        },
        CompiledRelatedJudgmentExpr::RootJudgment(a) => nested_judgment_reduction(a),
        CompiledRelatedJudgmentExpr::And(items) => nested_in_related_judgment_items(items),
        CompiledRelatedJudgmentExpr::Or(items) => nested_in_related_judgment_items(items),
        CompiledRelatedJudgmentExpr::Not(item) => nested_related_judgment_reduction(item),
    }
}

/// The first reduction inside a formula. A reduction consumes the periods, so that
/// one inside the argument of another has no meaning.
pub fn nested_over_periods_kind(expr: &CompiledScalarExpr) -> (r: Option<OverPeriodsKind>)
    ensures
        r == nested_kind(*expr),
    decreases *expr, 1int,
{
    match expr {
        CompiledScalarExpr::OverPeriods { kind, .. } => Some(*kind),
        CompiledScalarExpr::ParameterLookup { index, .. } => nested_over_periods_kind(index),
        CompiledScalarExpr::Add(items) => nested_in_items(items),
        CompiledScalarExpr::Max(items) => nested_in_items(items),
        CompiledScalarExpr::Min(items) => nested_in_items(items),
        CompiledScalarExpr::Sub(a, b) => nested_in_either(a, b, Ghost(*expr)),
        CompiledScalarExpr::Mul(a, b) => nested_in_either(a, b, Ghost(*expr)),
        CompiledScalarExpr::Div(a, b) => nested_in_either(a, b, Ghost(*expr)),
        CompiledScalarExpr::Ceil(a) => nested_over_periods_kind(a),
        CompiledScalarExpr::Floor(a) => nested_over_periods_kind(a),
        CompiledScalarExpr::DateShift { date, count, .. } => nested_in_either(
            date,
            count,
            Ghost(*expr),
        ),
        CompiledScalarExpr::DaysBetween { from, to } => nested_in_either(from, to, Ghost(*expr)),
        CompiledScalarExpr::If { condition, then_expr, else_expr } => {
            let found = nested_judgment_reduction(condition);
            if found.is_some() {
                found
            } else {
                nested_in_either(then_expr, else_expr, Ghost(*expr))
            }
        },
        CompiledScalarExpr::NoMatch { subject, placeholder, .. } => nested_in_either(
            subject,
            placeholder,
            Ghost(*expr),
        ),
        CompiledScalarExpr::Literal(_)
        | CompiledScalarExpr::Input(_)
        | CompiledScalarExpr::InputOrElse { .. }
        | CompiledScalarExpr::Derived(_)
        | CompiledScalarExpr::PeriodStart
        | CompiledScalarExpr::PeriodEnd => None,
        CompiledScalarExpr::CountRelated { predicate, .. } => match predicate {
            Some(test) => nested_related_judgment_reduction(test),
            None => None,
        },
        CompiledScalarExpr::SumRelated { value, predicate, .. } => {
            let found = nested_related_reduction(value);
            if found.is_some() {
                found
            } else {
                match predicate {
                    Some(test) => nested_related_judgment_reduction(test),
                    None => None,
                }
            }
        },
    }
}

impl DenseCompiledProgram {
    /// Whether a rule's formula holds a reduction over periods.
    pub(crate) fn derived_reduces_over_periods(&self, derived_index: usize) -> (r: bool)
        requires
            self.well_formed(),
            derived_index < self.derived@.len(),
        ensures
            r == rule_reduces(*self, derived_index as nat),
        decreases derived_index, 1int, *self, 0int,
    {
        match &self.derived[derived_index].semantics {
            CompiledSemantics::Scalar(expr) => self.scalar_reduces_over_periods(
                expr,
                Ghost(derived_index as nat),
            ),
            CompiledSemantics::Judgment(expr) => self.judgment_reduces_over_periods(
                expr,
                Ghost(derived_index as nat),
            ),
        }
    }

    fn any_reduces_over_periods(
        &self,
        items: &Vec<CompiledScalarExpr>,
        Ghost(bound): Ghost<nat>,
    ) -> (r: bool)
        requires
            self.well_formed(),
            bound <= self.derived@.len(),
            scalars_fit(*self, bound, 2, items@, items@.len()),
        ensures
            r == any_reduces(*self, bound, items@, items@.len()),
        decreases bound, 0int, items@, 0int,
    {
        let mut i: usize = 0;
        while i < items.len()
            invariant
                i <= items@.len(),
                self.well_formed(),
                bound <= self.derived@.len(),
                scalars_fit(*self, bound, 2, items@, items@.len()),
                !any_reduces(*self, bound, items@, i as nat),
            decreases items@.len() - i,
        {
            proof {
                scalars_fit_each(*self, bound, 2, items@, items@.len(), i as int);
            }
            if self.scalar_reduces_over_periods(&items[i], Ghost(bound)) {
                proof {
                    any_reduces_kept(*self, bound, items@, (i + 1) as nat, items@.len());
                }
                return true;
            }
            i = i + 1;
        }
        false
    }

    fn scalar_reduces_over_periods(
        &self,
        expr: &CompiledScalarExpr,
        Ghost(bound): Ghost<nat>,
    ) -> (r: bool)
        requires
            self.well_formed(),
            bound <= self.derived@.len(),
            scalar_fits(*self, bound, 2, *expr),
        ensures
            r == scalar_reduces(*self, bound, *expr),
        decreases bound, 0int, *expr, 1int,
    {
        match expr {
            CompiledScalarExpr::OverPeriods { .. } => true,
            CompiledScalarExpr::Derived(index) => self.derived_reduces_over_periods(*index),
            CompiledScalarExpr::ParameterLookup { index, .. } => self.scalar_reduces_over_periods(
                index,
                Ghost(bound),
            ),
            CompiledScalarExpr::Add(items) => self.any_reduces_over_periods(items, Ghost(bound)),
            CompiledScalarExpr::Max(items) => self.any_reduces_over_periods(items, Ghost(bound)),
            CompiledScalarExpr::Min(items) => self.any_reduces_over_periods(items, Ghost(bound)),
            CompiledScalarExpr::Sub(left, right) => self.scalar_reduces_over_periods(
                left,
                Ghost(bound),
            ) || self.scalar_reduces_over_periods(right, Ghost(bound)),
            CompiledScalarExpr::Mul(left, right) => self.scalar_reduces_over_periods(
                left,
                Ghost(bound),
            ) || self.scalar_reduces_over_periods(right, Ghost(bound)),
            CompiledScalarExpr::Div(left, right) => self.scalar_reduces_over_periods(
                left,
                Ghost(bound),
            ) || self.scalar_reduces_over_periods(right, Ghost(bound)),
            CompiledScalarExpr::Ceil(value) => self.scalar_reduces_over_periods(
                value,
                Ghost(bound),
            ),
            CompiledScalarExpr::Floor(value) => self.scalar_reduces_over_periods(
                value,
                Ghost(bound),
            ),
            CompiledScalarExpr::DateShift { date, count, .. } => self.scalar_reduces_over_periods(
                date,
                Ghost(bound),
            ) || self.scalar_reduces_over_periods(count, Ghost(bound)),
            CompiledScalarExpr::DaysBetween { from, to } => self.scalar_reduces_over_periods(
                from,
                Ghost(bound),
            ) || self.scalar_reduces_over_periods(to, Ghost(bound)),
            CompiledScalarExpr::If { condition, then_expr, else_expr } => {
                self.judgment_reduces_over_periods(condition, Ghost(bound))
                    || self.scalar_reduces_over_periods(then_expr, Ghost(bound))
                    || self.scalar_reduces_over_periods(else_expr, Ghost(bound))
            },
            CompiledScalarExpr::NoMatch { subject, placeholder, .. } => {
                self.scalar_reduces_over_periods(subject, Ghost(bound))
                    || self.scalar_reduces_over_periods(placeholder, Ghost(bound))
            },
            CompiledScalarExpr::Literal(_)
            | CompiledScalarExpr::Input(_)
            | CompiledScalarExpr::InputOrElse { .. }
            | CompiledScalarExpr::PeriodStart
            | CompiledScalarExpr::PeriodEnd
            | CompiledScalarExpr::CountRelated { .. }
            | CompiledScalarExpr::SumRelated { .. } => false,
        }
    }

    fn any_judgment_reduces_over_periods(
        &self,
        items: &Vec<CompiledJudgmentExpr>,
        Ghost(bound): Ghost<nat>,
    ) -> (r: bool)
        requires
            self.well_formed(),
            bound <= self.derived@.len(),
            judgments_fit(*self, bound, 2, items@, items@.len()),
        ensures
            r == any_judgment_reduces(*self, bound, items@, items@.len()),
        decreases bound, 0int, items@, 0int,
    {
        let mut i: usize = 0;
        while i < items.len()
            invariant
                i <= items@.len(),
                self.well_formed(),
                bound <= self.derived@.len(),
                judgments_fit(*self, bound, 2, items@, items@.len()),
                !any_judgment_reduces(*self, bound, items@, i as nat),
            decreases items@.len() - i,
        {
            proof {
                judgments_fit_each(*self, bound, 2, items@, items@.len(), i as int);
            }
            if self.judgment_reduces_over_periods(&items[i], Ghost(bound)) {
                proof {
                    any_judgment_reduces_kept(*self, bound, items@, (i + 1) as nat, items@.len());
                }
                return true;
            }
            i = i + 1;
        }
        false
    }

    fn judgment_reduces_over_periods(
        &self,
        expr: &CompiledJudgmentExpr,
        Ghost(bound): Ghost<nat>,
    ) -> (r: bool)
        requires
            self.well_formed(),
            bound <= self.derived@.len(),
            judgment_fits(*self, bound, 2, *expr),
        ensures
            r == judgment_reduces(*self, bound, *expr),
        decreases bound, 0int, *expr, 1int,
    {
        match expr {
            CompiledJudgmentExpr::Comparison { left, right, .. } => {
                self.scalar_reduces_over_periods(left, Ghost(bound))
                    || self.scalar_reduces_over_periods(right, Ghost(bound))
            },
            CompiledJudgmentExpr::Derived(index) => self.derived_reduces_over_periods(*index),
            CompiledJudgmentExpr::And(items) => self.any_judgment_reduces_over_periods(
                items,
                Ghost(bound),
            ),
            CompiledJudgmentExpr::Or(items) => self.any_judgment_reduces_over_periods(
                items,
                Ghost(bound),
            ),
            CompiledJudgmentExpr::Not(item) => self.judgment_reduces_over_periods(
                item,
                Ghost(bound),
            ),
        }
    }
}

/// The first of the first `n` periods that does not start before the next one.
pub open spec fn unordered_at(periods: Seq<Period>, n: nat) -> Option<nat>
    decreases n,
{
    if n == 0 || n >= periods.len() {
        None
    } else {
        match unordered_at(periods, (n - 1) as nat) {
            Some(i) => Some(i),
            None => if periods[n - 1].start.number() >= periods[n as int].start.number() {
                Some((n - 1) as nat)
            } else {
                None
            },
        }
    }
}

proof fn unordered_kept(periods: Seq<Period>, m: nat, n: nat)
    requires
        m <= n < periods.len(),
        unordered_at(periods, m) is Some,
    ensures
        unordered_at(periods, n) == unordered_at(periods, m),
    decreases n,
{
    if m < n {
        unordered_kept(periods, m, (n - 1) as nat);
    }
}

/// How a period is written: its boundaries.
pub open spec fn boundaries(period: Period) -> Seq<char> {
    period.start.text() + ".."@ + period.end.text()
}

fn boundaries_text(period: &Period) -> (r: String)
    ensures
        r@ == boundaries(*period),
{
    let mut text = period.start.to_text();
    text.append("..");
    text.append(period.end.to_text().as_str());
    text
}

/// The batches of the first `n` periods, bound; or the first error. All have the
/// rows of the first.
pub open spec fn bound_batches(
    p: DenseCompiledProgram,
    batches: Seq<DenseBatchSpec>,
    n: nat,
) -> Result<Seq<BatchView>, ErrorView>
    decreases n,
{
    if n == 0 || n > batches.len() {
        Ok(Seq::empty())
    } else {
        match bound_batches(p, batches, (n - 1) as nat) {
            Err(error) => Err(error),
            Ok(before) => match bound_batch(p, batches[n - 1]) {
                Err(error) => Err(error),
                Ok(batch) => if batches[n - 1].row_count != batches[0].row_count {
                    Err(
                        ErrorView::LifetimeRowCountMismatch {
                            period: (n - 1) as nat,
                            row_count: batches[n - 1].row_count as nat,
                            expected: batches[0].row_count as nat,
                        },
                    )
                } else {
                    Ok(before.push(batch))
                },
            },
        }
    }
}

proof fn bound_batches_error(
    p: DenseCompiledProgram,
    batches: Seq<DenseBatchSpec>,
    m: nat,
    n: nat,
)
    requires
        m <= n <= batches.len(),
        bound_batches(p, batches, m) is Err,
    ensures
        bound_batches(p, batches, n) == bound_batches(p, batches, m),
    decreases n,
{
    if m < n {
        bound_batches_error(p, batches, m, (n - 1) as nat);
    }
}

/// The error of the first of the first `n` requested names that has no lifetime
/// value: it names no rule, or a rule without a reduction.
pub open spec fn lifetime_request_error(
    p: DenseCompiledProgram,
    outputs: Seq<String>,
    n: nat,
) -> Option<ErrorView>
    decreases n,
{
    if n == 0 || n > outputs.len() {
        None
    } else {
        match lifetime_request_error(p, outputs, (n - 1) as nat) {
            Some(error) => Some(error),
            None => match requested_rule(p, outputs[n - 1]@) {
                None => Some(ErrorView::UnknownDerived(outputs[n - 1]@)),
                Some(i) => if rule_reduces(p, i) {
                    None
                } else {
                    Some(ErrorView::LifetimeOutputWithoutReduction(outputs[n - 1]@))
                },
            },
        }
    }
}

proof fn lifetime_request_error_kept(
    p: DenseCompiledProgram,
    outputs: Seq<String>,
    m: nat,
    n: nat,
)
    requires
        m <= n <= outputs.len(),
        lifetime_request_error(p, outputs, m) is Some,
    ensures
        lifetime_request_error(p, outputs, n) == lifetime_request_error(p, outputs, m),
    decreases n,
{
    if m < n {
        lifetime_request_error_kept(p, outputs, m, (n - 1) as nat);
    }
}

/// What a program is evaluated on over periods. Commencement is not enforced.
pub open spec fn lifetime_facts(
    p: DenseCompiledProgram,
    periods: Seq<Period>,
    batches: Seq<BatchView>,
    row_count: nat,
) -> LifetimeFacts {
    LifetimeFacts {
        program: p,
        periods: Seq::new(
            periods.len(),
            |i: int|
                DenseFacts {
                    program: p,
                    start: periods[i].start,
                    end: periods[i].end,
                    batch: batches[i],
                    enforce_commencement: false,
                },
        ),
        row_count,
    }
}

/// What a rule gives for a row over a lifetime.
pub open spec fn life_value(lx: LifetimeFacts, i: nat, row: int) -> RuleValue {
    match lx.program.derived@[i as int].semantics {
        CompiledSemantics::Scalar(_) => RuleValue::Scalar(life_rule(lx, i, row)),
        CompiledSemantics::Judgment(_) => RuleValue::Judgment(life_rule_outcome(lx, i, row)),
    }
}

/// What the requested rules give for a row over a lifetime.
pub open spec fn requested_life(lx: LifetimeFacts, outputs: Seq<String>, j: int, row: int) -> RuleValue {
    life_value(lx, requested_rule(lx.program, outputs[j]@)->Some_0, row)
}

/// Whether the parts of the requested rules have dtypes over a lifetime.
pub open spec fn life_request_typed(lx: LifetimeFacts, outputs: Seq<String>) -> bool {
    forall|j: int| #![trigger outputs[j]]
        0 <= j < outputs.len() ==> life_well_typed(
            lx,
            requested_rule(lx.program, outputs[j]@)->Some_0,
        )
}

pub open spec fn life_well_typed(lx: LifetimeFacts, i: nat) -> bool {
    match lx.program.derived@[i as int].semantics {
        CompiledSemantics::Scalar(_) => life_rule_kind(lx, i) is Some,
        CompiledSemantics::Judgment(_) => life_rule_typed(lx, i),
    }
}

/// The fault of the periods of a lifetime request with so many batches.
pub open spec fn periods_fault(periods: Seq<Period>, batches: nat) -> Option<ErrorView> {
    if periods.len() == 0 {
        Some(ErrorView::LifetimeNoPeriods)
    } else if periods.len() != batches {
        Some(ErrorView::LifetimePeriodBatchMismatch { periods: periods.len(), batches })
    } else {
        match unordered_at(periods, (periods.len() - 1) as nat) {
            Some(i) => Some(
                ErrorView::LifetimePeriodsNotAscending {
                    earlier_index: i,
                    earlier: boundaries(periods[i as int]),
                    later_index: i + 1,
                    later: boundaries(periods[(i + 1) as int]),
                },
            ),
            None => None,
        }
    }
}

/// The error of a lifetime request before anything is evaluated, or what is then
/// evaluated.
pub open spec fn lifetime_request(
    p: DenseCompiledProgram,
    periods: Seq<Period>,
    batches: Seq<DenseBatchSpec>,
    outputs: Seq<String>,
) -> Result<LifetimeFacts, ErrorView> {
    match periods_fault(periods, batches.len()) {
        Some(error) => Err(error),
        None => match bound_batches(p, batches, batches.len()) {
            Err(error) => Err(error),
            Ok(bound) => match lifetime_request_error(p, outputs, outputs.len()) {
                Some(error) => Err(error),
                None => Ok(lifetime_facts(p, periods, bound, batches[0].row_count as nat)),
            },
        },
    }
}

/// Refuses a lifetime request without periods, with another number of batches than
/// periods, or whose periods do not ascend by start.
pub fn check_periods(periods: &Vec<Period>, batches: usize) -> (r: Result<(), EvalError>)
    ensures
        match r {
            Ok(()) => periods_fault(periods@, batches as nat) is None,
            Err(error) => periods_fault(periods@, batches as nat) == Some(error@),
        },
{
    if periods.len() == 0 {
        return Err(EvalError::LifetimeNoPeriods);
    }
    if periods.len() != batches {
        return Err(EvalError::LifetimePeriodBatchMismatch { periods: periods.len(), batches });
    }
    let mut i: usize = 0;
    while i < periods.len() - 1
        invariant
            i <= periods@.len() - 1,
            periods@.len() == batches,
            periods@.len() > 0,
            unordered_at(periods@, i as nat) is None,
        decreases periods@.len() - i,
    {
        if !periods[i].start.before(&periods[i + 1].start) {
            proof {
                unordered_kept(periods@, (i + 1) as nat, (periods@.len() - 1) as nat);
            }
            return Err(
                EvalError::LifetimePeriodsNotAscending {
                    earlier_index: i,
                    earlier: boundaries_text(&periods[i]),
                    later_index: i + 1,
                    later: boundaries_text(&periods[i + 1]),
                },
            );
        }
        i = i + 1;
    }
    Ok(())
}

/// Evaluates a rule over a lifetime.
pub open spec fn life_value_work(lx: LifetimeFacts, i: nat, rows: Set<int>, w: LifeWorked) -> Option<LifeWorked> {
    match lx.program.derived@[i as int].semantics {
        CompiledSemantics::Scalar(_) => life_rule_work(lx, i, rows, w),
        CompiledSemantics::Judgment(_) => life_rule_judgment_work(lx, i, rows, w),
    }
}

/// Evaluates the first `n` requested rules over a lifetime for every row, in their order.
pub open spec fn life_request_work(lx: LifetimeFacts, outputs: Seq<String>, n: nat) -> Option<LifeWorked>
    decreases n,
{
    if n == 0 || n > outputs.len() {
        Some(life_fresh(lx))
    } else {
        match life_request_work(lx, outputs, (n - 1) as nat) {
            None => None,
            Some(w) => life_value_work(
                lx,
                requested_rule(lx.program, outputs[n - 1]@)->Some_0,
                all_rows(lx.row_count),
                w,
            ),
        }
    }
}

proof fn life_request_fails(lx: LifetimeFacts, outputs: Seq<String>, n: nat, m: nat)
    requires
        n <= m <= outputs.len(),
        life_request_work(lx, outputs, n) is None,
    ensures
        life_request_work(lx, outputs, m) is None,
    decreases m,
{
    if n < m {
        life_request_fails(lx, outputs, n, (m - 1) as nat);
    }
}

impl DenseCompiledProgram {
    /// One executor per period.
    fn period_executors<'a>(
        &'a self,
        periods: &Vec<Period>,
        batches: &Vec<DenseBatchSpec>,
    ) -> (r: Result<Vec<DenseExecutor<'a>>, EvalError>)
        requires
            self.well_formed(),
            periods@.len() == batches@.len(),
            forall|i: int|
                0 <= i < batches@.len() ==> (#[trigger] batches@[i]).row_count < usize::MAX,
        ensures
            match r {
                Err(error) => bound_batches(*self, batches@, batches@.len()) == Err::<
                    Seq<BatchView>,
                    ErrorView,
                >(error@),
                Ok(executors) => bound_batches(*self, batches@, batches@.len()) matches Ok(bound)
                    && {
                    &&& bound.len() == periods@.len()
                    &&& executors@.len() == periods@.len()
                    &&& forall|i: int| #![trigger executors@[i]]
                        0 <= i < periods@.len() ==> {
                            &&& executors@[i].ready()
                            &&& executors@[i].facts() == (DenseFacts {
                                program: *self,
                                start: periods@[i].start,
                                end: periods@[i].end,
                                batch: bound[i],
                                enforce_commencement: false,
                            })
                            &&& executors@[i].worked() == fresh(self.derived@.len())
                            &&& bound[i].row_count == batches@[0].row_count
                        }
                },
            },
    {
        let mut executors: Vec<DenseExecutor<'a>> = Vec::new();
        let ghost mut bound: Seq<BatchView> = Seq::empty();
        let mut i: usize = 0;
        while i < batches.len()
            invariant
                i <= batches@.len(),
                self.well_formed(),
                periods@.len() == batches@.len(),
                forall|j: int|
                    0 <= j < batches@.len() ==> (#[trigger] batches@[j]).row_count < usize::MAX,
                bound_batches(*self, batches@, i as nat) == Ok::<Seq<BatchView>, ErrorView>(bound),
                bound.len() == i,
                executors@.len() == i,
                forall|j: int| #![trigger executors@[j]]
                    0 <= j < i ==> {
                        &&& executors@[j].ready()
                        &&& executors@[j].facts() == (DenseFacts {
                            program: *self,
                            start: periods@[j].start,
                            end: periods@[j].end,
                            batch: bound[j],
                            enforce_commencement: false,
                        })
                        &&& executors@[j].worked() == fresh(self.derived@.len())
                        &&& bound[j].row_count == batches@[0].row_count
                    },
            decreases batches@.len() - i,
        {
            let batch = &batches[i];
            assert(batches@[i as int].row_count < usize::MAX);
            let bound_batch_here = match self.bind_batch(batch) {
                Ok(bound_batch_here) => bound_batch_here,
                Err(error) => {
                    proof {
                        bound_batches_error(*self, batches@, (i + 1) as nat, batches@.len());
                    }
                    return Err(error);
                },
            };
            if bound_batch_here.row_count != batches[0].row_count {
                proof {
                    bound_batches_error(*self, batches@, (i + 1) as nat, batches@.len());
                }
                return Err(
                    EvalError::LifetimeRowCountMismatch {
                        period: i,
                        row_count: bound_batch_here.row_count,
                        expected: batches[0].row_count,
                    },
                );
            }
            let period = &periods[i];
            proof {
                bound_batch_fits(*self, *batch, period.start, period.end, false);
                bound = bound.push(bound_batch_here@);
            }
            executors.push(
                DenseExecutor::new(self, period.start, period.end, bound_batch_here, false),
            );
            i = i + 1;
        }
        Ok(executors)
    }

    /// The rules that names request of lifetime execution: each holds a reduction over
    /// periods.
    pub fn resolve_lifetime_outputs(&self, outputs: &Vec<String>) -> (r: Result<
        Vec<usize>,
        EvalError,
    >)
        requires
            self.well_formed(),
        ensures
            match r {
                Ok(indices) => {
                    &&& lifetime_request_error(*self, outputs@, outputs@.len()) is None
                    &&& indices@.len() == outputs@.len()
                    &&& forall|j: int| #![trigger indices@[j]]
                        0 <= j < outputs@.len() ==> indices@[j] < self.derived@.len()
                            && requested_rule(*self, outputs@[j]@) == Some(indices@[j] as nat)
                },
                Err(error) => lifetime_request_error(*self, outputs@, outputs@.len()) == Some(
                    error@,
                ),
            },
    {
        let mut requested: Vec<usize> = Vec::new();
        let mut j: usize = 0;
        while j < outputs.len()
            invariant
                j <= outputs@.len(),
                self.well_formed(),
                requested@.len() == j,
                lifetime_request_error(*self, outputs@, j as nat) is None,
                forall|i: int| #![trigger requested@[i]]
                    0 <= i < j ==> requested@[i] < self.derived@.len() && requested_rule(
                        *self,
                        outputs@[i]@,
                    ) == Some(requested@[i] as nat),
            decreases outputs@.len() - j,
        {
            let index = match find_index(&self.derived, outputs[j].as_str()) {
                Some(index) => index,
                None => {
                    proof {
                        lifetime_request_error_kept(
                            *self,
                            outputs@,
                            (j + 1) as nat,
                            outputs@.len(),
                        );
                    }
                    return Err(EvalError::UnknownDerived(outputs[j].clone()));
                },
            };
            if !self.derived_reduces_over_periods(index) {
                proof {
                    lifetime_request_error_kept(*self, outputs@, (j + 1) as nat, outputs@.len());
                }
                return Err(EvalError::LifetimeOutputWithoutReduction(outputs[j].clone()));
            }
            requested.push(index);
            j = j + 1;
        }
        Ok(requested)
    }

    /// The requested rules over an entity's lifetime: one batch per period, all of the
    /// same rows in the same order, the periods ascending by start. Every requested
    /// rule must hold a reduction over periods. The request fails where evaluating the
    /// rules, in the order in which they are requested, mixes dtypes, and else as that of
    /// one period does.
    pub fn execute_lifetime(
        &self,
        periods: &Vec<Period>,
        batches: &Vec<DenseBatchSpec>,
        outputs: &Vec<String>,
    ) -> (r: Result<DenseExecutionResult, EvalError>)
        requires
            self.well_formed(),
            forall|i: int|
                0 <= i < batches@.len() ==> (#[trigger] batches@[i]).row_count < usize::MAX,
        ensures
            match lifetime_request(*self, periods@, batches@, outputs@) {
                Err(e) => r matches Err(error) && error@ == e,
                Ok(lx) => {
                    let f = |j: int, row: int| requested_life(lx, outputs@, j, row);
                    let failure = request_failure(f, outputs@.len(), lx.row_count);
                    match r {
                        Ok(result) => {
                            &&& life_request_work(lx, outputs@, outputs@.len()) is Some
                            &&& failure is None
                            &&& result.row_count == batches@[0].row_count
                            &&& outputs_are(result.outputs@, outputs@, lx.row_count, f)
                        },
                        Err(error) => match life_request_work(lx, outputs@, outputs@.len()) {
                            None => error@ == mixed_branches() && !life_request_typed(lx, outputs@),
                            Some(_) => failure == Some(error@),
                        },
                    }
                },
            },
    {
        match check_periods(periods, batches.len()) {
            Ok(()) => {},
            Err(error) => return Err(error),
        }
        let period_executors = match self.period_executors(periods, batches) {
            Ok(executors) => executors,
            Err(error) => return Err(error),
        };
        let ghost bound = bound_batches(*self, batches@, batches@.len())->Ok_0;
        let row_count = batches[0].row_count;
        let ghost lx = lifetime_facts(*self, periods@, bound, row_count as nat);
        let requested = match self.resolve_lifetime_outputs(outputs) {
            Ok(requested) => requested,
            Err(error) => return Err(error),
        };
        proof {
            assert forall|p: int| #![trigger lx.periods[p]] 0 <= p < lx.periods.len() implies {
                &&& lx.periods[p].bound_well()
                &&& lx.periods[p].program == lx.program
                &&& lx.periods[p].batch.row_count == lx.row_count
                &&& period_executors@[p].facts() == lx.periods[p]
                &&& period_executors@[p].worked() == fresh(lx.program.derived@.len())
            } by {
                assert(period_executors@[p].ready());
            }
        }
        let mut executor = LifetimeExecutor::new(self, period_executors, row_count, Ghost(lx));
        let ghost f = |j: int, row: int| requested_life(lx, outputs@, j, row);
        let all = RowMask::all(row_count);
        assert(rows_of(all) =~= all_rows(lx.row_count));
        let mut evaluated: Vec<(DenseOutputValue, RowErrors)> = Vec::new();
        let mut j: usize = 0;
        while j < requested.len()
            invariant
                j <= requested@.len(),
                requested@.len() == outputs@.len(),
                executor.ready(lx),
                lx.program == *self,
                lx.row_count == row_count,
                lifetime_request(*self, periods@, batches@, outputs@) == Ok::<
                    LifetimeFacts,
                    ErrorView,
                >(lx),
                all@ == Seq::new(row_count as nat, |i: int| true),
                life_request_work(lx, outputs@, j as nat) == Some(executor.worked()),
                rows_of(all) == all_rows(lx.row_count),
                evaluated@.len() == j,
                f == (|j: int, row: int| requested_life(lx, outputs@, j, row)),
                forall|i: int| #![trigger requested@[i]]
                    0 <= i < outputs@.len() ==> requested@[i] < self.derived@.len()
                        && requested_rule(*self, outputs@[i]@) == Some(requested@[i] as nat),
                forall|i: int| #![trigger evaluated@[i]]
                    0 <= i < evaluated@.len() ==> evaluated@[i].0.agrees(
                        evaluated@[i].1,
                        row_count as nat,
                        f,
                        i,
                    ),
            decreases requested@.len() - j,
        {
            let index = requested[j];
            let part = match &self.derived[index].semantics {
                CompiledSemantics::Scalar(_) => match executor.evaluate_scalar(
                    index,
                    &all,
                    Ghost(lx),
                ) {
                    Ok((column, errors)) => (DenseOutputValue::Scalar(column), errors),
                    Err(error) => {
                        proof {
                            assert(!life_well_typed(
                                lx,
                                requested_rule(*self, outputs@[j as int]@)->Some_0,
                            ));
                            life_request_fails(lx, outputs@, (j + 1) as nat, outputs@.len());
                        }
                        return Err(error);
                    },
                },
                CompiledSemantics::Judgment(_) => match executor.evaluate_judgment(
                    index,
                    &all,
                    Ghost(lx),
                ) {
                    Ok((values, errors)) => (DenseOutputValue::Judgment(values), errors),
                    Err(error) => {
                        proof {
                            assert(!life_well_typed(
                                lx,
                                requested_rule(*self, outputs@[j as int]@)->Some_0,
                            ));
                            life_request_fails(lx, outputs@, (j + 1) as nat, outputs@.len());
                        }
                        return Err(error);
                    },
                },
            };
            proof {
                assert forall|row: int| #[trigger]
                    part.1.at(row) == if 0 <= row < row_count {
                        f(j as int, row).failure()
                    } else {
                        None
                    } by {
                    assert(all.has(row) <==> 0 <= row < row_count);
                }
                assert forall|row: int| #![trigger f(j as int, row)]
                    0 <= row < row_count && f(
                        j as int,
                        row,
                    ).failure() is None implies match part.0 {
                    DenseOutputValue::Scalar(column) => f(j as int, row) == RuleValue::Scalar(
                        Ok(column.cell(row)),
                    ),
                    DenseOutputValue::Judgment(outcomes) => f(j as int, row)
                        == RuleValue::Judgment(Ok(outcomes@[row])),
                } by {
                    assert(all.has(row));
                }
                assert(part.0.agrees(part.1, row_count as nat, f, j as int));
            }
            evaluated.push(part);
            j = j + 1;
        }
        match first_row_error(&evaluated, Ghost(f), Ghost(row_count as nat)) {
            Ok(()) => {},
            Err(error) => return Err(error),
        }
        proof {
            assert forall|i: int, j: int| #![trigger outputs@[i], outputs@[j]]
                0 <= i < outputs@.len() && 0 <= j < outputs@.len() && outputs@[i]@
                    == outputs@[j]@ implies same_values(f, i, j) by {}
        }
        let outputs = listed_outputs(evaluated, outputs, Ghost(f), Ghost(row_count as nat));
        Ok(DenseExecutionResult { row_count, outputs })
    }
}

} // verus!
