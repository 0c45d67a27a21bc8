//! Column dtypes of compiled formulas.
//!
//! The dtype of a formula's column follows from the formula and the dtypes of
//! the supplied columns alone: it does not depend on which rows are evaluated.
//! A formula without one mixes dtypes in the branches of an `if`.
use crate::column::{
    column_is, combined_kind, judged, parameter_kind, rounded_kind, value_column_kind, ColumnKind,
    DenseColumn,
};
use crate::dense::{
    related_cell, related_outcome, related_outcome_step, related_step, root_cell, root_outcome,
    root_outcome_step, root_step, CompiledJudgmentExpr, CompiledRelatedJudgmentExpr,
    ColumnView, CompiledRelatedScalarExpr, CompiledScalarExpr, CompiledSemantics, DenseFacts,
};
use crate::error::{ErrorView, EvalError};
use crate::idle::{related_idle, related_judgment_idle, root_idle, root_judgment_idle};
use crate::lazy::{RowErrors, RowMask};
use crate::mixing::{
    none_of, related_judgment_work, related_judgment_work_step, related_work, related_work_step,
    root_judgment_work, root_judgment_work_step, root_work, root_work_step, Worked,
};
use crate::model::{JudgmentOutcome, ScalarValue};
use vstd::prelude::*;

verus! {

/// The dtype of a supplied column. A missing one stands in as decimals.
pub open spec fn supplied_kind(column: Option<ColumnView>) -> ColumnKind {
    match column {
        Some(c) => c.kind(),
        None => ColumnKind::Decimal,
    }
}

/// The dtype of a rule's column.
pub open spec fn rule_kind(cx: DenseFacts, i: nat) -> Option<ColumnKind>
    decreases i, 3nat, cx, 0int,
{
    let d = cx.program.derived@[i as int];
    match d.semantics {
        CompiledSemantics::Judgment(_) => Some(ColumnKind::Decimal),
        CompiledSemantics::Scalar(e) => match root_kind(cx, i, 2, e) {
            Some(kind) => Some(
                if d.rounding is Some {
                    rounded_kind(kind)
                } else {
                    kind
                },
            ),
            None => None,
        },
    }
}

/// Whether the parts of a judgment rule have dtypes.
pub open spec fn rule_typed(cx: DenseFacts, i: nat) -> bool
    decreases i, 3nat, cx, 0int,
{
    match cx.program.derived@[i as int].semantics {
        CompiledSemantics::Scalar(_) => true,
        CompiledSemantics::Judgment(e) => root_typed(cx, i, 2, e),
    }
}

/// The dtype of a root formula's column.
#[verifier::opaque]
pub open spec fn root_kind(
    cx: DenseFacts,
    bound: nat,
    level: nat,
    e: CompiledScalarExpr,
) -> Option<ColumnKind>
    decreases bound, level, e, 3int,
{
    root_kind_step(cx, bound, level, e)
}

/// A dtype that holds where the parts have dtypes.
pub open spec fn typed_as(typed: bool, kind: ColumnKind) -> Option<ColumnKind> {
    if typed {
        Some(kind)
    } else {
        None
    }
}

pub open spec fn root_kind_step(
    cx: DenseFacts,
    bound: nat,
    level: nat,
    e: CompiledScalarExpr,
) -> Option<ColumnKind>
    decreases bound, level, e, 2int,
{
    match e {
        CompiledScalarExpr::Literal(value) => Some(value_column_kind(value)),
        CompiledScalarExpr::Input(i) => Some(supplied_kind(cx.batch.inputs[i as int])),
        CompiledScalarExpr::InputOrElse { input, default } => Some(
            match cx.batch.inputs[input as int] {
                Some(c) => c.kind(),
                None => value_column_kind(default),
            },
        ),
        CompiledScalarExpr::Derived(i) => if i < bound {
            rule_kind(cx, i as nat)
        } else {
            None
        },
        CompiledScalarExpr::ParameterLookup { parameter, index } => typed_as(
            root_kind(cx, bound, level, *index) is Some,
            parameter_kind(cx.program.parameters@[parameter as int].parameter, cx.start),
        ),
        CompiledScalarExpr::Add(items) => typed_as(
            roots_typed(cx, bound, level, items@, items@.len()),
            ColumnKind::Decimal,
        ),
        CompiledScalarExpr::Max(items) => typed_as(
            roots_typed(cx, bound, level, items@, items@.len()),
            ColumnKind::Decimal,
        ),
        CompiledScalarExpr::Min(items) => typed_as(
            roots_typed(cx, bound, level, items@, items@.len()),
            ColumnKind::Decimal,
        ),
        CompiledScalarExpr::Sub(a, b) => typed_as(
            root_kind(cx, bound, level, *a) is Some && root_kind(cx, bound, level, *b) is Some,
            ColumnKind::Decimal,
        ),
        CompiledScalarExpr::Mul(a, b) => typed_as(
            root_kind(cx, bound, level, *a) is Some && root_kind(cx, bound, level, *b) is Some,
            ColumnKind::Decimal,
        ),
        CompiledScalarExpr::Div(a, b) => typed_as(
            root_kind(cx, bound, level, *a) is Some && root_kind(cx, bound, level, *b) is Some,
            ColumnKind::Decimal,
        ),
        CompiledScalarExpr::Ceil(a) => typed_as(
            root_kind(cx, bound, level, *a) is Some,
            ColumnKind::Decimal,
        ),
        CompiledScalarExpr::Floor(a) => typed_as(
            root_kind(cx, bound, level, *a) is Some,
            ColumnKind::Decimal,
        ),
        CompiledScalarExpr::PeriodStart => Some(ColumnKind::Date),
        CompiledScalarExpr::PeriodEnd => Some(ColumnKind::Date),
        CompiledScalarExpr::DateShift { date, count, .. } => typed_as(
            root_kind(cx, bound, level, *date) is Some && root_kind(
                cx,
                bound,
                level,
                *count,
            ) is Some,
            ColumnKind::Date,
        ),
        CompiledScalarExpr::DaysBetween { from, to } => typed_as(
            root_kind(cx, bound, level, *from) is Some && root_kind(cx, bound, level, *to) is Some,
            ColumnKind::Integer,
        ),
        CompiledScalarExpr::CountRelated { relation, predicate } => typed_as(
            level >= 2 && relation_typed(cx, relation as nat) && match predicate {
                Some(w) => related_typed(cx, bound, level, relation as nat, *w),
                None => true,
            },
            ColumnKind::Integer,
        ),
        CompiledScalarExpr::SumRelated { relation, value, predicate } => typed_as(
            level >= 2 && relation_typed(cx, relation as nat) && match predicate {
                Some(w) => related_typed(cx, bound, level, relation as nat, *w),
                None => true,
            } && related_kind(cx, bound, level, relation as nat, *value) is Some,
            ColumnKind::Decimal,
        ),
        CompiledScalarExpr::If { condition, then_expr, else_expr } => if root_typed(
            cx,
            bound,
            level,
            *condition,
        ) {
            joined_kind(
                root_kind(cx, bound, level, *then_expr),
                root_kind(cx, bound, level, *else_expr),
            )
        } else {
            None
        },
        CompiledScalarExpr::NoMatch { subject, placeholder, .. } => if root_kind(
            cx,
            bound,
            level,
            *subject,
        ) is Some {
            root_kind(cx, bound, level, *placeholder)
        } else {
            None
        },
        CompiledScalarExpr::OverPeriods { .. } => Some(ColumnKind::Decimal),
    }
}

/// The dtype of a choice between two branches.
pub open spec fn joined_kind(a: Option<ColumnKind>, b: Option<ColumnKind>) -> Option<ColumnKind> {
    match (a, b) {
        (Some(a), Some(b)) => combined_kind(a, b),
        _ => None,
    }
}

/// Whether the parts of a root judgment have dtypes.
#[verifier::opaque]
pub open spec fn root_typed(
    cx: DenseFacts,
    bound: nat,
    level: nat,
    e: CompiledJudgmentExpr,
) -> bool
    decreases bound, level, e, 3int,
{
    root_typed_step(cx, bound, level, e)
}

pub open spec fn root_typed_step(
    cx: DenseFacts,
    bound: nat,
    level: nat,
    e: CompiledJudgmentExpr,
) -> bool
    decreases bound, level, e, 2int,
{
    match e {
        CompiledJudgmentExpr::Comparison { left, right, .. } => root_kind(
            cx,
            bound,
            level,
            left,
        ) is Some && root_kind(cx, bound, level, right) is Some,
        CompiledJudgmentExpr::Derived(i) => i < bound && rule_typed(cx, i as nat),
        CompiledJudgmentExpr::And(items) => root_items_typed(
            cx,
            bound,
            level,
            items@,
            items@.len(),
        ),
        CompiledJudgmentExpr::Or(items) => root_items_typed(cx, bound, level, items@, items@.len()),
        CompiledJudgmentExpr::Not(item) => root_typed(cx, bound, level, *item),
    }
}

/// The dtype of a related formula's column.
#[verifier::opaque]
pub open spec fn related_kind(
    cx: DenseFacts,
    bound: nat,
    level: nat,
    rel: nat,
    e: CompiledRelatedScalarExpr,
) -> Option<ColumnKind>
    decreases bound, level, e, 3int,
{
    related_kind_step(cx, bound, level, rel, e)
}

pub open spec fn related_kind_step(
    cx: DenseFacts,
    bound: nat,
    level: nat,
    rel: nat,
    e: CompiledRelatedScalarExpr,
) -> Option<ColumnKind>
    decreases bound, level, e, 2int,
{
    match e {
        CompiledRelatedScalarExpr::Literal(value) => Some(value_column_kind(value)),
        CompiledRelatedScalarExpr::Input(i) => Some(
            supplied_kind(cx.batch.relations[rel as int].inputs[i as int]),
        ),
        CompiledRelatedScalarExpr::InputOrElse { input, default } => Some(
            match cx.batch.relations[rel as int].inputs[input as int] {
                Some(c) => c.kind(),
                None => value_column_kind(default),
            },
        ),
        CompiledRelatedScalarExpr::RootScalar(e) => root_kind(cx, bound, level, *e),
        CompiledRelatedScalarExpr::ParameterLookup { parameter, index } => typed_as(
            related_kind(cx, bound, level, rel, *index) is Some,
            parameter_kind(cx.program.parameters@[parameter as int].parameter, cx.start),
        ),
        CompiledRelatedScalarExpr::Add(items) => typed_as(
            relateds_typed(cx, bound, level, rel, items@, items@.len()),
            ColumnKind::Decimal,
        ),
        CompiledRelatedScalarExpr::Max(items) => typed_as(
            relateds_typed(cx, bound, level, rel, items@, items@.len()),
            ColumnKind::Decimal,
        ),
        CompiledRelatedScalarExpr::Min(items) => typed_as(
            relateds_typed(cx, bound, level, rel, items@, items@.len()),
            ColumnKind::Decimal,
        ),
        CompiledRelatedScalarExpr::Sub(a, b) => typed_as(
            related_kind(cx, bound, level, rel, *a) is Some && related_kind(
                cx,
                bound,
                level,
                rel,
                *b,
            ) is Some,
            ColumnKind::Decimal,
        ),
        CompiledRelatedScalarExpr::Mul(a, b) => typed_as(
            related_kind(cx, bound, level, rel, *a) is Some && related_kind(
                cx,
                bound,
                level,
                rel,
                *b,
            ) is Some,
            ColumnKind::Decimal,
        ),
        CompiledRelatedScalarExpr::Div(a, b) => typed_as(
            related_kind(cx, bound, level, rel, *a) is Some && related_kind(
                cx,
                bound,
                level,
                rel,
                *b,
            ) is Some,
            ColumnKind::Decimal,
        ),
        CompiledRelatedScalarExpr::Ceil(a) => typed_as(
            related_kind(cx, bound, level, rel, *a) is Some,
            ColumnKind::Decimal,
        ),
        CompiledRelatedScalarExpr::Floor(a) => typed_as(
            related_kind(cx, bound, level, rel, *a) is Some,
            ColumnKind::Decimal,
        ),
        CompiledRelatedScalarExpr::PeriodStart => Some(ColumnKind::Date),
        CompiledRelatedScalarExpr::PeriodEnd => Some(ColumnKind::Date),
        CompiledRelatedScalarExpr::DateShift { date, count, .. } => typed_as(
            related_kind(cx, bound, level, rel, *date) is Some && related_kind(
                cx,
                bound,
                level,
                rel,
                *count,
            ) is Some,
            ColumnKind::Date,
        ),
        CompiledRelatedScalarExpr::DaysBetween { from, to } => typed_as(
            related_kind(cx, bound, level, rel, *from) is Some && related_kind(
                cx,
                bound,
                level,
                rel,
                *to,
            ) is Some,
            ColumnKind::Integer,
        ),
        CompiledRelatedScalarExpr::If { condition, then_expr, else_expr } => if related_typed(
            cx,
            bound,
            level,
            rel,
            *condition,
        ) {
            joined_kind(
                related_kind(cx, bound, level, rel, *then_expr),
                related_kind(cx, bound, level, rel, *else_expr),
            )
        } else {
            None
        },
        CompiledRelatedScalarExpr::NoMatch { subject, placeholder, .. } => if related_kind(
            cx,
            bound,
            level,
            rel,
            *subject,
        ) is Some {
            related_kind(cx, bound, level, rel, *placeholder)
        } else {
            None
        },
    }
}

/// Whether the parts of a related test have dtypes.
#[verifier::opaque]
pub open spec fn related_typed(
    cx: DenseFacts,
    bound: nat,
    level: nat,
    rel: nat,
    e: CompiledRelatedJudgmentExpr,
) -> bool
    decreases bound, level, e, 3int,
{
    related_typed_step(cx, bound, level, rel, e)
}

pub open spec fn related_typed_step(
    cx: DenseFacts,
    bound: nat,
    level: nat,
    rel: nat,
    e: CompiledRelatedJudgmentExpr,
) -> bool
    decreases bound, level, e, 2int,
{
    match e {
        CompiledRelatedJudgmentExpr::Literal(_) => true,
        CompiledRelatedJudgmentExpr::Comparison { left, right, .. } => related_kind(
            cx,
            bound,
            level,
            rel,
            left,
        ) is Some && related_kind(cx, bound, level, rel, right) is Some,
        CompiledRelatedJudgmentExpr::RootJudgment(e) => root_typed(cx, bound, level, *e),
        CompiledRelatedJudgmentExpr::And(items) => related_items_typed(
            cx,
            bound,
            level,
            rel,
            items@,
            items@.len(),
        ),
        CompiledRelatedJudgmentExpr::Or(items) => related_items_typed(
            cx,
            bound,
            level,
            rel,
            items@,
            items@.len(),
        ),
        CompiledRelatedJudgmentExpr::Not(item) => related_typed(cx, bound, level, rel, *item),
    }
}

/// Whether the filters of a relation and of those before it have dtypes.
pub open spec fn relation_typed(cx: DenseFacts, rel: nat) -> bool
    decreases 0nat, 1nat, cx, rel,
{
    let schema = cx.program.relations@[rel as int];
    &&& match schema.parent_relation {
        Some(parent) => parent < rel && relation_typed(cx, parent as nat),
        None => true,
    }
    &&& match schema.filter {
        Some(filter) => related_typed(cx, 0, 0, rel, filter),
        None => true,
    }
}

/// Whether the first `n` items have dtypes.
pub open spec fn roots_typed(
    cx: DenseFacts,
    bound: nat,
    level: nat,
    items: Seq<CompiledScalarExpr>,
    n: nat,
) -> bool
    decreases bound, level, items, n,
{
    n == 0 || n > items.len() || (roots_typed(cx, bound, level, items, (n - 1) as nat) && root_kind(
        cx,
        bound,
        level,
        items[n - 1],
    ) is Some)
}

pub proof fn roots_typed_each(
    cx: DenseFacts,
    bound: nat,
    level: nat,
    items: Seq<CompiledScalarExpr>,
    n: nat,
    i: int,
)
    requires
        roots_typed(cx, bound, level, items, n),
        0 <= i < n <= items.len(),
    ensures
        root_kind(cx, bound, level, items[i]) is Some,
    decreases n,
{
    reveal(root_kind);
    if i < n - 1 {
        roots_typed_each(cx, bound, level, items, (n - 1) as nat, i);
    }
}

/// Whether the first `n` items have dtypes.
pub open spec fn root_items_typed(
    cx: DenseFacts,
    bound: nat,
    level: nat,
    items: Seq<CompiledJudgmentExpr>,
    n: nat,
) -> bool
    decreases bound, level, items, n,
{
    n == 0
        || n > items.len()
        || (root_items_typed(cx, bound, level, items, (n - 1) as nat) && root_typed(
        cx,
        bound,
        level,
        items[n - 1],
    ))
}

pub proof fn root_items_typed_each(
    cx: DenseFacts,
    bound: nat,
    level: nat,
    items: Seq<CompiledJudgmentExpr>,
    n: nat,
    i: int,
)
    requires
        root_items_typed(cx, bound, level, items, n),
        0 <= i < n <= items.len(),
    ensures
        root_typed(cx, bound, level, items[i]),
    decreases n,
{
    reveal(root_typed);
    if i < n - 1 {
        root_items_typed_each(cx, bound, level, items, (n - 1) as nat, i);
    }
}

/// Whether the first `n` items have dtypes.
pub open spec fn relateds_typed(
    cx: DenseFacts,
    bound: nat,
    level: nat,
    rel: nat,
    items: Seq<CompiledRelatedScalarExpr>,
    n: nat,
) -> bool
    decreases bound, level, items, n,
{
    n == 0
        || n > items.len()
        || (relateds_typed(cx, bound, level, rel, items, (n - 1) as nat) && related_kind(
        cx,
        bound,
        level,
        rel,
        items[n - 1],
    ) is Some)
}

pub proof fn relateds_typed_each(
    cx: DenseFacts,
    bound: nat,
    level: nat,
    rel: nat,
    items: Seq<CompiledRelatedScalarExpr>,
    n: nat,
    i: int,
)
    requires
        relateds_typed(cx, bound, level, rel, items, n),
        0 <= i < n <= items.len(),
    ensures
        related_kind(cx, bound, level, rel, items[i]) is Some,
    decreases n,
{
    reveal(related_kind);
    if i < n - 1 {
        relateds_typed_each(cx, bound, level, rel, items, (n - 1) as nat, i);
    }
}

/// Whether the first `n` items have dtypes.
pub open spec fn related_items_typed(
    cx: DenseFacts,
    bound: nat,
    level: nat,
    rel: nat,
    items: Seq<CompiledRelatedJudgmentExpr>,
    n: nat,
) -> bool
    decreases bound, level, items, n,
{
    n == 0
        || n > items.len()
        || (related_items_typed(cx, bound, level, rel, items, (n - 1) as nat) && related_typed(
        cx,
        bound,
        level,
        rel,
        items[n - 1],
    ))
}

pub proof fn related_items_typed_each(
    cx: DenseFacts,
    bound: nat,
    level: nat,
    rel: nat,
    items: Seq<CompiledRelatedJudgmentExpr>,
    n: nat,
    i: int,
)
    requires
        related_items_typed(cx, bound, level, rel, items, n),
        0 <= i < n <= items.len(),
    ensures
        related_typed(cx, bound, level, rel, items[i]),
    decreases n,
{
    reveal(related_typed);
    if i < n - 1 {
        related_items_typed_each(cx, bound, level, rel, items, (n - 1) as nat, i);
    }
}

/// The error of an `if` whose branches have dtypes that do not combine.
pub open spec fn mixed_branches() -> ErrorView {
    ErrorView::TypeMismatch("dense if() branches must have the same dtype"@)
}

/// Whether an evaluation gave the column that `f` and the dtype call for and left `after`
/// evaluated. It ends in an error exactly where evaluating mixes dtypes, which it does not where
/// there is a dtype.
pub open spec fn evaluated<S>(
    r: Result<(DenseColumn, RowErrors), EvalError>,
    mask: RowMask,
    f: spec_fn(int) -> Result<ScalarValue, ErrorView>,
    kind: Option<ColumnKind>,
    work: Option<S>,
    after: S,
) -> bool {
    match r {
        Ok((column, errors)) => {
            &&& column_is(column, errors, mask, f)
            &&& kind matches Some(k) ==> column.kind() == k
            &&& work == Some(after)
        },
        Err(error) => kind is None && error@ == mixed_branches() && work is None,
    }
}

/// Whether an evaluation gave the judgments that `f` calls for and left `after` evaluated. It ends
/// in an error exactly where evaluating mixes dtypes, which it does not where every part has one.
pub open spec fn assessed<S>(
    r: Result<(Vec<JudgmentOutcome>, RowErrors), EvalError>,
    mask: RowMask,
    f: spec_fn(int) -> Result<JudgmentOutcome, ErrorView>,
    typed: bool,
    work: Option<S>,
    after: S,
) -> bool {
    match r {
        Ok((outcomes, errors)) => judged(outcomes@, errors, mask, f) && work == Some(after),
        Err(error) => !typed && error@ == mixed_branches() && work is None,
    }
}

pub proof fn root_is_step(cx: DenseFacts, bound: nat, level: nat, e: CompiledScalarExpr)
    ensures
        forall|row: int| #[trigger]
            root_cell(cx, bound, level, e, row) == root_step(cx, bound, level, e, row),
        root_kind(cx, bound, level, e) == root_kind_step(cx, bound, level, e),
        forall|rows: Set<int>, w: Worked| #[trigger]
            root_work(cx, bound, level, e, rows, w) == root_work_step(cx, bound, level, e, rows, w),
{
    reveal(root_work);
    assert forall|rows: Set<int>, w: Worked| #[trigger]
        root_work(cx, bound, level, e, rows, w) == root_work_step(cx, bound, level, e, rows, w) by {
        if none_of(rows) {
            root_idle(cx, bound, level, e, rows, w);
        }
    }
    reveal(root_cell);
    reveal(root_kind);
}

pub proof fn root_outcome_is_step(cx: DenseFacts, bound: nat, level: nat, e: CompiledJudgmentExpr)
    ensures
        forall|row: int| #[trigger]
            root_outcome(cx, bound, level, e, row) == root_outcome_step(cx, bound, level, e, row),
        root_typed(cx, bound, level, e) == root_typed_step(cx, bound, level, e),
        forall|rows: Set<int>, w: Worked| #[trigger]
            root_judgment_work(cx, bound, level, e, rows, w) == root_judgment_work_step(cx, bound, level, e, rows, w),
{
    reveal(root_judgment_work);
    assert forall|rows: Set<int>, w: Worked| #[trigger]
        root_judgment_work(cx, bound, level, e, rows, w) == root_judgment_work_step(cx, bound, level, e, rows, w) by {
        if none_of(rows) {
            root_judgment_idle(cx, bound, level, e, rows, w);
        }
    }
    reveal(root_outcome);
    reveal(root_typed);
}

pub proof fn related_is_step(
    cx: DenseFacts,
    bound: nat,
    level: nat,
    rel: nat,
    e: CompiledRelatedScalarExpr,
)
    ensures
        forall|k: int| #[trigger]
            related_cell(cx, bound, level, rel, e, k) == related_step(cx, bound, level, rel, e, k),
        related_kind(cx, bound, level, rel, e) == related_kind_step(cx, bound, level, rel, e),
        forall|rows: Set<int>, w: Worked| #[trigger]
            related_work(
                cx,
                bound,
                level,
                rel,
                e,
                rows,
                w,
            ) == related_work_step(cx, bound, level, rel, e, rows, w),
{
    reveal(related_work);
    assert forall|rows: Set<int>, w: Worked| #[trigger]
        related_work(
            cx,
            bound,
            level,
            rel,
            e,
            rows,
            w,
        ) == related_work_step(cx, bound, level, rel, e, rows, w) by {
        if none_of(rows) {
            related_idle(cx, bound, level, rel, e, rows, w);
        }
    }
    reveal(related_cell);
    reveal(related_kind);
}

pub proof fn related_outcome_is_step(
    cx: DenseFacts,
    bound: nat,
    level: nat,
    rel: nat,
    e: CompiledRelatedJudgmentExpr,
)
    ensures
        forall|k: int| #[trigger]
            related_outcome(cx, bound, level, rel, e, k) == related_outcome_step(
                cx,
                bound,
                level,
                rel,
                e,
                k,
            ),
        related_typed(cx, bound, level, rel, e) == related_typed_step(cx, bound, level, rel, e),
        forall|rows: Set<int>, w: Worked| #[trigger]
            related_judgment_work(
                cx,
                bound,
                level,
                rel,
                e,
                rows,
                w,
            ) == related_judgment_work_step(cx, bound, level, rel, e, rows, w),
{
    reveal(related_judgment_work);
    assert forall|rows: Set<int>, w: Worked| #[trigger]
        related_judgment_work(
            cx,
            bound,
            level,
            rel,
            e,
            rows,
            w,
        ) == related_judgment_work_step(cx, bound, level, rel, e, rows, w) by {
        if none_of(rows) {
            related_judgment_idle(cx, bound, level, rel, e, rows, w);
        }
    }
    reveal(related_outcome);
    reveal(related_typed);
}

} // verus!
