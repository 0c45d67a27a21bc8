//! When formulas mix dtypes: an `if` whose branches have, for the rows that take them, values of
//! dtypes that do not combine.
//!
//! A rule is evaluated once per row, so which rows meet in one column depends on the order of
//! evaluation. `Worked` is what an evaluation has computed so far. The functions here say what it
//! is after a formula was evaluated for some rows: `None` where the evaluation mixes dtypes.
use crate::column::{dated, differ, numbered, ConnectiveState};
use crate::dense::{
    commencement_error, is_member, kept_test, member_failure, nonzero, related_cell,
    related_connective, related_extremum, related_outcome, related_sum, relation_of, root_cell,
    root_connective, root_extremum, root_outcome, root_sum, rule_cell, CompiledJudgmentExpr,
    CompiledRelatedJudgmentExpr, CompiledRelatedScalarExpr, CompiledScalarExpr, CompiledSemantics,
    DenseFacts,
};
use crate::error::ErrorView;
use crate::lazy::RowMask;
use crate::lifetime::{
    life_cell, life_connective, life_extremum, life_outcome, life_rule, life_sum, period_cells,
    period_count, period_numbers, LifetimeFacts,
};
use crate::model::{JudgmentOutcome, OverPeriodsKind, ScalarValue};
use vstd::prelude::*;

verus! {

/// The rows that each rule has been evaluated for.
#[verifier::ext_equal]
pub ghost struct Worked {
    pub scalars: Seq<Set<int>>,
    pub judgments: Seq<Set<int>>,
}

/// The rows that each rule has been evaluated for, over a lifetime and in each of its periods.
#[verifier::ext_equal]
pub ghost struct LifeWorked {
    pub own: Worked,
    pub periods: Seq<Worked>,
}

/// Nothing evaluated yet.
pub open spec fn fresh(rules: nat) -> Worked {
    Worked {
        scalars: Seq::new(rules, |i: int| Set::empty()),
        judgments: Seq::new(rules, |i: int| Set::empty()),
    }
}

/// The rows of a mask.
pub open spec fn rows_of(mask: RowMask) -> Set<int> {
    Set::new(|row: int| mask.has(row))
}

/// Every row of a batch.
pub open spec fn all_rows(count: nat) -> Set<int> {
    Set::new(|row: int| 0 <= row < count)
}

/// Whether there are no rows.
pub open spec fn none_of(rows: Set<int>) -> bool {
    forall|row: int| !#[trigger] rows.contains(row)
}

/// The rows that something has a value for.
pub open spec fn ok_rows<T>(rows: Set<int>, f: spec_fn(int) -> Result<T, ErrorView>) -> Set<int> {
    Set::new(|row: int| rows.contains(row) && f(row) is Ok)
}

/// The rows that a condition sends to the first branch of an `if`.
pub open spec fn taken_rows(
    rows: Set<int>,
    c: spec_fn(int) -> Result<JudgmentOutcome, ErrorView>,
) -> Set<int> {
    Set::new(|row: int| rows.contains(row) && (c(row) matches Ok(o) && o is Holds))
}

/// The rows that a condition sends to the second branch of an `if`.
pub open spec fn passed_rows(
    rows: Set<int>,
    c: spec_fn(int) -> Result<JudgmentOutcome, ErrorView>,
) -> Set<int> {
    Set::new(|row: int| rows.contains(row) && (c(row) matches Ok(o) && !(o is Holds)))
}

/// The rows for which an `and` or `or` is not decided yet.
pub open spec fn open_rows(
    rows: Set<int>,
    f: spec_fn(int) -> Result<ConnectiveState, ErrorView>,
) -> Set<int> {
    Set::new(|row: int| rows.contains(row) && (f(row) matches Ok(s) && !s.decided))
}

/// Whether a row of the first rows and a row of the second have values of dtypes that do not
/// combine.
pub open spec fn apart(
    a: Set<int>,
    f: spec_fn(int) -> Result<ScalarValue, ErrorView>,
    b: Set<int>,
    g: spec_fn(int) -> Result<ScalarValue, ErrorView>,
) -> bool {
    exists|r: int, s: int| #[trigger] a.contains(r)
        && #[trigger] b.contains(s)
        && differ(f(r), g(s))
}

/// The root rows that own related rows.
pub open spec fn owners_of(cx: DenseFacts, rel: nat, rows: Set<int>) -> Set<int> {
    Set::new(|row: int| exists|k: int| #[trigger] rows.contains(k) && cx.owner(rel, k) == row)
}

/// The related rows of root rows that a derived relation's own filter is evaluated for: the
/// members of its parent, where finding those did not fail.
pub open spec fn candidate_rows(cx: DenseFacts, rel: nat, rows: Set<int>) -> Set<int> {
    Set::new(
        |k: int|
            {
                &&& 0 <= k < cx.batch.relations[rel as int].related_count
                &&& rows.contains(cx.owner(rel, k))
                &&& match cx.program.relations@[rel as int].parent_relation {
                    Some(parent) => member_failure(cx, parent as nat, cx.owner(rel, k)) is None
                        && is_member(cx, parent as nat, k),
                    None => true,
                }
            },
    )
}

/// The members of a relation of root rows, where finding them did not fail.
pub open spec fn member_rows(cx: DenseFacts, rel: nat, rows: Set<int>) -> Set<int> {
    Set::new(
        |k: int|
            {
                &&& 0 <= k < cx.batch.relations[rel as int].related_count
                &&& rows.contains(cx.owner(rel, k))
                &&& member_failure(cx, rel, cx.owner(rel, k)) is None
                &&& is_member(cx, rel, k)
            },
    )
}

/// The members of a relation of root rows that an aggregation keeps.
pub open spec fn kept_rows(
    cx: DenseFacts,
    bound: nat,
    level: nat,
    e: CompiledScalarExpr,
    rows: Set<int>,
) -> Set<int> {
    Set::new(
        |k: int|
            member_rows(cx, relation_of(e), rows).contains(k) && kept_test(cx, bound, level, e, k)
                == Ok::<bool, ErrorView>(true),
    )
}

/// Evaluates a scalar rule for the rows that it was not evaluated for. The values that it has
/// already and the new ones make one column.
pub open spec fn rule_work(cx: DenseFacts, i: nat, rows: Set<int>, w: Worked) -> Option<Worked>
    decreases i, 3nat, cx, 1int, 0int,
{
    if none_of(rows) {
        Some(w)
    } else {
        let done = w.scalars[i as int];
        let pending = rows.difference(done);
        let aside = Worked { scalars: w.scalars.update(i as int, Set::empty()), ..w };
        match formula_work(cx, i, pending, aside) {
            None => None,
            Some(x) => if apart(
                pending,
                |row: int| rule_cell(cx, i, row),
                done,
                |row: int| rule_cell(cx, i, row),
            ) {
                None
            } else {
                Some(Worked { scalars: x.scalars.update(i as int, done.union(pending)), ..x })
            },
        }
    }
}

/// Evaluates a scalar rule's formula, unless the rule has not commenced.
pub open spec fn formula_work(cx: DenseFacts, i: nat, rows: Set<int>, w: Worked) -> Option<Worked>
    decreases i, 3nat, cx, 0int, 0int,
{
    match cx.program.derived@[i as int].semantics {
        CompiledSemantics::Scalar(e) => if commencement_error(cx, i) is None {
            root_work(cx, i, 2, e, rows, w)
        } else {
            Some(w)
        },
        CompiledSemantics::Judgment(_) => Some(w),
    }
}

/// Evaluates a judgment rule for the rows that it was not evaluated for.
pub open spec fn rule_judgment_work(cx: DenseFacts, i: nat, rows: Set<int>, w: Worked) -> Option<
    Worked,
>
    decreases i, 3nat, cx, 1int, 0int,
{
    if none_of(rows) {
        Some(w)
    } else {
        let done = w.judgments[i as int];
        let pending = rows.difference(done);
        let aside = Worked { judgments: w.judgments.update(i as int, Set::empty()), ..w };
        match judgment_formula_work(cx, i, pending, aside) {
            None => None,
            Some(x) => Some(
                Worked { judgments: x.judgments.update(i as int, done.union(pending)), ..x },
            ),
        }
    }
}

/// Evaluates a judgment rule's formula, unless the rule has not commenced.
pub open spec fn judgment_formula_work(
    cx: DenseFacts,
    i: nat,
    rows: Set<int>,
    w: Worked,
) -> Option<Worked>
    decreases i, 3nat, cx, 0int, 0int,
{
    match cx.program.derived@[i as int].semantics {
        CompiledSemantics::Judgment(e) => if commencement_error(cx, i) is None {
            root_judgment_work(cx, i, 2, e, rows, w)
        } else {
            Some(w)
        },
        CompiledSemantics::Scalar(_) => Some(w),
    }
}

/// Finds the members of a relation of root rows: those of its parent first, then its own filter.
pub open spec fn member_work(cx: DenseFacts, rel: nat, rows: Set<int>, w: Worked) -> Option<Worked>
    decreases 0nat, 1nat, cx, rel, 0int,
{
    let schema = cx.program.relations@[rel as int];
    let before = match schema.parent_relation {
        Some(parent) => if parent < rel {
            member_work(cx, parent as nat, rows, w)
        } else {
            Some(w)
        },
        None => Some(w),
    };
    match before {
        None => None,
        Some(x) => match schema.filter {
            Some(filter) => related_judgment_work(
                cx,
                0,
                0,
                rel,
                filter,
                candidate_rows(cx, rel, rows),
                x,
            ),
            None => Some(x),
        },
    }
}

/// Finds the members that an aggregation keeps: the `where` clause for the members only.
pub open spec fn keeping_work(
    cx: DenseFacts,
    bound: nat,
    level: nat,
    e: CompiledScalarExpr,
    rows: Set<int>,
    w: Worked,
) -> Option<Worked>
    decreases bound, level, e, 0int, 0int,
{
    let rel = relation_of(e);
    if level < 2 {
        Some(w)
    } else {
        match member_work(cx, rel, rows, w) {
            None => None,
            Some(x) => match e {
                CompiledScalarExpr::CountRelated { predicate: Some(p), .. } => related_judgment_work(
                    cx,
                    bound,
                    level,
                    rel,
                    *p,
                    member_rows(cx, rel, rows),
                    x,
                ),
                CompiledScalarExpr::SumRelated { predicate: Some(p), .. } => related_judgment_work(
                    cx,
                    bound,
                    level,
                    rel,
                    *p,
                    member_rows(cx, rel, rows),
                    x,
                ),
                _ => Some(x),
            },
        }
    }
}

/// Evaluates a formula for rows.
#[verifier::opaque]
pub open spec fn root_work(
    cx: DenseFacts,
    bound: nat,
    level: nat,
    e: CompiledScalarExpr,
    rows: Set<int>,
    w: Worked,
) -> Option<Worked>
    decreases bound, level, e, 3int, 0int,
{
    if none_of(rows) {
        Some(w)
    } else {
        root_work_step(cx, bound, level, e, rows, w)
    }
}

pub open spec fn root_work_step(
    cx: DenseFacts,
    bound: nat,
    level: nat,
    e: CompiledScalarExpr,
    rows: Set<int>,
    w: Worked,
) -> Option<Worked>
    decreases bound, level, e, 2int, 0int,
{
    match e {
        CompiledScalarExpr::ParameterLookup { index, .. } => root_work(
            cx,
            bound,
            level,
            *index,
            rows,
            w,
        ),
        CompiledScalarExpr::Add(items) => root_sum_work(
            cx,
            bound,
            level,
            items@,
            items@.len(),
            rows,
            w,
        ),
        CompiledScalarExpr::Max(items) => root_extremum_work(
            cx,
            bound,
            level,
            items@,
            items@.len(),
            true,
            rows,
            w,
        ),
        CompiledScalarExpr::Min(items) => root_extremum_work(
            cx,
            bound,
            level,
            items@,
            items@.len(),
            false,
            rows,
            w,
        ),
        CompiledScalarExpr::Sub(a, b) => match root_work(cx, bound, level, *a, rows, w) {
            None => None,
            Some(x) => root_work(
                cx,
                bound,
                level,
                *b,
                ok_rows(rows, |row: int| numbered(root_cell(cx, bound, level, *a, row))),
                x,
            ),
        },
        CompiledScalarExpr::Mul(a, b) => match root_work(cx, bound, level, *a, rows, w) {
            None => None,
            Some(x) => root_work(
                cx,
                bound,
                level,
                *b,
                ok_rows(rows, |row: int| numbered(root_cell(cx, bound, level, *a, row))),
                x,
            ),
        },
        CompiledScalarExpr::Div(a, b) => match root_work(cx, bound, level, *b, rows, w) {
            None => None,
            Some(x) => root_work(
                cx,
                bound,
                level,
                *a,
                ok_rows(rows, |row: int| nonzero(numbered(root_cell(cx, bound, level, *b, row)))),
                x,
            ),
        },
        CompiledScalarExpr::Ceil(a) => root_work(cx, bound, level, *a, rows, w),
        CompiledScalarExpr::Floor(a) => root_work(cx, bound, level, *a, rows, w),
        CompiledScalarExpr::DateShift { unit, date, count } => match root_work(
            cx,
            bound,
            level,
            *date,
            rows,
            w,
        ) {
            None => None,
            Some(x) => root_work(
                cx,
                bound,
                level,
                *count,
                ok_rows(
                    rows,
                    |row: int| dated(root_cell(cx, bound, level, *date, row), unit.date_message()),
                ),
                x,
            ),
        },
        CompiledScalarExpr::DaysBetween { from, to } => match root_work(
            cx,
            bound,
            level,
            *from,
            rows,
            w,
        ) {
            None => None,
            Some(x) => root_work(
                cx,
                bound,
                level,
                *to,
                ok_rows(
                    rows,
                    |row: int| dated(
                        root_cell(cx, bound, level, *from, row),
                        "days_between expects a date for `from`"@,
                    ),
                ),
                x,
            ),
        },
        CompiledScalarExpr::If { condition, then_expr, else_expr } => match root_judgment_work(
            cx,
            bound,
            level,
            *condition,
            rows,
            w,
        ) {
            None => None,
            Some(x) => match root_work(
                cx,
                bound,
                level,
                *then_expr,
                taken_rows(rows, |row: int| root_outcome(cx, bound, level, *condition, row)),
                x,
            ) {
                None => None,
                Some(y) => match root_work(
                    cx,
                    bound,
                    level,
                    *else_expr,
                    passed_rows(rows, |row: int| root_outcome(cx, bound, level, *condition, row)),
                    y,
                ) {
                    None => None,
                    Some(z) => if apart(
                        taken_rows(
                            rows,
                            |row: int| root_outcome(cx, bound, level, *condition, row),
                        ),
                        |row: int| root_cell(cx, bound, level, *then_expr, row),
                        passed_rows(
                            rows,
                            |row: int| root_outcome(cx, bound, level, *condition, row),
                        ),
                        |row: int| root_cell(cx, bound, level, *else_expr, row),
                    ) {
                        None
                    } else {
                        Some(z)
                    },
                },
            },
        },
        CompiledScalarExpr::NoMatch { subject, .. } => root_work(
            cx,
            bound,
            level,
            *subject,
            rows,
            w,
        ),
        CompiledScalarExpr::Derived(i) => if i < bound {
            rule_work(cx, i as nat, rows, w)
        } else {
            Some(w)
        },
        CompiledScalarExpr::CountRelated { .. } => keeping_work(cx, bound, level, e, rows, w),
        CompiledScalarExpr::SumRelated { relation, value, .. } => match keeping_work(cx, bound, level, e, rows, w) {
            None => None,
            Some(x) => related_work(
                cx,
                bound,
                level,
                relation as nat,
                *value,
                kept_rows(cx, bound, level, e, rows),
                x,
            ),
        },
        _ => Some(w),
    }
}

/// Evaluates the first `n` items of a sum for rows, each for those that no earlier one failed.
pub open spec fn root_sum_work(
    cx: DenseFacts,
    bound: nat,
    level: nat,
    items: Seq<CompiledScalarExpr>,
    n: nat,
    rows: Set<int>,
    w: Worked,
) -> Option<Worked>
    decreases bound, level, items, 0int, n,
{
    if n == 0 || n > items.len() {
        Some(w)
    } else {
        match root_sum_work(cx, bound, level, items, (n - 1) as nat, rows, w) {
            None => None,
            Some(x) => root_work(
                cx,
                bound,
                level,
                items[n - 1],
                ok_rows(rows, |row: int| root_sum(cx, bound, level, items, (n - 1) as nat, row)),
                x,
            ),
        }
    }
}

/// Evaluates the first `n` items of a `max` or `min` for rows, each for those that no earlier
/// one failed.
pub open spec fn root_extremum_work(
    cx: DenseFacts,
    bound: nat,
    level: nat,
    items: Seq<CompiledScalarExpr>,
    n: nat,
    largest: bool,
    rows: Set<int>,
    w: Worked,
) -> Option<Worked>
    decreases bound, level, items, 0int, n,
{
    if n == 0 || n > items.len() {
        Some(w)
    } else {
        match root_extremum_work(cx, bound, level, items, (n - 1) as nat, largest, rows, w) {
            None => None,
            Some(x) => root_work(
                cx,
                bound,
                level,
                items[n - 1],
                if n == 1 { rows } else { ok_rows(
                    rows,
                    |row: int| root_extremum(cx, bound, level, items, (n - 1) as nat, largest, row),
                ) },
                x,
            ),
        }
    }
}

/// Evaluates the first `n` items of an `and` or `or` for rows, each for those that no earlier
/// one decided.
pub open spec fn root_connective_work(
    cx: DenseFacts,
    bound: nat,
    level: nat,
    items: Seq<CompiledJudgmentExpr>,
    n: nat,
    decisive: JudgmentOutcome,
    rows: Set<int>,
    w: Worked,
) -> Option<Worked>
    decreases bound, level, items, 0int, n,
{
    if n == 0 || n > items.len() {
        Some(w)
    } else {
        match root_connective_work(cx, bound, level, items, (n - 1) as nat, decisive, rows, w) {
            None => None,
            Some(x) => root_judgment_work(
                cx,
                bound,
                level,
                items[n - 1],
                open_rows(
                    rows,
                    |row: int| root_connective(
                        cx,
                        bound,
                        level,
                        items,
                        (n - 1) as nat,
                        decisive,
                        row,
                    ),
                ),
                x,
            ),
        }
    }
}

/// Evaluates a judgment for rows.
#[verifier::opaque]
pub open spec fn root_judgment_work(
    cx: DenseFacts,
    bound: nat,
    level: nat,
    e: CompiledJudgmentExpr,
    rows: Set<int>,
    w: Worked,
) -> Option<Worked>
    decreases bound, level, e, 3int, 0int,
{
    if none_of(rows) {
        Some(w)
    } else {
        root_judgment_work_step(cx, bound, level, e, rows, w)
    }
}

pub open spec fn root_judgment_work_step(
    cx: DenseFacts,
    bound: nat,
    level: nat,
    e: CompiledJudgmentExpr,
    rows: Set<int>,
    w: Worked,
) -> Option<Worked>
    decreases bound, level, e, 2int, 0int,
{
    match e {
        CompiledJudgmentExpr::Comparison { left, right, .. } => match root_work(
            cx,
            bound,
            level,
            left,
            rows,
            w,
        ) {
            None => None,
            Some(x) => root_work(
                cx,
                bound,
                level,
                right,
                ok_rows(rows, |row: int| root_cell(cx, bound, level, left, row)),
                x,
            ),
        },
        CompiledJudgmentExpr::And(items) => root_connective_work(
            cx,
            bound,
            level,
            items@,
            items@.len(),
            JudgmentOutcome::NotHolds,
            rows,
            w,
        ),
        CompiledJudgmentExpr::Or(items) => root_connective_work(
            cx,
            bound,
            level,
            items@,
            items@.len(),
            JudgmentOutcome::Holds,
            rows,
            w,
        ),
        CompiledJudgmentExpr::Not(item) => root_judgment_work(cx, bound, level, *item, rows, w),
        CompiledJudgmentExpr::Derived(i) => if i < bound {
            rule_judgment_work(cx, i as nat, rows, w)
        } else {
            Some(w)
        },
    }
}

/// Evaluates a formula for related rows.
#[verifier::opaque]
pub open spec fn related_work(
    cx: DenseFacts,
    bound: nat,
    level: nat,
    rel: nat,
    e: CompiledRelatedScalarExpr,
    rows: Set<int>,
    w: Worked,
) -> Option<Worked>
    decreases bound, level, e, 3int, 0int,
{
    if none_of(rows) {
        Some(w)
    } else {
        related_work_step(cx, bound, level, rel, e, rows, w)
    }
}

pub open spec fn related_work_step(
    cx: DenseFacts,
    bound: nat,
    level: nat,
    rel: nat,
    e: CompiledRelatedScalarExpr,
    rows: Set<int>,
    w: Worked,
) -> Option<Worked>
    decreases bound, level, e, 2int, 0int,
{
    match e {
        CompiledRelatedScalarExpr::ParameterLookup { index, .. } => related_work(
            cx,
            bound,
            level,
            rel,
            *index,
            rows,
            w,
        ),
        CompiledRelatedScalarExpr::Add(items) => related_sum_work(
            cx,
            bound,
            level,
            rel,
            items@,
            items@.len(),
            rows,
            w,
        ),
        CompiledRelatedScalarExpr::Max(items) => related_extremum_work(
            cx,
            bound,
            level,
            rel,
            items@,
            items@.len(),
            true,
            rows,
            w,
        ),
        CompiledRelatedScalarExpr::Min(items) => related_extremum_work(
            cx,
            bound,
            level,
            rel,
            items@,
            items@.len(),
            false,
            rows,
            w,
        ),
        CompiledRelatedScalarExpr::Sub(a, b) => match related_work(
            cx,
            bound,
            level,
            rel,
            *a,
            rows,
            w,
        ) {
            None => None,
            Some(x) => related_work(
                cx,
                bound,
                level,
                rel,
                *b,
                ok_rows(rows, |row: int| numbered(related_cell(cx, bound, level, rel, *a, row))),
                x,
            ),
        },
        CompiledRelatedScalarExpr::Mul(a, b) => match related_work(
            cx,
            bound,
            level,
            rel,
            *a,
            rows,
            w,
        ) {
            None => None,
            Some(x) => related_work(
                cx,
                bound,
                level,
                rel,
                *b,
                ok_rows(rows, |row: int| numbered(related_cell(cx, bound, level, rel, *a, row))),
                x,
            ),
        },
        CompiledRelatedScalarExpr::Div(a, b) => match related_work(
            cx,
            bound,
            level,
            rel,
            *b,
            rows,
            w,
        ) {
            None => None,
            Some(x) => related_work(
                cx,
                bound,
                level,
                rel,
                *a,
                ok_rows(
                    rows,
                    |row: int| nonzero(numbered(related_cell(cx, bound, level, rel, *b, row))),
                ),
                x,
            ),
        },
        CompiledRelatedScalarExpr::Ceil(a) => related_work(cx, bound, level, rel, *a, rows, w),
        CompiledRelatedScalarExpr::Floor(a) => related_work(cx, bound, level, rel, *a, rows, w),
        CompiledRelatedScalarExpr::DateShift { unit, date, count } => match related_work(
            cx,
            bound,
            level,
            rel,
            *date,
            rows,
            w,
        ) {
            None => None,
            Some(x) => related_work(
                cx,
                bound,
                level,
                rel,
                *count,
                ok_rows(
                    rows,
                    |row: int| dated(
                        related_cell(cx, bound, level, rel, *date, row),
                        unit.date_message(),
                    ),
                ),
                x,
            ),
        },
        CompiledRelatedScalarExpr::DaysBetween { from, to } => match related_work(
            cx,
            bound,
            level,
            rel,
            *from,
            rows,
            w,
        ) {
            None => None,
            Some(x) => related_work(
                cx,
                bound,
                level,
                rel,
                *to,
                ok_rows(
                    rows,
                    |row: int| dated(
                        related_cell(cx, bound, level, rel, *from, row),
                        "days_between expects a date for `from`"@,
                    ),
                ),
                x,
            ),
        },
        CompiledRelatedScalarExpr::If { condition, then_expr, else_expr } => match related_judgment_work(
            cx,
            bound,
            level,
            rel,
            *condition,
            rows,
            w,
        ) {
            None => None,
            Some(x) => match related_work(
                cx,
                bound,
                level,
                rel,
                *then_expr,
                taken_rows(
                    rows,
                    |row: int| related_outcome(cx, bound, level, rel, *condition, row),
                ),
                x,
            ) {
                None => None,
                Some(y) => match related_work(
                    cx,
                    bound,
                    level,
                    rel,
                    *else_expr,
                    passed_rows(
                        rows,
                        |row: int| related_outcome(cx, bound, level, rel, *condition, row),
                    ),
                    y,
                ) {
                    None => None,
                    Some(z) => if apart(
                        taken_rows(
                            rows,
                            |row: int| related_outcome(cx, bound, level, rel, *condition, row),
                        ),
                        |row: int| related_cell(cx, bound, level, rel, *then_expr, row),
                        passed_rows(
                            rows,
                            |row: int| related_outcome(cx, bound, level, rel, *condition, row),
                        ),
                        |row: int| related_cell(cx, bound, level, rel, *else_expr, row),
                    ) {
                        None
                    } else {
                        Some(z)
                    },
                },
            },
        },
        CompiledRelatedScalarExpr::NoMatch { subject, .. } => related_work(
            cx,
            bound,
            level,
            rel,
            *subject,
            rows,
            w,
        ),
        CompiledRelatedScalarExpr::RootScalar(e) => root_work(
            cx,
            bound,
            level,
            *e,
            owners_of(cx, rel, rows),
            w,
        ),
        _ => Some(w),
    }
}

/// Evaluates the first `n` items of a sum for related rows, each for those that no earlier one
/// failed.
pub open spec fn related_sum_work(
    cx: DenseFacts,
    bound: nat,
    level: nat,
    rel: nat,
    items: Seq<CompiledRelatedScalarExpr>,
    n: nat,
    rows: Set<int>,
    w: Worked,
) -> Option<Worked>
    decreases bound, level, items, 0int, n,
{
    if n == 0 || n > items.len() {
        Some(w)
    } else {
        match related_sum_work(cx, bound, level, rel, items, (n - 1) as nat, rows, w) {
            None => None,
            Some(x) => related_work(
                cx,
                bound,
                level,
                rel,
                items[n - 1],
                ok_rows(
                    rows,
                    |row: int| related_sum(cx, bound, level, rel, items, (n - 1) as nat, row),
                ),
                x,
            ),
        }
    }
}

/// Evaluates the first `n` items of a `max` or `min` for related rows, each for those that no
/// earlier one failed.
pub open spec fn related_extremum_work(
    cx: DenseFacts,
    bound: nat,
    level: nat,
    rel: nat,
    items: Seq<CompiledRelatedScalarExpr>,
    n: nat,
    largest: bool,
    rows: Set<int>,
    w: Worked,
) -> Option<Worked>
    decreases bound, level, items, 0int, n,
{
    if n == 0 || n > items.len() {
        Some(w)
    } else {
        match related_extremum_work(
            cx,
            bound,
            level,
            rel,
            items,
            (n - 1) as nat,
            largest,
            rows,
            w,
        ) {
            None => None,
            Some(x) => related_work(
                cx,
                bound,
                level,
                rel,
                items[n - 1],
                if n == 1 { rows } else { ok_rows(
                    rows,
                    |row: int| related_extremum(
                        cx,
                        bound,
                        level,
                        rel,
                        items,
                        (n - 1) as nat,
                        largest,
                        row,
                    ),
                ) },
                x,
            ),
        }
    }
}

/// Evaluates the first `n` items of an `and` or `or` for related rows, each for those that no
/// earlier one decided.
pub open spec fn related_connective_work(
    cx: DenseFacts,
    bound: nat,
    level: nat,
    rel: nat,
    items: Seq<CompiledRelatedJudgmentExpr>,
    n: nat,
    decisive: JudgmentOutcome,
    rows: Set<int>,
    w: Worked,
) -> Option<Worked>
    decreases bound, level, items, 0int, n,
{
    if n == 0 || n > items.len() {
        Some(w)
    } else {
        match related_connective_work(
            cx,
            bound,
            level,
            rel,
            items,
            (n - 1) as nat,
            decisive,
            rows,
            w,
        ) {
            None => None,
            Some(x) => related_judgment_work(
                cx,
                bound,
                level,
                rel,
                items[n - 1],
                open_rows(
                    rows,
                    |row: int| related_connective(
                        cx,
                        bound,
                        level,
                        rel,
                        items,
                        (n - 1) as nat,
                        decisive,
                        row,
                    ),
                ),
                x,
            ),
        }
    }
}

/// Evaluates a judgment for related rows.
#[verifier::opaque]
pub open spec fn related_judgment_work(
    cx: DenseFacts,
    bound: nat,
    level: nat,
    rel: nat,
    e: CompiledRelatedJudgmentExpr,
    rows: Set<int>,
    w: Worked,
) -> Option<Worked>
    decreases bound, level, e, 3int, 0int,
{
    if none_of(rows) {
        Some(w)
    } else {
        related_judgment_work_step(cx, bound, level, rel, e, rows, w)
    }
}

pub open spec fn related_judgment_work_step(
    cx: DenseFacts,
    bound: nat,
    level: nat,
    rel: nat,
    e: CompiledRelatedJudgmentExpr,
    rows: Set<int>,
    w: Worked,
) -> Option<Worked>
    decreases bound, level, e, 2int, 0int,
{
    match e {
        CompiledRelatedJudgmentExpr::Comparison { left, right, .. } => match related_work(
            cx,
            bound,
            level,
            rel,
            left,
            rows,
            w,
        ) {
            None => None,
            Some(x) => related_work(
                cx,
                bound,
                level,
                rel,
                right,
                ok_rows(rows, |row: int| related_cell(cx, bound, level, rel, left, row)),
                x,
            ),
        },
        CompiledRelatedJudgmentExpr::And(items) => related_connective_work(
            cx,
            bound,
            level,
            rel,
            items@,
            items@.len(),
            JudgmentOutcome::NotHolds,
            rows,
            w,
        ),
        CompiledRelatedJudgmentExpr::Or(items) => related_connective_work(
            cx,
            bound,
            level,
            rel,
            items@,
            items@.len(),
            JudgmentOutcome::Holds,
            rows,
            w,
        ),
        CompiledRelatedJudgmentExpr::Not(item) => related_judgment_work(
            cx,
            bound,
            level,
            rel,
            *item,
            rows,
            w,
        ),
        CompiledRelatedJudgmentExpr::RootJudgment(e) => root_judgment_work(
            cx,
            bound,
            level,
            *e,
            owners_of(cx, rel, rows),
            w,
        ),
        CompiledRelatedJudgmentExpr::Literal(_) => Some(w),
    }
}

/// What is evaluated in one period.
pub open spec fn in_period(
    lx: LifetimeFacts,
    bound: nat,
    e: CompiledScalarExpr,
    p: int,
    rows: Set<int>,
    w: LifeWorked,
) -> Option<LifeWorked> {
    match root_work(lx.periods[p], bound, 2, e, rows, w.periods[p]) {
        None => None,
        Some(x) => Some(LifeWorked { periods: w.periods.update(p, x), ..w }),
    }
}

/// Nothing evaluated yet.
pub open spec fn life_fresh(lx: LifetimeFacts) -> LifeWorked {
    LifeWorked {
        own: fresh(lx.program.derived@.len()),
        periods: Seq::new(lx.periods.len(), |p: int| fresh(lx.program.derived@.len())),
    }
}

/// Evaluates a formula in the first `n` periods, in each for the rows that it has values for in the
/// periods before.
pub open spec fn cells_work(
    lx: LifetimeFacts,
    bound: nat,
    e: CompiledScalarExpr,
    n: nat,
    rows: Set<int>,
    w: LifeWorked,
) -> Option<LifeWorked>
    decreases n,
{
    if n == 0 || n > lx.periods.len() || none_of(rows) {
        Some(w)
    } else {
        match cells_work(lx, bound, e, (n - 1) as nat, rows, w) {
            None => None,
            Some(x) => in_period(
                lx,
                bound,
                e,
                n - 1,
                ok_rows(rows, |row: int| period_cells(lx, bound, e, (n - 1) as nat, row)),
                x,
            ),
        }
    }
}

/// Evaluates a formula in the first `n` periods, in each for the rows that it has numbers for in
/// the periods before.
pub open spec fn numbers_work(
    lx: LifetimeFacts,
    bound: nat,
    e: CompiledScalarExpr,
    n: nat,
    rows: Set<int>,
    w: LifeWorked,
) -> Option<LifeWorked>
    decreases n,
{
    if n == 0 || n > lx.periods.len() || none_of(rows) {
        Some(w)
    } else {
        match numbers_work(lx, bound, e, (n - 1) as nat, rows, w) {
            None => None,
            Some(x) => in_period(
                lx,
                bound,
                e,
                n - 1,
                ok_rows(rows, |row: int| period_numbers(lx, bound, e, (n - 1) as nat, row)),
                x,
            ),
        }
    }
}

/// Evaluates a formula in the first `n` periods, in each for the rows that it has counts for in the
/// periods before.
pub open spec fn counts_work(
    lx: LifetimeFacts,
    bound: nat,
    e: CompiledScalarExpr,
    n: nat,
    rows: Set<int>,
    w: LifeWorked,
) -> Option<LifeWorked>
    decreases n,
{
    if n == 0 || n > lx.periods.len() || none_of(rows) {
        Some(w)
    } else {
        match counts_work(lx, bound, e, (n - 1) as nat, rows, w) {
            None => None,
            Some(x) => in_period(
                lx,
                bound,
                e,
                n - 1,
                ok_rows(rows, |row: int| period_count(lx, bound, e, (n - 1) as nat, row)),
                x,
            ),
        }
    }
}

/// Evaluates a reduction over the periods: what it reduces, and then the `n` of
/// `sum_top_n_over_periods` for the rows that have numbers in every period.
pub open spec fn over_periods_work(
    lx: LifetimeFacts,
    bound: nat,
    kind: OverPeriodsKind,
    value: CompiledScalarExpr,
    n: Option<Box<CompiledScalarExpr>>,
    rows: Set<int>,
    w: LifeWorked,
) -> Option<LifeWorked> {
    if kind == OverPeriodsKind::Count {
        counts_work(lx, bound, value, lx.periods.len(), rows, w)
    } else {
        match numbers_work(lx, bound, value, lx.periods.len(), rows, w) {
            None => None,
            Some(x) => if kind == OverPeriodsKind::SumTopN {
                top_n_work(
                    lx,
                    bound,
                    n,
                    ok_rows(
                        rows,
                        |row: int| period_numbers(lx, bound, value, lx.periods.len(), row),
                    ),
                    x,
                )
            } else {
                Some(x)
            },
        }
    }
}

/// Evaluates the `n` of `sum_top_n_over_periods`.
pub open spec fn top_n_work(
    lx: LifetimeFacts,
    bound: nat,
    n: Option<Box<CompiledScalarExpr>>,
    rows: Set<int>,
    w: LifeWorked,
) -> Option<LifeWorked> {
    match n {
        Some(e) => cells_work(lx, bound, *e, lx.periods.len(), rows, w),
        None => Some(w),
    }
}

/// Evaluates a scalar rule over a lifetime for the rows that it was not evaluated for. The values
/// that it has already and the new ones make one column.
pub open spec fn life_rule_work(
    lx: LifetimeFacts,
    i: nat,
    rows: Set<int>,
    w: LifeWorked,
) -> Option<LifeWorked>
    decreases i, 3nat, lx, 1int, 0int,
{
    if none_of(rows) {
        Some(w)
    } else {
        let done = w.own.scalars[i as int];
        let pending = rows.difference(done);
        let aside = LifeWorked {
            own: Worked { scalars: w.own.scalars.update(i as int, Set::empty()), ..w.own },
            ..w
        };
        match life_formula_work(lx, i, pending, aside) {
            None => None,
            Some(x) => if apart(
                pending,
                |row: int| life_rule(lx, i, row),
                done,
                |row: int| life_rule(lx, i, row),
            ) {
                None
            } else {
                Some(
                    LifeWorked {
                        own: Worked {
                            scalars: x.own.scalars.update(i as int, done.union(pending)),
                            ..x.own
                        },
                        ..x
                    },
                )
            },
        }
    }
}

/// Evaluates a scalar rule's formula over a lifetime.
pub open spec fn life_formula_work(
    lx: LifetimeFacts,
    i: nat,
    rows: Set<int>,
    w: LifeWorked,
) -> Option<LifeWorked>
    decreases i, 3nat, lx, 0int, 0int,
{
    match lx.program.derived@[i as int].semantics {
        CompiledSemantics::Scalar(e) => life_work(lx, i, e, rows, w),
        CompiledSemantics::Judgment(_) => Some(w),
    }
}

/// Evaluates a judgment rule over a lifetime for the rows that it was not evaluated for.
pub open spec fn life_rule_judgment_work(
    lx: LifetimeFacts,
    i: nat,
    rows: Set<int>,
    w: LifeWorked,
) -> Option<LifeWorked>
    decreases i, 3nat, lx, 1int, 0int,
{
    if none_of(rows) {
        Some(w)
    } else {
        let done = w.own.judgments[i as int];
        let pending = rows.difference(done);
        let aside = LifeWorked {
            own: Worked { judgments: w.own.judgments.update(i as int, Set::empty()), ..w.own },
            ..w
        };
        match life_judgment_formula_work(lx, i, pending, aside) {
            None => None,
            Some(x) => Some(
                LifeWorked {
                    own: Worked {
                        judgments: x.own.judgments.update(i as int, done.union(pending)),
                        ..x.own
                    },
                    ..x
                },
            ),
        }
    }
}

/// Evaluates a judgment rule's formula over a lifetime.
pub open spec fn life_judgment_formula_work(
    lx: LifetimeFacts,
    i: nat,
    rows: Set<int>,
    w: LifeWorked,
) -> Option<LifeWorked>
    decreases i, 3nat, lx, 0int, 0int,
{
    match lx.program.derived@[i as int].semantics {
        CompiledSemantics::Judgment(e) => life_judgment_work(lx, i, e, rows, w),
        CompiledSemantics::Scalar(_) => Some(w),
    }
}

/// Evaluates a formula for rows, over a lifetime.
#[verifier::opaque]
pub open spec fn life_work(
    lx: LifetimeFacts,
    bound: nat,
    e: CompiledScalarExpr,
    rows: Set<int>,
    w: LifeWorked,
) -> Option<LifeWorked>
    decreases bound, 2nat, e, 3int, 0int,
{
    if none_of(rows) {
        Some(w)
    } else {
        life_work_step(lx, bound, e, rows, w)
    }
}

pub open spec fn life_work_step(
    lx: LifetimeFacts,
    bound: nat,
    e: CompiledScalarExpr,
    rows: Set<int>,
    w: LifeWorked,
) -> Option<LifeWorked>
    decreases bound, 2nat, e, 2int, 0int,
{
    match e {
        CompiledScalarExpr::ParameterLookup { index, .. } => life_work(lx, bound, *index, rows, w),
        CompiledScalarExpr::Add(items) => life_sum_work(lx, bound, items@, items@.len(), rows, w),
        CompiledScalarExpr::Max(items) => life_extremum_work(
            lx,
            bound,
            items@,
            items@.len(),
            true,
            rows,
            w,
        ),
        CompiledScalarExpr::Min(items) => life_extremum_work(
            lx,
            bound,
            items@,
            items@.len(),
            false,
            rows,
            w,
        ),
        CompiledScalarExpr::Sub(a, b) => match life_work(lx, bound, *a, rows, w) {
            None => None,
            Some(x) => life_work(
                lx,
                bound,
                *b,
                ok_rows(rows, |row: int| numbered(life_cell(lx, bound, *a, row))),
                x,
            ),
        },
        CompiledScalarExpr::Mul(a, b) => match life_work(lx, bound, *a, rows, w) {
            None => None,
            Some(x) => life_work(
                lx,
                bound,
                *b,
                ok_rows(rows, |row: int| numbered(life_cell(lx, bound, *a, row))),
                x,
            ),
        },
        CompiledScalarExpr::Div(a, b) => match life_work(lx, bound, *a, rows, w) {
            None => None,
            Some(x) => life_work(
                lx,
                bound,
                *b,
                ok_rows(rows, |row: int| numbered(life_cell(lx, bound, *a, row))),
                x,
            ),
        },
        CompiledScalarExpr::Ceil(a) => life_work(lx, bound, *a, rows, w),
        CompiledScalarExpr::Floor(a) => life_work(lx, bound, *a, rows, w),
        CompiledScalarExpr::If { condition, then_expr, else_expr } => match life_judgment_work(
            lx,
            bound,
            *condition,
            rows,
            w,
        ) {
            None => None,
            Some(x) => match life_work(
                lx,
                bound,
                *then_expr,
                taken_rows(rows, |row: int| life_outcome(lx, bound, *condition, row)),
                x,
            ) {
                None => None,
                Some(y) => match life_work(
                    lx,
                    bound,
                    *else_expr,
                    passed_rows(rows, |row: int| life_outcome(lx, bound, *condition, row)),
                    y,
                ) {
                    None => None,
                    Some(z) => if apart(
                        taken_rows(rows, |row: int| life_outcome(lx, bound, *condition, row)),
                        |row: int| life_cell(lx, bound, *then_expr, row),
                        passed_rows(rows, |row: int| life_outcome(lx, bound, *condition, row)),
                        |row: int| life_cell(lx, bound, *else_expr, row),
                    ) {
                        None
                    } else {
                        Some(z)
                    },
                },
            },
        },
        CompiledScalarExpr::NoMatch { subject, .. } => life_work(lx, bound, *subject, rows, w),
        CompiledScalarExpr::Input(_) => cells_work(lx, bound, e, lx.periods.len(), rows, w),
        CompiledScalarExpr::InputOrElse { .. } => cells_work(
            lx,
            bound,
            e,
            lx.periods.len(),
            rows,
            w,
        ),
        CompiledScalarExpr::Derived(i) => if i < bound {
            life_rule_work(lx, i as nat, rows, w)
        } else {
            Some(w)
        },
        CompiledScalarExpr::OverPeriods { kind, value, n } => over_periods_work(
            lx,
            bound,
            kind,
            *value,
            n,
            rows,
            w,
        ),
        _ => Some(w),
    }
}

/// Evaluates the first `n` items of a sum for rows, over a lifetime, each for those that no earlier
/// one failed.
pub open spec fn life_sum_work(
    lx: LifetimeFacts,
    bound: nat,
    items: Seq<CompiledScalarExpr>,
    n: nat,
    rows: Set<int>,
    w: LifeWorked,
) -> Option<LifeWorked>
    decreases bound, 2nat, items, 0int, n,
{
    if n == 0 || n > items.len() {
        Some(w)
    } else {
        match life_sum_work(lx, bound, items, (n - 1) as nat, rows, w) {
            None => None,
            Some(x) => life_work(
                lx,
                bound,
                items[n - 1],
                ok_rows(rows, |row: int| life_sum(lx, bound, items, (n - 1) as nat, row)),
                x,
            ),
        }
    }
}

/// Evaluates the first `n` items of a `max` or `min` for rows, over a lifetime, each for those that
/// no earlier one failed.
pub open spec fn life_extremum_work(
    lx: LifetimeFacts,
    bound: nat,
    items: Seq<CompiledScalarExpr>,
    n: nat,
    largest: bool,
    rows: Set<int>,
    w: LifeWorked,
) -> Option<LifeWorked>
    decreases bound, 2nat, items, 0int, n,
{
    if n == 0 || n > items.len() {
        Some(w)
    } else {
        match life_extremum_work(lx, bound, items, (n - 1) as nat, largest, rows, w) {
            None => None,
            Some(x) => life_work(
                lx,
                bound,
                items[n - 1],
                if n == 1 { rows } else { ok_rows(
                    rows,
                    |row: int| life_extremum(lx, bound, items, (n - 1) as nat, largest, row),
                ) },
                x,
            ),
        }
    }
}

/// Evaluates the first `n` items of an `and` or `or` for rows, over a lifetime, each for those that
/// no earlier one decided.
pub open spec fn life_connective_work(
    lx: LifetimeFacts,
    bound: nat,
    items: Seq<CompiledJudgmentExpr>,
    n: nat,
    decisive: JudgmentOutcome,
    rows: Set<int>,
    w: LifeWorked,
) -> Option<LifeWorked>
    decreases bound, 2nat, items, 0int, n,
{
    if n == 0 || n > items.len() {
        Some(w)
    } else {
        match life_connective_work(lx, bound, items, (n - 1) as nat, decisive, rows, w) {
            None => None,
            Some(x) => life_judgment_work(
                lx,
                bound,
                items[n - 1],
                open_rows(
                    rows,
                    |row: int| life_connective(lx, bound, items, (n - 1) as nat, decisive, row),
                ),
                x,
            ),
        }
    }
}

/// Evaluates a judgment for rows, over a lifetime.
#[verifier::opaque]
pub open spec fn life_judgment_work(
    lx: LifetimeFacts,
    bound: nat,
    e: CompiledJudgmentExpr,
    rows: Set<int>,
    w: LifeWorked,
) -> Option<LifeWorked>
    decreases bound, 2nat, e, 3int, 0int,
{
    if none_of(rows) {
        Some(w)
    } else {
        life_judgment_work_step(lx, bound, e, rows, w)
    }
}

pub open spec fn life_judgment_work_step(
    lx: LifetimeFacts,
    bound: nat,
    e: CompiledJudgmentExpr,
    rows: Set<int>,
    w: LifeWorked,
) -> Option<LifeWorked>
    decreases bound, 2nat, e, 2int, 0int,
{
    match e {
        CompiledJudgmentExpr::Comparison { left, right, .. } => match life_work(lx, bound, left, rows, w) {
            None => None,
            Some(x) => life_work(
                lx,
                bound,
                right,
                ok_rows(rows, |row: int| life_cell(lx, bound, left, row)),
                x,
            ),
        },
        CompiledJudgmentExpr::And(items) => life_connective_work(
            lx,
            bound,
            items@,
            items@.len(),
            JudgmentOutcome::NotHolds,
            rows,
            w,
        ),
        CompiledJudgmentExpr::Or(items) => life_connective_work(
            lx,
            bound,
            items@,
            items@.len(),
            JudgmentOutcome::Holds,
            rows,
            w,
        ),
        CompiledJudgmentExpr::Not(item) => life_judgment_work(lx, bound, *item, rows, w),
        CompiledJudgmentExpr::Derived(i) => if i < bound {
            life_rule_judgment_work(lx, i as nat, rows, w)
        } else {
            Some(w)
        },
    }
}

} // verus!
