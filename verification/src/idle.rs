//! What evaluating adds to the rows that rules have been evaluated for: nothing where there are no
//! rows, and nothing more once it has failed.
use crate::column::differ;
use crate::dense::{
    related_connective, related_extremum, related_sum, relation_of, root_cell, root_connective,
    root_extremum, root_outcome, root_sum, CompiledJudgmentExpr, CompiledRelatedJudgmentExpr,
    CompiledRelatedScalarExpr, CompiledScalarExpr, CompiledSemantics, DenseFacts,
};
use crate::error::ErrorView;
use crate::kinds::root_is_step;
use crate::lifetime::{
    life_cell, life_connective, life_extremum, life_is_step, life_outcome, life_sum, period_numbers,
    LifetimeFacts,
};
use crate::mixing::{
    apart, candidate_rows, cells_work, counts_work, formula_work, in_period, judgment_formula_work,
    keeping_work, kept_rows, life_connective_work, life_extremum_work, life_formula_work,
    life_judgment_formula_work, life_judgment_work, life_judgment_work_step, life_sum_work,
    life_work, life_work_step, member_rows, member_work, none_of, numbers_work, ok_rows, open_rows,
    owners_of, passed_rows, related_connective_work, related_extremum_work, related_judgment_work,
    related_judgment_work_step, related_sum_work, related_work, related_work_step,
    root_connective_work, root_extremum_work, root_judgment_work, root_judgment_work_step,
    root_sum_work, root_work, root_work_step, taken_rows, LifeWorked, Worked,
};
use crate::model::JudgmentOutcome;
use vstd::prelude::*;

verus! {

pub proof fn none_are_ok<T>(rows: Set<int>, f: spec_fn(int) -> Result<T, ErrorView>)
    requires
        none_of(rows),
    ensures
        none_of(ok_rows(rows, f)),
{
    assert forall|row: int| !#[trigger] ok_rows(rows, f).contains(row) by {
        assert(!rows.contains(row));
    }
}

pub proof fn root_sum_fails(
    cx: DenseFacts,
    bound: nat,
    level: nat,
    items: Seq<CompiledScalarExpr>,
    n: nat,
    m: nat,
    rows: Set<int>,
    w: Worked,
)
    requires
        n <= m <= items.len(),
        root_sum_work(cx, bound, level, items, n, rows, w) is None,
    ensures
        root_sum_work(cx, bound, level, items, m, rows, w) is None,
    decreases m,
{
    if n < m {
        root_sum_fails(cx, bound, level, items, n, (m - 1) as nat, rows, w);
    }
}

pub proof fn root_extremum_fails(
    cx: DenseFacts,
    bound: nat,
    level: nat,
    items: Seq<CompiledScalarExpr>,
    n: nat,
    m: nat,
    largest: bool,
    rows: Set<int>,
    w: Worked,
)
    requires
        n <= m <= items.len(),
        root_extremum_work(cx, bound, level, items, n, largest, rows, w) is None,
    ensures
        root_extremum_work(cx, bound, level, items, m, largest, rows, w) is None,
    decreases m,
{
    if n < m {
        root_extremum_fails(cx, bound, level, items, n, (m - 1) as nat, largest, rows, w);
    }
}

pub proof fn root_connective_fails(
    cx: DenseFacts,
    bound: nat,
    level: nat,
    items: Seq<CompiledJudgmentExpr>,
    n: nat,
    m: nat,
    decisive: JudgmentOutcome,
    rows: Set<int>,
    w: Worked,
)
    requires
        n <= m <= items.len(),
        root_connective_work(cx, bound, level, items, n, decisive, rows, w) is None,
    ensures
        root_connective_work(cx, bound, level, items, m, decisive, rows, w) is None,
    decreases m,
{
    if n < m {
        root_connective_fails(cx, bound, level, items, n, (m - 1) as nat, decisive, rows, w);
    }
}

/// Once every row is decided or has failed, further items are evaluated for none.
pub proof fn root_connective_rests(
    cx: DenseFacts,
    bound: nat,
    level: nat,
    items: Seq<CompiledJudgmentExpr>,
    n: nat,
    m: nat,
    decisive: JudgmentOutcome,
    rows: Set<int>,
    w: Worked,
)
    requires
        n <= m <= items.len(),
        none_of(
            open_rows(rows, |row: int| root_connective(cx, bound, level, items, n, decisive, row)),
        ),
    ensures
        root_connective_work(
            cx,
            bound,
            level,
            items,
            m,
            decisive,
            rows,
            w,
        ) == root_connective_work(cx, bound, level, items, n, decisive, rows, w),
        none_of(
            open_rows(rows, |row: int| root_connective(cx, bound, level, items, m, decisive, row)),
        ),
    decreases m,
{
    reveal(root_judgment_work);
    if n < m {
        root_connective_rests(cx, bound, level, items, n, (m - 1) as nat, decisive, rows, w);
        let before = open_rows(
            rows,
            |row: int| root_connective(cx, bound, level, items, (m - 1) as nat, decisive, row),
        );
        let after = open_rows(
            rows,
            |row: int| root_connective(cx, bound, level, items, m, decisive, row),
        );
        if let Some(x) = root_connective_work(
            cx,
            bound,
            level,
            items,
            (m - 1) as nat,
            decisive,
            rows,
            w,
        ) {
            root_judgment_rests(cx, bound, level, items[m - 1], before, x);
        }
        assert forall|row: int| !#[trigger] after.contains(row) by {
            assert(!before.contains(row));
        }
    }
}

pub proof fn root_items_idle(
    cx: DenseFacts,
    bound: nat,
    level: nat,
    items: Seq<CompiledScalarExpr>,
    n: nat,
    largest: bool,
    rows: Set<int>,
    w: Worked,
)
    requires
        none_of(rows),
    ensures
        root_sum_work(cx, bound, level, items, n, rows, w) == Some(w),
        root_extremum_work(cx, bound, level, items, n, largest, rows, w) == Some(w),
    decreases n,
{
    reveal(root_work);
    if 0 < n && n <= items.len() {
        root_items_idle(cx, bound, level, items, (n - 1) as nat, largest, rows, w);
        let summed = |row: int| root_sum(cx, bound, level, items, (n - 1) as nat, row);
        none_are_ok(rows, summed);
        root_rests(cx, bound, level, items[n - 1], ok_rows(rows, summed), w);
        let best = |row: int| root_extremum(cx, bound, level, items, (n - 1) as nat, largest, row);
        none_are_ok(rows, best);
        root_rests(cx, bound, level, items[n - 1], ok_rows(rows, best), w);
        root_rests(cx, bound, level, items[n - 1], rows, w);
    }
}

/// A formula evaluated for no rows evaluates nothing.
pub proof fn root_idle(
    cx: DenseFacts,
    bound: nat,
    level: nat,
    e: CompiledScalarExpr,
    rows: Set<int>,
    w: Worked,
)
    requires
        none_of(rows),
    ensures
        root_work_step(cx, bound, level, e, rows, w) == Some(w),
{
    reveal(root_work);
    reveal(root_judgment_work);
    match e {
        CompiledScalarExpr::Add(items) => root_items_idle(
            cx,
            bound,
            level,
            items@,
            items@.len(),
            true,
            rows,
            w,
        ),
        CompiledScalarExpr::Max(items) => root_items_idle(
            cx,
            bound,
            level,
            items@,
            items@.len(),
            true,
            rows,
            w,
        ),
        CompiledScalarExpr::Min(items) => root_items_idle(
            cx,
            bound,
            level,
            items@,
            items@.len(),
            false,
            rows,
            w,
        ),
        CompiledScalarExpr::CountRelated { .. } => keeping_idle(cx, bound, level, e, rows, w),
        CompiledScalarExpr::SumRelated { relation, value, .. } => {
            keeping_idle(cx, bound, level, e, rows, w);
            reveal(related_work);
            let kept = kept_rows(cx, bound, level, e, rows);
            assert forall|k: int| !#[trigger] kept.contains(k) by {
                assert(!member_rows(cx, relation_of(e), rows).contains(k));
            }
        },
        _ => {},
    }
}

/// A judgment evaluated for no rows evaluates nothing.
pub proof fn root_judgment_idle(
    cx: DenseFacts,
    bound: nat,
    level: nat,
    e: CompiledJudgmentExpr,
    rows: Set<int>,
    w: Worked,
)
    requires
        none_of(rows),
    ensures
        root_judgment_work_step(cx, bound, level, e, rows, w) == Some(w),
{
    reveal(root_work);
    reveal(root_judgment_work);
    match e {
        CompiledJudgmentExpr::And(items) => root_connective_idle(
            cx,
            bound,
            level,
            items@,
            JudgmentOutcome::NotHolds,
            rows,
            w,
        ),
        CompiledJudgmentExpr::Or(items) => root_connective_idle(
            cx,
            bound,
            level,
            items@,
            JudgmentOutcome::Holds,
            rows,
            w,
        ),
        _ => {},
    }
}

pub proof fn root_connective_idle(
    cx: DenseFacts,
    bound: nat,
    level: nat,
    items: Seq<CompiledJudgmentExpr>,
    decisive: JudgmentOutcome,
    rows: Set<int>,
    w: Worked,
)
    requires
        none_of(rows),
    ensures
        root_connective_work(cx, bound, level, items, items.len(), decisive, rows, w) == Some(w),
{
    let before = open_rows(
        rows,
        |row: int| root_connective(cx, bound, level, items, 0, decisive, row),
    );
    assert forall|row: int| !#[trigger] before.contains(row) by {
        assert(!rows.contains(row));
    }
    root_connective_rests(cx, bound, level, items, 0, items.len(), decisive, rows, w);
}

pub proof fn owners_idle(cx: DenseFacts, rel: nat, rows: Set<int>)
    requires
        none_of(rows),
    ensures
        none_of(owners_of(cx, rel, rows)),
{
}

pub proof fn member_idle(cx: DenseFacts, rel: nat, rows: Set<int>, w: Worked)
    requires
        none_of(rows),
    ensures
        member_work(cx, rel, rows, w) == Some(w),
    decreases rel,
{
    reveal(related_judgment_work);
    if let Some(parent) = cx.program.relations@[rel as int].parent_relation {
        if parent < rel {
            member_idle(cx, parent as nat, rows, w);
        }
    }
    assert forall|k: int| !#[trigger] candidate_rows(cx, rel, rows).contains(k) by {
        assert(!rows.contains(cx.owner(rel, k)));
    }
    if let Some(filter) = cx.program.relations@[rel as int].filter {
        related_judgment_rests(cx, 0, 0, rel, filter, candidate_rows(cx, rel, rows), w);
    }
}

pub proof fn keeping_idle(
    cx: DenseFacts,
    bound: nat,
    level: nat,
    e: CompiledScalarExpr,
    rows: Set<int>,
    w: Worked,
)
    requires
        none_of(rows),
    ensures
        keeping_work(cx, bound, level, e, rows, w) == Some(w),
        none_of(member_rows(cx, relation_of(e), rows)),
{
    reveal(related_judgment_work);
    member_idle(cx, relation_of(e), rows, w);
    assert forall|k: int| !#[trigger] member_rows(cx, relation_of(e), rows).contains(k) by {
        assert(!rows.contains(cx.owner(relation_of(e), k)));
    }
}

pub proof fn related_sum_fails(
    cx: DenseFacts,
    bound: nat,
    level: nat,
    rel: nat,
    items: Seq<CompiledRelatedScalarExpr>,
    n: nat,
    m: nat,
    rows: Set<int>,
    w: Worked,
)
    requires
        n <= m <= items.len(),
        related_sum_work(cx, bound, level, rel, items, n, rows, w) is None,
    ensures
        related_sum_work(cx, bound, level, rel, items, m, rows, w) is None,
    decreases m,
{
    if n < m {
        related_sum_fails(cx, bound, level, rel, items, n, (m - 1) as nat, rows, w);
    }
}

pub proof fn related_extremum_fails(
    cx: DenseFacts,
    bound: nat,
    level: nat,
    rel: nat,
    items: Seq<CompiledRelatedScalarExpr>,
    n: nat,
    m: nat,
    largest: bool,
    rows: Set<int>,
    w: Worked,
)
    requires
        n <= m <= items.len(),
        related_extremum_work(cx, bound, level, rel, items, n, largest, rows, w) is None,
    ensures
        related_extremum_work(cx, bound, level, rel, items, m, largest, rows, w) is None,
    decreases m,
{
    if n < m {
        related_extremum_fails(cx, bound, level, rel, items, n, (m - 1) as nat, largest, rows, w);
    }
}

pub proof fn related_connective_fails(
    cx: DenseFacts,
    bound: nat,
    level: nat,
    rel: nat,
    items: Seq<CompiledRelatedJudgmentExpr>,
    n: nat,
    m: nat,
    decisive: JudgmentOutcome,
    rows: Set<int>,
    w: Worked,
)
    requires
        n <= m <= items.len(),
        related_connective_work(cx, bound, level, rel, items, n, decisive, rows, w) is None,
    ensures
        related_connective_work(cx, bound, level, rel, items, m, decisive, rows, w) is None,
    decreases m,
{
    if n < m {
        related_connective_fails(
            cx,
            bound,
            level,
            rel,
            items,
            n,
            (m - 1) as nat,
            decisive,
            rows,
            w,
        );
    }
}

/// Once every row is decided or has failed, further items are evaluated for none.
pub proof fn related_connective_rests(
    cx: DenseFacts,
    bound: nat,
    level: nat,
    rel: nat,
    items: Seq<CompiledRelatedJudgmentExpr>,
    n: nat,
    m: nat,
    decisive: JudgmentOutcome,
    rows: Set<int>,
    w: Worked,
)
    requires
        n <= m <= items.len(),
        none_of(
            open_rows(
                rows,
                |row: int| related_connective(cx, bound, level, rel, items, n, decisive, row),
            ),
        ),
    ensures
        related_connective_work(
            cx,
            bound,
            level,
            rel,
            items,
            m,
            decisive,
            rows,
            w,
        ) == related_connective_work(cx, bound, level, rel, items, n, decisive, rows, w),
        none_of(
            open_rows(
                rows,
                |row: int| related_connective(cx, bound, level, rel, items, m, decisive, row),
            ),
        ),
    decreases m,
{
    reveal(related_judgment_work);
    if n < m {
        related_connective_rests(
            cx,
            bound,
            level,
            rel,
            items,
            n,
            (m - 1) as nat,
            decisive,
            rows,
            w,
        );
        let before = open_rows(
            rows,
            |row: int| related_connective(
                cx,
                bound,
                level,
                rel,
                items,
                (m - 1) as nat,
                decisive,
                row,
            ),
        );
        let after = open_rows(
            rows,
            |row: int| related_connective(cx, bound, level, rel, items, m, decisive, row),
        );
        if let Some(x) = related_connective_work(
            cx,
            bound,
            level,
            rel,
            items,
            (m - 1) as nat,
            decisive,
            rows,
            w,
        ) {
            related_judgment_rests(cx, bound, level, rel, items[m - 1], before, x);
        }
        assert forall|row: int| !#[trigger] after.contains(row) by {
            assert(!before.contains(row));
        }
    }
}

pub proof fn related_items_idle(
    cx: DenseFacts,
    bound: nat,
    level: nat,
    rel: nat,
    items: Seq<CompiledRelatedScalarExpr>,
    n: nat,
    largest: bool,
    rows: Set<int>,
    w: Worked,
)
    requires
        none_of(rows),
    ensures
        related_sum_work(cx, bound, level, rel, items, n, rows, w) == Some(w),
        related_extremum_work(cx, bound, level, rel, items, n, largest, rows, w) == Some(w),
    decreases n,
{
    reveal(related_work);
    if 0 < n && n <= items.len() {
        related_items_idle(cx, bound, level, rel, items, (n - 1) as nat, largest, rows, w);
        let summed = |row: int| related_sum(cx, bound, level, rel, items, (n - 1) as nat, row);
        none_are_ok(rows, summed);
        related_rests(cx, bound, level, rel, items[n - 1], ok_rows(rows, summed), w);
        let best = |row: int| related_extremum(
            cx,
            bound,
            level,
            rel,
            items,
            (n - 1) as nat,
            largest,
            row,
        );
        none_are_ok(rows, best);
        related_rests(cx, bound, level, rel, items[n - 1], ok_rows(rows, best), w);
        related_rests(cx, bound, level, rel, items[n - 1], rows, w);
    }
}

/// A formula evaluated for no rows evaluates nothing.
pub proof fn related_idle(
    cx: DenseFacts,
    bound: nat,
    level: nat,
    rel: nat,
    e: CompiledRelatedScalarExpr,
    rows: Set<int>,
    w: Worked,
)
    requires
        none_of(rows),
    ensures
        related_work_step(cx, bound, level, rel, e, rows, w) == Some(w),
{
    reveal(related_work);
    reveal(related_judgment_work);
    match e {
        CompiledRelatedScalarExpr::Add(items) => related_items_idle(
            cx,
            bound,
            level,
            rel,
            items@,
            items@.len(),
            true,
            rows,
            w,
        ),
        CompiledRelatedScalarExpr::Max(items) => related_items_idle(
            cx,
            bound,
            level,
            rel,
            items@,
            items@.len(),
            true,
            rows,
            w,
        ),
        CompiledRelatedScalarExpr::Min(items) => related_items_idle(
            cx,
            bound,
            level,
            rel,
            items@,
            items@.len(),
            false,
            rows,
            w,
        ),
        CompiledRelatedScalarExpr::RootScalar(e) => {
            reveal(root_work);
            owners_idle(cx, rel, rows);
        },
        _ => {},
    }
}

/// A judgment evaluated for no rows evaluates nothing.
pub proof fn related_judgment_idle(
    cx: DenseFacts,
    bound: nat,
    level: nat,
    rel: nat,
    e: CompiledRelatedJudgmentExpr,
    rows: Set<int>,
    w: Worked,
)
    requires
        none_of(rows),
    ensures
        related_judgment_work_step(cx, bound, level, rel, e, rows, w) == Some(w),
{
    reveal(related_work);
    reveal(related_judgment_work);
    match e {
        CompiledRelatedJudgmentExpr::And(items) => related_connective_idle(
            cx,
            bound,
            level,
            rel,
            items@,
            JudgmentOutcome::NotHolds,
            rows,
            w,
        ),
        CompiledRelatedJudgmentExpr::Or(items) => related_connective_idle(
            cx,
            bound,
            level,
            rel,
            items@,
            JudgmentOutcome::Holds,
            rows,
            w,
        ),
        CompiledRelatedJudgmentExpr::RootJudgment(e) => {
            reveal(root_judgment_work);
            owners_idle(cx, rel, rows);
        },
        _ => {},
    }
}

pub proof fn related_connective_idle(
    cx: DenseFacts,
    bound: nat,
    level: nat,
    rel: nat,
    items: Seq<CompiledRelatedJudgmentExpr>,
    decisive: JudgmentOutcome,
    rows: Set<int>,
    w: Worked,
)
    requires
        none_of(rows),
    ensures
        related_connective_work(
            cx,
            bound,
            level,
            rel,
            items,
            items.len(),
            decisive,
            rows,
            w,
        ) == Some(w),
{
    let before = open_rows(
        rows,
        |row: int| related_connective(cx, bound, level, rel, items, 0, decisive, row),
    );
    assert forall|row: int| !#[trigger] before.contains(row) by {
        assert(!rows.contains(row));
    }
    related_connective_rests(cx, bound, level, rel, items, 0, items.len(), decisive, rows, w);
}

pub proof fn in_period_rests(
    lx: LifetimeFacts,
    bound: nat,
    e: CompiledScalarExpr,
    p: int,
    rows: Set<int>,
    w: LifeWorked,
)
    requires
        none_of(rows),
        0 <= p < w.periods.len(),
    ensures
        in_period(lx, bound, e, p, rows, w) == Some(w),
{
    root_rests(lx.periods[p], bound, 2, e, rows, w.periods[p]);
    assert(w.periods.update(p, w.periods[p]) =~= w.periods);
}

/// Over no rows nothing is evaluated.
pub proof fn cells_rests(
    lx: LifetimeFacts,
    bound: nat,
    e: CompiledScalarExpr,
    n: nat,
    rows: Set<int>,
    w: LifeWorked,
)
    requires
        none_of(rows),
    ensures
        cells_work(lx, bound, e, n, rows, w) == Some(w),
{
}

pub proof fn cells_fails(
    lx: LifetimeFacts,
    bound: nat,
    e: CompiledScalarExpr,
    n: nat,
    m: nat,
    rows: Set<int>,
    w: LifeWorked,
)
    requires
        n <= m <= lx.periods.len(),
        cells_work(lx, bound, e, n, rows, w) is None,
    ensures
        cells_work(lx, bound, e, m, rows, w) is None,
    decreases m,
{
    if n < m {
        cells_fails(lx, bound, e, n, (m - 1) as nat, rows, w);
    }
}

/// Over no rows nothing is evaluated.
pub proof fn numbers_rests(
    lx: LifetimeFacts,
    bound: nat,
    e: CompiledScalarExpr,
    n: nat,
    rows: Set<int>,
    w: LifeWorked,
)
    requires
        none_of(rows),
    ensures
        numbers_work(lx, bound, e, n, rows, w) == Some(w),
{
}

pub proof fn numbers_fails(
    lx: LifetimeFacts,
    bound: nat,
    e: CompiledScalarExpr,
    n: nat,
    m: nat,
    rows: Set<int>,
    w: LifeWorked,
)
    requires
        n <= m <= lx.periods.len(),
        numbers_work(lx, bound, e, n, rows, w) is None,
    ensures
        numbers_work(lx, bound, e, m, rows, w) is None,
    decreases m,
{
    if n < m {
        numbers_fails(lx, bound, e, n, (m - 1) as nat, rows, w);
    }
}

/// Over no rows nothing is evaluated.
pub proof fn counts_rests(
    lx: LifetimeFacts,
    bound: nat,
    e: CompiledScalarExpr,
    n: nat,
    rows: Set<int>,
    w: LifeWorked,
)
    requires
        none_of(rows),
    ensures
        counts_work(lx, bound, e, n, rows, w) == Some(w),
{
}

pub proof fn counts_fails(
    lx: LifetimeFacts,
    bound: nat,
    e: CompiledScalarExpr,
    n: nat,
    m: nat,
    rows: Set<int>,
    w: LifeWorked,
)
    requires
        n <= m <= lx.periods.len(),
        counts_work(lx, bound, e, n, rows, w) is None,
    ensures
        counts_work(lx, bound, e, m, rows, w) is None,
    decreases m,
{
    if n < m {
        counts_fails(lx, bound, e, n, (m - 1) as nat, rows, w);
    }
}

pub proof fn life_sum_fails(
    lx: LifetimeFacts,
    bound: nat,
    items: Seq<CompiledScalarExpr>,
    n: nat,
    m: nat,
    rows: Set<int>,
    w: LifeWorked,
)
    requires
        n <= m <= items.len(),
        life_sum_work(lx, bound, items, n, rows, w) is None,
    ensures
        life_sum_work(lx, bound, items, m, rows, w) is None,
    decreases m,
{
    if n < m {
        life_sum_fails(lx, bound, items, n, (m - 1) as nat, rows, w);
    }
}

pub proof fn life_extremum_fails(
    lx: LifetimeFacts,
    bound: nat,
    items: Seq<CompiledScalarExpr>,
    n: nat,
    m: nat,
    largest: bool,
    rows: Set<int>,
    w: LifeWorked,
)
    requires
        n <= m <= items.len(),
        life_extremum_work(lx, bound, items, n, largest, rows, w) is None,
    ensures
        life_extremum_work(lx, bound, items, m, largest, rows, w) is None,
    decreases m,
{
    if n < m {
        life_extremum_fails(lx, bound, items, n, (m - 1) as nat, largest, rows, w);
    }
}

pub proof fn life_connective_fails(
    lx: LifetimeFacts,
    bound: nat,
    items: Seq<CompiledJudgmentExpr>,
    n: nat,
    m: nat,
    decisive: JudgmentOutcome,
    rows: Set<int>,
    w: LifeWorked,
)
    requires
        n <= m <= items.len(),
        life_connective_work(lx, bound, items, n, decisive, rows, w) is None,
    ensures
        life_connective_work(lx, bound, items, m, decisive, rows, w) is None,
    decreases m,
{
    if n < m {
        life_connective_fails(lx, bound, items, n, (m - 1) as nat, decisive, rows, w);
    }
}

/// Once every row is decided or has failed, further items are evaluated for none.
pub proof fn life_connective_rests(
    lx: LifetimeFacts,
    bound: nat,
    items: Seq<CompiledJudgmentExpr>,
    n: nat,
    m: nat,
    decisive: JudgmentOutcome,
    rows: Set<int>,
    w: LifeWorked,
)
    requires
        n <= m <= items.len(),
        none_of(open_rows(rows, |row: int| life_connective(lx, bound, items, n, decisive, row))),
    ensures
        life_connective_work(
            lx,
            bound,
            items,
            m,
            decisive,
            rows,
            w,
        ) == life_connective_work(lx, bound, items, n, decisive, rows, w),
        none_of(open_rows(rows, |row: int| life_connective(lx, bound, items, m, decisive, row))),
    decreases m,
{
    reveal(life_judgment_work);
    if n < m {
        life_connective_rests(lx, bound, items, n, (m - 1) as nat, decisive, rows, w);
        let before = open_rows(
            rows,
            |row: int| life_connective(lx, bound, items, (m - 1) as nat, decisive, row),
        );
        let after = open_rows(rows, |row: int| life_connective(lx, bound, items, m, decisive, row));
        if let Some(x) = life_connective_work(lx, bound, items, (m - 1) as nat, decisive, rows, w) {
            life_judgment_rests(lx, bound, items[m - 1], before, x);
        }
        assert forall|row: int| !#[trigger] after.contains(row) by {
            assert(!before.contains(row));
        }
    }
}

pub proof fn life_items_idle(
    lx: LifetimeFacts,
    bound: nat,
    items: Seq<CompiledScalarExpr>,
    n: nat,
    largest: bool,
    rows: Set<int>,
    w: LifeWorked,
)
    requires
        none_of(rows),
    ensures
        life_sum_work(lx, bound, items, n, rows, w) == Some(w),
        life_extremum_work(lx, bound, items, n, largest, rows, w) == Some(w),
    decreases n,
{
    reveal(life_work);
    if 0 < n && n <= items.len() {
        life_items_idle(lx, bound, items, (n - 1) as nat, largest, rows, w);
        let summed = |row: int| life_sum(lx, bound, items, (n - 1) as nat, row);
        none_are_ok(rows, summed);
        life_rests(lx, bound, items[n - 1], ok_rows(rows, summed), w);
        let best = |row: int| life_extremum(lx, bound, items, (n - 1) as nat, largest, row);
        none_are_ok(rows, best);
        life_rests(lx, bound, items[n - 1], ok_rows(rows, best), w);
        life_rests(lx, bound, items[n - 1], rows, w);
    }
}

/// A formula evaluated for no rows evaluates nothing.
pub proof fn life_idle(
    lx: LifetimeFacts,
    bound: nat,
    e: CompiledScalarExpr,
    rows: Set<int>,
    w: LifeWorked,
)
    requires
        none_of(rows),
    ensures
        life_work_step(lx, bound, e, rows, w) == Some(w),
{
    reveal(life_work);
    reveal(life_judgment_work);
    match e {
        CompiledScalarExpr::Add(items) => life_items_idle(
            lx,
            bound,
            items@,
            items@.len(),
            true,
            rows,
            w,
        ),
        CompiledScalarExpr::Max(items) => life_items_idle(
            lx,
            bound,
            items@,
            items@.len(),
            true,
            rows,
            w,
        ),
        CompiledScalarExpr::Min(items) => life_items_idle(
            lx,
            bound,
            items@,
            items@.len(),
            false,
            rows,
            w,
        ),
        CompiledScalarExpr::OverPeriods { value, .. } => {
            none_are_ok(rows, |row: int| period_numbers(lx, bound, *value, lx.periods.len(), row));
        },
        _ => {},
    }
}

/// A judgment evaluated for no rows evaluates nothing.
pub proof fn life_judgment_idle(
    lx: LifetimeFacts,
    bound: nat,
    e: CompiledJudgmentExpr,
    rows: Set<int>,
    w: LifeWorked,
)
    requires
        none_of(rows),
    ensures
        life_judgment_work_step(lx, bound, e, rows, w) == Some(w),
{
    reveal(life_work);
    reveal(life_judgment_work);
    match e {
        CompiledJudgmentExpr::And(items) => life_connective_idle(
            lx,
            bound,
            items@,
            JudgmentOutcome::NotHolds,
            rows,
            w,
        ),
        CompiledJudgmentExpr::Or(items) => life_connective_idle(
            lx,
            bound,
            items@,
            JudgmentOutcome::Holds,
            rows,
            w,
        ),
        _ => {},
    }
}

pub proof fn life_connective_idle(
    lx: LifetimeFacts,
    bound: nat,
    items: Seq<CompiledJudgmentExpr>,
    decisive: JudgmentOutcome,
    rows: Set<int>,
    w: LifeWorked,
)
    requires
        none_of(rows),
    ensures
        life_connective_work(lx, bound, items, items.len(), decisive, rows, w) == Some(w),
{
    let before = open_rows(rows, |row: int| life_connective(lx, bound, items, 0, decisive, row));
    assert forall|row: int| !#[trigger] before.contains(row) by {
        assert(!rows.contains(row));
    }
    life_connective_rests(lx, bound, items, 0, items.len(), decisive, rows, w);
}

pub proof fn root_rests(
    cx: DenseFacts,
    bound: nat,
    level: nat,
    e: CompiledScalarExpr,
    rows: Set<int>,
    w: Worked,
)
    requires
        none_of(rows),
    ensures
        root_work(cx, bound, level, e, rows, w) == Some(w),
{
    reveal(root_work);
}

pub proof fn root_judgment_rests(
    cx: DenseFacts,
    bound: nat,
    level: nat,
    e: CompiledJudgmentExpr,
    rows: Set<int>,
    w: Worked,
)
    requires
        none_of(rows),
    ensures
        root_judgment_work(cx, bound, level, e, rows, w) == Some(w),
{
    reveal(root_judgment_work);
}

pub proof fn life_rests(
    lx: LifetimeFacts,
    bound: nat,
    e: CompiledScalarExpr,
    rows: Set<int>,
    w: LifeWorked,
)
    requires
        none_of(rows),
    ensures
        life_work(lx, bound, e, rows, w) == Some(w),
{
    reveal(life_work);
}

pub proof fn life_judgment_rests(
    lx: LifetimeFacts,
    bound: nat,
    e: CompiledJudgmentExpr,
    rows: Set<int>,
    w: LifeWorked,
)
    requires
        none_of(rows),
    ensures
        life_judgment_work(lx, bound, e, rows, w) == Some(w),
{
    reveal(life_judgment_work);
}

pub proof fn related_rests(
    cx: DenseFacts,
    bound: nat,
    level: nat,
    rel: nat,
    e: CompiledRelatedScalarExpr,
    rows: Set<int>,
    w: Worked,
)
    requires
        none_of(rows),
    ensures
        related_work(cx, bound, level, rel, e, rows, w) == Some(w),
{
    reveal(related_work);
}

pub proof fn related_judgment_rests(
    cx: DenseFacts,
    bound: nat,
    level: nat,
    rel: nat,
    e: CompiledRelatedJudgmentExpr,
    rows: Set<int>,
    w: Worked,
)
    requires
        none_of(rows),
    ensures
        related_judgment_work(cx, bound, level, rel, e, rows, w) == Some(w),
{
    reveal(related_judgment_work);
}

pub proof fn formula_rests(cx: DenseFacts, i: nat, rows: Set<int>, w: Worked)
    requires
        none_of(rows),
    ensures
        formula_work(cx, i, rows, w) == Some(w),
{
    if let CompiledSemantics::Scalar(e) = cx.program.derived@[i as int].semantics {
        root_rests(cx, i, 2, e, rows, w);
    }
}

pub proof fn judgment_formula_rests(cx: DenseFacts, i: nat, rows: Set<int>, w: Worked)
    requires
        none_of(rows),
    ensures
        judgment_formula_work(cx, i, rows, w) == Some(w),
{
    if let CompiledSemantics::Judgment(e) = cx.program.derived@[i as int].semantics {
        root_judgment_rests(cx, i, 2, e, rows, w);
    }
}

pub proof fn life_formula_rests(lx: LifetimeFacts, i: nat, rows: Set<int>, w: LifeWorked)
    requires
        none_of(rows),
    ensures
        life_formula_work(lx, i, rows, w) == Some(w),
{
    if let CompiledSemantics::Scalar(e) = lx.program.derived@[i as int].semantics {
        life_rests(lx, i, e, rows, w);
    }
}

pub proof fn life_judgment_formula_rests(lx: LifetimeFacts, i: nat, rows: Set<int>, w: LifeWorked)
    requires
        none_of(rows),
    ensures
        life_judgment_formula_work(lx, i, rows, w) == Some(w),
{
    if let CompiledSemantics::Judgment(e) = lx.program.derived@[i as int].semantics {
        life_judgment_rests(lx, i, e, rows, w);
    }
}

/// Two rows that leave an `if` by different branches, with values of dtypes that do not combine,
/// make its evaluation fail, whatever other rows it is evaluated for.
pub proof fn branches_apart_fail(
    cx: DenseFacts,
    bound: nat,
    level: nat,
    e: CompiledScalarExpr,
    rows: Set<int>,
    w: Worked,
    r: int,
    s: int,
)
    requires
        rows.contains(r) && rows.contains(s),
        e matches CompiledScalarExpr::If { condition, then_expr, else_expr } && {
            &&& root_outcome(cx, bound, level, *condition, r) matches Ok(o) && o is Holds
            &&& root_outcome(cx, bound, level, *condition, s) matches Ok(o) && !(o is Holds)
            &&& differ(
                root_cell(cx, bound, level, *then_expr, r),
                root_cell(cx, bound, level, *else_expr, s),
            )
        },
    ensures
        root_work(cx, bound, level, e, rows, w) is None,
{
    root_is_step(cx, bound, level, e);
    if let CompiledScalarExpr::If { condition, then_expr, else_expr } = e {
        let taken = taken_rows(rows, |row: int| root_outcome(cx, bound, level, *condition, row));
        let passed = passed_rows(rows, |row: int| root_outcome(cx, bound, level, *condition, row));
        assert(taken.contains(r) && passed.contains(s));
        assert(apart(
            taken,
            |row: int| root_cell(cx, bound, level, *then_expr, row),
            passed,
            |row: int| root_cell(cx, bound, level, *else_expr, row),
        ));
    }
}

/// Over a lifetime, two rows that leave an `if` by different branches, with values of dtypes that
/// do not combine, make its evaluation fail, whatever other rows it is evaluated for.
pub proof fn life_branches_apart_fail(
    lx: LifetimeFacts,
    bound: nat,
    e: CompiledScalarExpr,
    rows: Set<int>,
    w: LifeWorked,
    r: int,
    s: int,
)
    requires
        rows.contains(r) && rows.contains(s),
        e matches CompiledScalarExpr::If { condition, then_expr, else_expr } && {
            &&& life_outcome(lx, bound, *condition, r) matches Ok(o) && o is Holds
            &&& life_outcome(lx, bound, *condition, s) matches Ok(o) && !(o is Holds)
            &&& differ(life_cell(lx, bound, *then_expr, r), life_cell(lx, bound, *else_expr, s))
        },
    ensures
        life_work(lx, bound, e, rows, w) is None,
{
    life_is_step(lx, bound, e);
    if let CompiledScalarExpr::If { condition, then_expr, else_expr } = e {
        let taken = taken_rows(rows, |row: int| life_outcome(lx, bound, *condition, row));
        let passed = passed_rows(rows, |row: int| life_outcome(lx, bound, *condition, row));
        assert(taken.contains(r) && passed.contains(s));
        assert(apart(
            taken,
            |row: int| life_cell(lx, bound, *then_expr, row),
            passed,
            |row: int| life_cell(lx, bound, *else_expr, row),
        ));
    }
}

} // verus!
