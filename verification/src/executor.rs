//! Execution of compiled programs over columns.
//!
//! Every node is evaluated under a mask of the rows whose evaluation reaches it,
//! and errors are recorded per row instead of ending the batch. A node under an
//! empty mask cannot fail, but still gives a column of its usual dtype, so a
//! column's dtype never depends on which rows happen to be live.
use crate::column::{
    add_item, between_cell, binary_cell, broadcast_scalar_literal, column_is, combine_between,
    combine_binary, combine_if, combine_shift, compare_cell, compare_dense, connective_is,
    connective_outcome, copied, counted, date_operand, dated, differ, extremum_item, fail_numeric,
    holding_rows, if_cell, index_operand, integral_cell, integral_column, judged,
    lookup_parameter_dense, negate, no_match_cell, no_match_column, number_column, numbered,
    numeric_operand, repeated, round_dense_column, select_dense, shift_cell, short_circuit_end,
    short_circuit_item, staged, BinaryOp, ColumnKind, DenseColumn, MatchLabels, ShiftUnit,
};
use crate::date::Date;
use crate::decimal::Decimal;
use crate::dense::{
    commencement_error, group_of, filter_error, filter_failure, is_member, judgment_fits,
    kept_count, kept_failure, kept_number, kept_test, kept_total, member_error, member_failure,
    nonzero, related_cell, related_connective, related_extremum, related_judgment_fits,
    related_judgments_fit, related_judgments_fit_each, related_outcome, related_scalar_fits,
    related_scalars_fit, related_scalars_fit_each, related_sum, relation_of, root_cell,
    root_connective, root_extremum, root_outcome, root_step, root_sum, rule_cell, rule_outcome,
    scalar_fits, scalars_fit, scalars_fit_each, judgments_fit, judgments_fit_each,
    CompiledJudgmentExpr, CompiledRelatedJudgmentExpr, CompiledRelatedScalarExpr,
    CompiledScalarExpr, CompiledSemantics, DenseBoundBatch, DenseCompiledProgram, DenseFacts,
};
use crate::error::{checked_add, ErrorView, EvalError};
use crate::idle::{
    formula_rests, judgment_formula_rests, related_connective_fails, related_connective_rests,
    related_extremum_fails, related_rests, related_sum_fails, root_connective_fails,
    root_connective_rests, root_extremum_fails, root_judgment_rests, root_rests, root_sum_fails,
};
use crate::kinds::{
    assessed, evaluated, joined_kind, mixed_branches, related_is_step, related_kind,
    related_outcome_is_step, related_typed, related_items_typed, related_items_typed_each, relateds_typed, relateds_typed_each, roots_typed, roots_typed_each, root_items_typed, root_items_typed_each, relation_typed, root_is_step, root_kind,
    root_kind_step, root_outcome_is_step, root_typed, rule_kind, rule_typed, typed_as,
};
use crate::lazy::{RowErrors, RowMask};
use crate::mixing::{
    apart, candidate_rows, formula_work, fresh, judgment_formula_work, keeping_work, kept_rows,
    member_rows, member_work, none_of, ok_rows, open_rows, owners_of, passed_rows,
    related_connective_work, related_extremum_work, related_judgment_work,
    related_judgment_work_step, related_sum_work, related_work, related_work_step,
    root_connective_work, root_extremum_work, root_judgment_work, root_judgment_work_step,
    root_sum_work, root_work, root_work_step, rows_of, rule_judgment_work, rule_work, taken_rows,
    Worked,
};
use crate::model::{ComparisonOp, JudgmentOutcome, ScalarValue};
use crate::semantics::{as_decimal_value, capped};
use crate::text::{owned, usize_text};
use vstd::prelude::*;
use vstd::string::*;

verus! {

/// Removes the rows whose divisor is zero.
pub(crate) fn nonzero_divisors(
    divisors: (Vec<Decimal>, RowMask, RowErrors),
    mask: &RowMask,
    Ghost(f): Ghost<spec_fn(int) -> Result<Decimal, ErrorView>>,
) -> (r: (Vec<Decimal>, RowMask, RowErrors))
    requires
        staged(divisors.0@, divisors.1, divisors.2, *mask, f),
    ensures
        staged(r.0@, r.1, r.2, *mask, |row: int| nonzero(f(row))),
{
    let (values, live, mut errors) = divisors;
    let ghost e0 = errors;
    let len = values.len();
    let mut i: usize = 0;
    while i < len
        invariant
            i <= len,
            len == values@.len(),
            live@.len() == len,
            forall|row: int| #[trigger]
                live.has(row) && row < i ==> errors.at(row) == match e0.at(row) {
                    Some(earlier) => Some(earlier),
                    None => if values@[row].magnitude() == 0 {
                        Some(ErrorView::DivisionByZero)
                    } else {
                        None
                    },
                },
            forall|row: int|
                #![trigger errors.at(row)]
                !live.has(row) || row >= i ==> errors.at(row) == e0.at(row),
        decreases len - i,
    {
        if live.contains(i) && values[i].is_zero() {
            errors.record(i, EvalError::DivisionByZero);
        }
        i = i + 1;
    }
    let still = live.without(&errors);
    (values, still, errors)
}

/// Once a row is decided or has failed, further items change nothing.
proof fn eval_connective_settled(
    cx: DenseFacts,
    bound: nat,
    level: nat,
    items: Seq<CompiledJudgmentExpr>,
    i: nat,
    n: nat,
    decisive: JudgmentOutcome,
    row: int,
)
    requires
        i <= n <= items.len(),
        match root_connective(cx, bound, level, items, i, decisive, row) {
            Ok(s) => s.decided,
            Err(_) => true,
        },
    ensures
        root_connective(cx, bound, level, items, n, decisive, row) == root_connective(
            cx,
            bound,
            level,
            items,
            i,
            decisive,
            row,
        ),
    decreases n,
{
    if i < n {
        eval_connective_settled(cx, bound, level, items, i, (n - 1) as nat, decisive, row);
    }
}

/// Once a related row is decided or has failed, further items change nothing.
proof fn related_connective_settled(
    cx: DenseFacts,
    bound: nat,
    level: nat,
    rel: nat,
    items: Seq<CompiledRelatedJudgmentExpr>,
    i: nat,
    n: nat,
    decisive: JudgmentOutcome,
    row: int,
)
    requires
        i <= n <= items.len(),
        match related_connective(cx, bound, level, rel, items, i, decisive, row) {
            Ok(s) => s.decided,
            Err(_) => true,
        },
    ensures
        related_connective(cx, bound, level, rel, items, n, decisive, row) == related_connective(
            cx,
            bound,
            level,
            rel,
            items,
            i,
            decisive,
            row,
        ),
    decreases n,
{
    if i < n {
        related_connective_settled(
            cx,
            bound,
            level,
            rel,
            items,
            i,
            (n - 1) as nat,
            decisive,
            row,
        );
    }
}

/// Whether offsets start at zero and do not decrease.
pub open spec fn grouped(offsets: Seq<usize>) -> bool {
    &&& offsets.len() > 0 ==> offsets[0] == 0
    &&& forall|i: int, j: int|
        0 <= i <= j < offsets.len() ==> #[trigger] offsets[i] <= #[trigger] offsets[j]
}

/// The number of rows that offsets describe.
pub open spec fn grouped_rows(offsets: Seq<usize>) -> nat {
    if offsets.len() == 0 {
        0
    } else {
        (offsets.len() - 1) as nat
    }
}

/// The row of each item of consecutive groups.
pub(crate) fn group_rows(offsets: &Vec<usize>) -> (r: Vec<usize>)
    requires
        grouped(offsets@),
    ensures
        r@.len() == if offsets@.len() == 0 {
            0
        } else {
            offsets@[offsets@.len() - 1] as nat
        },
        forall|k: int| #![trigger r@[k]]
            0 <= k < r@.len() ==> {
                &&& r@[k] < grouped_rows(offsets@)
                &&& offsets@[r@[k] as int] <= k
                &&& k < offsets@[r@[k] + 1]
            },
{
    let mut r: Vec<usize> = Vec::new();
    let mut row: usize = 0;
    while row < offsets.len() && row + 1 < offsets.len()
        invariant
            row < offsets@.len() || offsets@.len() == 0,
            offsets@.len() == 0 ==> row == 0,
            grouped(offsets@),
            r@.len() == if offsets@.len() == 0 {
                0
            } else {
                offsets@[row as int] as nat
            },
            forall|k: int| #![trigger r@[k]]
                0 <= k < r@.len() ==> {
                    &&& r@[k] < row
                    &&& offsets@[r@[k] as int] <= k
                    &&& k < offsets@[r@[k] + 1]
                },
        decreases offsets@.len() - row,
    {
        let end = offsets[row + 1];
        while r.len() < end
            invariant
                row + 1 < offsets@.len(),
                end == offsets@[row + 1],
                offsets@[row as int] <= r@.len() <= end,
                forall|k: int| #![trigger r@[k]]
                    0 <= k < r@.len() ==> {
                        &&& r@[k] <= row
                        &&& offsets@[r@[k] as int] <= k
                        &&& k < offsets@[r@[k] + 1]
                    },
            decreases end - r@.len(),
        {
            r.push(row);
        }
        row = row + 1;
    }
    r
}

/// The value of each named row.
fn gathered<T: Copy>(values: &Vec<T>, rows: &Vec<usize>) -> (r: Vec<T>)
    requires
        forall|k: int| 0 <= k < rows@.len() ==> (#[trigger] rows@[k]) < values@.len(),
    ensures
        r@.len() == rows@.len(),
        forall|k: int| 0 <= k < rows@.len() ==> #[trigger] r@[k] == values@[rows@[k] as int],
{
    let mut r: Vec<T> = Vec::new();
    let mut k: usize = 0;
    while k < rows.len()
        invariant
            k <= rows@.len(),
            r@.len() == k,
            forall|j: int| 0 <= j < rows@.len() ==> (#[trigger] rows@[j]) < values@.len(),
            forall|j: int| 0 <= j < k ==> #[trigger] r@[j] == values@[rows@[j] as int],
        decreases rows@.len() - k,
    {
        r.push(values[rows[k]]);
        k = k + 1;
    }
    r
}

fn gathered_texts(values: &Vec<String>, rows: &Vec<usize>) -> (r: Vec<String>)
    requires
        forall|k: int| 0 <= k < rows@.len() ==> (#[trigger] rows@[k]) < values@.len(),
    ensures
        r@.len() == rows@.len(),
        forall|k: int| 0 <= k < rows@.len() ==> #[trigger] r@[k] == values@[rows@[k] as int],
{
    let mut r: Vec<String> = Vec::new();
    let mut k: usize = 0;
    while k < rows.len()
        invariant
            k <= rows@.len(),
            r@.len() == k,
            forall|j: int| 0 <= j < rows@.len() ==> (#[trigger] rows@[j]) < values@.len(),
            forall|j: int| 0 <= j < k ==> #[trigger] r@[j] == values@[rows@[j] as int],
        decreases rows@.len() - k,
    {
        r.push(values[rows[k]].clone());
        k = k + 1;
    }
    r
}

pub open spec fn length_message(what: Seq<char>, len: nat, rows: nat) -> Seq<char> {
    "dense root "@ + what + " has length "@ + crate::text::int_text(len as int)
        + " but relation offsets describe "@ + crate::text::int_text(rows as int) + " rows"@
}

fn length_error(what: &str, len: usize, rows: usize) -> (r: EvalError)
    ensures
        r@ == ErrorView::TypeMismatch(length_message(what@, len as nat, rows as nat)),
{
    let mut message = owned("dense root ");
    message.append(what);
    message.append(" has length ");
    message.append(usize_text(len).as_str());
    message.append(" but relation offsets describe ");
    message.append(usize_text(rows).as_str());
    message.append(" rows");
    EvalError::TypeMismatch(message)
}

/// The judgment of the owning root row for each related row: whether it holds.
pub fn project_root_judgment_to_related(values: &Vec<JudgmentOutcome>, offsets: &Vec<usize>) -> (r:
    Result<Vec<bool>, EvalError>)
    requires
        grouped(offsets@),
    ensures
        match r {
            Err(error) => values@.len() != grouped_rows(offsets@) && error@
                == ErrorView::TypeMismatch(
                length_message("judgment"@, values@.len(), grouped_rows(offsets@)),
            ),
            Ok(projected) => {
                &&& values@.len() == grouped_rows(offsets@)
                &&& projected@.len() == if offsets@.len() == 0 {
                    0
                } else {
                    offsets@[offsets@.len() - 1] as nat
                }
                &&& forall|row: int, k: int| #![trigger values@[row], projected@[k]]
                    0 <= row < values@.len() && offsets@[row] <= k < offsets@[row + 1]
                        ==> projected@[k] == (values@[row] is Holds)
            },
        },
{
    let row_count: usize = if offsets.len() == 0 {
        0
    } else {
        offsets.len() - 1
    };
    if values.len() != row_count {
        return Err(length_error("judgment", values.len(), row_count));
    }
    let rows = group_rows(offsets);
    let outcomes = gathered(values, &rows);
    let mut projected: Vec<bool> = Vec::new();
    let mut k: usize = 0;
    while k < outcomes.len()
        invariant
            k <= outcomes@.len(),
            projected@.len() == k,
            forall|j: int| 0 <= j < k ==> #[trigger] projected@[j] == (outcomes@[j] is Holds),
        decreases outcomes@.len() - k,
    {
        projected.push(outcomes[k].is_holds());
        k = k + 1;
    }
    proof {
        assert forall|row: int, k: int| #![trigger values@[row], projected@[k]]
            0 <= row < values@.len() && offsets@[row] <= k < offsets@[row + 1] implies projected@[k]
            == (values@[row] is Holds) by {
            group_unique(offsets@, rows@[k] as int, row, k);
        }
    }
    Ok(projected)
}

/// Groups do not overlap.
proof fn group_unique(offsets: Seq<usize>, a: int, b: int, k: int)
    requires
        grouped(offsets),
        0 <= a < grouped_rows(offsets),
        0 <= b < grouped_rows(offsets),
        offsets[a] <= k < offsets[a + 1],
        offsets[b] <= k < offsets[b + 1],
    ensures
        a == b,
{
    if a < b {
        assert(offsets[a + 1] <= offsets[b]);
    } else if b < a {
        assert(offsets[b + 1] <= offsets[a]);
    }
}

/// The value of the owning root row for each related row.
pub fn project_root_column_to_related(column: &DenseColumn, offsets: &Vec<usize>) -> (r: Result<
    DenseColumn,
    EvalError,
>)
    requires
        grouped(offsets@),
    ensures
        match r {
            Err(error) => column.rows() != grouped_rows(offsets@) && error@
                == ErrorView::TypeMismatch(
                length_message("scalar"@, column.rows(), grouped_rows(offsets@)),
            ),
            Ok(projected) => {
                &&& column.rows() == grouped_rows(offsets@)
                &&& projected.kind() == column.kind()
                &&& projected.rows() == if offsets@.len() == 0 {
                    0
                } else {
                    offsets@[offsets@.len() - 1] as nat
                }
                &&& forall|row: int, k: int| #![trigger column.cell(row), projected.cell(k)]
                    0 <= row < column.rows() && offsets@[row] <= k < offsets@[row + 1]
                        ==> projected.cell(k) == column.cell(row)
            },
        },
{
    let row_count: usize = if offsets.len() == 0 {
        0
    } else {
        offsets.len() - 1
    };
    if column.len() != row_count {
        return Err(length_error("scalar", column.len(), row_count));
    }
    let rows = group_rows(offsets);
    let projected = match column {
        DenseColumn::Bool(values) => DenseColumn::Bool(gathered(values, &rows)),
        DenseColumn::Integer(values) => DenseColumn::Integer(gathered(values, &rows)),
        DenseColumn::Decimal(values) => DenseColumn::Decimal(gathered(values, &rows)),
        DenseColumn::Text(values) => DenseColumn::Text(gathered_texts(values, &rows)),
        DenseColumn::Date(values) => DenseColumn::Date(gathered(values, &rows)),
    };
    proof {
        assert forall|row: int, k: int| #![trigger column.cell(row), projected.cell(k)]
            0 <= row < column.rows() && offsets@[row] <= k < offsets@[row + 1] implies
            projected.cell(k) == column.cell(row) by {
            assert(offsets@[row + 1] <= offsets@[offsets@.len() - 1]);
            group_unique(offsets@, rows@[k] as int, row, k);
        }
    }
    Ok(projected)
}

/// Whether a formula is an aggregation over a relation under a `where` clause.
pub open spec fn aggregates(
    whole: CompiledScalarExpr,
    relation: usize,
    predicate: Option<Box<CompiledRelatedJudgmentExpr>>,
) -> bool {
    match whole {
        CompiledScalarExpr::CountRelated { relation: r, predicate: w } => r == relation && w
            == predicate,
        CompiledScalarExpr::SumRelated { relation: r, predicate: w, .. } => r == relation && w
            == predicate,
        _ => false,
    }
}

proof fn no_filter_failure(cx: DenseFacts, rel: nat, lo: int, hi: int)
    requires
        cx.program.relations@[rel as int].filter is None,
    ensures
        filter_failure(cx, rel, lo, hi) is None,
    decreases hi - lo,
{
    if lo < hi {
        no_filter_failure(cx, rel, lo, hi - 1);
        assert(filter_error(cx, rel, hi - 1) is None);
    }
}

/// A failing member makes the aggregation fail.
proof fn kept_failure_at(
    cx: DenseFacts,
    bound: nat,
    level: nat,
    e: CompiledScalarExpr,
    lo: int,
    hi: int,
    k: int,
)
    requires
        level >= 2,
        lo <= k < hi,
        is_member(cx, relation_of(e), k),
        member_error(cx, bound, level, e, k) is Some,
    ensures
        kept_failure(cx, bound, level, e, lo, hi) is Some,
    decreases hi - lo,
{
    if k < hi - 1 {
        kept_failure_at(cx, bound, level, e, lo, hi - 1, k);
    }
}

/// A rule's column, computed so far for the `computed` rows.
pub(crate) struct DerivedColumn<T> {
    pub values: T,
    pub errors: RowErrors,
    pub computed: RowMask,
}

/// The rows of `mask` that a cached column has not computed yet.
pub(crate) fn pending_rows<T>(cached: &Option<DerivedColumn<T>>, mask: &RowMask) -> (r: RowMask)
    ensures
        r@.len() == mask@.len(),
        forall|row: int| #[trigger]
            r.has(row) <==> mask.has(row) && !(cached matches Some(c) && c.computed.has(row)),
{
    match cached {
        Some(cached) => mask.difference(&cached.computed),
        None => {
            let all = mask.duplicate();
            assert forall|row: int| #[trigger] all.has(row) <==> mask.has(row) by {}
            all
        },
    }
}

/// Extends a cached column with newly computed rows of the same rule.
pub(crate) fn merge_scalar(
    cached: Option<DerivedColumn<DenseColumn>>,
    pending: RowMask,
    part: (DenseColumn, RowErrors),
    Ghost(f): Ghost<spec_fn(int) -> Result<ScalarValue, ErrorView>>,
    Ghost(kind): Ghost<Option<ColumnKind>>,
) -> (r: Result<DerivedColumn<DenseColumn>, EvalError>)
    requires
        column_is(part.0, part.1, pending, f),
        kind matches Some(k) ==> part.0.kind() == k,
        cached matches Some(c) ==> {
            &&& c.computed@.len() == pending@.len()
            &&& column_is(c.values, c.errors, c.computed, f)
            &&& kind matches Some(k) ==> c.values.kind() == k
            &&& forall|row: int| #[trigger] pending.has(row) ==> !c.computed.has(row)
        },
    ensures
        match r {
            Ok(merged) => {
                &&& merged.computed@.len() == pending@.len()
                &&& column_is(merged.values, merged.errors, merged.computed, f)
                &&& kind matches Some(k) ==> merged.values.kind() == k
                &&& forall|row: int| #[trigger]
                    merged.computed.has(row) <==> pending.has(row) || (cached matches Some(c)
                        && c.computed.has(row))
                &&& !apart(rows_of(pending), f, done_rows(cached), f)
            },
            Err(error) => {
                &&& kind is None
                &&& error@ == mixed_branches()
                &&& apart(rows_of(pending), f, done_rows(cached), f)
            },
        },
{
    let (values, errors) = part;
    match cached {
        None => Ok(DerivedColumn { values, errors, computed: pending }),
        Some(cached) => {
            let existing = cached.computed.without(&cached.errors);
            let added = pending.without(&errors);
            proof {
                assert forall|row: int| !(#[trigger] existing.has(row) && added.has(row)) by {
                    if existing.has(row) && added.has(row) {
                        assert(pending.has(row));
                        assert(cached.computed.has(row));
                    }
                }
            }
            let values = match select_dense(&existing, cached.values, &added, values) {
                Ok(values) => values,
                Err(error) => {
                    proof {
                        let r = choose|row: int| #[trigger] added.has(row);
                        let s = choose|row: int| #[trigger] existing.has(row);
                        assert(added.has(r) && existing.has(s));
                        assert(pending.has(r) && cached.computed.has(s));
                        assert(part.0.cell(r) == f(r)->Ok_0);
                        assert(cached.values.cell(s) == f(s)->Ok_0);
                        assert(differ(f(r), f(s)));
                        assert(rows_of(pending).contains(r) && done_rows(Some(cached)).contains(s));
                    }
                    return Err(error);
                },
            };
            let mut merged = cached.errors;
            merged.absorb(errors);
            let computed = cached.computed.union(&pending);
            proof {
                if apart(rows_of(pending), f, rows_of(cached.computed), f) {
                    let (r, s) = choose|r: int, s: int|
                        #[trigger] rows_of(pending).contains(r) && #[trigger] rows_of(
                            cached.computed,
                        ).contains(s) && differ(f(r), f(s));
                    assert(pending.has(r) && cached.computed.has(s));
                    assert(added.has(r) && existing.has(s));
                    assert(part.0.cell(r) == f(r)->Ok_0);
                    assert(cached.values.cell(s) == f(s)->Ok_0);
                }
                assert forall|row: int| #[trigger] computed.has(row) implies match f(row) {
                    Ok(value) => merged.at(row) is None && values.cell(row) == value,
                    Err(error) => merged.at(row) == Some(error),
                } by {
                    if pending.has(row) {
                        assert(added.has(row) == (f(row) is Ok));
                        assert(!cached.computed.has(row));
                    } else {
                        assert(cached.computed.has(row));
                        assert(existing.has(row) == (f(row) is Ok));
                    }
                }
            }
            Ok(DerivedColumn { values, errors: merged, computed })
        },
    }
}

/// Extends cached judgments with newly computed rows of the same rule.
pub(crate) fn merge_judgment(
    cached: Option<DerivedColumn<Vec<JudgmentOutcome>>>,
    pending: RowMask,
    part: (Vec<JudgmentOutcome>, RowErrors),
    Ghost(f): Ghost<spec_fn(int) -> Result<JudgmentOutcome, ErrorView>>,
) -> (r: DerivedColumn<Vec<JudgmentOutcome>>)
    requires
        judged(part.0@, part.1, pending, f),
        cached matches Some(c) ==> {
            &&& c.computed@.len() == pending@.len()
            &&& judged(c.values@, c.errors, c.computed, f)
            &&& forall|row: int| #[trigger] pending.has(row) ==> !c.computed.has(row)
        },
    ensures
        r.computed@.len() == pending@.len(),
        judged(r.values@, r.errors, r.computed, f),
        forall|row: int| #[trigger]
            r.computed.has(row) <==> pending.has(row) || (cached matches Some(c)
                && c.computed.has(row)),
{
    let (values, errors) = part;
    match cached {
        None => DerivedColumn { values, errors, computed: pending },
        Some(cached) => {
            let added = pending.without(&errors);
            let mut merged_values = cached.values;
            let ghost v0 = merged_values@;
            crate::column::assign_rows(&mut merged_values, &values, &added);
            let mut merged = cached.errors;
            merged.absorb(errors);
            let computed = cached.computed.union(&pending);
            proof {
                assert forall|row: int| #[trigger] computed.has(row) implies match f(row) {
                    Ok(value) => merged.at(row) is None && merged_values@[row] == value,
                    Err(error) => merged.at(row) == Some(error),
                } by {
                    if pending.has(row) {
                        assert(added.has(row) == (f(row) is Ok));
                        assert(!cached.computed.has(row));
                    } else {
                        assert(cached.computed.has(row));
                        assert(!added.has(row));
                    }
                }
            }
            DerivedColumn { values: merged_values, errors: merged, computed }
        },
    }
}

/// The error of the first failing row from `lo` to `hi`.
pub open spec fn first_error(errors: RowErrors, lo: int, hi: int) -> Option<ErrorView>
    decreases hi - lo,
{
    if lo >= hi {
        None
    } else {
        match first_error(errors, lo, hi - 1) {
            Some(error) => Some(error),
            None => errors.at(hi - 1),
        }
    }
}

/// How many rows from `lo` to `hi` a mask holds.
pub open spec fn marked(mask: RowMask, lo: int, hi: int) -> nat
    decreases hi - lo,
{
    if lo >= hi {
        0
    } else {
        marked(mask, lo, hi - 1) + if mask.has(hi - 1) {
            1nat
        } else {
            0nat
        }
    }
}

/// `k` held within the related rows of a root row.
spec fn within(cx: DenseFacts, rel: nat, row: int, k: int) -> int {
    if k <= cx.first_of(rel, row) {
        cx.first_of(rel, row)
    } else if k >= cx.end_of(rel, row) {
        cx.end_of(rel, row)
    } else {
        k
    }
}

/// The group of an item holds it.
proof fn group_holds(offsets: Seq<usize>, n: nat, k: int)
    requires
        n < offsets.len(),
        offsets[0] <= k < offsets[n as int],
    ensures
        0 <= group_of(offsets, n, k) < n,
        offsets[group_of(offsets, n, k)] <= k < offsets[group_of(offsets, n, k) + 1],
    decreases n,
{
    if n > 0 && offsets[n - 1] > k {
        group_holds(offsets, (n - 1) as nat, k);
    }
}

/// A related row is owned by a root row whose related rows hold it.
proof fn owner_holds(cx: DenseFacts, rel: nat, k: int)
    requires
        cx.bound_well(),
        rel < cx.batch.relations.len(),
        0 <= k < cx.batch.relations[rel as int].related_count,
    ensures
        0 <= cx.owner(rel, k) < cx.batch.row_count,
        cx.first_of(rel, cx.owner(rel, k)) <= k < cx.end_of(rel, cx.owner(rel, k)),
{
    let b = cx.batch.relations[rel as int];
    assert(b.well_formed(cx.batch.row_count));
    group_holds(b.offsets, cx.batch.row_count, k);
}

/// The related rows of a root row are those that it owns.
proof fn owned_rows(cx: DenseFacts, rel: nat, row: int)
    requires
        cx.bound_well(),
        rel < cx.batch.relations.len(),
        0 <= row < cx.batch.row_count,
    ensures
        0 <= cx.first_of(rel, row) <= cx.end_of(rel, row)
            <= cx.batch.relations[rel as int].related_count,
        forall|k: int|
            0 <= k < cx.batch.relations[rel as int].related_count ==> ((#[trigger] cx.owner(
                rel,
                k,
            )) == row <==> cx.first_of(rel, row) <= k < cx.end_of(rel, row)),
{
    let b = cx.batch.relations[rel as int];
    assert(b.well_formed(cx.batch.row_count));
    assert(b.offsets[0] <= b.offsets[row]);
    assert(b.offsets[row] <= b.offsets[row + 1]);
    assert(b.offsets[row + 1] <= b.offsets[cx.batch.row_count as int]);
    assert forall|k: int| 0 <= k < b.related_count implies ((#[trigger] cx.owner(rel, k)) == row
        <==> cx.first_of(rel, row) <= k < cx.end_of(rel, row)) by {
        owner_holds(cx, rel, k);
        let o = cx.owner(rel, k);
        if cx.first_of(rel, row) <= k < cx.end_of(rel, row) {
            if o < row {
                assert(b.offsets[o + 1] <= b.offsets[row]);
            } else if row < o {
                assert(b.offsets[row + 1] <= b.offsets[o]);
            }
        }
    }
}

/// Whether a related row is a member of a relation of a root row that evaluates it.
pub open spec fn reached(cx: DenseFacts, rel: nat, mask: RowMask, k: int) -> bool {
    &&& 0 <= k < cx.batch.relations[rel as int].related_count
    &&& mask.has(cx.owner(rel, k))
    &&& member_failure(cx, rel, cx.owner(rel, k)) is None
    &&& is_member(cx, rel, k)
}

/// Whether members and errors are those of a relation for the root rows of `mask`.
pub open spec fn members_are(
    cx: DenseFacts,
    rel: nat,
    mask: RowMask,
    members: RowMask,
    errors: RowErrors,
) -> bool {
    &&& members@.len() == cx.batch.relations[rel as int].related_count
    &&& forall|k: int| #[trigger] members.has(k) <==> reached(cx, rel, mask, k)
    &&& forall|row: int| #[trigger]
        errors.at(row) == if mask.has(row) {
            member_failure(cx, rel, row)
        } else {
            None
        }
}

/// Errors of related rows that are those of a filter have its first failure.
proof fn filter_failure_found(cx: DenseFacts, rel: nat, errors: RowErrors, lo: int, hi: int)
    requires
        forall|k: int| lo <= k < hi ==> #[trigger] errors.at(k) == filter_error(cx, rel, k),
    ensures
        first_error(errors, lo, hi) == filter_failure(cx, rel, lo, hi),
    decreases hi - lo,
{
    if lo < hi {
        filter_failure_found(cx, rel, errors, lo, hi - 1);
    }
}

proof fn no_first_error(errors: RowErrors, lo: int, hi: int)
    requires
        forall|k: int| lo <= k < hi ==> #[trigger] errors.at(k) is None,
    ensures
        first_error(errors, lo, hi) is None,
    decreases hi - lo,
{
    if lo < hi {
        no_first_error(errors, lo, hi - 1);
    }
}

proof fn kept_failure_found(
    cx: DenseFacts,
    bound: nat,
    level: nat,
    e: CompiledScalarExpr,
    errors: RowErrors,
    lo: int,
    hi: int,
)
    requires
        level >= 2,
        forall|k: int|
            lo <= k < hi ==> #[trigger] errors.at(k) == if is_member(cx, relation_of(e), k) {
                member_error(cx, bound, level, e, k)
            } else {
                None
            },
    ensures
        first_error(errors, lo, hi) == kept_failure(cx, bound, level, e, lo, hi),
    decreases hi - lo,
{
    if lo < hi {
        kept_failure_found(cx, bound, level, e, errors, lo, hi - 1);
    }
}

proof fn marked_is_kept(
    cx: DenseFacts,
    bound: nat,
    level: nat,
    e: CompiledScalarExpr,
    kept: RowMask,
    lo: int,
    hi: int,
)
    requires
        level >= 2,
        forall|k: int|
            lo <= k < hi ==> (#[trigger] kept.has(k) <==> is_member(cx, relation_of(e), k)
                && kept_test(cx, bound, level, e, k) == Ok::<bool, ErrorView>(true)),
    ensures
        marked(kept, lo, hi) == kept_count(cx, bound, level, e, lo, hi),
    decreases hi - lo,
{
    if lo < hi {
        marked_is_kept(cx, bound, level, e, kept, lo, hi - 1);
    }
}

/// The rows that a cached column has computed.
pub(crate) open spec fn done_rows<T>(cached: Option<DerivedColumn<T>>) -> Set<int> {
    match cached {
        Some(c) => rows_of(c.computed),
        None => Set::empty(),
    }
}

/// The root rows of related rows, as masks and as sets.
proof fn owners_found(cx: DenseFacts, rel: nat, roots: RowMask, related: RowMask)
    requires
        forall|row: int| #[trigger]
            roots.has(row) <==> exists|k: int|
                #[trigger] related.has(k) && cx.owner(rel, k) == row,
    ensures
        rows_of(roots) == owners_of(cx, rel, rows_of(related)),
{
    assert forall|row: int| #[trigger] rows_of(roots).contains(row) <==> owners_of(
        cx,
        rel,
        rows_of(related),
    ).contains(row) by {
        if roots.has(row) {
            let k = choose|k: int| #[trigger] related.has(k) && cx.owner(rel, k) == row;
            assert(rows_of(related).contains(k));
        }
        if owners_of(cx, rel, rows_of(related)).contains(row) {
            let k = choose|k: int| #[trigger]
                rows_of(related).contains(k) && cx.owner(rel, k) == row;
            assert(related.has(k));
        }
    }
    assert(rows_of(roots) =~= owners_of(cx, rel, rows_of(related)));
}

/// Evaluates compiled rules over a bound batch for one period, each rule once per row.
pub(crate) struct DenseExecutor<'a> {
    pub program: &'a DenseCompiledProgram,
    pub start: Date,
    pub end: Date,
    pub batch: DenseBoundBatch,
    /// Whether a row that reaches a rule before it commences fails.
    pub enforce_commencement: bool,
    pub scalar_cache: Vec<Option<DerivedColumn<DenseColumn>>>,
    pub judgment_cache: Vec<Option<DerivedColumn<Vec<JudgmentOutcome>>>>,
}

impl<'a> DenseExecutor<'a> {
    /// What is evaluated.
    pub(crate) open spec fn facts(&self) -> DenseFacts {
        DenseFacts {
            program: *self.program,
            start: self.start,
            end: self.end,
            batch: self.batch@,
            enforce_commencement: self.enforce_commencement,
        }
    }

    /// The rows that each rule has been evaluated for.
    pub(crate) open spec fn worked(&self) -> Worked {
        Worked {
            scalars: Seq::new(
                self.scalar_cache@.len(),
                |i: int| done_rows(self.scalar_cache@[i]),
            ),
            judgments: Seq::new(
                self.judgment_cache@.len(),
                |i: int| done_rows(self.judgment_cache@[i]),
            ),
        }
    }

    /// The batch fits the program, and what is cached is what the rules give.
    pub(crate) open spec fn ready(&self) -> bool {
        let cx = self.facts();
        &&& cx.bound_well()
        &&& self.batch.owners_known()
        &&& self.scalar_cache@.len() == cx.program.derived@.len()
        &&& self.judgment_cache@.len() == cx.program.derived@.len()
        &&& forall|i: int| #![trigger self.scalar_cache@[i]]
            0 <= i < self.scalar_cache@.len() ==> (self.scalar_cache@[i] matches Some(c) ==> {
                &&& c.computed@.len() == cx.batch.row_count
                &&& column_is(
                    c.values,
                    c.errors,
                    c.computed,
                    |row: int| rule_cell(cx, i as nat, row),
                )
                &&& rule_kind(cx, i as nat) matches Some(k) ==> c.values.kind() == k
            })
        &&& forall|i: int| #![trigger self.judgment_cache@[i]]
            0 <= i < self.judgment_cache@.len() ==> (self.judgment_cache@[i] matches Some(c) ==> {
                &&& c.computed@.len() == cx.batch.row_count
                &&& judged(
                    c.values@,
                    c.errors,
                    c.computed,
                    |row: int| rule_outcome(cx, i as nat, row),
                )
            })
    }

    pub(crate) fn new(
        program: &'a DenseCompiledProgram,
        start: Date,
        end: Date,
        batch: DenseBoundBatch,
        enforce_commencement: bool,
    ) -> (r: DenseExecutor<'a>)
        requires
            (
                DenseFacts { program: *program, start, end, batch: batch@, enforce_commencement }
            ).bound_well(),
            batch.owners_known(),
        ensures
            r.ready(),
            r.facts() == (
                DenseFacts { program: *program, start, end, batch: batch@, enforce_commencement }
            ),
            r.worked() =~~= fresh(program.derived@.len()),
    {
        let mut scalar_cache: Vec<Option<DerivedColumn<DenseColumn>>> = Vec::new();
        let mut judgment_cache: Vec<Option<DerivedColumn<Vec<JudgmentOutcome>>>> = Vec::new();
        let mut i: usize = 0;
        while i < program.derived.len()
            invariant
                i <= program.derived@.len(),
                scalar_cache@.len() == i,
                judgment_cache@.len() == i,
                forall|j: int| 0 <= j < i ==> #[trigger] scalar_cache@[j] is None,
                forall|j: int| 0 <= j < i ==> #[trigger] judgment_cache@[j] is None,
            decreases program.derived@.len() - i,
        {
            scalar_cache.push(None);
            judgment_cache.push(None);
            i = i + 1;
        }
        DenseExecutor {
            program,
            start,
            end,
            batch,
            enforce_commencement,
            scalar_cache,
            judgment_cache,
        }
    }

    /// A scalar rule's column for the rows of `mask`, computed only for rows that no
    /// earlier reference asked for.
    pub(crate) fn evaluate_scalar(&mut self, derived_index: usize, mask: &RowMask) -> (r: Result<
        (DenseColumn, RowErrors),
        EvalError,
    >)
        requires
            old(self).ready(),
            derived_index < old(self).facts().program.derived@.len(),
            mask@.len() == old(self).facts().batch.row_count,
        ensures
            final(self).ready(),
            final(self).facts() == old(self).facts(),
            evaluated(
                r,
                *mask,
                |row: int| rule_cell(old(self).facts(), derived_index as nat, row),
                rule_kind(old(self).facts(), derived_index as nat),
                rule_work(
                    old(self).facts(),
                    derived_index as nat,
                    rows_of(*mask),
                    old(self).worked(),
                ),
                final(self).worked(),
            ),
        decreases derived_index as nat, 3nat, old(self).facts(), 1int,
    {
        let ghost cx = self.facts();
        let ghost f = |row: int| rule_cell(cx, derived_index as nat, row);
        let ghost w0 = self.worked();
        let mut cached: Option<DerivedColumn<DenseColumn>> = None;
        self.scalar_cache.set_and_swap(derived_index, &mut cached);
        assert(self.ready());
        assert(self.facts() == cx);
        let pending = pending_rows(&cached, mask);
        let ghost done = done_rows(cached);
        let ghost aside = Worked { scalars: w0.scalars.update(
            derived_index as int,
            Set::empty(),
        ), ..w0 };
        proof {
            assert(done =~= w0.scalars[derived_index as int]);
            assert(self.worked() =~~= aside);
            assert(rows_of(pending) =~= rows_of(*mask).difference(done));
            if none_of(rows_of(pending)) {
                formula_rests(cx, derived_index as nat, rows_of(pending), aside);
            }
        }
        let current = if cached.is_some() && pending.is_empty() {
            match cached {
                Some(current) => current,
                None => return self.compute_scalar(derived_index, mask),
            }
        } else {
            let part = match self.compute_scalar(derived_index, &pending) {
                Ok(part) => part,
                Err(error) => return Err(error),
            };
            match merge_scalar(
                cached,
                pending,
                part,
                Ghost(f),
                Ghost(rule_kind(cx, derived_index as nat)),
            ) {
                Ok(current) => current,
                Err(error) => return Err(error),
            }
        };
        proof {
            assert forall|row: int| #[trigger] mask.has(row) implies current.computed.has(row) by {
                if cached is Some && !pending.has(row) {
                } else {
                    assert(pending.has(row) || current.computed.has(row));
                }
            }
        }
        let values = current.values.duplicate();
        let errors = current.errors.restricted_to(mask);
        proof {
            assert forall|row: int| #[trigger] mask.has(row) implies match f(row) {
                Ok(value) => errors.at(row) is None && values.cell(row) == value,
                Err(error) => errors.at(row) == Some(error),
            } by {
                assert(current.computed.has(row));
                assert(values.cell(row) == current.values.cell(row));
            }
        }
        let ghost w1 = self.worked();
        assert(rows_of(current.computed) =~= done.union(rows_of(pending)));
        self.scalar_cache.set(derived_index, Some(current));
        assert(
            self.worked() =~~= Worked { scalars: w1.scalars.update(
                derived_index as int,
                done.union(rows_of(pending)),
            ), ..w1 }
        );
        assert(none_of(rows_of(*mask)) ==> self.worked() =~~= w0);
        Ok((values, errors))
    }

    fn compute_scalar(&mut self, derived_index: usize, mask: &RowMask) -> (r: Result<
        (DenseColumn, RowErrors),
        EvalError,
    >)
        requires
            old(self).ready(),
            derived_index < old(self).facts().program.derived@.len(),
            mask@.len() == old(self).facts().batch.row_count,
        ensures
            final(self).ready(),
            final(self).facts() == old(self).facts(),
            evaluated(
                r,
                *mask,
                |row: int| rule_cell(old(self).facts(), derived_index as nat, row),
                rule_kind(old(self).facts(), derived_index as nat),
                formula_work(
                    old(self).facts(),
                    derived_index as nat,
                    rows_of(*mask),
                    old(self).worked(),
                ),
                final(self).worked(),
            ),
        decreases derived_index as nat, 3nat, old(self).facts(), 0int,
    {
        let ghost cx = self.facts();
        let program = self.program;
        let derived = &program.derived[derived_index];
        assert(cx.program.derived@[derived_index as int] == *derived);
        let expr = match &derived.semantics {
            CompiledSemantics::Scalar(expr) => expr,
            CompiledSemantics::Judgment(_) => {
                return Ok(fail_numeric(mask, EvalError::ExpectedScalar(derived.name.clone())));
            },
        };
        let (live, mut errors) = self.commenced_rows(derived_index, mask);
        proof {
            if commencement_error(cx, derived_index as nat) is None {
                assert(rows_of(live) =~= rows_of(*mask));
            } else {
                root_rests(cx, derived_index as nat, 2, *expr, rows_of(live), self.worked());
            }
        }
        let (column, formula_errors) = match self.eval_scalar_expr(
            expr,
            &live,
            Ghost(derived_index as nat),
            Ghost(2nat),
        ) {
            Ok(part) => part,
            Err(error) => return Err(error),
        };
        errors.absorb(formula_errors.within_rule(derived.label.as_str()));
        // Rounding comes before caching, so that dependents and outputs see the
        // same rounded values.
        let column = match derived.rounding {
            Some(rounding) => round_dense_column(column, rounding),
            None => column,
        };
        proof {
            assert forall|row: int| #[trigger] mask.has(row) implies match rule_cell(
                cx,
                derived_index as nat,
                row,
            ) {
                Ok(value) => errors.at(row) is None && column.cell(row) == value,
                Err(error) => errors.at(row) == Some(error),
            } by {
                assert(live.has(row) == (commencement_error(cx, derived_index as nat) is None));
            }
            assert forall|row: int| #![trigger errors.at(row)] !mask.has(row) implies errors.at(
                row,
            ) is None by {
                assert(!live.has(row));
            }
        }
        Ok((column, errors))
    }

    /// A rule before its commencement date has no lawful value: every row that
    /// reaches it fails, and its formula is evaluated for no rows.
    fn commenced_rows(&self, derived_index: usize, mask: &RowMask) -> (r: (RowMask, RowErrors))
        requires
            derived_index < self.facts().program.derived@.len(),
        ensures
            r.0@.len() == mask@.len(),
            match commencement_error(self.facts(), derived_index as nat) {
                Some(error) => r.0.vacant() && forall|row: int| #[trigger]
                    r.1.at(row) == if mask.has(row) {
                        Some(error)
                    } else {
                        None
                    },
                None => r.0@ == mask@ && forall|row: int| #[trigger] r.1.at(row) is None,
            },
    {
        let derived = &self.program.derived[derived_index];
        let mut errors = RowErrors::new();
        if self.enforce_commencement {
            if let Some(effective_from) = derived.effective_from {
                if self.start.before(&effective_from) {
                    errors.record_all(
                        mask,
                        &EvalError::MissingDerivedFormulaVersion {
                            derived: derived.name.clone(),
                            at: self.start,
                        },
                    );
                    return (RowMask::none(mask.len()), errors);
                }
            }
        }
        (mask.duplicate(), errors)
    }

    /// A judgment rule's outcomes for the rows of `mask`, computed only for rows that
    /// no earlier reference asked for.
    pub(crate) fn evaluate_judgment(&mut self, derived_index: usize, mask: &RowMask) -> (r: Result<
        (Vec<JudgmentOutcome>, RowErrors),
        EvalError,
    >)
        requires
            old(self).ready(),
            derived_index < old(self).facts().program.derived@.len(),
            mask@.len() == old(self).facts().batch.row_count,
        ensures
            final(self).ready(),
            final(self).facts() == old(self).facts(),
            assessed(
                r,
                *mask,
                |row: int| rule_outcome(old(self).facts(), derived_index as nat, row),
                rule_typed(old(self).facts(), derived_index as nat),
                rule_judgment_work(
                    old(self).facts(),
                    derived_index as nat,
                    rows_of(*mask),
                    old(self).worked(),
                ),
                final(self).worked(),
            ),
        decreases derived_index as nat, 3nat, old(self).facts(), 1int,
    {
        let ghost cx = self.facts();
        let ghost f = |row: int| rule_outcome(cx, derived_index as nat, row);
        let ghost w0 = self.worked();
        let mut cached: Option<DerivedColumn<Vec<JudgmentOutcome>>> = None;
        self.judgment_cache.set_and_swap(derived_index, &mut cached);
        assert(self.ready());
        assert(self.facts() == cx);
        let pending = pending_rows(&cached, mask);
        let ghost done = done_rows(cached);
        let ghost aside = Worked { judgments: w0.judgments.update(
            derived_index as int,
            Set::empty(),
        ), ..w0 };
        proof {
            assert(done =~= w0.judgments[derived_index as int]);
            assert(self.worked() =~~= aside);
            assert(rows_of(pending) =~= rows_of(*mask).difference(done));
            if none_of(rows_of(pending)) {
                judgment_formula_rests(cx, derived_index as nat, rows_of(pending), aside);
            }
        }
        let current = if cached.is_some() && pending.is_empty() {
            match cached {
                Some(current) => current,
                None => return self.compute_judgment(derived_index, mask),
            }
        } else {
            let part = match self.compute_judgment(derived_index, &pending) {
                Ok(part) => part,
                Err(error) => return Err(error),
            };
            merge_judgment(cached, pending, part, Ghost(f))
        };
        let values = copied(&current.values);
        let errors = current.errors.restricted_to(mask);
        proof {
            assert forall|row: int| #[trigger] mask.has(row) implies match f(row) {
                Ok(value) => errors.at(row) is None && values@[row] == value,
                Err(error) => errors.at(row) == Some(error),
            } by {
                assert(pending.has(row) || current.computed.has(row));
                assert(current.computed.has(row));
            }
        }
        let ghost w1 = self.worked();
        assert(rows_of(current.computed) =~= done.union(rows_of(pending)));
        self.judgment_cache.set(derived_index, Some(current));
        assert(
            self.worked() =~~= Worked { judgments: w1.judgments.update(
                derived_index as int,
                done.union(rows_of(pending)),
            ), ..w1 }
        );
        assert(none_of(rows_of(*mask)) ==> self.worked() =~~= w0);
        Ok((values, errors))
    }

    fn compute_judgment(&mut self, derived_index: usize, mask: &RowMask) -> (r: Result<
        (Vec<JudgmentOutcome>, RowErrors),
        EvalError,
    >)
        requires
            old(self).ready(),
            derived_index < old(self).facts().program.derived@.len(),
            mask@.len() == old(self).facts().batch.row_count,
        ensures
            final(self).ready(),
            final(self).facts() == old(self).facts(),
            assessed(
                r,
                *mask,
                |row: int| rule_outcome(old(self).facts(), derived_index as nat, row),
                rule_typed(old(self).facts(), derived_index as nat),
                judgment_formula_work(
                    old(self).facts(),
                    derived_index as nat,
                    rows_of(*mask),
                    old(self).worked(),
                ),
                final(self).worked(),
            ),
        decreases derived_index as nat, 3nat, old(self).facts(), 0int,
    {
        let ghost cx = self.facts();
        let program = self.program;
        let derived = &program.derived[derived_index];
        assert(cx.program.derived@[derived_index as int] == *derived);
        let expr = match &derived.semantics {
            CompiledSemantics::Judgment(expr) => expr,
            CompiledSemantics::Scalar(_) => {
                let mut errors = RowErrors::new();
                errors.record_all(mask, &EvalError::ExpectedJudgment(derived.name.clone()));
                return Ok((repeated(JudgmentOutcome::NotHolds, mask.len()), errors));
            },
        };
        let (live, mut errors) = self.commenced_rows(derived_index, mask);
        proof {
            if commencement_error(cx, derived_index as nat) is None {
                assert(rows_of(live) =~= rows_of(*mask));
            } else {
                root_judgment_rests(
                    cx,
                    derived_index as nat,
                    2,
                    *expr,
                    rows_of(live),
                    self.worked(),
                );
            }
        }
        let (values, formula_errors) = match self.eval_judgment_expr(
            expr,
            &live,
            Ghost(derived_index as nat),
            Ghost(2nat),
        ) {
            Ok(part) => part,
            Err(error) => return Err(error),
        };
        errors.absorb(formula_errors.within_rule(derived.label.as_str()));
        proof {
            assert forall|row: int| #[trigger] mask.has(row) implies match rule_outcome(
                cx,
                derived_index as nat,
                row,
            ) {
                Ok(value) => errors.at(row) is None && values@[row] == value,
                Err(error) => errors.at(row) == Some(error),
            } by {
                assert(live.has(row) == (commencement_error(cx, derived_index as nat) is None));
            }
            assert forall|row: int| #![trigger errors.at(row)] !mask.has(row) implies errors.at(
                row,
            ) is None by {
                assert(!live.has(row));
            }
        }
        Ok((values, errors))
    }

    /// The related rows that the root rows of `mask` own.
    fn related_rows_of(&self, relation: usize, mask: &RowMask) -> (r: RowMask)
        requires
            self.facts().bound_well(),
            self.batch.owners_known(),
            relation < self.facts().batch.relations.len(),
            mask@.len() == self.facts().batch.row_count,
        ensures
            r@.len() == self.facts().batch.relations[relation as int].related_count,
            forall|k: int| #[trigger]
                r.has(k) <==> 0 <= k < self.facts().batch.relations[relation as int].related_count
                    && mask.has(self.facts().owner(relation as nat, k)),
    {
        let batch = &self.batch.relations[relation];
        assert(self.facts().batch.relations[relation as int] == batch@);
        assert(batch.owners_known(self.batch.row_count as nat));
        let mut bits: Vec<bool> = Vec::new();
        let mut k: usize = 0;
        while k < batch.related_count
            invariant
                k <= batch.related_count,
                batch.owners@.len() == batch.related_count,
                bits@.len() == k,
                forall|j: int|
                    0 <= j < k ==> #[trigger] bits@[j] == mask.has(batch.owners@[j] as int),
            decreases batch.related_count - k,
        {
            bits.push(mask.contains(batch.owners[k]));
            k = k + 1;
        }
        RowMask::from_bits(bits)
    }

    /// The root rows that own a related row of `related`.
    fn root_rows_of(&self, relation: usize, related: &RowMask) -> (r: RowMask)
        requires
            self.facts().bound_well(),
            self.batch.owners_known(),
            relation < self.facts().batch.relations.len(),
            related@.len() == self.facts().batch.relations[relation as int].related_count,
        ensures
            r@.len() == self.facts().batch.row_count,
            forall|row: int| #[trigger]
                r.has(row) <==> exists|k: int|
                    #[trigger] related.has(k) && self.facts().owner(relation as nat, k) == row,
    {
        let batch = &self.batch.relations[relation];
        assert(self.facts().batch.relations[relation as int] == batch@);
        assert(batch.owners_known(self.batch.row_count as nat));
        let ghost cx = self.facts();
        let mut bits: Vec<bool> = repeated(false, self.batch.row_count);
        let len = related.len();
        let mut k: usize = 0;
        while k < len
            invariant
                k <= len,
                len == related@.len(),
                len == batch.related_count,
                batch@ == cx.batch.relations[relation as int],
                cx.bound_well(),
                relation < cx.batch.relations.len(),
                batch.owners_known(cx.batch.row_count),
                bits@.len() == cx.batch.row_count,
                forall|row: int|
                    0 <= row < bits@.len() && #[trigger] bits@[row] ==> exists|j: int|
                        #[trigger] related.has(j) && cx.owner(relation as nat, j) == row,
                forall|j: int|
                    #[trigger] related.has(j) && j < k ==> bits@[cx.owner(relation as nat, j)],
            decreases len - k,
        {
            if related.contains(k) {
                let ghost before = bits@;
                let owner = batch.owners[k];
                proof {
                    owner_holds(cx, relation as nat, k as int);
                }
                bits.set(owner, true);
                proof {
                    assert(related.has(k as int) && cx.owner(relation as nat, k as int) == owner);
                    assert forall|row: int|
                        0 <= row < bits@.len() && #[trigger] bits@[row] implies exists|j: int|
                        #[trigger] related.has(j) && cx.owner(relation as nat, j) == row by {
                        if row != owner {
                            assert(before[row]);
                        }
                    }
                    assert forall|j: int| #[trigger] related.has(j) && j < k + 1 implies bits@[
                        cx.owner(relation as nat, j)] by {
                        owner_holds(cx, relation as nat, j);
                    }
                }
            }
            k = k + 1;
        }
        let r = RowMask::from_bits(bits);
        proof {
            assert forall|row: int| #[trigger] r.has(row) <==> exists|k: int|
                #[trigger] related.has(k) && cx.owner(relation as nat, k) == row by {
                if exists|k: int|
                    #[trigger] related.has(k) && cx.owner(relation as nat, k) == row {
                    let k = choose|k: int|
                        #[trigger] related.has(k) && cx.owner(relation as nat, k) == row;
                    owner_holds(cx, relation as nat, k);
                    assert(bits@[cx.owner(relation as nat, k)]);
                }
            }
        }
        r
    }

    /// Errors of related rows on the root rows that own them. A root row takes the
    /// error of its first failing related row.
    fn lift_errors(&self, relation: usize, related_errors: &RowErrors) -> (r: RowErrors)
        requires
            self.facts().bound_well(),
            self.batch.owners_known(),
            relation < self.facts().batch.relations.len(),
        ensures
            forall|row: int| #[trigger]
                r.at(row) == if 0 <= row < self.facts().batch.row_count {
                    first_error(
                        *related_errors,
                        self.facts().first_of(relation as nat, row),
                        self.facts().end_of(relation as nat, row),
                    )
                } else {
                    None
                },
    {
        let batch = &self.batch.relations[relation];
        let ghost cx = self.facts();
        let ghost rel = relation as nat;
        assert(cx.batch.relations[relation as int] == batch@);
        assert(batch.owners_known(cx.batch.row_count));
        let mut r = RowErrors::new();
        let mut k: usize = 0;
        proof {
            assert forall|row: int| 0 <= row < cx.batch.row_count implies within(
                cx,
                rel,
                row,
                0,
            ) == cx.first_of(rel, row) by {
                owned_rows(cx, rel, row);
            }
        }
        while k < batch.related_count
            invariant
                k <= batch.related_count,
                rel == relation as nat,
                cx.bound_well(),
                rel < cx.batch.relations.len(),
                batch@ == cx.batch.relations[rel as int],
                batch.owners_known(cx.batch.row_count),
                forall|row: int| #[trigger]
                    r.at(row) == if 0 <= row < cx.batch.row_count {
                        first_error(
                            *related_errors,
                            cx.first_of(rel, row),
                            within(cx, rel, row, k as int),
                        )
                    } else {
                        None
                    },
            decreases batch.related_count - k,
        {
            let ghost before = r;
            let owner = batch.owners[k];
            proof {
                owner_holds(cx, rel, k as int);
            }
            if let Some(error) = related_errors.get(k) {
                r.record(owner, error.duplicate());
            }
            proof {
                assert forall|row: int| #[trigger]
                    r.at(row) == if 0 <= row < cx.batch.row_count {
                        first_error(
                            *related_errors,
                            cx.first_of(rel, row),
                            within(cx, rel, row, k + 1),
                        )
                    } else {
                        None
                    } by {
                    assert(before.at(row) == if 0 <= row < cx.batch.row_count {
                        first_error(
                            *related_errors,
                            cx.first_of(rel, row),
                            within(cx, rel, row, k as int),
                        )
                    } else {
                        None
                    });
                    if 0 <= row < cx.batch.row_count {
                        owned_rows(cx, rel, row);
                        assert(cx.owner(rel, k as int) == owner);
                    }
                }
            }
            k = k + 1;
        }
        proof {
            assert forall|row: int| 0 <= row < cx.batch.row_count implies within(
                cx,
                rel,
                row,
                k as int,
            ) == cx.end_of(rel, row) by {
                owned_rows(cx, rel, row);
            }
        }
        r
    }

    /// Errors of root rows on the related rows of `related` that they own.
    fn lower_errors(&self, relation: usize, root_errors: &RowErrors, related: &RowMask) -> (r:
        RowErrors)
        requires
            self.facts().bound_well(),
            self.batch.owners_known(),
            relation < self.facts().batch.relations.len(),
            related@.len() == self.facts().batch.relations[relation as int].related_count,
        ensures
            forall|k: int| #[trigger]
                r.at(k) == if related.has(k) {
                    root_errors.at(self.facts().owner(relation as nat, k))
                } else {
                    None
                },
    {
        let batch = &self.batch.relations[relation];
        assert(self.facts().batch.relations[relation as int] == batch@);
        assert(batch.owners_known(self.batch.row_count as nat));
        let mut r = RowErrors::new();
        let len = related.len();
        let mut k: usize = 0;
        while k < len
            invariant
                k <= len,
                len == related@.len(),
                batch.owners@.len() == len,
                forall|j: int| #[trigger]
                    r.at(j) == if j < k && related.has(j) {
                        root_errors.at(batch.owners@[j] as int)
                    } else {
                        None
                    },
            decreases len - k,
        {
            if related.contains(k) {
                if let Some(error) = root_errors.get(batch.owners[k]) {
                    r.record(k, error.duplicate());
                }
            }
            k = k + 1;
        }
        r
    }

    /// The related rows whose root row has not failed.
    fn without_failed_roots(
        &self,
        relation: usize,
        related: &RowMask,
        root_errors: &RowErrors,
    ) -> (r: RowMask)
        requires
            self.facts().bound_well(),
            self.batch.owners_known(),
            relation < self.facts().batch.relations.len(),
            related@.len() == self.facts().batch.relations[relation as int].related_count,
        ensures
            r@.len() == related@.len(),
            forall|k: int| #[trigger]
                r.has(k) <==> related.has(k) && !root_errors.failed(
                    self.facts().owner(relation as nat, k),
                ),
    {
        let batch = &self.batch.relations[relation];
        assert(self.facts().batch.relations[relation as int] == batch@);
        assert(batch.owners_known(self.batch.row_count as nat));
        let mut kept: Vec<bool> = Vec::new();
        let mut k: usize = 0;
        while k < batch.related_count
            invariant
                k <= batch.related_count,
                batch.owners@.len() == batch.related_count,
                kept@.len() == k,
                forall|j: int|
                    0 <= j < k ==> #[trigger] kept@[j] == !root_errors.failed(
                        batch.owners@[j] as int,
                    ),
            decreases batch.related_count - k,
        {
            kept.push(!root_errors.contains(batch.owners[k]));
            k = k + 1;
        }
        related.keeping(&kept)
    }

    /// The members of a relation among the related rows of the root rows of `mask`:
    /// a derived relation's parent first, then its own filter, each only for the
    /// rows that the stage before kept.
    fn relation_members(
        &mut self,
        relation: usize,
        candidates: &RowMask,
        Ghost(mask): Ghost<RowMask>,
    ) -> (r: Result<(RowMask, RowErrors), EvalError>)
        requires
            old(self).ready(),
            relation < old(self).facts().batch.relations.len(),
            mask@.len() == old(self).facts().batch.row_count,
            candidates@.len() == old(self).facts().batch.relations[relation as int].related_count,
            forall|k: int| #[trigger]
                candidates.has(k) <==> 0 <= k < candidates@.len() && mask.has(
                    old(self).facts().owner(relation as nat, k),
                ),
        ensures
            final(self).ready(),
            final(self).facts() == old(self).facts(),
            match r {
                Ok((members, errors)) => {
                    &&& members_are(old(self).facts(), relation as nat, mask, members, errors)
                    &&& member_work(
                        old(self).facts(),
                        relation as nat,
                        rows_of(mask),
                        old(self).worked(),
                    ) == Some(final(self).worked())
                },
                Err(error) => {
                    &&& !relation_typed(old(self).facts(), relation as nat)
                    &&& error@ == mixed_branches()
                    &&& member_work(
                        old(self).facts(),
                        relation as nat,
                        rows_of(mask),
                        old(self).worked(),
                    ) is None
                },
            },
        decreases 0nat, 1nat, old(self).facts(), 2 * relation + 1,
    {
        let ghost cx = self.facts();
        let ghost rel = relation as nat;
        let program = self.program;
        let schema = &program.relations[relation];
        assert(cx.program.relations@[relation as int] == *schema);
        assert(cx.batch.relations[relation as int].well_formed(cx.batch.row_count));
        let mut root_errors = RowErrors::new();
        let mut members = candidates.duplicate();
        proof {
            assert forall|k: int| #[trigger] members.has(k) <==> candidates.has(k) by {}
        }
        if let Some(parent) = schema.parent_relation {
            let (kept, parent_errors) = match self.relation_members(parent, &members, Ghost(mask)) {
                Ok(part) => part,
                Err(error) => return Err(error),
            };
            root_errors.absorb(parent_errors);
            members = self.without_failed_roots(relation, &kept, &root_errors);
        }
        let ghost reached_members = members;
        let ghost parent_errors = root_errors;
        proof {
            assert forall|k: int| #[trigger] reached_members.has(k) <==> {
                &&& 0 <= k < cx.batch.relations[relation as int].related_count
                &&& mask.has(cx.owner(rel, k))
                &&& !parent_errors.failed(cx.owner(rel, k))
                &&& match schema.parent_relation {
                    Some(parent) => is_member(cx, parent as nat, k),
                    None => true,
                }
            } by {
                if let Some(parent) = schema.parent_relation {
                    assert(cx.owner(parent as nat, k) == cx.owner(rel, k));
                }
            }
            assert forall|row: int| #[trigger]
                parent_errors.at(row) == if mask.has(row) {
                    match schema.parent_relation {
                        Some(parent) => member_failure(cx, parent as nat, row),
                        None => None,
                    }
                } else {
                    None
                } by {}
            assert forall|k: int| #[trigger] rows_of(members).contains(k) <==> candidate_rows(
                cx,
                rel,
                rows_of(mask),
            ).contains(k) by {
                assert(reached_members.has(k) == members.has(k));
                assert(parent_errors.at(cx.owner(rel, k)) == parent_errors.at(cx.owner(rel, k)));
            }
            assert(rows_of(members) =~= candidate_rows(cx, rel, rows_of(mask)));
        }
        if let Some(filter) = &schema.filter {
            let (holds, filter_errors) = match self.eval_related_predicate(
                relation,
                filter,
                &members,
                Ghost(0nat),
                Ghost(0nat),
            ) {
                Ok(part) => part,
                Err(error) => return Err(error),
            };
            let live = members.without(&filter_errors);
            let lifted = self.lift_errors(relation, &filter_errors);
            proof {
                assert forall|row: int| mask.has(row) implies #[trigger] lifted.at(row) == if
                    parent_errors.failed(row) {
                    None
                } else {
                    filter_failure(cx, rel, cx.first_of(rel, row), cx.end_of(rel, row))
                } by {
                    owned_rows(cx, rel, row);
                    let (lo, hi) = (cx.first_of(rel, row), cx.end_of(rel, row));
                    if parent_errors.failed(row) {
                        assert forall|k: int| lo <= k < hi implies #[trigger] filter_errors.at(
                            k,
                        ) is None by {
                            assert(cx.owner(rel, k) == row);
                            assert(!reached_members.has(k));
                        }
                        no_first_error(filter_errors, lo, hi);
                    } else {
                        assert forall|k: int| lo <= k < hi implies #[trigger] filter_errors.at(k)
                            == filter_error(cx, rel, k) by {
                            assert(cx.owner(rel, k) == row);
                            assert(reached_members.has(k) <==> match schema.parent_relation {
                                Some(parent) => is_member(cx, parent as nat, k),
                                None => true,
                            });
                        }
                        filter_failure_found(cx, rel, filter_errors, lo, hi);
                    }
                }
                assert forall|row: int| !mask.has(row) implies #[trigger] lifted.at(
                    row,
                ) is None by {
                    if 0 <= row < cx.batch.row_count {
                        owned_rows(cx, rel, row);
                        let (lo, hi) = (cx.first_of(rel, row), cx.end_of(rel, row));
                        assert forall|k: int| lo <= k < hi implies #[trigger] filter_errors.at(
                            k,
                        ) is None by {
                            assert(cx.owner(rel, k) == row);
                            assert(!reached_members.has(k));
                        }
                        no_first_error(filter_errors, lo, hi);
                    }
                }
            }
            root_errors.absorb(lifted);
            let passing = holding_rows(&holds, &live);
            members = self.without_failed_roots(relation, &passing, &root_errors);
            proof {
                assert forall|k: int| #[trigger] members.has(k) <==> reached(cx, rel, mask, k) by {
                    assert(reached_members.has(k) == reached_members.has(k));
                    if reached_members.has(k) {
                        assert(live.has(k) <==> related_outcome(cx, 0, 0, rel, *filter, k) is Ok);
                        assert(passing.has(k) == passing.has(k));
                    }
                    let row = cx.owner(rel, k);
                    assert(root_errors.at(row) == match parent_errors.at(row) {
                        Some(error) => Some(error),
                        None => lifted.at(row),
                    });
                    if reached(cx, rel, mask, k) {
                        assert(reached_members.has(k));
                    }
                    if members.has(k) {
                        assert(passing.has(k));
                        assert(live.has(k));
                        assert(reached_members.has(k));
                    }
                }
            }
        } else {
            proof {
                assert forall|row: int| mask.has(row) implies filter_failure(
                    cx,
                    rel,
                    cx.first_of(rel, row),
                    #[trigger] cx.end_of(rel, row),
                ) is None by {
                    no_filter_failure(cx, rel, cx.first_of(rel, row), cx.end_of(rel, row));
                }
                assert forall|row: int| mask.has(row) implies #[trigger] root_errors.at(row)
                    == member_failure(cx, rel, row) by {
                    assert(filter_failure(
                        cx,
                        rel,
                        cx.first_of(rel, row),
                        cx.end_of(rel, row),
                    ) is None);
                }
                assert forall|k: int| #[trigger] members.has(k) <==> reached(cx, rel, mask, k) by {
                    let row = cx.owner(rel, k);
                    assert(root_errors.at(row) == root_errors.at(row));
                }
            }
        }
        Ok((members, root_errors))
    }

    /// The members of a relation of the root rows of `mask` that pass the `where`
    /// clause, the clause's errors on related rows, and the errors of finding the
    /// members on root rows.
    fn filtered_members(
        &mut self,
        relation: usize,
        predicate: &Option<Box<CompiledRelatedJudgmentExpr>>,
        mask: &RowMask,
        Ghost(bound): Ghost<nat>,
        Ghost(level): Ghost<nat>,
        Ghost(whole): Ghost<CompiledScalarExpr>,
    ) -> (r: Result<(RowMask, RowErrors, RowErrors, Ghost<RowMask>), EvalError>)
        requires
            old(self).ready(),
            bound <= old(self).facts().program.derived@.len(),
            level >= 2,
            relation < old(self).facts().batch.relations.len(),
            mask@.len() == old(self).facts().batch.row_count,
            aggregates(whole, relation, *predicate),
            *predicate matches Some(w) ==> related_judgment_fits(
                old(self).facts().program,
                bound,
                level,
                relation as nat,
                *w,
            ),
        ensures
            final(self).ready(),
            final(self).facts() == old(self).facts(),
            match r {
                Ok((kept, where_errors, root_errors, members)) => {
                    let cx = old(self).facts();
                    &&& keeping_work(cx, bound, level, whole, rows_of(*mask), old(self).worked())
                        == Some(final(self).worked())
                    &&& members_are(cx, relation as nat, *mask, members@, root_errors)
                    &&& kept@.len() == members@@.len()
                    &&& forall|k: int| #[trigger]
                        kept.has(k) <==> members@.has(k) && kept_test(cx, bound, level, whole, k)
                            == Ok::<bool, ErrorView>(true)
                    &&& forall|k: int| #[trigger]
                        where_errors.at(k) == match kept_test(cx, bound, level, whole, k) {
                            Err(error) if members@.has(k) => Some(error),
                            _ => None,
                        }
                },
                Err(error) => error@ == mixed_branches() && !(relation_typed(
                    old(self).facts(),
                    relation as nat,
                ) && match *predicate {
                    Some(w) => related_typed(
                        old(self).facts(),
                        bound,
                        level,
                        relation as nat,
                        *w,
                    ),
                    None => true,
                }) && keeping_work(
                    old(self).facts(),
                    bound,
                    level,
                    whole,
                    rows_of(*mask),
                    old(self).worked(),
                ) is None,
            },
        decreases bound, level, whole, 0int,
    {
        let ghost cx = self.facts();
        let candidates = self.related_rows_of(relation, mask);
        let (members, root_errors) = match self.relation_members(
            relation,
            &candidates,
            Ghost(*mask),
        ) {
            Ok(part) => part,
            Err(error) => return Err(error),
        };
        assert(rows_of(members) =~= member_rows(cx, relation as nat, rows_of(*mask)));
        match predicate {
            None => {
                let kept = members.duplicate();
                proof {
                    assert forall|k: int| #[trigger] kept.has(k) <==> members.has(k) by {}
                }
                Ok((kept, RowErrors::new(), root_errors, Ghost(members)))
            },
            Some(predicate) => {
                let (holds, where_errors) = match self.eval_related_predicate(
                    relation,
                    predicate,
                    &members,
                    Ghost(bound),
                    Ghost(level),
                ) {
                    Ok(part) => part,
                    Err(error) => return Err(error),
                };
                let live = members.without(&where_errors);
                let kept = holding_rows(&holds, &live);
                proof {
                    assert forall|k: int| #[trigger] kept.has(k) <==> members.has(k) && kept_test(
                        cx,
                        bound,
                        level,
                        whole,
                        k,
                    ) == Ok::<bool, ErrorView>(true) by {
                        assert(live.has(k) <==> members.has(k) && !where_errors.failed(k));
                    }
                }
                Ok((kept, where_errors, root_errors, Ghost(members)))
            },
        }
    }

    /// The number of members that the `where` clause keeps.
    fn eval_count_related(
        &mut self,
        relation: usize,
        predicate: &Option<Box<CompiledRelatedJudgmentExpr>>,
        mask: &RowMask,
        Ghost(bound): Ghost<nat>,
        Ghost(level): Ghost<nat>,
        Ghost(whole): Ghost<CompiledScalarExpr>,
    ) -> (r: Result<(DenseColumn, RowErrors), EvalError>)
        requires
            old(self).ready(),
            bound <= old(self).facts().program.derived@.len(),
            mask@.len() == old(self).facts().batch.row_count,
            whole == (CompiledScalarExpr::CountRelated { relation, predicate: *predicate }),
            scalar_fits(old(self).facts().program, bound, level, whole),
        ensures
            final(self).ready(),
            final(self).facts() == old(self).facts(),
            evaluated(
                r,
                *mask,
                |row: int| root_step(old(self).facts(), bound, level, whole, row),
                root_kind_step(old(self).facts(), bound, level, whole),
                root_work_step(
                    old(self).facts(),
                    bound,
                    level,
                    whole,
                    rows_of(*mask),
                    old(self).worked(),
                ),
                final(self).worked(),
            ),
        decreases bound, level, whole, 1int,
    {
        let ghost cx = self.facts();
        let ghost rel = relation as nat;
        let (kept, where_errors, mut errors, members) = match self.filtered_members(
            relation,
            predicate,
            mask,
            Ghost(bound),
            Ghost(level),
            Ghost(whole),
        ) {
            Ok(part) => part,
            Err(error) => return Err(error),
        };
        let ghost members = members@;
        let ghost e0 = errors;
        let lifted = self.lift_errors(relation, &where_errors);
        errors.absorb(lifted);
        let batch = &self.batch.relations[relation];
        assert(cx.batch.relations[relation as int] == batch@);
        assert(batch.owners_known(cx.batch.row_count));
        let mut counts: Vec<u64> = repeated(0u64, self.batch.row_count);
        let mut k: usize = 0;
        proof {
            assert forall|row: int| 0 <= row < cx.batch.row_count implies within(
                cx,
                rel,
                row,
                0,
            ) == cx.first_of(rel, row) by {
                owned_rows(cx, rel, row);
            }
        }
        while k < batch.related_count
            invariant
                k <= batch.related_count,
                rel == relation as nat,
                cx.bound_well(),
                rel < cx.batch.relations.len(),
                batch@ == cx.batch.relations[rel as int],
                batch.owners_known(cx.batch.row_count),
                counts@.len() == cx.batch.row_count,
                forall|row: int|
                    0 <= row < counts@.len() ==> #[trigger] counts@[row] <= k && counts@[row]
                        == marked(kept, cx.first_of(rel, row), within(cx, rel, row, k as int)),
            decreases batch.related_count - k,
        {
            let ghost before = counts@;
            let owner = batch.owners[k];
            proof {
                owner_holds(cx, rel, k as int);
            }
            if kept.contains(k) {
                counts.set(owner, counts[owner] + 1);
            }
            proof {
                assert forall|row: int| 0 <= row < counts@.len() implies #[trigger] counts@[row]
                    <= k + 1 && counts@[row] == marked(
                    kept,
                    cx.first_of(rel, row),
                    within(cx, rel, row, k + 1),
                ) by {
                    assert(before[row] == marked(
                        kept,
                        cx.first_of(rel, row),
                        within(cx, rel, row, k as int),
                    ));
                    owned_rows(cx, rel, row);
                    assert(cx.owner(rel, k as int) == owner);
                }
            }
            k = k + 1;
        }
        let mut values: Vec<i64> = Vec::new();
        let mut row: usize = 0;
        while row < counts.len()
            invariant
                row <= counts@.len(),
                values@.len() == row,
                forall|i: int|
                    0 <= i < row ==> #[trigger] values@[i] == capped(counts@[i] as nat),
            decreases counts@.len() - row,
        {
            let count = counts[row];
            let value: i64 = if count <= i64::MAX as u64 {
                count as i64
            } else {
                i64::MAX
            };
            values.push(value);
            row = row + 1;
        }
        let column = DenseColumn::Integer(values);
        proof {
            assert forall|row: int| #[trigger] mask.has(row) implies match root_step(
                cx,
                bound,
                level,
                whole,
                row,
            ) {
                Ok(value) => errors.at(row) is None && column.cell(row) == value,
                Err(error) => errors.at(row) == Some(error),
            } by {
                owned_rows(cx, rel, row);
                let (lo, hi) = (cx.first_of(rel, row), cx.end_of(rel, row));
                assert(within(cx, rel, row, k as int) == hi);
                assert(e0.at(row) == member_failure(cx, rel, row));
                if member_failure(cx, rel, row) is None {
                    assert forall|k: int| lo <= k < hi implies #[trigger] where_errors.at(k) == if
                        is_member(cx, relation_of(whole), k) {
                        member_error(cx, bound, level, whole, k)
                    } else {
                        None
                    } by {
                        assert(cx.owner(rel, k) == row);
                        assert(members.has(k) <==> is_member(cx, rel, k));
                    }
                    kept_failure_found(cx, bound, level, whole, where_errors, lo, hi);
                    assert forall|k: int| lo <= k < hi implies (#[trigger] kept.has(k)
                        <==> is_member(cx, relation_of(whole), k) && kept_test(
                        cx,
                        bound,
                        level,
                        whole,
                        k,
                    ) == Ok::<bool, ErrorView>(true)) by {
                        assert(cx.owner(rel, k) == row);
                        assert(members.has(k) <==> is_member(cx, rel, k));
                    }
                    marked_is_kept(cx, bound, level, whole, kept, lo, hi);
                    assert(counts@[row] == marked(kept, lo, hi));
                }
            }
            assert forall|row: int| #![trigger errors.at(row)] !mask.has(row) implies errors.at(
                row,
            ) is None by {
                assert(e0.at(row) is None);
                if 0 <= row < cx.batch.row_count {
                    owned_rows(cx, rel, row);
                    let (lo, hi) = (cx.first_of(rel, row), cx.end_of(rel, row));
                    assert forall|k: int| lo <= k < hi implies #[trigger] where_errors.at(
                        k,
                    ) is None by {
                        assert(cx.owner(rel, k) == row);
                        assert(!members.has(k));
                    }
                    no_first_error(where_errors, lo, hi);
                }
            }
        }
        Ok((column, errors))
    }

    /// The sum over the members that the `where` clause keeps. For each member the
    /// clause comes before the summed value, so that a value is never read of a
    /// member that the clause excludes.
    fn eval_sum_related(
        &mut self,
        relation: usize,
        value: &Box<CompiledRelatedScalarExpr>,
        predicate: &Option<Box<CompiledRelatedJudgmentExpr>>,
        mask: &RowMask,
        Ghost(bound): Ghost<nat>,
        Ghost(level): Ghost<nat>,
        Ghost(whole): Ghost<CompiledScalarExpr>,
    ) -> (r: Result<(DenseColumn, RowErrors), EvalError>)
        requires
            old(self).ready(),
            bound <= old(self).facts().program.derived@.len(),
            mask@.len() == old(self).facts().batch.row_count,
            whole == (CompiledScalarExpr::SumRelated {
                relation,
                value: *value,
                predicate: *predicate,
            }),
            scalar_fits(old(self).facts().program, bound, level, whole),
        ensures
            final(self).ready(),
            final(self).facts() == old(self).facts(),
            evaluated(
                r,
                *mask,
                |row: int| root_step(old(self).facts(), bound, level, whole, row),
                root_kind_step(old(self).facts(), bound, level, whole),
                root_work_step(
                    old(self).facts(),
                    bound,
                    level,
                    whole,
                    rows_of(*mask),
                    old(self).worked(),
                ),
                final(self).worked(),
            ),
        decreases bound, level, whole, 1int,
    {
        let ghost cx = self.facts();
        let ghost rel = relation as nat;
        let (kept, where_errors, mut errors, members) = match self.filtered_members(
            relation,
            predicate,
            mask,
            Ghost(bound),
            Ghost(level),
            Ghost(whole),
        ) {
            Ok(part) => part,
            Err(error) => return Err(error),
        };
        let ghost members = members@;
        let ghost e0 = errors;
        assert(rows_of(kept) =~= kept_rows(cx, bound, level, whole, rows_of(*mask)));
        let (values, mut value_errors) = match self.resolve_related_scalar(
            relation,
            value,
            &kept,
            Ghost(bound),
            Ghost(level),
        ) {
            Ok(part) => part,
            Err(error) => return Err(error),
        };
        let ghost f = |k: int| related_cell(cx, bound, level, rel, **value, k);
        let (numbers, live) = numeric_operand(&values, &mut value_errors, &kept, Ghost(f));
        let mut related_errors = where_errors;
        related_errors.absorb(value_errors);
        let lifted = self.lift_errors(relation, &related_errors);
        errors.absorb(lifted);
        let batch = &self.batch.relations[relation];
        assert(cx.batch.relations[relation as int] == batch@);
        assert(batch.owners_known(cx.batch.row_count));
        let mut totals: Vec<Decimal> = repeated(Decimal::zero(), self.batch.row_count);
        let mut overflow = RowErrors::new();
        let ghost reached_errors = errors;
        proof {
            assert forall|row: int| 0 <= row < cx.batch.row_count implies within(
                cx,
                rel,
                row,
                0,
            ) == cx.first_of(rel, row) by {
                owned_rows(cx, rel, row);
            }
            assert forall|row: int| #[trigger] mask.has(row) implies errors.at(row)
                == match member_failure(cx, rel, row) {
                Some(error) => Some(error),
                None => kept_failure(
                    cx,
                    bound,
                    level,
                    whole,
                    cx.first_of(rel, row),
                    cx.end_of(rel, row),
                ),
            } by {
                owned_rows(cx, rel, row);
                let (lo, hi) = (cx.first_of(rel, row), cx.end_of(rel, row));
                assert(e0.at(row) == member_failure(cx, rel, row));
                if member_failure(cx, rel, row) is None {
                    assert forall|k: int| lo <= k < hi implies #[trigger] related_errors.at(k) == if
                        is_member(cx, relation_of(whole), k) {
                        member_error(cx, bound, level, whole, k)
                    } else {
                        None
                    } by {
                        assert(cx.owner(rel, k) == row);
                        assert(members.has(k) <==> is_member(cx, rel, k));
                        assert(kept.has(k) == kept.has(k));
                        assert(where_errors.at(k) == where_errors.at(k));
                        assert(value_errors.at(k) == value_errors.at(k));
                        if kept.has(k) {
                            assert(kept_number(cx, bound, level, whole, k) == numbered(f(k)));
                        }
                    }
                    kept_failure_found(cx, bound, level, whole, related_errors, lo, hi);
                }
            }
            assert forall|row: int| #![trigger errors.at(row)] !mask.has(row) implies errors.at(
                row,
            ) is None by {
                assert(e0.at(row) is None);
                if 0 <= row < cx.batch.row_count {
                    owned_rows(cx, rel, row);
                    let (lo, hi) = (cx.first_of(rel, row), cx.end_of(rel, row));
                    assert forall|k: int| lo <= k < hi implies #[trigger] related_errors.at(
                        k,
                    ) is None by {
                        assert(cx.owner(rel, k) == row);
                        assert(!members.has(k));
                        assert(!kept.has(k));
                        assert(where_errors.at(k) is None);
                        assert(value_errors.at(k) is None);
                    }
                    no_first_error(related_errors, lo, hi);
                }
            }
            assert forall|k: int| 0 <= k < batch.related_count && mask.has(cx.owner(rel, k))
                && errors.at(cx.owner(rel, k)) is None implies (#[trigger] live.has(k)
                <==> is_member(cx, rel, k) && kept_test(cx, bound, level, whole, k) == Ok::<
                bool,
                ErrorView,
            >(true)) && (live.has(k) ==> kept_number(cx, bound, level, whole, k) == Ok::<
                Decimal,
                ErrorView,
            >(numbers@[k])) by {
                let row = cx.owner(rel, k);
                assert(mask.has(row));
                owned_rows(cx, rel, row);
                assert(members.has(k) <==> is_member(cx, rel, k));
                assert(kept.has(k) == kept.has(k));
                if kept.has(k) {
                    assert(kept_number(cx, bound, level, whole, k) == numbered(f(k)));
                    if numbered(f(k)) is Err {
                        kept_failure_at(
                            cx,
                            bound,
                            level,
                            whole,
                            cx.first_of(rel, row),
                            cx.end_of(rel, row),
                            k,
                        );
                    }
                }
            }
        }
        let mut k: usize = 0;
        while k < batch.related_count
            invariant
                k <= batch.related_count,
                rel == relation as nat,
                rel == relation_of(whole),
                level >= 2,
                cx.bound_well(),
                rel < cx.batch.relations.len(),
                batch@ == cx.batch.relations[rel as int],
                batch.owners_known(cx.batch.row_count),
                totals@.len() == cx.batch.row_count,
                numbers@.len() == batch.related_count,
                mask@.len() == cx.batch.row_count,
                live@.len() == batch.related_count,
                forall|row: int| #[trigger] mask.has(row) && errors.at(row) is None ==> {
                    match kept_total(
                        cx,
                        bound,
                        level,
                        whole,
                        cx.first_of(rel, row),
                        within(cx, rel, row, k as int),
                    ) {
                        Ok(total) => totals@[row] == total && overflow.at(row) is None,
                        Err(error) => overflow.at(row) == Some(error),
                    }
                },
                forall|row: int| #![trigger overflow.at(row)]
                    overflow.at(row) is Some ==> mask.has(row) && errors.at(row) is None,
                forall|j: int| #[trigger] live.has(j) ==> mask.has(cx.owner(rel, j)),
                forall|j: int|
                    0 <= j < batch.related_count && mask.has(cx.owner(rel, j)) && errors.at(
                        cx.owner(rel, j),
                    ) is None ==> (#[trigger] live.has(j) <==> is_member(cx, rel, j) && kept_test(
                        cx,
                        bound,
                        level,
                        whole,
                        j,
                    ) == Ok::<bool, ErrorView>(true)) && (live.has(j) ==> kept_number(
                        cx,
                        bound,
                        level,
                        whole,
                        j,
                    ) == Ok::<Decimal, ErrorView>(numbers@[j])),
            decreases batch.related_count - k,
        {
            let ghost t0 = totals@;
            let ghost o0 = overflow;
            let owner = batch.owners[k];
            proof {
                owner_holds(cx, rel, k as int);
            }
            assert(cx.owner(rel, k as int) == owner);
            if live.contains(k) && !errors.contains(owner) && !overflow.contains(owner) {
                match checked_add(totals[owner], numbers[k]) {
                    Ok(total) => {
                        totals.set(owner, total);
                    },
                    Err(error) => {
                        overflow.record(owner, error);
                    },
                }
            }
            proof {
                assert forall|row: int| #[trigger] mask.has(row) && errors.at(row) is None implies
                    match kept_total(
                    cx,
                    bound,
                    level,
                    whole,
                    cx.first_of(rel, row),
                    within(cx, rel, row, k + 1),
                ) {
                    Ok(total) => totals@[row] == total && overflow.at(row) is None,
                    Err(error) => overflow.at(row) == Some(error),
                } by {
                    owned_rows(cx, rel, row);
                    assert(o0.at(row) == o0.at(row));
                    if row == owner {
                        assert(within(cx, rel, row, k + 1) == k + 1);
                        assert(within(cx, rel, row, k as int) == k);
                        assert(live.has(k as int) == live.has(k as int));
                    } else {
                        assert(within(cx, rel, row, k + 1) == within(cx, rel, row, k as int));
                    }
                }
            }
            k = k + 1;
        }
        errors.absorb(overflow);
        let column = DenseColumn::Decimal(totals);
        proof {
            assert forall|row: int| #[trigger] mask.has(row) implies match root_step(
                cx,
                bound,
                level,
                whole,
                row,
            ) {
                Ok(value) => errors.at(row) is None && column.cell(row) == value,
                Err(error) => errors.at(row) == Some(error),
            } by {
                owned_rows(cx, rel, row);
                assert(within(cx, rel, row, k as int) == cx.end_of(rel, row));
                assert(reached_errors.at(row) == reached_errors.at(row));
            }
            assert forall|row: int| #![trigger errors.at(row)] !mask.has(row) implies errors.at(
                row,
            ) is None by {
                assert(reached_errors.at(row) is None);
                assert(overflow.at(row) is None);
            }
        }
        Ok((column, errors))
    }

    /// The outcome of a test for the related rows of `mask`.
    pub(crate) fn eval_related_predicate(
        &mut self,
        relation: usize,
        expr: &CompiledRelatedJudgmentExpr,
        mask: &RowMask,
        Ghost(bound): Ghost<nat>,
        Ghost(level): Ghost<nat>,
    ) -> (r: Result<(Vec<JudgmentOutcome>, RowErrors), EvalError>)
        requires
            old(self).ready(),
            bound <= old(self).facts().program.derived@.len(),
            relation < old(self).facts().batch.relations.len(),
            mask@.len() == old(self).facts().batch.relations[relation as int].related_count,
            related_judgment_fits(
                old(self).facts().program,
                bound,
                level,
                relation as nat,
                *expr,
            ),
        ensures
            final(self).ready(),
            final(self).facts() == old(self).facts(),
            assessed(
                r,
                *mask,
                |k: int|
                    related_outcome(old(self).facts(), bound, level, relation as nat, *expr, k),
                related_typed(old(self).facts(), bound, level, relation as nat, *expr),
                related_judgment_work(
                    old(self).facts(),
                    bound,
                    level,
                    relation as nat,
                    *expr,
                    rows_of(*mask),
                    old(self).worked(),
                ),
                final(self).worked(),
            ),
        decreases bound, level, *expr, 2int,
    {
        let ghost cx = self.facts();
        let ghost rel = relation as nat;
        proof {
            related_outcome_is_step(cx, bound, level, rel, *expr);
        }
        match expr {
            CompiledRelatedJudgmentExpr::Literal(value) => Ok(
                (repeated(JudgmentOutcome::from_bool(*value), mask.len()), RowErrors::new()),
            ),
            CompiledRelatedJudgmentExpr::Comparison { left, op, right } => self.related_comparison(
                relation,
                left,
                *op,
                right,
                mask,
                Ghost(bound),
                Ghost(level),
                Ghost(*expr),
            ),
            CompiledRelatedJudgmentExpr::RootJudgment(judgment) => self.related_root_judgment(
                relation,
                judgment,
                mask,
                Ghost(bound),
                Ghost(level),
                Ghost(*expr),
            ),
            CompiledRelatedJudgmentExpr::And(items) => self.related_short_circuit(
                relation,
                items,
                JudgmentOutcome::NotHolds,
                mask,
                Ghost(bound),
                Ghost(level),
                Ghost(*expr),
            ),
            CompiledRelatedJudgmentExpr::Or(items) => self.related_short_circuit(
                relation,
                items,
                JudgmentOutcome::Holds,
                mask,
                Ghost(bound),
                Ghost(level),
                Ghost(*expr),
            ),
            CompiledRelatedJudgmentExpr::Not(item) => {
                match self.eval_related_predicate(
                    relation,
                    item,
                    mask,
                    Ghost(bound),
                    Ghost(level),
                ) {
                    Ok((values, errors)) => Ok((negate(values), errors)),
                    Err(error) => Err(error),
                }
            },
        }
    }

    /// A judgment on the root rows, for the related rows that they own.
    fn related_root_judgment(
        &mut self,
        relation: usize,
        judgment: &CompiledJudgmentExpr,
        mask: &RowMask,
        Ghost(bound): Ghost<nat>,
        Ghost(level): Ghost<nat>,
        Ghost(whole): Ghost<CompiledRelatedJudgmentExpr>,
    ) -> (r: Result<(Vec<JudgmentOutcome>, RowErrors), EvalError>)
        requires
            old(self).ready(),
            bound <= old(self).facts().program.derived@.len(),
            relation < old(self).facts().batch.relations.len(),
            mask@.len() == old(self).facts().batch.relations[relation as int].related_count,
            judgment_fits(old(self).facts().program, bound, level, *judgment),
            decreases_to!(whole => *judgment),
        ensures
            final(self).ready(),
            final(self).facts() == old(self).facts(),
            assessed(
                r,
                *mask,
                |k: int|
                    match root_outcome(
                        old(self).facts(),
                        bound,
                        level,
                        *judgment,
                        old(self).facts().owner(relation as nat, k),
                    ) {
                        Ok(o) => Ok(JudgmentOutcome::of_bool(o is Holds)),
                        Err(error) => Err(error),
                    },
                root_typed(old(self).facts(), bound, level, *judgment),
                root_judgment_work(
                    old(self).facts(),
                    bound,
                    level,
                    *judgment,
                    owners_of(old(self).facts(), relation as nat, rows_of(*mask)),
                    old(self).worked(),
                ),
                final(self).worked(),
            ),
        decreases bound, level, whole, 1int,
    {
        let ghost cx = self.facts();
        let ghost rel = relation as nat;
        let ghost b = cx.batch.relations[relation as int];
        assert(b.well_formed(cx.batch.row_count));
        let roots = self.root_rows_of(relation, mask);
        proof {
            owners_found(cx, rel, roots, *mask);
        }
        let (values, root_errors) = match self.eval_judgment_expr(
            judgment,
            &roots,
            Ghost(bound),
            Ghost(level),
        ) {
            Ok(part) => part,
            Err(error) => return Err(error),
        };
        let projected = match project_root_judgment_to_related(
            &values,
            &self.batch.relations[relation].offsets,
        ) {
            Ok(projected) => projected,
            Err(error) => return Err(error),
        };
        let errors = self.lower_errors(relation, &root_errors, mask);
        let mut outcomes: Vec<JudgmentOutcome> = Vec::new();
        let mut k: usize = 0;
        while k < projected.len()
            invariant
                k <= projected@.len(),
                outcomes@.len() == k,
                forall|j: int|
                    0 <= j < k ==> #[trigger] outcomes@[j] == JudgmentOutcome::of_bool(
                        projected@[j],
                    ),
            decreases projected@.len() - k,
        {
            outcomes.push(JudgmentOutcome::from_bool(projected[k]));
            k = k + 1;
        }
        proof {
            assert forall|k: int| #[trigger] mask.has(k) implies match root_outcome(
                cx,
                bound,
                level,
                *judgment,
                cx.owner(rel, k),
            ) {
                Ok(o) => errors.at(k) is None && outcomes@[k] == JudgmentOutcome::of_bool(
                    o is Holds,
                ),
                Err(error) => errors.at(k) == Some(error),
            } by {
                let row = cx.owner(rel, k);
                owner_holds(cx, rel, k);
                assert(roots.has(row));
                assert(b.offsets[row] <= k < b.offsets[row + 1]);
                assert(values@[row] == values@[row]);
                assert(projected@[k] == (values@[row] is Holds));
            }
        }
        Ok((outcomes, errors))
    }

    /// A formula on the root rows, for the related rows that they own.
    fn related_root_scalar(
        &mut self,
        relation: usize,
        scalar: &CompiledScalarExpr,
        mask: &RowMask,
        Ghost(bound): Ghost<nat>,
        Ghost(level): Ghost<nat>,
        Ghost(whole): Ghost<CompiledRelatedScalarExpr>,
    ) -> (r: Result<(DenseColumn, RowErrors), EvalError>)
        requires
            old(self).ready(),
            bound <= old(self).facts().program.derived@.len(),
            relation < old(self).facts().batch.relations.len(),
            mask@.len() == old(self).facts().batch.relations[relation as int].related_count,
            scalar_fits(old(self).facts().program, bound, level, *scalar),
            decreases_to!(whole => *scalar),
        ensures
            final(self).ready(),
            final(self).facts() == old(self).facts(),
            evaluated(
                r,
                *mask,
                |k: int|
                    root_cell(
                        old(self).facts(),
                        bound,
                        level,
                        *scalar,
                        old(self).facts().owner(relation as nat, k),
                    ),
                root_kind(old(self).facts(), bound, level, *scalar),
                root_work(
                    old(self).facts(),
                    bound,
                    level,
                    *scalar,
                    owners_of(old(self).facts(), relation as nat, rows_of(*mask)),
                    old(self).worked(),
                ),
                final(self).worked(),
            ),
        decreases bound, level, whole, 1int,
    {
        let ghost cx = self.facts();
        let ghost rel = relation as nat;
        let ghost b = cx.batch.relations[relation as int];
        assert(b.well_formed(cx.batch.row_count));
        let roots = self.root_rows_of(relation, mask);
        proof {
            owners_found(cx, rel, roots, *mask);
        }
        let (values, root_errors) = match self.eval_scalar_expr(
            scalar,
            &roots,
            Ghost(bound),
            Ghost(level),
        ) {
            Ok(part) => part,
            Err(error) => return Err(error),
        };
        let projected = match project_root_column_to_related(
            &values,
            &self.batch.relations[relation].offsets,
        ) {
            Ok(projected) => projected,
            Err(error) => return Err(error),
        };
        let errors = self.lower_errors(relation, &root_errors, mask);
        proof {
            assert forall|k: int| #[trigger] mask.has(k) implies match root_cell(
                cx,
                bound,
                level,
                *scalar,
                cx.owner(rel, k),
            ) {
                Ok(value) => errors.at(k) is None && projected.cell(k) == value,
                Err(error) => errors.at(k) == Some(error),
            } by {
                let row = cx.owner(rel, k);
                owner_holds(cx, rel, k);
                assert(roots.has(row));
                assert(b.offsets[row] <= k < b.offsets[row + 1]);
                assert(projected.cell(k) == values.cell(row));
            }
        }
        Ok((projected, errors))
    }

    /// The values of a formula for the related rows of `mask`.
    pub(crate) fn resolve_related_scalar(
        &mut self,
        relation: usize,
        expr: &CompiledRelatedScalarExpr,
        mask: &RowMask,
        Ghost(bound): Ghost<nat>,
        Ghost(level): Ghost<nat>,
    ) -> (r: Result<(DenseColumn, RowErrors), EvalError>)
        requires
            old(self).ready(),
            bound <= old(self).facts().program.derived@.len(),
            relation < old(self).facts().batch.relations.len(),
            mask@.len() == old(self).facts().batch.relations[relation as int].related_count,
            related_scalar_fits(old(self).facts().program, bound, level, relation as nat, *expr),
        ensures
            final(self).ready(),
            final(self).facts() == old(self).facts(),
            evaluated(
                r,
                *mask,
                |k: int| related_cell(old(self).facts(), bound, level, relation as nat, *expr, k),
                related_kind(old(self).facts(), bound, level, relation as nat, *expr),
                related_work(
                    old(self).facts(),
                    bound,
                    level,
                    relation as nat,
                    *expr,
                    rows_of(*mask),
                    old(self).worked(),
                ),
                final(self).worked(),
            ),
        decreases bound, level, *expr, 2int,
    {
        let ghost cx = self.facts();
        let ghost rel = relation as nat;
        let len = mask.len();
        proof {
            related_is_step(cx, bound, level, rel, *expr);
            assert(cx.batch.relations[relation as int].well_formed(cx.batch.row_count));
        }
        match expr {
            CompiledRelatedScalarExpr::Literal(value) => Ok(
                (broadcast_scalar_literal(value, len), RowErrors::new()),
            ),
            CompiledRelatedScalarExpr::Input(index) => Ok(
                match &self.batch.relations[relation].inputs[*index] {
                    Some(column) => (column.duplicate(), RowErrors::new()),
                    None => {
                        let schema = &self.program.relations[relation];
                        fail_numeric(
                            mask,
                            EvalError::MissingInput {
                                name: schema.related_inputs[*index].clone(),
                                entity_id: schema.key.name.clone(),
                                period_start: self.start,
                                period_end: self.end,
                            },
                        )
                    },
                },
            ),
            CompiledRelatedScalarExpr::InputOrElse { input, default } => Ok(
                (
                    match &self.batch.relations[relation].inputs[*input] {
                        Some(column) => column.duplicate(),
                        None => broadcast_scalar_literal(default, len),
                    },
                    RowErrors::new(),
                ),
            ),
            CompiledRelatedScalarExpr::RootScalar(scalar) => self.related_root_scalar(
                relation,
                scalar,
                mask,
                Ghost(bound),
                Ghost(level),
                Ghost(*expr),
            ),
            CompiledRelatedScalarExpr::ParameterLookup { parameter, index } => {
                match self.resolve_related_scalar(
                    relation,
                    index,
                    mask,
                    Ghost(bound),
                    Ghost(level),
                ) {
                    Ok(keys) => Ok(
                        lookup_parameter_dense(
                            &self.program.parameters[*parameter].parameter,
                            keys,
                            mask,
                            self.start,
                            Ghost(|k: int| related_cell(cx, bound, level, rel, **index, k)),
                        ),
                    ),
                    Err(error) => Err(error),
                }
            },
            CompiledRelatedScalarExpr::Add(items) => self.related_add(
                relation,
                items,
                mask,
                Ghost(bound),
                Ghost(level),
                Ghost(*expr),
            ),
            CompiledRelatedScalarExpr::Sub(left, right) => self.related_binary(
                relation,
                BinaryOp::Sub,
                left,
                right,
                mask,
                Ghost(bound),
                Ghost(level),
                Ghost(*expr),
            ),
            CompiledRelatedScalarExpr::Mul(left, right) => self.related_binary(
                relation,
                BinaryOp::Mul,
                left,
                right,
                mask,
                Ghost(bound),
                Ghost(level),
                Ghost(*expr),
            ),
            CompiledRelatedScalarExpr::Div(left, right) => self.related_division(
                relation,
                left,
                right,
                mask,
                Ghost(bound),
                Ghost(level),
                Ghost(*expr),
            ),
            CompiledRelatedScalarExpr::Max(items) => {
                if items.len() == 0 {
                    return Ok(
                        fail_numeric(
                            mask,
                            EvalError::TypeMismatch(owned("max() requires at least one operand")),
                        ),
                    );
                }
                self.related_extremum(
                    relation,
                    items,
                    true,
                    mask,
                    Ghost(bound),
                    Ghost(level),
                    Ghost(*expr),
                )
            },
            CompiledRelatedScalarExpr::Min(items) => {
                if items.len() == 0 {
                    return Ok(
                        fail_numeric(
                            mask,
                            EvalError::TypeMismatch(owned("min() requires at least one operand")),
                        ),
                    );
                }
                self.related_extremum(
                    relation,
                    items,
                    false,
                    mask,
                    Ghost(bound),
                    Ghost(level),
                    Ghost(*expr),
                )
            },
            CompiledRelatedScalarExpr::Ceil(value) => self.related_integral(
                relation,
                true,
                value,
                mask,
                Ghost(bound),
                Ghost(level),
                Ghost(*expr),
            ),
            CompiledRelatedScalarExpr::Floor(value) => self.related_integral(
                relation,
                false,
                value,
                mask,
                Ghost(bound),
                Ghost(level),
                Ghost(*expr),
            ),
            CompiledRelatedScalarExpr::PeriodStart => Ok(
                (DenseColumn::Date(repeated(self.start, len)), RowErrors::new()),
            ),
            CompiledRelatedScalarExpr::PeriodEnd => Ok(
                (DenseColumn::Date(repeated(self.end, len)), RowErrors::new()),
            ),
            CompiledRelatedScalarExpr::DateShift { unit, date, count } => self.related_date_shift(
                relation,
                *unit,
                date,
                count,
                mask,
                Ghost(bound),
                Ghost(level),
                Ghost(*expr),
            ),
            CompiledRelatedScalarExpr::DaysBetween { from, to } => self.related_days_between(
                relation,
                from,
                to,
                mask,
                Ghost(bound),
                Ghost(level),
                Ghost(*expr),
            ),
            CompiledRelatedScalarExpr::If { condition, then_expr, else_expr } => self.related_choice(
                relation,
                condition,
                then_expr,
                else_expr,
                mask,
                Ghost(bound),
                Ghost(level),
                Ghost(*expr),
            ),
            CompiledRelatedScalarExpr::NoMatch { subject, placeholder, labels } => self.related_no_match(
                relation,
                subject,
                placeholder,
                labels,
                mask,
                Ghost(bound),
                Ghost(level),
                Ghost(*expr),
            ),
        }
    }

    /// The outcomes of a judgment for the rows of `mask`.
    pub(crate) fn eval_judgment_expr(
        &mut self,
        expr: &CompiledJudgmentExpr,
        mask: &RowMask,
        Ghost(bound): Ghost<nat>,
        Ghost(level): Ghost<nat>,
    ) -> (r: Result<(Vec<JudgmentOutcome>, RowErrors), EvalError>)
        requires
            old(self).ready(),
            bound <= old(self).facts().program.derived@.len(),
            mask@.len() == old(self).facts().batch.row_count,
            judgment_fits(old(self).facts().program, bound, level, *expr),
        ensures
            final(self).ready(),
            final(self).facts() == old(self).facts(),
            assessed(
                r,
                *mask,
                |row: int| root_outcome(old(self).facts(), bound, level, *expr, row),
                root_typed(old(self).facts(), bound, level, *expr),
                root_judgment_work(
                    old(self).facts(),
                    bound,
                    level,
                    *expr,
                    rows_of(*mask),
                    old(self).worked(),
                ),
                final(self).worked(),
            ),
        decreases bound, level, *expr, 2int,
    {
        let ghost cx = self.facts();
        proof {
            root_outcome_is_step(cx, bound, level, *expr);
        }
        match expr {
            CompiledJudgmentExpr::Comparison { left, op, right } => self.eval_comparison(
                left,
                *op,
                right,
                mask,
                Ghost(bound),
                Ghost(level),
                Ghost(*expr),
            ),
            CompiledJudgmentExpr::Derived(index) => self.evaluate_judgment(*index, mask),
            CompiledJudgmentExpr::And(items) => self.eval_short_circuit(
                items,
                JudgmentOutcome::NotHolds,
                mask,
                Ghost(bound),
                Ghost(level),
                Ghost(*expr),
            ),
            CompiledJudgmentExpr::Or(items) => self.eval_short_circuit(
                items,
                JudgmentOutcome::Holds,
                mask,
                Ghost(bound),
                Ghost(level),
                Ghost(*expr),
            ),
            CompiledJudgmentExpr::Not(item) => {
                match self.eval_judgment_expr(item, mask, Ghost(bound), Ghost(level)) {
                    Ok((values, errors)) => Ok((negate(values), errors)),
                    Err(error) => Err(error),
                }
            },
        }
    }

    /// The values of a formula for the rows of `mask`.
    pub(crate) fn eval_scalar_expr(
        &mut self,
        expr: &CompiledScalarExpr,
        mask: &RowMask,
        Ghost(bound): Ghost<nat>,
        Ghost(level): Ghost<nat>,
    ) -> (r: Result<(DenseColumn, RowErrors), EvalError>)
        requires
            old(self).ready(),
            bound <= old(self).facts().program.derived@.len(),
            mask@.len() == old(self).facts().batch.row_count,
            scalar_fits(old(self).facts().program, bound, level, *expr),
        ensures
            final(self).ready(),
            final(self).facts() == old(self).facts(),
            evaluated(
                r,
                *mask,
                |row: int| root_cell(old(self).facts(), bound, level, *expr, row),
                root_kind(old(self).facts(), bound, level, *expr),
                root_work(
                    old(self).facts(),
                    bound,
                    level,
                    *expr,
                    rows_of(*mask),
                    old(self).worked(),
                ),
                final(self).worked(),
            ),
        decreases bound, level, *expr, 2int,
    {
        let ghost cx = self.facts();
        let len = mask.len();
        proof {
            root_is_step(cx, bound, level, *expr);
        }
        match expr {
            CompiledScalarExpr::Literal(value) => Ok(
                (broadcast_scalar_literal(value, len), RowErrors::new()),
            ),
            CompiledScalarExpr::Input(index) => Ok(
                match &self.batch.inputs[*index] {
                    Some(column) => (column.duplicate(), RowErrors::new()),
                    None => fail_numeric(
                        mask,
                        EvalError::MissingInput {
                            name: self.program.root_inputs[*index].clone(),
                            entity_id: self.program.root_entity.clone(),
                            period_start: self.start,
                            period_end: self.end,
                        },
                    ),
                },
            ),
            CompiledScalarExpr::InputOrElse { input, default } => Ok(
                (
                    match &self.batch.inputs[*input] {
                        Some(column) => column.duplicate(),
                        None => broadcast_scalar_literal(default, len),
                    },
                    RowErrors::new(),
                ),
            ),
            CompiledScalarExpr::Derived(index) => self.evaluate_scalar(*index, mask),
            CompiledScalarExpr::ParameterLookup { parameter, index } => {
                match self.eval_scalar_expr(index, mask, Ghost(bound), Ghost(level)) {
                    Ok(keys) => Ok(
                        lookup_parameter_dense(
                            &self.program.parameters[*parameter].parameter,
                            keys,
                            mask,
                            self.start,
                            Ghost(|row: int| root_cell(cx, bound, level, **index, row)),
                        ),
                    ),
                    Err(error) => Err(error),
                }
            },
            CompiledScalarExpr::CountRelated { relation, predicate } => self.eval_count_related(
                *relation,
                predicate,
                mask,
                Ghost(bound),
                Ghost(level),
                Ghost(*expr),
            ),
            CompiledScalarExpr::SumRelated { relation, value, predicate } => self.eval_sum_related(
                *relation,
                value,
                predicate,
                mask,
                Ghost(bound),
                Ghost(level),
                Ghost(*expr),
            ),
            CompiledScalarExpr::Add(items) => self.eval_add(
                items,
                mask,
                Ghost(bound),
                Ghost(level),
                Ghost(*expr),
            ),
            CompiledScalarExpr::Sub(left, right) => self.eval_binary(
                BinaryOp::Sub,
                left,
                right,
                mask,
                Ghost(bound),
                Ghost(level),
                Ghost(*expr),
            ),
            CompiledScalarExpr::Mul(left, right) => self.eval_binary(
                BinaryOp::Mul,
                left,
                right,
                mask,
                Ghost(bound),
                Ghost(level),
                Ghost(*expr),
            ),
            CompiledScalarExpr::Div(left, right) => self.eval_division(
                left,
                right,
                mask,
                Ghost(bound),
                Ghost(level),
                Ghost(*expr),
            ),
            CompiledScalarExpr::Max(items) => {
                if items.len() == 0 {
                    return Ok(
                        fail_numeric(
                            mask,
                            EvalError::TypeMismatch(owned("max() requires at least one operand")),
                        ),
                    );
                }
                self.eval_extremum(items, true, mask, Ghost(bound), Ghost(level), Ghost(*expr))
            },
            CompiledScalarExpr::Min(items) => {
                if items.len() == 0 {
                    return Ok(
                        fail_numeric(
                            mask,
                            EvalError::TypeMismatch(owned("min() requires at least one operand")),
                        ),
                    );
                }
                self.eval_extremum(items, false, mask, Ghost(bound), Ghost(level), Ghost(*expr))
            },
            CompiledScalarExpr::Ceil(value) => self.eval_integral(
                true,
                value,
                mask,
                Ghost(bound),
                Ghost(level),
                Ghost(*expr),
            ),
            CompiledScalarExpr::Floor(value) => self.eval_integral(
                false,
                value,
                mask,
                Ghost(bound),
                Ghost(level),
                Ghost(*expr),
            ),
            CompiledScalarExpr::PeriodStart => Ok(
                (DenseColumn::Date(repeated(self.start, len)), RowErrors::new()),
            ),
            CompiledScalarExpr::PeriodEnd => Ok(
                (DenseColumn::Date(repeated(self.end, len)), RowErrors::new()),
            ),
            CompiledScalarExpr::DateShift { unit, date, count } => self.eval_date_shift(
                *unit,
                date,
                count,
                mask,
                Ghost(bound),
                Ghost(level),
                Ghost(*expr),
            ),
            CompiledScalarExpr::DaysBetween { from, to } => self.eval_days_between(
                from,
                to,
                mask,
                Ghost(bound),
                Ghost(level),
                Ghost(*expr),
            ),
            CompiledScalarExpr::If { condition, then_expr, else_expr } => self.eval_choice(
                condition,
                then_expr,
                else_expr,
                mask,
                Ghost(bound),
                Ghost(level),
                Ghost(*expr),
            ),
            CompiledScalarExpr::NoMatch { subject, placeholder, labels } => self.eval_no_match(
                subject,
                placeholder,
                labels,
                mask,
                Ghost(bound),
                Ghost(level),
                Ghost(*expr),
            ),
            // Reductions over periods need a batch per period.
            CompiledScalarExpr::OverPeriods { kind, .. } => Ok(
                fail_numeric(mask, EvalError::OverPeriodsOutsideLifetime(kind.as_call_name())),
            ),
        }
    }

    /// Evaluates two numbers and combines them: the left operand first.
    fn eval_binary(
        &mut self,
        op: BinaryOp,
        left: &CompiledScalarExpr,
        right: &CompiledScalarExpr,
        mask: &RowMask,
        Ghost(bound): Ghost<nat>,
        Ghost(level): Ghost<nat>,
        Ghost(whole): Ghost<CompiledScalarExpr>,
    ) -> (r: Result<(DenseColumn, RowErrors), EvalError>)
        requires
            old(self).ready(),
            bound <= old(self).facts().program.derived@.len(),
            mask@.len() == old(self).facts().batch.row_count,
            scalar_fits(old(self).facts().program, bound, level, *left),
            scalar_fits(old(self).facts().program, bound, level, *right),
            decreases_to!(whole => *left),
            decreases_to!(whole => *right),
            match op {
                BinaryOp::Sub => whole matches CompiledScalarExpr::Sub(a, b)
                    && *a == *left
                    && *b == *right,
                BinaryOp::Mul => whole matches CompiledScalarExpr::Mul(a, b)
                    && *a == *left
                    && *b == *right,
                BinaryOp::Div => false,
            },
        ensures
            final(self).ready(),
            final(self).facts() == old(self).facts(),
            evaluated(
                r,
                *mask,
                |row: int|
                    binary_cell(
                        op,
                        numbered(root_cell(old(self).facts(), bound, level, *left, row)),
                        numbered(root_cell(old(self).facts(), bound, level, *right, row)),
                        false,
                    ),
                typed_as(
                    root_kind(old(self).facts(), bound, level, *left) is Some
                        && root_kind(old(self).facts(), bound, level, *right) is Some,
                    ColumnKind::Decimal,
                ),
                root_work_step(
                    old(self).facts(),
                    bound,
                    level,
                    whole,
                    rows_of(*mask),
                    old(self).worked(),
                ),
                final(self).worked(),
            ),
        decreases bound, level, whole, 1int,
    {
        let ghost cx = self.facts();
        let ghost f = |row: int| root_cell(cx, bound, level, *left, row);
        let ghost g = |row: int| root_cell(cx, bound, level, *right, row);
        let (column, mut errors) = match self.eval_scalar_expr(
            left,
            mask,
            Ghost(bound),
            Ghost(level),
        ) {
            Ok(part) => part,
            Err(error) => return Err(error),
        };
        let (a, live) = numeric_operand(&column, &mut errors, mask, Ghost(f));
        assert(
            rows_of(live) =~= ok_rows(
                rows_of(*mask),
                |row: int| numbered(root_cell(cx, bound, level, *left, row)),
            )
        );
        let (column, mut more) = match self.eval_scalar_expr(
            right,
            &live,
            Ghost(bound),
            Ghost(level),
        ) {
            Ok(part) => part,
            Err(error) => return Err(error),
        };
        let (b, still) = numeric_operand(&column, &mut more, &live, Ghost(g));
        Ok(
            combine_binary(
                op,
                false,
                (a, live, errors),
                (b, still, more),
                mask,
                Ghost(|row: int| numbered(f(row))),
                Ghost(|row: int| numbered(g(row))),
            ),
        )
    }

    /// Division: the divisor is evaluated and tested for zero before the dividend.
    fn eval_division(
        &mut self,
        left: &CompiledScalarExpr,
        right: &CompiledScalarExpr,
        mask: &RowMask,
        Ghost(bound): Ghost<nat>,
        Ghost(level): Ghost<nat>,
        Ghost(whole): Ghost<CompiledScalarExpr>,
    ) -> (r: Result<(DenseColumn, RowErrors), EvalError>)
        requires
            old(self).ready(),
            bound <= old(self).facts().program.derived@.len(),
            mask@.len() == old(self).facts().batch.row_count,
            scalar_fits(old(self).facts().program, bound, level, *left),
            scalar_fits(old(self).facts().program, bound, level, *right),
            decreases_to!(whole => *left),
            decreases_to!(whole => *right),
            whole matches CompiledScalarExpr::Div(a, b) && *a == *left && *b == *right,
        ensures
            final(self).ready(),
            final(self).facts() == old(self).facts(),
            evaluated(
                r,
                *mask,
                |row: int|
                    binary_cell(
                        BinaryOp::Div,
                        nonzero(numbered(root_cell(old(self).facts(), bound, level, *right, row))),
                        numbered(root_cell(old(self).facts(), bound, level, *left, row)),
                        true,
                    ),
                typed_as(
                    root_kind(old(self).facts(), bound, level, *left) is Some
                        && root_kind(old(self).facts(), bound, level, *right) is Some,
                    ColumnKind::Decimal,
                ),
                root_work_step(
                    old(self).facts(),
                    bound,
                    level,
                    whole,
                    rows_of(*mask),
                    old(self).worked(),
                ),
                final(self).worked(),
            ),
        decreases bound, level, whole, 1int,
    {
        let ghost cx = self.facts();
        let ghost f = |row: int| root_cell(cx, bound, level, *right, row);
        let ghost g = |row: int| root_cell(cx, bound, level, *left, row);
        let (column, mut errors) = match self.eval_scalar_expr(
            right,
            mask,
            Ghost(bound),
            Ghost(level),
        ) {
            Ok(part) => part,
            Err(error) => return Err(error),
        };
        let (b, live) = numeric_operand(&column, &mut errors, mask, Ghost(f));
        let (b, live, errors) = nonzero_divisors(
            (b, live, errors),
            mask,
            Ghost(|row: int| numbered(f(row))),
        );
        assert(
            rows_of(live) =~= ok_rows(
                rows_of(*mask),
                |row: int| nonzero(numbered(root_cell(cx, bound, level, *right, row))),
            )
        );
        let (column, mut more) = match self.eval_scalar_expr(
            left,
            &live,
            Ghost(bound),
            Ghost(level),
        ) {
            Ok(part) => part,
            Err(error) => return Err(error),
        };
        let (a, still) = numeric_operand(&column, &mut more, &live, Ghost(g));
        Ok(
            combine_binary(
                BinaryOp::Div,
                true,
                (b, live, errors),
                (a, still, more),
                mask,
                Ghost(|row: int| nonzero(numbered(f(row)))),
                Ghost(|row: int| numbered(g(row))),
            ),
        )
    }

    /// A sum: each item is evaluated for the rows that no earlier one failed.
    fn eval_add(
        &mut self,
        items: &Vec<CompiledScalarExpr>,
        mask: &RowMask,
        Ghost(bound): Ghost<nat>,
        Ghost(level): Ghost<nat>,
        Ghost(whole): Ghost<CompiledScalarExpr>,
    ) -> (r: Result<(DenseColumn, RowErrors), EvalError>)
        requires
            old(self).ready(),
            bound <= old(self).facts().program.derived@.len(),
            mask@.len() == old(self).facts().batch.row_count,
            scalars_fit(old(self).facts().program, bound, level, items@, items@.len()),
            forall|i: int| #![trigger items@[i]] 0 <= i < items@.len() ==> decreases_to!(whole => items@[i]),
            whole == CompiledScalarExpr::Add(*items),
        ensures
            final(self).ready(),
            final(self).facts() == old(self).facts(),
            evaluated(
                r,
                *mask,
                |row: int|
                    as_decimal_value(
                        root_sum(old(self).facts(), bound, level, items@, items@.len(), row),
                    ),
                typed_as(
                    roots_typed(old(self).facts(), bound, level, items@, items@.len()),
                    ColumnKind::Decimal,
                ),
                root_work_step(
                    old(self).facts(),
                    bound,
                    level,
                    whole,
                    rows_of(*mask),
                    old(self).worked(),
                ),
                final(self).worked(),
            ),
        decreases bound, level, whole, 1int,
    {
        let ghost w0 = self.worked();
        let ghost cx = self.facts();
        let mut state = (
            repeated(Decimal::zero(), mask.len()),
            mask.duplicate(),
            RowErrors::new(),
        );
        let mut i: usize = 0;
        while i < items.len()
            invariant
                i <= items@.len(),
                self.ready(),
                self.facts() == cx,
                cx == old(self).facts(),
                bound <= cx.program.derived@.len(),
            mask@.len() == cx.batch.row_count,
                scalars_fit(cx.program, bound, level, items@, items@.len()),
                forall|j: int| #![trigger items@[j]] 0 <= j < items@.len() ==> decreases_to!(whole => items@[j]),
                staged(
                    state.0@,
                    state.1,
                    state.2,
                    *mask,
                    |row: int| root_sum(cx, bound, level, items@, i as nat, row),
                ),
                w0 == old(self).worked(),
                whole == CompiledScalarExpr::Add(*items),
                root_sum_work(
                    cx,
                    bound,
                    level,
                    items@,
                    i as nat,
                    rows_of(*mask),
                    w0,
                ) == Some(self.worked()),
            decreases items@.len() - i,
        {
            let ghost f = |row: int| root_sum(cx, bound, level, items@, i as nat, row);
            let ghost g = |row: int| root_cell(cx, bound, level, items@[i as int], row);
            proof {
                scalars_fit_each(cx.program, bound, level, items@, items@.len(), i as int);
            }
            assert(decreases_to!(whole => items@[i as int]));
            assert(
                rows_of(state.1) =~= ok_rows(
                    rows_of(*mask),
                    |row: int| root_sum(cx, bound, level, items@, i as nat, row),
                )
            );
            let part = match self.eval_scalar_expr(
                &items[i],
                &state.1,
                Ghost(bound),
                Ghost(level),
            ) {
                Ok(part) => part,
                Err(error) => {
                    proof {
                        if roots_typed(cx, bound, level, items@, items@.len()) {
                            roots_typed_each(cx, bound, level, items@, items@.len(), i as int);
                        }
                        root_sum_fails(
                            cx,
                            bound,
                            level,
                            items@,
                            (i + 1) as nat,
                            items@.len(),
                            rows_of(*mask),
                            w0,
                        );
                    }
                    return Err(error);
                },
            };
            state = add_item(state, part, mask, Ghost(f), Ghost(g));
            i = i + 1;
        }
        let ghost f = |row: int| root_sum(cx, bound, level, items@, items@.len(), row);
        Ok(number_column(state, mask, Ghost(f)))
    }

    /// `max` or `min`: each item is evaluated for the rows that no earlier one failed.
    fn eval_extremum(
        &mut self,
        items: &Vec<CompiledScalarExpr>,
        largest: bool,
        mask: &RowMask,
        Ghost(bound): Ghost<nat>,
        Ghost(level): Ghost<nat>,
        Ghost(whole): Ghost<CompiledScalarExpr>,
    ) -> (r: Result<(DenseColumn, RowErrors), EvalError>)
        requires
            old(self).ready(),
            bound <= old(self).facts().program.derived@.len(),
            mask@.len() == old(self).facts().batch.row_count,
            items@.len() > 0,
            scalars_fit(old(self).facts().program, bound, level, items@, items@.len()),
            forall|i: int| #![trigger items@[i]] 0 <= i < items@.len() ==> decreases_to!(whole => items@[i]),
            whole == (
                if largest { CompiledScalarExpr::Max(*items) } else { CompiledScalarExpr::Min(*items) }
            ),
        ensures
            final(self).ready(),
            final(self).facts() == old(self).facts(),
            evaluated(
                r,
                *mask,
                |row: int|
                    as_decimal_value(
                        root_extremum(
                            old(self).facts(),
                            bound,
                            level,
                            items@,
                            items@.len(),
                            largest,
                            row,
                        ),
                    ),
                typed_as(
                    roots_typed(old(self).facts(), bound, level, items@, items@.len()),
                    ColumnKind::Decimal,
                ),
                root_work_step(
                    old(self).facts(),
                    bound,
                    level,
                    whole,
                    rows_of(*mask),
                    old(self).worked(),
                ),
                final(self).worked(),
            ),
        decreases bound, level, whole, 1int,
    {
        let ghost w0 = self.worked();
        let ghost cx = self.facts();
        proof {
                scalars_fit_each(cx.program, bound, level, items@, items@.len(), 0);
            }
        assert(decreases_to!(whole => items@[0]));
        assert(
            root_extremum_work(
                cx,
                bound,
                level,
                items@,
                0,
                largest,
                rows_of(*mask),
                w0,
            ) == Some(w0)
        );
        assert(
            root_extremum_work(
                cx,
                bound,
                level,
                items@,
                1,
                largest,
                rows_of(*mask),
                w0,
            ) == root_work(cx, bound, level, items@[0], rows_of(*mask), w0)
        );
        let (column, mut errors) = match self.eval_scalar_expr(
            &items[0],
            mask,
            Ghost(bound),
            Ghost(level),
        ) {
            Ok(part) => part,
            Err(error) => {
                proof {
                        if roots_typed(cx, bound, level, items@, items@.len()) {
                            roots_typed_each(cx, bound, level, items@, items@.len(), 0);
                        }
                        root_extremum_fails(
                            cx,
                            bound,
                            level,
                            items@,
                            1,
                            items@.len(),
                            largest,
                            rows_of(*mask),
                            w0,
                        );
                    }
                return Err(error);
            },
        };
        let (best, live) = numeric_operand(
            &column,
            &mut errors,
            mask,
            Ghost(|row: int| root_cell(cx, bound, level, items@[0], row)),
        );
        let mut state = (best, live, errors);
        let mut i: usize = 1;
        while i < items.len()
            invariant
                1 <= i <= items@.len(),
                self.ready(),
                self.facts() == cx,
                cx == old(self).facts(),
                bound <= cx.program.derived@.len(),
            mask@.len() == cx.batch.row_count,
                scalars_fit(cx.program, bound, level, items@, items@.len()),
                forall|j: int| #![trigger items@[j]] 0 <= j < items@.len() ==> decreases_to!(whole => items@[j]),
                staged(
                    state.0@,
                    state.1,
                    state.2,
                    *mask,
                    |row: int| root_extremum(cx, bound, level, items@, i as nat, largest, row),
                ),
                w0 == old(self).worked(),
                whole == (
                    if largest { CompiledScalarExpr::Max(*items) } else { CompiledScalarExpr::Min(*items) }
                ),
                root_extremum_work(
                    cx,
                    bound,
                    level,
                    items@,
                    i as nat,
                    largest,
                    rows_of(*mask),
                    w0,
                ) == Some(self.worked()),
            decreases items@.len() - i,
        {
            let ghost f = |row: int| root_extremum(
                cx,
                bound,
                level,
                items@,
                i as nat,
                largest,
                row,
            );
            let ghost g = |row: int| root_cell(cx, bound, level, items@[i as int], row);
            proof {
                scalars_fit_each(cx.program, bound, level, items@, items@.len(), i as int);
            }
            assert(decreases_to!(whole => items@[i as int]));
            assert(
                rows_of(state.1) =~= ok_rows(
                    rows_of(*mask),
                    |row: int| root_extremum(cx, bound, level, items@, i as nat, largest, row),
                )
            );
            let part = match self.eval_scalar_expr(
                &items[i],
                &state.1,
                Ghost(bound),
                Ghost(level),
            ) {
                Ok(part) => part,
                Err(error) => {
                    proof {
                        if roots_typed(cx, bound, level, items@, items@.len()) {
                            roots_typed_each(cx, bound, level, items@, items@.len(), i as int);
                        }
                        root_extremum_fails(
                            cx,
                            bound,
                            level,
                            items@,
                            (i + 1) as nat,
                            items@.len(),
                            largest,
                            rows_of(*mask),
                            w0,
                        );
                    }
                    return Err(error);
                },
            };
            state = extremum_item(largest, state, part, mask, Ghost(f), Ghost(g));
            i = i + 1;
        }
        let ghost f = |row: int| root_extremum(
            cx,
            bound,
            level,
            items@,
            items@.len(),
            largest,
            row,
        );
        Ok(number_column(state, mask, Ghost(f)))
    }

    /// `ceil` or `floor`.
    fn eval_integral(
        &mut self,
        upward: bool,
        value: &CompiledScalarExpr,
        mask: &RowMask,
        Ghost(bound): Ghost<nat>,
        Ghost(level): Ghost<nat>,
        Ghost(whole): Ghost<CompiledScalarExpr>,
    ) -> (r: Result<(DenseColumn, RowErrors), EvalError>)
        requires
            old(self).ready(),
            bound <= old(self).facts().program.derived@.len(),
            mask@.len() == old(self).facts().batch.row_count,
            scalar_fits(old(self).facts().program, bound, level, *value),
            decreases_to!(whole => *value),
            if upward {
                whole matches CompiledScalarExpr::Ceil(a) && *a == *value
            } else {
                whole matches CompiledScalarExpr::Floor(a) && *a == *value
            },
        ensures
            final(self).ready(),
            final(self).facts() == old(self).facts(),
            evaluated(
                r,
                *mask,
                |row: int| integral_cell(
                    upward,
                    numbered(root_cell(old(self).facts(), bound, level, *value, row)),
                ),
                typed_as(
                    root_kind(old(self).facts(), bound, level, *value) is Some,
                    ColumnKind::Decimal,
                ),
                root_work_step(
                    old(self).facts(),
                    bound,
                    level,
                    whole,
                    rows_of(*mask),
                    old(self).worked(),
                ),
                final(self).worked(),
            ),
        decreases bound, level, whole, 1int,
    {
        let ghost cx = self.facts();
        let ghost f = |row: int| root_cell(cx, bound, level, *value, row);
        let (column, mut errors) = match self.eval_scalar_expr(
            value,
            mask,
            Ghost(bound),
            Ghost(level),
        ) {
            Ok(part) => part,
            Err(error) => return Err(error),
        };
        let (numbers, live) = numeric_operand(&column, &mut errors, mask, Ghost(f));
        Ok(
            integral_column(
                upward,
                (numbers, live, errors),
                mask,
                Ghost(|row: int| numbered(f(row))),
            ),
        )
    }

    /// A date moved by a count of days, months or years: the date first.
    fn eval_date_shift(
        &mut self,
        unit: ShiftUnit,
        date: &CompiledScalarExpr,
        count: &CompiledScalarExpr,
        mask: &RowMask,
        Ghost(bound): Ghost<nat>,
        Ghost(level): Ghost<nat>,
        Ghost(whole): Ghost<CompiledScalarExpr>,
    ) -> (r: Result<(DenseColumn, RowErrors), EvalError>)
        requires
            old(self).ready(),
            bound <= old(self).facts().program.derived@.len(),
            mask@.len() == old(self).facts().batch.row_count,
            scalar_fits(old(self).facts().program, bound, level, *date),
            scalar_fits(old(self).facts().program, bound, level, *count),
            decreases_to!(whole => *date),
            decreases_to!(whole => *count),
            whole matches CompiledScalarExpr::DateShift { unit: u, date: d, count: c }
                && u == unit
                && *d == *date
                && *c == *count,
        ensures
            final(self).ready(),
            final(self).facts() == old(self).facts(),
            evaluated(
                r,
                *mask,
                |row: int|
                    shift_cell(
                        unit,
                        dated(
                            root_cell(old(self).facts(), bound, level, *date, row),
                            unit.date_message(),
                        ),
                        counted(
                            root_cell(old(self).facts(), bound, level, *count, row),
                            unit.count_message(),
                        ),
                    ),
                typed_as(
                    root_kind(old(self).facts(), bound, level, *date) is Some
                        && root_kind(old(self).facts(), bound, level, *count) is Some,
                    ColumnKind::Date,
                ),
                root_work_step(
                    old(self).facts(),
                    bound,
                    level,
                    whole,
                    rows_of(*mask),
                    old(self).worked(),
                ),
                final(self).worked(),
            ),
        decreases bound, level, whole, 1int,
    {
        let ghost cx = self.facts();
        let ghost f = |row: int| root_cell(cx, bound, level, *date, row);
        let ghost g = |row: int| root_cell(cx, bound, level, *count, row);
        let (column, mut errors) = match self.eval_scalar_expr(
            date,
            mask,
            Ghost(bound),
            Ghost(level),
        ) {
            Ok(part) => part,
            Err(error) => return Err(error),
        };
        let (dates, live) = date_operand(&column, &mut errors, mask, unit.date_error(), Ghost(f));
        assert(
            rows_of(live) =~= ok_rows(
                rows_of(*mask),
                |row: int| dated(root_cell(cx, bound, level, *date, row), unit.date_message()),
            )
        );
        let (column, mut more) = match self.eval_scalar_expr(
            count,
            &live,
            Ghost(bound),
            Ghost(level),
        ) {
            Ok(part) => part,
            Err(error) => return Err(error),
        };
        let (counts, still) = index_operand(
            &column,
            &mut more,
            &live,
            unit.count_error(),
            Ghost(g),
        );
        Ok(
            combine_shift(
                unit,
                (dates, live, errors),
                (counts, still, more),
                mask,
                Ghost(|row: int| dated(f(row), unit.date_message())),
                Ghost(|row: int| counted(g(row), unit.count_message())),
            ),
        )
    }

    /// The days from one date to another.
    fn eval_days_between(
        &mut self,
        from: &CompiledScalarExpr,
        to: &CompiledScalarExpr,
        mask: &RowMask,
        Ghost(bound): Ghost<nat>,
        Ghost(level): Ghost<nat>,
        Ghost(whole): Ghost<CompiledScalarExpr>,
    ) -> (r: Result<(DenseColumn, RowErrors), EvalError>)
        requires
            old(self).ready(),
            bound <= old(self).facts().program.derived@.len(),
            mask@.len() == old(self).facts().batch.row_count,
            scalar_fits(old(self).facts().program, bound, level, *from),
            scalar_fits(old(self).facts().program, bound, level, *to),
            decreases_to!(whole => *from),
            decreases_to!(whole => *to),
            whole matches CompiledScalarExpr::DaysBetween { from: a, to: b }
                && *a == *from
                && *b == *to,
        ensures
            final(self).ready(),
            final(self).facts() == old(self).facts(),
            evaluated(
                r,
                *mask,
                |row: int|
                    between_cell(
                        dated(
                            root_cell(old(self).facts(), bound, level, *from, row),
                            "days_between expects a date for `from`"@,
                        ),
                        dated(
                            root_cell(old(self).facts(), bound, level, *to, row),
                            "days_between expects a date for `to`"@,
                        ),
                    ),
                typed_as(
                    root_kind(old(self).facts(), bound, level, *from) is Some
                        && root_kind(old(self).facts(), bound, level, *to) is Some,
                    ColumnKind::Integer,
                ),
                root_work_step(
                    old(self).facts(),
                    bound,
                    level,
                    whole,
                    rows_of(*mask),
                    old(self).worked(),
                ),
                final(self).worked(),
            ),
        decreases bound, level, whole, 1int,
    {
        let ghost cx = self.facts();
        let ghost f = |row: int| root_cell(cx, bound, level, *from, row);
        let ghost g = |row: int| root_cell(cx, bound, level, *to, row);
        let (column, mut errors) = match self.eval_scalar_expr(
            from,
            mask,
            Ghost(bound),
            Ghost(level),
        ) {
            Ok(part) => part,
            Err(error) => return Err(error),
        };
        let (a, live) = date_operand(
            &column,
            &mut errors,
            mask,
            "days_between expects a date for `from`",
            Ghost(f),
        );
        assert(
            rows_of(live) =~= ok_rows(
                rows_of(*mask),
                |row: int| dated(
                    root_cell(cx, bound, level, *from, row),
                    "days_between expects a date for `from`"@,
                ),
            )
        );
        let (column, mut more) = match self.eval_scalar_expr(
            to,
            &live,
            Ghost(bound),
            Ghost(level),
        ) {
            Ok(part) => part,
            Err(error) => return Err(error),
        };
        let (b, still) = date_operand(
            &column,
            &mut more,
            &live,
            "days_between expects a date for `to`",
            Ghost(g),
        );
        Ok(
            combine_between(
                (a, live, errors),
                (b, still, more),
                mask,
                Ghost(|row: int| dated(f(row), "days_between expects a date for `from`"@)),
                Ghost(|row: int| dated(g(row), "days_between expects a date for `to`"@)),
            ),
        )
    }

    /// The fallback of a `match`. The placeholder is evaluated for no rows.
    fn eval_no_match(
        &mut self,
        subject: &CompiledScalarExpr,
        placeholder: &CompiledScalarExpr,
        labels: &MatchLabels,
        mask: &RowMask,
        Ghost(bound): Ghost<nat>,
        Ghost(level): Ghost<nat>,
        Ghost(whole): Ghost<CompiledScalarExpr>,
    ) -> (r: Result<(DenseColumn, RowErrors), EvalError>)
        requires
            old(self).ready(),
            bound <= old(self).facts().program.derived@.len(),
            mask@.len() == old(self).facts().batch.row_count,
            scalar_fits(old(self).facts().program, bound, level, *subject),
            scalar_fits(old(self).facts().program, bound, level, *placeholder),
            decreases_to!(whole => *subject),
            decreases_to!(whole => *placeholder),
            whole matches CompiledScalarExpr::NoMatch { subject: a, .. } && *a == *subject,
        ensures
            final(self).ready(),
            final(self).facts() == old(self).facts(),
            evaluated(
                r,
                *mask,
                |row: int| no_match_cell(
                    *labels,
                    root_cell(old(self).facts(), bound, level, *subject, row),
                ),
                if root_kind(old(self).facts(), bound, level, *subject) is Some {
                    root_kind(old(self).facts(), bound, level, *placeholder)
                } else {
                    None
                },
                root_work_step(
                    old(self).facts(),
                    bound,
                    level,
                    whole,
                    rows_of(*mask),
                    old(self).worked(),
                ),
                final(self).worked(),
            ),
        decreases bound, level, whole, 1int,
    {
        let ghost cx = self.facts();
        let nothing = RowMask::none(mask.len());
        proof {
            root_rests(cx, bound, level, *placeholder, rows_of(nothing), self.worked());
        }
        let (column, _) = match self.eval_scalar_expr(
            placeholder,
            &nothing,
            Ghost(bound),
            Ghost(level),
        ) {
            Ok(part) => part,
            Err(error) => return Err(error),
        };
        let part = match self.eval_scalar_expr(subject, mask, Ghost(bound), Ghost(level)) {
            Ok(part) => part,
            Err(error) => return Err(error),
        };
        Ok(
            no_match_column(
                labels,
                column,
                part,
                mask,
                Ghost(|row: int| root_cell(cx, bound, level, *subject, row)),
            ),
        )
    }

    /// `if`: each branch is evaluated for the rows that select it.
    fn eval_choice(
        &mut self,
        condition: &CompiledJudgmentExpr,
        then_expr: &CompiledScalarExpr,
        else_expr: &CompiledScalarExpr,
        mask: &RowMask,
        Ghost(bound): Ghost<nat>,
        Ghost(level): Ghost<nat>,
        Ghost(whole): Ghost<CompiledScalarExpr>,
    ) -> (r: Result<(DenseColumn, RowErrors), EvalError>)
        requires
            old(self).ready(),
            bound <= old(self).facts().program.derived@.len(),
            mask@.len() == old(self).facts().batch.row_count,
            judgment_fits(old(self).facts().program, bound, level, *condition),
            scalar_fits(old(self).facts().program, bound, level, *then_expr),
            scalar_fits(old(self).facts().program, bound, level, *else_expr),
            decreases_to!(whole => *condition),
            decreases_to!(whole => *then_expr),
            decreases_to!(whole => *else_expr),
            whole matches CompiledScalarExpr::If { condition: c, then_expr: a, else_expr: b }
                && *c == *condition
                && *a == *then_expr
                && *b == *else_expr,
        ensures
            final(self).ready(),
            final(self).facts() == old(self).facts(),
            evaluated(
                r,
                *mask,
                |row: int|
                    if_cell(
                        root_outcome(old(self).facts(), bound, level, *condition, row),
                        root_cell(old(self).facts(), bound, level, *then_expr, row),
                        root_cell(old(self).facts(), bound, level, *else_expr, row),
                    ),
                if root_typed(old(self).facts(), bound, level, *condition) {
                    joined_kind(
                        root_kind(old(self).facts(), bound, level, *then_expr),
                        root_kind(old(self).facts(), bound, level, *else_expr),
                    )
                } else {
                    None
                },
                root_work_step(
                    old(self).facts(),
                    bound,
                    level,
                    whole,
                    rows_of(*mask),
                    old(self).worked(),
                ),
                final(self).worked(),
            ),
        decreases bound, level, whole, 1int,
    {
        let ghost cx = self.facts();
        let ghost c = |row: int| root_outcome(cx, bound, level, *condition, row);
        let ghost f = |row: int| root_cell(cx, bound, level, *then_expr, row);
        let ghost g = |row: int| root_cell(cx, bound, level, *else_expr, row);
        let (outcomes, errors) = match self.eval_judgment_expr(
            condition,
            mask,
            Ghost(bound),
            Ghost(level),
        ) {
            Ok(part) => part,
            Err(error) => return Err(error),
        };
        let live = mask.without(&errors);
        let then_rows = holding_rows(&outcomes, &live);
        let else_rows = live.difference(&then_rows);
        proof {
            assert forall|row: int| #[trigger] mask.has(row) implies match c(row) {
                Err(error) => errors.at(row) == Some(error) && !then_rows.has(row)
                    && !else_rows.has(row),
                Ok(outcome) => errors.at(row) is None && then_rows.has(row) == (outcome is Holds)
                    && else_rows.has(row) == !(outcome is Holds),
            } by {
                assert(live.has(row) == (c(row) is Ok));
            }
            assert forall|row: int| #[trigger] then_rows.has(row) implies mask.has(row) by {
                assert(live.has(row));
            }
            assert forall|row: int| #[trigger] else_rows.has(row) implies mask.has(row) by {
                assert(live.has(row));
            }
            assert(
                rows_of(then_rows) =~= taken_rows(
                    rows_of(*mask),
                    |row: int| root_outcome(cx, bound, level, *condition, row),
                )
            );
            assert(
                rows_of(else_rows) =~= passed_rows(
                    rows_of(*mask),
                    |row: int| root_outcome(cx, bound, level, *condition, row),
                )
            );
        }
        let then_part = match self.eval_scalar_expr(
            then_expr,
            &then_rows,
            Ghost(bound),
            Ghost(level),
        ) {
            Ok(part) => part,
            Err(error) => return Err(error),
        };
        let else_part = match self.eval_scalar_expr(
            else_expr,
            &else_rows,
            Ghost(bound),
            Ghost(level),
        ) {
            Ok(part) => part,
            Err(error) => return Err(error),
        };
        combine_if(
            errors,
            &then_rows,
            then_part,
            &else_rows,
            else_part,
            mask,
            Ghost(c),
            Ghost(f),
            Ghost(g),
        )
    }

    /// A comparison: the left side first.
    fn eval_comparison(
        &mut self,
        left: &CompiledScalarExpr,
        op: ComparisonOp,
        right: &CompiledScalarExpr,
        mask: &RowMask,
        Ghost(bound): Ghost<nat>,
        Ghost(level): Ghost<nat>,
        Ghost(whole): Ghost<CompiledJudgmentExpr>,
    ) -> (r: Result<(Vec<JudgmentOutcome>, RowErrors), EvalError>)
        requires
            old(self).ready(),
            bound <= old(self).facts().program.derived@.len(),
            mask@.len() == old(self).facts().batch.row_count,
            scalar_fits(old(self).facts().program, bound, level, *left),
            scalar_fits(old(self).facts().program, bound, level, *right),
            decreases_to!(whole => *left),
            decreases_to!(whole => *right),
            whole matches CompiledJudgmentExpr::Comparison { left: a, right: b, .. }
                && a == *left
                && b == *right,
        ensures
            final(self).ready(),
            final(self).facts() == old(self).facts(),
            assessed(
                r,
                *mask,
                |row: int|
                    compare_cell(
                        root_cell(old(self).facts(), bound, level, *left, row),
                        op,
                        root_cell(old(self).facts(), bound, level, *right, row),
                    ),
                root_kind(old(self).facts(), bound, level, *left) is Some
                    && root_kind(old(self).facts(), bound, level, *right) is Some,
                root_judgment_work_step(
                    old(self).facts(),
                    bound,
                    level,
                    whole,
                    rows_of(*mask),
                    old(self).worked(),
                ),
                final(self).worked(),
            ),
        decreases bound, level, whole, 1int,
    {
        let ghost cx = self.facts();
        let left_part = match self.eval_scalar_expr(left, mask, Ghost(bound), Ghost(level)) {
            Ok(part) => part,
            Err(error) => return Err(error),
        };
        let live = mask.without(&left_part.1);
        assert(
            rows_of(live) =~= ok_rows(
                rows_of(*mask),
                |row: int| root_cell(cx, bound, level, *left, row),
            )
        );
        let right_part = match self.eval_scalar_expr(right, &live, Ghost(bound), Ghost(level)) {
            Ok(part) => part,
            Err(error) => return Err(error),
        };
        Ok(
            compare_dense(
                left_part,
                op,
                right_part,
                mask,
                &live,
                Ghost(|row: int| root_cell(cx, bound, level, *left, row)),
                Ghost(|row: int| root_cell(cx, bound, level, *right, row)),
            ),
        )
    }

    /// `and` or `or`: each item is evaluated for the rows that no earlier item
    /// decided. A row with an undetermined item and no decisive one is undetermined.
    fn eval_short_circuit(
        &mut self,
        items: &Vec<CompiledJudgmentExpr>,
        decisive: JudgmentOutcome,
        mask: &RowMask,
        Ghost(bound): Ghost<nat>,
        Ghost(level): Ghost<nat>,
        Ghost(whole): Ghost<CompiledJudgmentExpr>,
    ) -> (r: Result<(Vec<JudgmentOutcome>, RowErrors), EvalError>)
        requires
            old(self).ready(),
            bound <= old(self).facts().program.derived@.len(),
            mask@.len() == old(self).facts().batch.row_count,
            judgments_fit(old(self).facts().program, bound, level, items@, items@.len()),
            forall|i: int| #![trigger items@[i]] 0 <= i < items@.len() ==> decreases_to!(whole => items@[i]),
            (decisive == JudgmentOutcome::NotHolds && whole == CompiledJudgmentExpr::And(*items))
                || (decisive == JudgmentOutcome::Holds
                    && whole == CompiledJudgmentExpr::Or(*items)),
        ensures
            final(self).ready(),
            final(self).facts() == old(self).facts(),
            assessed(
                r,
                *mask,
                |row: int|
                    connective_outcome(
                        decisive,
                        root_connective(
                            old(self).facts(),
                            bound,
                            level,
                            items@,
                            items@.len(),
                            decisive,
                            row,
                        ),
                    ),
                root_items_typed(old(self).facts(), bound, level, items@, items@.len()),
                root_judgment_work_step(
                    old(self).facts(),
                    bound,
                    level,
                    whole,
                    rows_of(*mask),
                    old(self).worked(),
                ),
                final(self).worked(),
            ),
        decreases bound, level, whole, 1int,
    {
        let ghost w0 = self.worked();
        let ghost cx = self.facts();
        let mut state = (
            mask.duplicate(),
            repeated(false, mask.len()),
            RowErrors::new(),
        );
        let mut i: usize = 0;
        while i < items.len() && !state.0.is_empty()
            invariant
                i <= items@.len(),
                self.ready(),
                self.facts() == cx,
                cx == old(self).facts(),
                bound <= cx.program.derived@.len(),
            mask@.len() == cx.batch.row_count,
                judgments_fit(cx.program, bound, level, items@, items@.len()),
                forall|j: int| #![trigger items@[j]] 0 <= j < items@.len() ==> decreases_to!(whole => items@[j]),
                connective_is(
                    state.0,
                    state.1@,
                    state.2,
                    *mask,
                    |row: int| root_connective(cx, bound, level, items@, i as nat, decisive, row),
                ),
                w0 == old(self).worked(),
                (decisive == JudgmentOutcome::NotHolds
                    && whole == CompiledJudgmentExpr::And(*items))
                    || (decisive == JudgmentOutcome::Holds
                        && whole == CompiledJudgmentExpr::Or(*items)),
                root_connective_work(
                    cx,
                    bound,
                    level,
                    items@,
                    i as nat,
                    decisive,
                    rows_of(*mask),
                    w0,
                ) == Some(self.worked()),
            decreases items@.len() - i,
        {
            let ghost f = |row: int| root_connective(
                cx,
                bound,
                level,
                items@,
                i as nat,
                decisive,
                row,
            );
            let ghost g = |row: int| root_outcome(cx, bound, level, items@[i as int], row);
            proof {
                judgments_fit_each(cx.program, bound, level, items@, items@.len(), i as int);
            }
            assert(decreases_to!(whole => items@[i as int]));
            assert(
                rows_of(state.0) =~= open_rows(
                    rows_of(*mask),
                    |row: int| root_connective(cx, bound, level, items@, i as nat, decisive, row),
                )
            );
            let part = match self.eval_judgment_expr(
                &items[i],
                &state.0,
                Ghost(bound),
                Ghost(level),
            ) {
                Ok(part) => part,
                Err(error) => {
                    proof {
                        if root_items_typed(cx, bound, level, items@, items@.len()) {
                            root_items_typed_each(cx, bound, level, items@, items@.len(), i as int);
                        }
                        root_connective_fails(
                            cx,
                            bound,
                            level,
                            items@,
                            (i + 1) as nat,
                            items@.len(),
                            decisive,
                            rows_of(*mask),
                            w0,
                        );
                    }
                    return Err(error);
                },
            };
            state = short_circuit_item(decisive, state, part, mask, Ghost(f), Ghost(g));
            i = i + 1;
        }
        let ghost f = |row: int| root_connective(
            cx,
            bound,
            level,
            items@,
            items@.len(),
            decisive,
            row,
        );
        proof {
            assert(
                rows_of(state.0) =~= open_rows(
                    rows_of(*mask),
                    |row: int| root_connective(cx, bound, level, items@, i as nat, decisive, row),
                )
            );
            if i < items@.len() {
                root_connective_rests(
                    cx,
                    bound,
                    level,
                    items@,
                    i as nat,
                    items@.len(),
                    decisive,
                    rows_of(*mask),
                    w0,
                );
            }
        }
        proof {
            assert forall|row: int| #[trigger] mask.has(row) implies f(row) == root_connective(
                cx,
                bound,
                level,
                items@,
                i as nat,
                decisive,
                row,
            ) by {
                if i < items@.len() {
                    assert(!state.0.has(row));
                    eval_connective_settled(
                        cx,
                        bound,
                        level,
                        items@,
                        i as nat,
                        items@.len(),
                        decisive,
                        row,
                    );
                }
            }
        }
        Ok(short_circuit_end(decisive, state, mask, Ghost(f)))
    }

    /// Evaluates two numbers and combines them: the left operand first.
    fn related_binary(
        &mut self,
        relation: usize,
        op: BinaryOp,
        left: &CompiledRelatedScalarExpr,
        right: &CompiledRelatedScalarExpr,
        mask: &RowMask,
        Ghost(bound): Ghost<nat>,
        Ghost(level): Ghost<nat>,
        Ghost(whole): Ghost<CompiledRelatedScalarExpr>,
    ) -> (r: Result<(DenseColumn, RowErrors), EvalError>)
        requires
            old(self).ready(),
            bound <= old(self).facts().program.derived@.len(),
            relation < old(self).facts().batch.relations.len(),
            mask@.len() == old(self).facts().batch.relations[relation as int].related_count,
            related_scalar_fits(old(self).facts().program, bound, level, relation as nat, *left),
            related_scalar_fits(old(self).facts().program, bound, level, relation as nat, *right),
            decreases_to!(whole => *left),
            decreases_to!(whole => *right),
            match op {
                BinaryOp::Sub => whole matches CompiledRelatedScalarExpr::Sub(a, b)
                    && *a == *left
                    && *b == *right,
                BinaryOp::Mul => whole matches CompiledRelatedScalarExpr::Mul(a, b)
                    && *a == *left
                    && *b == *right,
                BinaryOp::Div => false,
            },
        ensures
            final(self).ready(),
            final(self).facts() == old(self).facts(),
            evaluated(
                r,
                *mask,
                |row: int|
                    binary_cell(
                        op,
                        numbered(
                            related_cell(
                                old(self).facts(),
                                bound,
                                level,
                                relation as nat,
                                *left,
                                row,
                            ),
                        ),
                        numbered(
                            related_cell(
                                old(self).facts(),
                                bound,
                                level,
                                relation as nat,
                                *right,
                                row,
                            ),
                        ),
                        false,
                    ),
                typed_as(
                    related_kind(old(self).facts(), bound, level, relation as nat, *left) is Some
                        && related_kind(
                            old(self).facts(),
                            bound,
                            level,
                            relation as nat,
                            *right,
                        ) is Some,
                    ColumnKind::Decimal,
                ),
                related_work_step(
                    old(self).facts(),
                    bound,
                    level,
                    relation as nat,
                    whole,
                    rows_of(*mask),
                    old(self).worked(),
                ),
                final(self).worked(),
            ),
        decreases bound, level, whole, 1int,
    {
        let ghost cx = self.facts();
        let ghost f = |row: int| related_cell(cx, bound, level, relation as nat, *left, row);
        let ghost g = |row: int| related_cell(cx, bound, level, relation as nat, *right, row);
        let (column, mut errors) = match self.resolve_related_scalar(
            relation,
            left,
            mask,
            Ghost(bound),
            Ghost(level),
        ) {
            Ok(part) => part,
            Err(error) => return Err(error),
        };
        let (a, live) = numeric_operand(&column, &mut errors, mask, Ghost(f));
        assert(
            rows_of(live) =~= ok_rows(
                rows_of(*mask),
                |row: int| numbered(related_cell(cx, bound, level, relation as nat, *left, row)),
            )
        );
        let (column, mut more) = match self.resolve_related_scalar(
            relation,
            right,
            &live,
            Ghost(bound),
            Ghost(level),
        ) {
            Ok(part) => part,
            Err(error) => return Err(error),
        };
        let (b, still) = numeric_operand(&column, &mut more, &live, Ghost(g));
        Ok(
            combine_binary(
                op,
                false,
                (a, live, errors),
                (b, still, more),
                mask,
                Ghost(|row: int| numbered(f(row))),
                Ghost(|row: int| numbered(g(row))),
            ),
        )
    }

    /// Division: the divisor is evaluated and tested for zero before the dividend.
    fn related_division(
        &mut self,
        relation: usize,
        left: &CompiledRelatedScalarExpr,
        right: &CompiledRelatedScalarExpr,
        mask: &RowMask,
        Ghost(bound): Ghost<nat>,
        Ghost(level): Ghost<nat>,
        Ghost(whole): Ghost<CompiledRelatedScalarExpr>,
    ) -> (r: Result<(DenseColumn, RowErrors), EvalError>)
        requires
            old(self).ready(),
            bound <= old(self).facts().program.derived@.len(),
            relation < old(self).facts().batch.relations.len(),
            mask@.len() == old(self).facts().batch.relations[relation as int].related_count,
            related_scalar_fits(old(self).facts().program, bound, level, relation as nat, *left),
            related_scalar_fits(old(self).facts().program, bound, level, relation as nat, *right),
            decreases_to!(whole => *left),
            decreases_to!(whole => *right),
            whole matches CompiledRelatedScalarExpr::Div(a, b) && *a == *left && *b == *right,
        ensures
            final(self).ready(),
            final(self).facts() == old(self).facts(),
            evaluated(
                r,
                *mask,
                |row: int|
                    binary_cell(
                        BinaryOp::Div,
                        nonzero(
                            numbered(
                                related_cell(
                                    old(self).facts(),
                                    bound,
                                    level,
                                    relation as nat,
                                    *right,
                                    row,
                                ),
                            ),
                        ),
                        numbered(
                            related_cell(
                                old(self).facts(),
                                bound,
                                level,
                                relation as nat,
                                *left,
                                row,
                            ),
                        ),
                        true,
                    ),
                typed_as(
                    related_kind(old(self).facts(), bound, level, relation as nat, *left) is Some
                        && related_kind(
                            old(self).facts(),
                            bound,
                            level,
                            relation as nat,
                            *right,
                        ) is Some,
                    ColumnKind::Decimal,
                ),
                related_work_step(
                    old(self).facts(),
                    bound,
                    level,
                    relation as nat,
                    whole,
                    rows_of(*mask),
                    old(self).worked(),
                ),
                final(self).worked(),
            ),
        decreases bound, level, whole, 1int,
    {
        let ghost cx = self.facts();
        let ghost f = |row: int| related_cell(cx, bound, level, relation as nat, *right, row);
        let ghost g = |row: int| related_cell(cx, bound, level, relation as nat, *left, row);
        let (column, mut errors) = match self.resolve_related_scalar(
            relation,
            right,
            mask,
            Ghost(bound),
            Ghost(level),
        ) {
            Ok(part) => part,
            Err(error) => return Err(error),
        };
        let (b, live) = numeric_operand(&column, &mut errors, mask, Ghost(f));
        let (b, live, errors) = nonzero_divisors(
            (b, live, errors),
            mask,
            Ghost(|row: int| numbered(f(row))),
        );
        assert(
            rows_of(live) =~= ok_rows(
                rows_of(*mask),
                |row: int| nonzero(
                    numbered(related_cell(cx, bound, level, relation as nat, *right, row)),
                ),
            )
        );
        let (column, mut more) = match self.resolve_related_scalar(
            relation,
            left,
            &live,
            Ghost(bound),
            Ghost(level),
        ) {
            Ok(part) => part,
            Err(error) => return Err(error),
        };
        let (a, still) = numeric_operand(&column, &mut more, &live, Ghost(g));
        Ok(
            combine_binary(
                BinaryOp::Div,
                true,
                (b, live, errors),
                (a, still, more),
                mask,
                Ghost(|row: int| nonzero(numbered(f(row)))),
                Ghost(|row: int| numbered(g(row))),
            ),
        )
    }

    /// A sum: each item is evaluated for the rows that no earlier one failed.
    fn related_add(
        &mut self,
        relation: usize,
        items: &Vec<CompiledRelatedScalarExpr>,
        mask: &RowMask,
        Ghost(bound): Ghost<nat>,
        Ghost(level): Ghost<nat>,
        Ghost(whole): Ghost<CompiledRelatedScalarExpr>,
    ) -> (r: Result<(DenseColumn, RowErrors), EvalError>)
        requires
            old(self).ready(),
            bound <= old(self).facts().program.derived@.len(),
            relation < old(self).facts().batch.relations.len(),
            mask@.len() == old(self).facts().batch.relations[relation as int].related_count,
            related_scalars_fit(
                old(self).facts().program,
                bound,
                level,
                relation as nat,
                items@,
                items@.len(),
            ),
            forall|i: int| #![trigger items@[i]] 0 <= i < items@.len() ==> decreases_to!(whole => items@[i]),
            whole == CompiledRelatedScalarExpr::Add(*items),
        ensures
            final(self).ready(),
            final(self).facts() == old(self).facts(),
            evaluated(
                r,
                *mask,
                |row: int|
                    as_decimal_value(
                        related_sum(
                            old(self).facts(),
                            bound,
                            level,
                            relation as nat,
                            items@,
                            items@.len(),
                            row,
                        ),
                    ),
                typed_as(
                    relateds_typed(
                        old(self).facts(),
                        bound,
                        level,
                        relation as nat,
                        items@,
                        items@.len(),
                    ),
                    ColumnKind::Decimal,
                ),
                related_work_step(
                    old(self).facts(),
                    bound,
                    level,
                    relation as nat,
                    whole,
                    rows_of(*mask),
                    old(self).worked(),
                ),
                final(self).worked(),
            ),
        decreases bound, level, whole, 1int,
    {
        let ghost w0 = self.worked();
        let ghost cx = self.facts();
        let mut state = (
            repeated(Decimal::zero(), mask.len()),
            mask.duplicate(),
            RowErrors::new(),
        );
        let mut i: usize = 0;
        while i < items.len()
            invariant
                i <= items@.len(),
                self.ready(),
                self.facts() == cx,
                cx == old(self).facts(),
                bound <= cx.program.derived@.len(),
                relation < cx.batch.relations.len(),
                mask@.len() == cx.batch.relations[relation as int].related_count,
                related_scalars_fit(
                    cx.program,
                    bound,
                    level,
                    relation as nat,
                    items@,
                    items@.len(),
                ),
                forall|j: int| #![trigger items@[j]] 0 <= j < items@.len() ==> decreases_to!(whole => items@[j]),
                staged(
                    state.0@,
                    state.1,
                    state.2,
                    *mask,
                    |row: int| related_sum(
                        cx,
                        bound,
                        level,
                        relation as nat,
                        items@,
                        i as nat,
                        row,
                    ),
                ),
                w0 == old(self).worked(),
                whole == CompiledRelatedScalarExpr::Add(*items),
                related_sum_work(
                    cx,
                    bound,
                    level,
                    relation as nat,
                    items@,
                    i as nat,
                    rows_of(*mask),
                    w0,
                ) == Some(self.worked()),
            decreases items@.len() - i,
        {
            let ghost f = |row: int| related_sum(
                cx,
                bound,
                level,
                relation as nat,
                items@,
                i as nat,
                row,
            );
            let ghost g = |row: int| related_cell(
                cx,
                bound,
                level,
                relation as nat,
                items@[i as int],
                row,
            );
            proof {
                related_scalars_fit_each(
                    cx.program,
                    bound,
                    level,
                    relation as nat,
                    items@,
                    items@.len(),
                    i as int,
                );
            }
            assert(decreases_to!(whole => items@[i as int]));
            assert(
                rows_of(state.1) =~= ok_rows(
                    rows_of(*mask),
                    |row: int| related_sum(
                        cx,
                        bound,
                        level,
                        relation as nat,
                        items@,
                        i as nat,
                        row,
                    ),
                )
            );
            let part = match self.resolve_related_scalar(
                relation,
                &items[i],
                &state.1,
                Ghost(bound),
                Ghost(level),
            ) {
                Ok(part) => part,
                Err(error) => {
                    proof {
                        if relateds_typed(cx, bound, level, relation as nat, items@, items@.len()) {
                            relateds_typed_each(
                                cx,
                                bound,
                                level,
                                relation as nat,
                                items@,
                                items@.len(),
                                i as int,
                            );
                        }
                        related_sum_fails(
                            cx,
                            bound,
                            level,
                            relation as nat,
                            items@,
                            (i + 1) as nat,
                            items@.len(),
                            rows_of(*mask),
                            w0,
                        );
                    }
                    return Err(error);
                },
            };
            state = add_item(state, part, mask, Ghost(f), Ghost(g));
            i = i + 1;
        }
        let ghost f = |row: int| related_sum(
            cx,
            bound,
            level,
            relation as nat,
            items@,
            items@.len(),
            row,
        );
        Ok(number_column(state, mask, Ghost(f)))
    }

    /// `max` or `min`: each item is evaluated for the rows that no earlier one failed.
    fn related_extremum(
        &mut self,
        relation: usize,
        items: &Vec<CompiledRelatedScalarExpr>,
        largest: bool,
        mask: &RowMask,
        Ghost(bound): Ghost<nat>,
        Ghost(level): Ghost<nat>,
        Ghost(whole): Ghost<CompiledRelatedScalarExpr>,
    ) -> (r: Result<(DenseColumn, RowErrors), EvalError>)
        requires
            old(self).ready(),
            bound <= old(self).facts().program.derived@.len(),
            relation < old(self).facts().batch.relations.len(),
            mask@.len() == old(self).facts().batch.relations[relation as int].related_count,
            items@.len() > 0,
            related_scalars_fit(
                old(self).facts().program,
                bound,
                level,
                relation as nat,
                items@,
                items@.len(),
            ),
            forall|i: int| #![trigger items@[i]] 0 <= i < items@.len() ==> decreases_to!(whole => items@[i]),
            whole == (
                if largest { CompiledRelatedScalarExpr::Max(*items) } else { CompiledRelatedScalarExpr::Min(*items) }
            ),
        ensures
            final(self).ready(),
            final(self).facts() == old(self).facts(),
            evaluated(
                r,
                *mask,
                |row: int|
                    as_decimal_value(
                        related_extremum(
                            old(self).facts(),
                            bound,
                            level,
                            relation as nat,
                            items@,
                            items@.len(),
                            largest,
                            row,
                        ),
                    ),
                typed_as(
                    relateds_typed(
                        old(self).facts(),
                        bound,
                        level,
                        relation as nat,
                        items@,
                        items@.len(),
                    ),
                    ColumnKind::Decimal,
                ),
                related_work_step(
                    old(self).facts(),
                    bound,
                    level,
                    relation as nat,
                    whole,
                    rows_of(*mask),
                    old(self).worked(),
                ),
                final(self).worked(),
            ),
        decreases bound, level, whole, 1int,
    {
        let ghost w0 = self.worked();
        let ghost cx = self.facts();
        proof {
                related_scalars_fit_each(
                    cx.program,
                    bound,
                    level,
                    relation as nat,
                    items@,
                    items@.len(),
                    0,
                );
            }
        assert(decreases_to!(whole => items@[0]));
        assert(
            related_extremum_work(
                cx,
                bound,
                level,
                relation as nat,
                items@,
                0,
                largest,
                rows_of(*mask),
                w0,
            ) == Some(w0)
        );
        assert(
            related_extremum_work(
                cx,
                bound,
                level,
                relation as nat,
                items@,
                1,
                largest,
                rows_of(*mask),
                w0,
            ) == related_work(cx, bound, level, relation as nat, items@[0], rows_of(*mask), w0)
        );
        let (column, mut errors) = match self.resolve_related_scalar(
            relation,
            &items[0],
            mask,
            Ghost(bound),
            Ghost(level),
        ) {
            Ok(part) => part,
            Err(error) => {
                proof {
                        if relateds_typed(cx, bound, level, relation as nat, items@, items@.len()) {
                            relateds_typed_each(
                                cx,
                                bound,
                                level,
                                relation as nat,
                                items@,
                                items@.len(),
                                0,
                            );
                        }
                        related_extremum_fails(
                            cx,
                            bound,
                            level,
                            relation as nat,
                            items@,
                            1,
                            items@.len(),
                            largest,
                            rows_of(*mask),
                            w0,
                        );
                    }
                return Err(error);
            },
        };
        let (best, live) = numeric_operand(
            &column,
            &mut errors,
            mask,
            Ghost(|row: int| related_cell(cx, bound, level, relation as nat, items@[0], row)),
        );
        let mut state = (best, live, errors);
        let mut i: usize = 1;
        while i < items.len()
            invariant
                1 <= i <= items@.len(),
                self.ready(),
                self.facts() == cx,
                cx == old(self).facts(),
                bound <= cx.program.derived@.len(),
                relation < cx.batch.relations.len(),
                mask@.len() == cx.batch.relations[relation as int].related_count,
                related_scalars_fit(
                    cx.program,
                    bound,
                    level,
                    relation as nat,
                    items@,
                    items@.len(),
                ),
                forall|j: int| #![trigger items@[j]] 0 <= j < items@.len() ==> decreases_to!(whole => items@[j]),
                staged(
                    state.0@,
                    state.1,
                    state.2,
                    *mask,
                    |row: int| related_extremum(
                        cx,
                        bound,
                        level,
                        relation as nat,
                        items@,
                        i as nat,
                        largest,
                        row,
                    ),
                ),
                w0 == old(self).worked(),
                whole == (
                    if largest { CompiledRelatedScalarExpr::Max(*items) } else { CompiledRelatedScalarExpr::Min(*items) }
                ),
                related_extremum_work(
                    cx,
                    bound,
                    level,
                    relation as nat,
                    items@,
                    i as nat,
                    largest,
                    rows_of(*mask),
                    w0,
                ) == Some(self.worked()),
            decreases items@.len() - i,
        {
            let ghost f = |row: int| related_extremum(
                cx,
                bound,
                level,
                relation as nat,
                items@,
                i as nat,
                largest,
                row,
            );
            let ghost g = |row: int| related_cell(
                cx,
                bound,
                level,
                relation as nat,
                items@[i as int],
                row,
            );
            proof {
                related_scalars_fit_each(
                    cx.program,
                    bound,
                    level,
                    relation as nat,
                    items@,
                    items@.len(),
                    i as int,
                );
            }
            assert(decreases_to!(whole => items@[i as int]));
            assert(
                rows_of(state.1) =~= ok_rows(
                    rows_of(*mask),
                    |row: int| related_extremum(
                        cx,
                        bound,
                        level,
                        relation as nat,
                        items@,
                        i as nat,
                        largest,
                        row,
                    ),
                )
            );
            let part = match self.resolve_related_scalar(
                relation,
                &items[i],
                &state.1,
                Ghost(bound),
                Ghost(level),
            ) {
                Ok(part) => part,
                Err(error) => {
                    proof {
                        if relateds_typed(cx, bound, level, relation as nat, items@, items@.len()) {
                            relateds_typed_each(
                                cx,
                                bound,
                                level,
                                relation as nat,
                                items@,
                                items@.len(),
                                i as int,
                            );
                        }
                        related_extremum_fails(
                            cx,
                            bound,
                            level,
                            relation as nat,
                            items@,
                            (i + 1) as nat,
                            items@.len(),
                            largest,
                            rows_of(*mask),
                            w0,
                        );
                    }
                    return Err(error);
                },
            };
            state = extremum_item(largest, state, part, mask, Ghost(f), Ghost(g));
            i = i + 1;
        }
        let ghost f = |row: int| related_extremum(
            cx,
            bound,
            level,
            relation as nat,
            items@,
            items@.len(),
            largest,
            row,
        );
        Ok(number_column(state, mask, Ghost(f)))
    }

    /// `ceil` or `floor`.
    fn related_integral(
        &mut self,
        relation: usize,
        upward: bool,
        value: &CompiledRelatedScalarExpr,
        mask: &RowMask,
        Ghost(bound): Ghost<nat>,
        Ghost(level): Ghost<nat>,
        Ghost(whole): Ghost<CompiledRelatedScalarExpr>,
    ) -> (r: Result<(DenseColumn, RowErrors), EvalError>)
        requires
            old(self).ready(),
            bound <= old(self).facts().program.derived@.len(),
            relation < old(self).facts().batch.relations.len(),
            mask@.len() == old(self).facts().batch.relations[relation as int].related_count,
            related_scalar_fits(old(self).facts().program, bound, level, relation as nat, *value),
            decreases_to!(whole => *value),
            if upward {
                whole matches CompiledRelatedScalarExpr::Ceil(a) && *a == *value
            } else {
                whole matches CompiledRelatedScalarExpr::Floor(a) && *a == *value
            },
        ensures
            final(self).ready(),
            final(self).facts() == old(self).facts(),
            evaluated(
                r,
                *mask,
                |row: int| integral_cell(
                    upward,
                    numbered(
                        related_cell(old(self).facts(), bound, level, relation as nat, *value, row),
                    ),
                ),
                typed_as(
                    related_kind(old(self).facts(), bound, level, relation as nat, *value) is Some,
                    ColumnKind::Decimal,
                ),
                related_work_step(
                    old(self).facts(),
                    bound,
                    level,
                    relation as nat,
                    whole,
                    rows_of(*mask),
                    old(self).worked(),
                ),
                final(self).worked(),
            ),
        decreases bound, level, whole, 1int,
    {
        let ghost cx = self.facts();
        let ghost f = |row: int| related_cell(cx, bound, level, relation as nat, *value, row);
        let (column, mut errors) = match self.resolve_related_scalar(
            relation,
            value,
            mask,
            Ghost(bound),
            Ghost(level),
        ) {
            Ok(part) => part,
            Err(error) => return Err(error),
        };
        let (numbers, live) = numeric_operand(&column, &mut errors, mask, Ghost(f));
        Ok(
            integral_column(
                upward,
                (numbers, live, errors),
                mask,
                Ghost(|row: int| numbered(f(row))),
            ),
        )
    }

    /// A date moved by a count of days, months or years: the date first.
    fn related_date_shift(
        &mut self,
        relation: usize,
        unit: ShiftUnit,
        date: &CompiledRelatedScalarExpr,
        count: &CompiledRelatedScalarExpr,
        mask: &RowMask,
        Ghost(bound): Ghost<nat>,
        Ghost(level): Ghost<nat>,
        Ghost(whole): Ghost<CompiledRelatedScalarExpr>,
    ) -> (r: Result<(DenseColumn, RowErrors), EvalError>)
        requires
            old(self).ready(),
            bound <= old(self).facts().program.derived@.len(),
            relation < old(self).facts().batch.relations.len(),
            mask@.len() == old(self).facts().batch.relations[relation as int].related_count,
            related_scalar_fits(old(self).facts().program, bound, level, relation as nat, *date),
            related_scalar_fits(old(self).facts().program, bound, level, relation as nat, *count),
            decreases_to!(whole => *date),
            decreases_to!(whole => *count),
            whole matches CompiledRelatedScalarExpr::DateShift { unit: u, date: d, count: c }
                && u == unit
                && *d == *date
                && *c == *count,
        ensures
            final(self).ready(),
            final(self).facts() == old(self).facts(),
            evaluated(
                r,
                *mask,
                |row: int|
                    shift_cell(
                        unit,
                        dated(
                            related_cell(
                                old(self).facts(),
                                bound,
                                level,
                                relation as nat,
                                *date,
                                row,
                            ),
                            unit.date_message(),
                        ),
                        counted(
                            related_cell(
                                old(self).facts(),
                                bound,
                                level,
                                relation as nat,
                                *count,
                                row,
                            ),
                            unit.count_message(),
                        ),
                    ),
                typed_as(
                    related_kind(old(self).facts(), bound, level, relation as nat, *date) is Some
                        && related_kind(
                            old(self).facts(),
                            bound,
                            level,
                            relation as nat,
                            *count,
                        ) is Some,
                    ColumnKind::Date,
                ),
                related_work_step(
                    old(self).facts(),
                    bound,
                    level,
                    relation as nat,
                    whole,
                    rows_of(*mask),
                    old(self).worked(),
                ),
                final(self).worked(),
            ),
        decreases bound, level, whole, 1int,
    {
        let ghost cx = self.facts();
        let ghost f = |row: int| related_cell(cx, bound, level, relation as nat, *date, row);
        let ghost g = |row: int| related_cell(cx, bound, level, relation as nat, *count, row);
        let (column, mut errors) = match self.resolve_related_scalar(
            relation,
            date,
            mask,
            Ghost(bound),
            Ghost(level),
        ) {
            Ok(part) => part,
            Err(error) => return Err(error),
        };
        let (dates, live) = date_operand(&column, &mut errors, mask, unit.date_error(), Ghost(f));
        assert(
            rows_of(live) =~= ok_rows(
                rows_of(*mask),
                |row: int| dated(
                    related_cell(cx, bound, level, relation as nat, *date, row),
                    unit.date_message(),
                ),
            )
        );
        let (column, mut more) = match self.resolve_related_scalar(
            relation,
            count,
            &live,
            Ghost(bound),
            Ghost(level),
        ) {
            Ok(part) => part,
            Err(error) => return Err(error),
        };
        let (counts, still) = index_operand(
            &column,
            &mut more,
            &live,
            unit.count_error(),
            Ghost(g),
        );
        Ok(
            combine_shift(
                unit,
                (dates, live, errors),
                (counts, still, more),
                mask,
                Ghost(|row: int| dated(f(row), unit.date_message())),
                Ghost(|row: int| counted(g(row), unit.count_message())),
            ),
        )
    }

    /// The days from one date to another.
    fn related_days_between(
        &mut self,
        relation: usize,
        from: &CompiledRelatedScalarExpr,
        to: &CompiledRelatedScalarExpr,
        mask: &RowMask,
        Ghost(bound): Ghost<nat>,
        Ghost(level): Ghost<nat>,
        Ghost(whole): Ghost<CompiledRelatedScalarExpr>,
    ) -> (r: Result<(DenseColumn, RowErrors), EvalError>)
        requires
            old(self).ready(),
            bound <= old(self).facts().program.derived@.len(),
            relation < old(self).facts().batch.relations.len(),
            mask@.len() == old(self).facts().batch.relations[relation as int].related_count,
            related_scalar_fits(old(self).facts().program, bound, level, relation as nat, *from),
            related_scalar_fits(old(self).facts().program, bound, level, relation as nat, *to),
            decreases_to!(whole => *from),
            decreases_to!(whole => *to),
            whole matches CompiledRelatedScalarExpr::DaysBetween { from: a, to: b }
                && *a == *from
                && *b == *to,
        ensures
            final(self).ready(),
            final(self).facts() == old(self).facts(),
            evaluated(
                r,
                *mask,
                |row: int|
                    between_cell(
                        dated(
                            related_cell(
                                old(self).facts(),
                                bound,
                                level,
                                relation as nat,
                                *from,
                                row,
                            ),
                            "days_between expects a date for `from`"@,
                        ),
                        dated(
                            related_cell(
                                old(self).facts(),
                                bound,
                                level,
                                relation as nat,
                                *to,
                                row,
                            ),
                            "days_between expects a date for `to`"@,
                        ),
                    ),
                typed_as(
                    related_kind(old(self).facts(), bound, level, relation as nat, *from) is Some
                        && related_kind(
                            old(self).facts(),
                            bound,
                            level,
                            relation as nat,
                            *to,
                        ) is Some,
                    ColumnKind::Integer,
                ),
                related_work_step(
                    old(self).facts(),
                    bound,
                    level,
                    relation as nat,
                    whole,
                    rows_of(*mask),
                    old(self).worked(),
                ),
                final(self).worked(),
            ),
        decreases bound, level, whole, 1int,
    {
        let ghost cx = self.facts();
        let ghost f = |row: int| related_cell(cx, bound, level, relation as nat, *from, row);
        let ghost g = |row: int| related_cell(cx, bound, level, relation as nat, *to, row);
        let (column, mut errors) = match self.resolve_related_scalar(
            relation,
            from,
            mask,
            Ghost(bound),
            Ghost(level),
        ) {
            Ok(part) => part,
            Err(error) => return Err(error),
        };
        let (a, live) = date_operand(
            &column,
            &mut errors,
            mask,
            "days_between expects a date for `from`",
            Ghost(f),
        );
        assert(
            rows_of(live) =~= ok_rows(
                rows_of(*mask),
                |row: int| dated(
                    related_cell(cx, bound, level, relation as nat, *from, row),
                    "days_between expects a date for `from`"@,
                ),
            )
        );
        let (column, mut more) = match self.resolve_related_scalar(
            relation,
            to,
            &live,
            Ghost(bound),
            Ghost(level),
        ) {
            Ok(part) => part,
            Err(error) => return Err(error),
        };
        let (b, still) = date_operand(
            &column,
            &mut more,
            &live,
            "days_between expects a date for `to`",
            Ghost(g),
        );
        Ok(
            combine_between(
                (a, live, errors),
                (b, still, more),
                mask,
                Ghost(|row: int| dated(f(row), "days_between expects a date for `from`"@)),
                Ghost(|row: int| dated(g(row), "days_between expects a date for `to`"@)),
            ),
        )
    }

    /// The fallback of a `match`. The placeholder is evaluated for no rows.
    fn related_no_match(
        &mut self,
        relation: usize,
        subject: &CompiledRelatedScalarExpr,
        placeholder: &CompiledRelatedScalarExpr,
        labels: &MatchLabels,
        mask: &RowMask,
        Ghost(bound): Ghost<nat>,
        Ghost(level): Ghost<nat>,
        Ghost(whole): Ghost<CompiledRelatedScalarExpr>,
    ) -> (r: Result<(DenseColumn, RowErrors), EvalError>)
        requires
            old(self).ready(),
            bound <= old(self).facts().program.derived@.len(),
            relation < old(self).facts().batch.relations.len(),
            mask@.len() == old(self).facts().batch.relations[relation as int].related_count,
            related_scalar_fits(old(self).facts().program, bound, level, relation as nat, *subject),
            related_scalar_fits(
                old(self).facts().program,
                bound,
                level,
                relation as nat,
                *placeholder,
            ),
            decreases_to!(whole => *subject),
            decreases_to!(whole => *placeholder),
            whole matches CompiledRelatedScalarExpr::NoMatch { subject: a, .. } && *a == *subject,
        ensures
            final(self).ready(),
            final(self).facts() == old(self).facts(),
            evaluated(
                r,
                *mask,
                |row: int| no_match_cell(
                    *labels,
                    related_cell(old(self).facts(), bound, level, relation as nat, *subject, row),
                ),
                if related_kind(
                    old(self).facts(),
                    bound,
                    level,
                    relation as nat,
                    *subject,
                ) is Some {
                    related_kind(old(self).facts(), bound, level, relation as nat, *placeholder)
                } else {
                    None
                },
                related_work_step(
                    old(self).facts(),
                    bound,
                    level,
                    relation as nat,
                    whole,
                    rows_of(*mask),
                    old(self).worked(),
                ),
                final(self).worked(),
            ),
        decreases bound, level, whole, 1int,
    {
        let ghost cx = self.facts();
        let nothing = RowMask::none(mask.len());
        proof {
            related_rests(
                cx,
                bound,
                level,
                relation as nat,
                *placeholder,
                rows_of(nothing),
                self.worked(),
            );
        }
        let (column, _) = match self.resolve_related_scalar(
            relation,
            placeholder,
            &nothing,
            Ghost(bound),
            Ghost(level),
        ) {
            Ok(part) => part,
            Err(error) => return Err(error),
        };
        let part = match self.resolve_related_scalar(
            relation,
            subject,
            mask,
            Ghost(bound),
            Ghost(level),
        ) {
            Ok(part) => part,
            Err(error) => return Err(error),
        };
        Ok(
            no_match_column(
                labels,
                column,
                part,
                mask,
                Ghost(|row: int| related_cell(cx, bound, level, relation as nat, *subject, row)),
            ),
        )
    }

    /// `if`: each branch is evaluated for the rows that select it.
    fn related_choice(
        &mut self,
        relation: usize,
        condition: &CompiledRelatedJudgmentExpr,
        then_expr: &CompiledRelatedScalarExpr,
        else_expr: &CompiledRelatedScalarExpr,
        mask: &RowMask,
        Ghost(bound): Ghost<nat>,
        Ghost(level): Ghost<nat>,
        Ghost(whole): Ghost<CompiledRelatedScalarExpr>,
    ) -> (r: Result<(DenseColumn, RowErrors), EvalError>)
        requires
            old(self).ready(),
            bound <= old(self).facts().program.derived@.len(),
            relation < old(self).facts().batch.relations.len(),
            mask@.len() == old(self).facts().batch.relations[relation as int].related_count,
            related_judgment_fits(
                old(self).facts().program,
                bound,
                level,
                relation as nat,
                *condition,
            ),
            related_scalar_fits(
                old(self).facts().program,
                bound,
                level,
                relation as nat,
                *then_expr,
            ),
            related_scalar_fits(
                old(self).facts().program,
                bound,
                level,
                relation as nat,
                *else_expr,
            ),
            decreases_to!(whole => *condition),
            decreases_to!(whole => *then_expr),
            decreases_to!(whole => *else_expr),
            whole matches CompiledRelatedScalarExpr::If { condition: c, then_expr: a, else_expr: b }
                && *c == *condition
                && *a == *then_expr
                && *b == *else_expr,
        ensures
            final(self).ready(),
            final(self).facts() == old(self).facts(),
            evaluated(
                r,
                *mask,
                |row: int|
                    if_cell(
                        related_outcome(
                            old(self).facts(),
                            bound,
                            level,
                            relation as nat,
                            *condition,
                            row,
                        ),
                        related_cell(
                            old(self).facts(),
                            bound,
                            level,
                            relation as nat,
                            *then_expr,
                            row,
                        ),
                        related_cell(
                            old(self).facts(),
                            bound,
                            level,
                            relation as nat,
                            *else_expr,
                            row,
                        ),
                    ),
                if related_typed(old(self).facts(), bound, level, relation as nat, *condition) {
                    joined_kind(
                        related_kind(old(self).facts(), bound, level, relation as nat, *then_expr),
                        related_kind(old(self).facts(), bound, level, relation as nat, *else_expr),
                    )
                } else {
                    None
                },
                related_work_step(
                    old(self).facts(),
                    bound,
                    level,
                    relation as nat,
                    whole,
                    rows_of(*mask),
                    old(self).worked(),
                ),
                final(self).worked(),
            ),
        decreases bound, level, whole, 1int,
    {
        let ghost cx = self.facts();
        let ghost c = |row: int| related_outcome(
            cx,
            bound,
            level,
            relation as nat,
            *condition,
            row,
        );
        let ghost f = |row: int| related_cell(cx, bound, level, relation as nat, *then_expr, row);
        let ghost g = |row: int| related_cell(cx, bound, level, relation as nat, *else_expr, row);
        let (outcomes, errors) = match self.eval_related_predicate(
            relation,
            condition,
            mask,
            Ghost(bound),
            Ghost(level),
        ) {
            Ok(part) => part,
            Err(error) => return Err(error),
        };
        let live = mask.without(&errors);
        let then_rows = holding_rows(&outcomes, &live);
        let else_rows = live.difference(&then_rows);
        proof {
            assert forall|row: int| #[trigger] mask.has(row) implies match c(row) {
                Err(error) => errors.at(row) == Some(error) && !then_rows.has(row)
                    && !else_rows.has(row),
                Ok(outcome) => errors.at(row) is None && then_rows.has(row) == (outcome is Holds)
                    && else_rows.has(row) == !(outcome is Holds),
            } by {
                assert(live.has(row) == (c(row) is Ok));
            }
            assert forall|row: int| #[trigger] then_rows.has(row) implies mask.has(row) by {
                assert(live.has(row));
            }
            assert forall|row: int| #[trigger] else_rows.has(row) implies mask.has(row) by {
                assert(live.has(row));
            }
            assert(
                rows_of(then_rows) =~= taken_rows(
                    rows_of(*mask),
                    |row: int| related_outcome(cx, bound, level, relation as nat, *condition, row),
                )
            );
            assert(
                rows_of(else_rows) =~= passed_rows(
                    rows_of(*mask),
                    |row: int| related_outcome(cx, bound, level, relation as nat, *condition, row),
                )
            );
        }
        let then_part = match self.resolve_related_scalar(
            relation,
            then_expr,
            &then_rows,
            Ghost(bound),
            Ghost(level),
        ) {
            Ok(part) => part,
            Err(error) => return Err(error),
        };
        let else_part = match self.resolve_related_scalar(
            relation,
            else_expr,
            &else_rows,
            Ghost(bound),
            Ghost(level),
        ) {
            Ok(part) => part,
            Err(error) => return Err(error),
        };
        combine_if(
            errors,
            &then_rows,
            then_part,
            &else_rows,
            else_part,
            mask,
            Ghost(c),
            Ghost(f),
            Ghost(g),
        )
    }

    /// A comparison: the left side first.
    fn related_comparison(
        &mut self,
        relation: usize,
        left: &CompiledRelatedScalarExpr,
        op: ComparisonOp,
        right: &CompiledRelatedScalarExpr,
        mask: &RowMask,
        Ghost(bound): Ghost<nat>,
        Ghost(level): Ghost<nat>,
        Ghost(whole): Ghost<CompiledRelatedJudgmentExpr>,
    ) -> (r: Result<(Vec<JudgmentOutcome>, RowErrors), EvalError>)
        requires
            old(self).ready(),
            bound <= old(self).facts().program.derived@.len(),
            relation < old(self).facts().batch.relations.len(),
            mask@.len() == old(self).facts().batch.relations[relation as int].related_count,
            related_scalar_fits(old(self).facts().program, bound, level, relation as nat, *left),
            related_scalar_fits(old(self).facts().program, bound, level, relation as nat, *right),
            decreases_to!(whole => *left),
            decreases_to!(whole => *right),
            whole matches CompiledRelatedJudgmentExpr::Comparison { left: a, right: b, .. }
                && a == *left
                && b == *right,
        ensures
            final(self).ready(),
            final(self).facts() == old(self).facts(),
            assessed(
                r,
                *mask,
                |row: int|
                    compare_cell(
                        related_cell(old(self).facts(), bound, level, relation as nat, *left, row),
                        op,
                        related_cell(old(self).facts(), bound, level, relation as nat, *right, row),
                    ),
                related_kind(old(self).facts(), bound, level, relation as nat, *left) is Some
                    && related_kind(
                        old(self).facts(),
                        bound,
                        level,
                        relation as nat,
                        *right,
                    ) is Some,
                related_judgment_work_step(
                    old(self).facts(),
                    bound,
                    level,
                    relation as nat,
                    whole,
                    rows_of(*mask),
                    old(self).worked(),
                ),
                final(self).worked(),
            ),
        decreases bound, level, whole, 1int,
    {
        let ghost cx = self.facts();
        let left_part = match self.resolve_related_scalar(
            relation,
            left,
            mask,
            Ghost(bound),
            Ghost(level),
        ) {
            Ok(part) => part,
            Err(error) => return Err(error),
        };
        let live = mask.without(&left_part.1);
        assert(
            rows_of(live) =~= ok_rows(
                rows_of(*mask),
                |row: int| related_cell(cx, bound, level, relation as nat, *left, row),
            )
        );
        let right_part = match self.resolve_related_scalar(
            relation,
            right,
            &live,
            Ghost(bound),
            Ghost(level),
        ) {
            Ok(part) => part,
            Err(error) => return Err(error),
        };
        Ok(
            compare_dense(
                left_part,
                op,
                right_part,
                mask,
                &live,
                Ghost(|row: int| related_cell(cx, bound, level, relation as nat, *left, row)),
                Ghost(|row: int| related_cell(cx, bound, level, relation as nat, *right, row)),
            ),
        )
    }

    /// `and` or `or`: each item is evaluated for the rows that no earlier item
    /// decided. A row with an undetermined item and no decisive one is undetermined.
    fn related_short_circuit(
        &mut self,
        relation: usize,
        items: &Vec<CompiledRelatedJudgmentExpr>,
        decisive: JudgmentOutcome,
        mask: &RowMask,
        Ghost(bound): Ghost<nat>,
        Ghost(level): Ghost<nat>,
        Ghost(whole): Ghost<CompiledRelatedJudgmentExpr>,
    ) -> (r: Result<(Vec<JudgmentOutcome>, RowErrors), EvalError>)
        requires
            old(self).ready(),
            bound <= old(self).facts().program.derived@.len(),
            relation < old(self).facts().batch.relations.len(),
            mask@.len() == old(self).facts().batch.relations[relation as int].related_count,
            related_judgments_fit(
                old(self).facts().program,
                bound,
                level,
                relation as nat,
                items@,
                items@.len(),
            ),
            forall|i: int| #![trigger items@[i]] 0 <= i < items@.len() ==> decreases_to!(whole => items@[i]),
            (decisive == JudgmentOutcome::NotHolds
                && whole == CompiledRelatedJudgmentExpr::And(*items))
                || (decisive == JudgmentOutcome::Holds
                    && whole == CompiledRelatedJudgmentExpr::Or(*items)),
        ensures
            final(self).ready(),
            final(self).facts() == old(self).facts(),
            assessed(
                r,
                *mask,
                |row: int|
                    connective_outcome(
                        decisive,
                        related_connective(
                            old(self).facts(),
                            bound,
                            level,
                            relation as nat,
                            items@,
                            items@.len(),
                            decisive,
                            row,
                        ),
                    ),
                related_items_typed(
                    old(self).facts(),
                    bound,
                    level,
                    relation as nat,
                    items@,
                    items@.len(),
                ),
                related_judgment_work_step(
                    old(self).facts(),
                    bound,
                    level,
                    relation as nat,
                    whole,
                    rows_of(*mask),
                    old(self).worked(),
                ),
                final(self).worked(),
            ),
        decreases bound, level, whole, 1int,
    {
        let ghost w0 = self.worked();
        let ghost cx = self.facts();
        let mut state = (
            mask.duplicate(),
            repeated(false, mask.len()),
            RowErrors::new(),
        );
        let mut i: usize = 0;
        while i < items.len() && !state.0.is_empty()
            invariant
                i <= items@.len(),
                self.ready(),
                self.facts() == cx,
                cx == old(self).facts(),
                bound <= cx.program.derived@.len(),
                relation < cx.batch.relations.len(),
                mask@.len() == cx.batch.relations[relation as int].related_count,
                related_judgments_fit(
                    cx.program,
                    bound,
                    level,
                    relation as nat,
                    items@,
                    items@.len(),
                ),
                forall|j: int| #![trigger items@[j]] 0 <= j < items@.len() ==> decreases_to!(whole => items@[j]),
                connective_is(
                    state.0,
                    state.1@,
                    state.2,
                    *mask,
                    |row: int| related_connective(
                        cx,
                        bound,
                        level,
                        relation as nat,
                        items@,
                        i as nat,
                        decisive,
                        row,
                    ),
                ),
                w0 == old(self).worked(),
                (decisive == JudgmentOutcome::NotHolds
                    && whole == CompiledRelatedJudgmentExpr::And(*items))
                    || (decisive == JudgmentOutcome::Holds
                        && whole == CompiledRelatedJudgmentExpr::Or(*items)),
                related_connective_work(
                    cx,
                    bound,
                    level,
                    relation as nat,
                    items@,
                    i as nat,
                    decisive,
                    rows_of(*mask),
                    w0,
                ) == Some(self.worked()),
            decreases items@.len() - i,
        {
            let ghost f = |row: int| related_connective(
                cx,
                bound,
                level,
                relation as nat,
                items@,
                i as nat,
                decisive,
                row,
            );
            let ghost g = |row: int| related_outcome(
                cx,
                bound,
                level,
                relation as nat,
                items@[i as int],
                row,
            );
            proof {
                related_judgments_fit_each(
                    cx.program,
                    bound,
                    level,
                    relation as nat,
                    items@,
                    items@.len(),
                    i as int,
                );
            }
            assert(decreases_to!(whole => items@[i as int]));
            assert(
                rows_of(state.0) =~= open_rows(
                    rows_of(*mask),
                    |row: int| related_connective(
                        cx,
                        bound,
                        level,
                        relation as nat,
                        items@,
                        i as nat,
                        decisive,
                        row,
                    ),
                )
            );
            let part = match self.eval_related_predicate(
                relation,
                &items[i],
                &state.0,
                Ghost(bound),
                Ghost(level),
            ) {
                Ok(part) => part,
                Err(error) => {
                    proof {
                        if related_items_typed(
                            cx,
                            bound,
                            level,
                            relation as nat,
                            items@,
                            items@.len(),
                        ) {
                            related_items_typed_each(
                                cx,
                                bound,
                                level,
                                relation as nat,
                                items@,
                                items@.len(),
                                i as int,
                            );
                        }
                        related_connective_fails(
                            cx,
                            bound,
                            level,
                            relation as nat,
                            items@,
                            (i + 1) as nat,
                            items@.len(),
                            decisive,
                            rows_of(*mask),
                            w0,
                        );
                    }
                    return Err(error);
                },
            };
            state = short_circuit_item(decisive, state, part, mask, Ghost(f), Ghost(g));
            i = i + 1;
        }
        let ghost f = |row: int| related_connective(
            cx,
            bound,
            level,
            relation as nat,
            items@,
            items@.len(),
            decisive,
            row,
        );
        proof {
            assert(
                rows_of(state.0) =~= open_rows(
                    rows_of(*mask),
                    |row: int| related_connective(
                        cx,
                        bound,
                        level,
                        relation as nat,
                        items@,
                        i as nat,
                        decisive,
                        row,
                    ),
                )
            );
            if i < items@.len() {
                related_connective_rests(
                    cx,
                    bound,
                    level,
                    relation as nat,
                    items@,
                    i as nat,
                    items@.len(),
                    decisive,
                    rows_of(*mask),
                    w0,
                );
            }
        }
        proof {
            assert forall|row: int| #[trigger] mask.has(row) implies f(row) == related_connective(
                cx,
                bound,
                level,
                relation as nat,
                items@,
                i as nat,
                decisive,
                row,
            ) by {
                if i < items@.len() {
                    assert(!state.0.has(row));
                    related_connective_settled(
                        cx,
                        bound,
                        level,
                        relation as nat,
                        items@,
                        i as nat,
                        items@.len(),
                        decisive,
                        row,
                    );
                }
            }
        }
        Ok(short_circuit_end(decisive, state, mask, Ghost(f)))
    }
}

} // verus!
