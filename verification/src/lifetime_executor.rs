//! Execution of compiled programs over a lifetime.
//!
//! Evaluation is lazy per row, as for one period: a reduction, a check that an input
//! does not vary and a top-N count see only the rows that reach them, and a row
//! stops at its first failing period.
use crate::column::{
    add_item, binary_cell, broadcast_scalar_literal, column_is, combine_binary, combine_if,
    compare_cell, compare_dense, connective_is, connective_outcome, copied, extremum_item,
    fail_all, fail_numeric, holding_rows, if_cell, integral_cell, integral_column, judged,
    lookup_parameter_dense, negate, no_match_cell, no_match_column, number_column, numbered,
    numeric_operand, repeated, round_dense_column, short_circuit_end, short_circuit_item, staged,
    BinaryOp, ColumnKind, DenseColumn, MatchLabels, ShiftUnit,
};
use crate::date::Date;
use crate::decimal::Decimal;
use crate::dense::{
    judgment_fits, judgments_fit, judgments_fit_each, scalar_fits, scalars_fit, scalars_fit_each,
    CompiledJudgmentExpr, CompiledScalarExpr, CompiledSemantics, DenseCompiledProgram,
};
use crate::error::{checked_add, outcome, ErrorView, EvalError};
use crate::executor::{
    done_rows, merge_judgment, merge_scalar, pending_rows, DenseExecutor, DerivedColumn,
};
use crate::format::format_value_label;
use crate::idle::{
    cells_fails, cells_rests, counts_fails, counts_rests, in_period_rests, life_connective_fails,
    life_connective_rests, life_extremum_fails, life_formula_rests, life_judgment_formula_rests,
    life_rests, life_sum_fails, numbers_fails, numbers_rests,
};
use crate::kinds::{assessed, evaluated, joined_kind, mixed_branches, root_kind, typed_as};
use crate::lazy::{RowErrors, RowMask};
use crate::lifetime::{
    counts_as, descending, descending_is_sorted, diverging_at, invariant_cell, largest_of, life_cell,
    life_connective, life_extremum, life_is_step, life_items_typed, life_items_typed_each, life_kind,
    life_outcome, life_outcome_is_step, life_rule, life_rule_kind, life_rule_outcome,
    life_rule_typed, life_sum, life_typed, lives_typed, lives_typed_each, over_periods_cell,
    period_cell, period_cells, period_count, period_numbers, periods_typed, rank_in, top_n,
    total_of, varying_at, LifetimeFacts,
};
use crate::mixing::{
    cells_work, counts_work, fresh, in_period, life_connective_work, life_extremum_work,
    life_formula_work, life_fresh, life_judgment_formula_work, life_judgment_work,
    life_judgment_work_step, life_rule_judgment_work, life_rule_work, life_sum_work, life_work,
    life_work_step, none_of, numbers_work, ok_rows, open_rows, over_periods_work, passed_rows,
    rows_of, taken_rows, top_n_work, LifeWorked, Worked,
};
use crate::model::{ComparisonOp, JudgmentOutcome, OverPeriodsKind, ScalarValue};
use crate::semantics::{as_decimal_value, capped};
use crate::text::{i64_text, int_text, owned, usize_text};
use vstd::prelude::*;
use vstd::string::*;

verus! {

/// Once a row is decided or has failed, further items change nothing.
proof fn life_connective_settled(
    lx: LifetimeFacts,
    bound: nat,
    items: Seq<CompiledJudgmentExpr>,
    i: nat,
    n: nat,
    decisive: JudgmentOutcome,
    row: int,
)
    requires
        i <= n <= items.len(),
        match life_connective(lx, bound, items, i, decisive, row) {
            Ok(s) => s.decided,
            Err(_) => true,
        },
    ensures
        life_connective(lx, bound, items, n, decisive, row) == life_connective(
            lx,
            bound,
            items,
            i,
            decisive,
            row,
        ),
    decreases n,
{
    if i < n {
        life_connective_settled(lx, bound, items, i, (n - 1) as nat, decisive, row);
    }
}

/// Whether two columns disagree at a row. Numbers of different dtypes are compared by
/// value; other different dtypes and different lengths disagree.
pub fn values_differ(left: &DenseColumn, right: &DenseColumn, row: usize) -> (r: bool)
    requires
        left.rows() == right.rows() ==> row < left.rows(),
    ensures
        r == (left.rows() != right.rows() || !left.cell(row as int).equals(
            right.cell(row as int),
        )),
{
    if left.len() != right.len() {
        return true;
    }
    !left.value_at(row).equal_to(&right.value_at(row))
}

/// Counts, per live row, a value that is a true boolean or a number other than zero.
pub fn accumulate_nonzero_counts(
    column: &DenseColumn,
    live: &RowMask,
    counts: &mut Vec<i64>,
    errors: &mut RowErrors,
) -> (r: Result<(), EvalError>)
    requires
        live@.len() == old(counts)@.len(),
    ensures
        final(counts)@.len() == old(counts)@.len(),
        match r {
            Err(error) => {
                &&& column.rows() != old(counts)@.len()
                &&& error@ == ErrorView::TypeMismatch(
                    "count_over_periods inner value produced "@ + int_text(column.rows() as int)
                        + " rows but the batch has "@ + int_text(old(counts)@.len() as int),
                )
                &&& *final(counts) == *old(counts)
                &&& *final(errors) == *old(errors)
            },
            Ok(_) => {
                &&& column.rows() == old(counts)@.len()
                &&& forall|row: int| #[trigger]
                    live.has(row) ==> match counts_as(column.cell(row)) {
                        Ok(counts_one) => {
                            &&& final(errors).at(row) == old(errors).at(row)
                            &&& final(counts)@[row] == if counts_one && old(counts)@[row]
                                < i64::MAX {
                                (old(counts)@[row] + 1) as i64
                            } else {
                                old(counts)@[row]
                            }
                        },
                        Err(error) => final(errors).at(row) == match old(errors).at(row) {
                            Some(earlier) => Some(earlier),
                            None => Some(error),
                        },
                    }
                &&& forall|row: int|
                    #![trigger final(errors).at(row)]
                    !live.has(row) ==> final(errors).at(row) == old(errors).at(row)
            },
        },
{
    if column.len() != counts.len() {
        let mut message = owned("count_over_periods inner value produced ");
        message.append(usize_text(column.len()).as_str());
        message.append(" rows but the batch has ");
        message.append(usize_text(counts.len()).as_str());
        return Err(EvalError::TypeMismatch(message));
    }
    if matches!(column, DenseColumn::Text(_) | DenseColumn::Date(_)) {
        errors.record_all(
            live,
            &EvalError::TypeMismatch(
                owned(
                    "count_over_periods requires a numeric or boolean inner value (text and date have no zero to count against)",
                ),
            ),
        );
        return Ok(());
    }
    let len = counts.len();
    let ghost before = counts@;
    let mut i: usize = 0;
    while i < len
        invariant
            i <= len,
            len == before.len(),
            counts@.len() == len,
            column.rows() == len,
            live@.len() == len,
            !(column is Text),
            !(column is Date),
            forall|row: int| i <= row < len ==> #[trigger] counts@[row] == before[row],
            forall|row: int| #[trigger]
                live.has(row) && row < i ==> counts_as(column.cell(row)) is Ok && counts@[row]
                    == if counts_as(column.cell(row)) == Ok::<bool, ErrorView>(true) && before[row]
                    < i64::MAX {
                    (before[row] + 1) as i64
                } else {
                    before[row]
                },
        decreases len - i,
    {
        if live.contains(i) {
            let nonzero = match column {
                DenseColumn::Bool(values) => values[i],
                DenseColumn::Integer(values) => {
                    proof {
                        Decimal::parts_of(
                            values@[i as int] < 0,
                            if values@[i as int] < 0 {
                                -(values@[i as int] as int)
                            } else {
                                values@[i as int] as int
                            } as nat,
                            0,
                        );
                    }
                    values[i] != 0
                },
                DenseColumn::Decimal(values) => !values[i].is_zero(),
                _ => false,
            };
            if nonzero && counts[i] < i64::MAX {
                counts.set(i, counts[i] + 1);
            }
        }
        i = i + 1;
    }
    Ok(())
}

/// The numbers of a row in every period.
fn row_numbers(per_period: &Vec<Vec<Decimal>>, row: usize) -> (r: Vec<Decimal>)
    requires
        forall|p: int| 0 <= p < per_period@.len() ==> row < (#[trigger] per_period@[p])@.len(),
    ensures
        r@ == numbers_at(per_period@, row as int),
{
    let mut r: Vec<Decimal> = Vec::new();
    let mut p: usize = 0;
    while p < per_period.len()
        invariant
            p <= per_period@.len(),
            r@.len() == p,
            forall|q: int| 0 <= q < per_period@.len() ==> row < (#[trigger] per_period@[q])@.len(),
            forall|q: int| 0 <= q < p ==> #[trigger] r@[q] == per_period@[q]@[row as int],
        decreases per_period@.len() - p,
    {
        let value = per_period[p][row];
        r.push(value);
        p = p + 1;
    }
    assert(r@ =~= numbers_at(per_period@, row as int));
    r
}

/// The numbers of a row in every period.
spec fn numbers_at(per_period: Seq<Vec<Decimal>>, row: int) -> Seq<Decimal> {
    Seq::new(per_period.len(), |p: int| per_period[p]@[row])
}

/// The values of a row in every period.
spec fn cells_at(per_period: Seq<DenseColumn>, row: int) -> Seq<ScalarValue> {
    Seq::new(per_period.len(), |p: int| per_period[p].cell(row))
}

/// The sum of the first `n` numbers.
fn total(numbers: &Vec<Decimal>, n: usize) -> (r: Result<Decimal, EvalError>)
    requires
        n <= numbers@.len(),
    ensures
        outcome(r) == total_of(numbers@.take(n as int)),
{
    let mut sum = Decimal::zero();
    let mut i: usize = 0;
    while i < n
        invariant
            i <= n <= numbers@.len(),
            total_of(numbers@.take(i as int)) == Ok::<Decimal, ErrorView>(sum),
        decreases n - i,
    {
        let ghost longer = numbers@.take(i + 1);
        assert(longer.drop_last() =~= numbers@.take(i as int));
        assert(longer.last() == numbers@[i as int]);
        match checked_add(sum, numbers[i]) {
            Ok(next) => {
                sum = next;
            },
            Err(error) => {
                proof {
                    total_fails(numbers@, i + 1, n as int);
                }
                return Err(error);
            },
        }
        i = i + 1;
    }
    Ok(sum)
}

/// A sum that left the range stays out of it.
proof fn total_fails(numbers: Seq<Decimal>, m: int, n: int)
    requires
        0 <= m <= n <= numbers.len(),
        total_of(numbers.take(m)) is Err,
    ensures
        total_of(numbers.take(n)) == total_of(numbers.take(m)),
    decreases n,
{
    if m < n {
        total_fails(numbers, m, n - 1);
        assert(numbers.take(n).drop_last() =~= numbers.take(n - 1));
    }
}

/// The largest number.
fn largest(numbers: &Vec<Decimal>) -> (r: Decimal)
    requires
        numbers@.len() > 0,
    ensures
        r == largest_of(numbers@),
{
    let mut best = numbers[0];
    let mut i: usize = 1;
    while i < numbers.len()
        invariant
            1 <= i <= numbers@.len(),
            best == largest_of(numbers@.take(i as int)),
        decreases numbers@.len() - i,
    {
        let ghost longer = numbers@.take(i + 1);
        assert(longer.drop_last() =~= numbers@.take(i as int));
        assert(longer.last() == numbers@[i as int]);
        if best.is_below(&numbers[i]) {
            best = numbers[i];
        }
        i = i + 1;
    }
    assert(numbers@.take(numbers@.len() as int) =~= numbers@);
    best
}

/// The numbers in descending order, equal ones in their order.
fn sorted_descending(numbers: &Vec<Decimal>) -> (r: Vec<Decimal>)
    ensures
        r@ == descending(numbers@),
{
    let mut r: Vec<Decimal> = Vec::new();
    let mut i: usize = 0;
    while i < numbers.len()
        invariant
            i <= numbers@.len(),
            r@ == descending(numbers@.take(i as int)),
            r@.len() == i,
        decreases numbers@.len() - i,
    {
        let x = numbers[i];
        let ghost longer = numbers@.take(i + 1);
        let ghost whole = r@;
        assert(longer.drop_last() =~= numbers@.take(i as int));
        assert(longer.last() == x);
        let mut at: usize = r.len();
        assert(whole.take(at as int) =~= whole);
        while at > 0 && r[at - 1].is_below(&x)
            invariant
                at <= r@.len(),
                r@ == whole,
                rank_in(whole.take(at as int), x) == rank_in(whole, x),
            ensures
                rank_in(whole, x) == at,
                at <= r@.len(),
                r@ == whole,
            decreases at,
        {
            assert(whole.take(at as int).drop_last() =~= whole.take(at - 1));
            assert(whole.take(at as int).last() == whole[at - 1]);
            at = at - 1;
        }
        r.insert(at, x);
        i = i + 1;
    }
    assert(numbers@.take(numbers@.len() as int) =~= numbers@);
    r
}

/// Whether the columns of the first periods, the rows that still live and the errors
/// are those of a formula.
spec fn columns_are(
    lx: LifetimeFacts,
    bound: nat,
    e: CompiledScalarExpr,
    columns: Seq<DenseColumn>,
    live: RowMask,
    errors: RowErrors,
    mask: RowMask,
) -> bool {
    &&& live@.len() == mask@.len()
    &&& forall|p: int| 0 <= p < columns.len() ==> (#[trigger] columns[p]).rows() == mask@.len()
    &&& forall|row: int| #[trigger]
        mask.has(row) ==> match period_cells(lx, bound, e, columns.len(), row) {
            Ok(cells) => live.has(row) && errors.at(row) is None && cells == cells_at(columns, row),
            Err(error) => !live.has(row) && errors.at(row) == Some(error),
        }
    &&& forall|row: int| #[trigger] live.has(row) ==> mask.has(row)
    &&& forall|row: int| #![trigger errors.at(row)] !mask.has(row) ==> errors.at(row) is None
}

/// Whether the numbers of the first periods, the rows that still live and the errors
/// are those of a formula.
spec fn numbers_are(
    lx: LifetimeFacts,
    bound: nat,
    e: CompiledScalarExpr,
    numbers: Seq<Vec<Decimal>>,
    live: RowMask,
    errors: RowErrors,
    mask: RowMask,
) -> bool {
    &&& live@.len() == mask@.len()
    &&& forall|p: int| 0 <= p < numbers.len() ==> (#[trigger] numbers[p])@.len() == mask@.len()
    &&& forall|row: int| #[trigger]
        mask.has(row) ==> match period_numbers(lx, bound, e, numbers.len(), row) {
            Ok(values) => live.has(row) && errors.at(row) is None && values == numbers_at(
                numbers,
                row,
            ),
            Err(error) => !live.has(row) && errors.at(row) == Some(error),
        }
    &&& forall|row: int| #[trigger] live.has(row) ==> mask.has(row)
    &&& forall|row: int| #![trigger errors.at(row)] !mask.has(row) ==> errors.at(row) is None
}

/// Whether the counts of the first `n` periods, the rows that still live and the
/// errors are those of a formula.
spec fn counts_are(
    lx: LifetimeFacts,
    bound: nat,
    e: CompiledScalarExpr,
    n: nat,
    counts: Seq<i64>,
    live: RowMask,
    errors: RowErrors,
    mask: RowMask,
) -> bool {
    &&& live@.len() == mask@.len()
    &&& counts.len() == mask@.len()
    &&& forall|row: int| #[trigger]
        mask.has(row) ==> match period_count(lx, bound, e, n, row) {
            Ok(count) => live.has(row) && errors.at(row) is None && counts[row] == capped(count),
            Err(error) => !live.has(row) && errors.at(row) == Some(error),
        }
    &&& forall|row: int| #[trigger] live.has(row) ==> mask.has(row)
    &&& forall|row: int| #![trigger errors.at(row)] !mask.has(row) ==> errors.at(row) is None
}

/// Evaluates compiled rules over periods, each rule once per row. It holds one
/// executor per period, all of the same rows in the same order.
pub(crate) struct LifetimeExecutor<'a> {
    pub program: &'a DenseCompiledProgram,
    pub period_executors: Vec<DenseExecutor<'a>>,
    pub row_count: usize,
    pub scalar_cache: Vec<Option<DerivedColumn<DenseColumn>>>,
    pub judgment_cache: Vec<Option<DerivedColumn<Vec<JudgmentOutcome>>>>,
}

impl<'a> LifetimeExecutor<'a> {
    /// The rows that each rule has been evaluated for.
    pub(crate) open spec fn worked(&self) -> LifeWorked {
        LifeWorked {
            own: Worked {
                scalars: Seq::new(
                    self.scalar_cache@.len(),
                    |i: int| done_rows(self.scalar_cache@[i]),
                ),
                judgments: Seq::new(
                    self.judgment_cache@.len(),
                    |i: int| done_rows(self.judgment_cache@[i]),
                ),
            },
            periods: Seq::new(
                self.period_executors@.len(),
                |p: int| self.period_executors@[p].worked(),
            ),
        }
    }

    /// The executors are those of the periods, and what is cached is what the rules
    /// give.
    pub(crate) open spec fn ready(&self, lx: LifetimeFacts) -> bool {
        &&& lx.aligned()
        &&& *self.program == lx.program
        &&& self.row_count == lx.row_count
        &&& self.period_executors@.len() == lx.periods.len()
        &&& forall|p: int| #![trigger self.period_executors@[p]]
            0 <= p < lx.periods.len() ==> self.period_executors@[p].ready()
                && self.period_executors@[p].facts() == lx.periods[p]
        &&& self.scalar_cache@.len() == lx.program.derived@.len()
        &&& self.judgment_cache@.len() == lx.program.derived@.len()
        &&& forall|i: int| #![trigger self.scalar_cache@[i]]
            0 <= i < self.scalar_cache@.len() ==> (self.scalar_cache@[i] matches Some(c) ==> {
                &&& c.computed@.len() == lx.row_count
                &&& column_is(
                    c.values,
                    c.errors,
                    c.computed,
                    |row: int| life_rule(lx, i as nat, row),
                )
                &&& life_rule_kind(lx, i as nat) matches Some(k) ==> c.values.kind() == k
            })
        &&& forall|i: int| #![trigger self.judgment_cache@[i]]
            0 <= i < self.judgment_cache@.len() ==> (self.judgment_cache@[i] matches Some(c) ==> {
                &&& c.computed@.len() == lx.row_count
                &&& judged(
                    c.values@,
                    c.errors,
                    c.computed,
                    |row: int| life_rule_outcome(lx, i as nat, row),
                )
            })
    }

    pub(crate) fn new(
        program: &'a DenseCompiledProgram,
        period_executors: Vec<DenseExecutor<'a>>,
        row_count: usize,
        Ghost(lx): Ghost<LifetimeFacts>,
    ) -> (r: LifetimeExecutor<'a>)
        requires
            lx.aligned(),
            *program == lx.program,
            row_count == lx.row_count,
            period_executors@.len() == lx.periods.len(),
            forall|p: int| #![trigger period_executors@[p]]
                0 <= p < lx.periods.len() ==> period_executors@[p].ready()
                    && period_executors@[p].facts() == lx.periods[p]
                    && period_executors@[p].worked() == fresh(lx.program.derived@.len()),
        ensures
            r.ready(lx),
            r.worked() =~~= life_fresh(lx),
    {
        let mut scalar_cache: Vec<Option<DerivedColumn<DenseColumn>>> = Vec::new();
        let mut judgment_cache: Vec<Option<DerivedColumn<Vec<JudgmentOutcome>>>> = Vec::new();
        let mut i: usize = 0;
        while i < program.derived.len()
            invariant
                i <= program.derived@.len(),
                scalar_cache@.len() == i,
                judgment_cache@.len() == i,
                forall|j: int| 0 <= j < i ==> #[trigger] scalar_cache@[j] is None,
                forall|j: int| 0 <= j < i ==> #[trigger] judgment_cache@[j] is None,
            decreases program.derived@.len() - i,
        {
            scalar_cache.push(None);
            judgment_cache.push(None);
            i = i + 1;
        }
        LifetimeExecutor { program, period_executors, row_count, scalar_cache, judgment_cache }
    }

    /// A scalar rule's column for the rows of `mask`, computed only for rows that no
    /// earlier reference asked for.
    pub(crate) fn evaluate_scalar(
        &mut self,
        derived_index: usize,
        mask: &RowMask,
        Ghost(lx): Ghost<LifetimeFacts>,
    ) -> (r: Result<(DenseColumn, RowErrors), EvalError>)
        requires
            old(self).ready(lx),
            derived_index < lx.program.derived@.len(),
            mask@.len() == lx.row_count,
        ensures
            final(self).ready(lx),
            evaluated(
                r,
                *mask,
                |row: int| life_rule(lx, derived_index as nat, row),
                life_rule_kind(lx, derived_index as nat),
                life_rule_work(lx, derived_index as nat, rows_of(*mask), old(self).worked()),
                final(self).worked(),
            ),
        decreases derived_index as nat, 3nat, lx, 1int,
    {
        let ghost f = |row: int| life_rule(lx, derived_index as nat, row);
        let ghost w0 = self.worked();
        let mut cached: Option<DerivedColumn<DenseColumn>> = None;
        self.scalar_cache.set_and_swap(derived_index, &mut cached);
        assert(self.ready(lx));
        let pending = pending_rows(&cached, mask);
        let ghost done = done_rows(cached);
        let ghost aside = LifeWorked { own: Worked { scalars: w0.own.scalars.update(
            derived_index as int,
            Set::empty(),
        ), ..w0.own }, ..w0 };
        proof {
            assert(done =~= w0.own.scalars[derived_index as int]);
            assert(self.worked() =~~= aside);
            assert(rows_of(pending) =~= rows_of(*mask).difference(done));
            if none_of(rows_of(pending)) {
                life_formula_rests(lx, derived_index as nat, rows_of(pending), aside);
            }
        }
        let current = if cached.is_some() && pending.is_empty() {
            match cached {
                Some(current) => current,
                None => return self.compute_scalar(derived_index, mask, Ghost(lx)),
            }
        } else {
            let part = match self.compute_scalar(derived_index, &pending, Ghost(lx)) {
                Ok(part) => part,
                Err(error) => return Err(error),
            };
            match merge_scalar(
                cached,
                pending,
                part,
                Ghost(f),
                Ghost(life_rule_kind(lx, derived_index as nat)),
            ) {
                Ok(current) => current,
                Err(error) => return Err(error),
            }
        };
        proof {
            assert forall|row: int| #[trigger] mask.has(row) implies current.computed.has(row) by {
                if cached is Some && !pending.has(row) {
                } else {
                    assert(pending.has(row) || current.computed.has(row));
                }
            }
        }
        let values = current.values.duplicate();
        let errors = current.errors.restricted_to(mask);
        proof {
            assert forall|row: int| #[trigger] mask.has(row) implies match f(row) {
                Ok(value) => errors.at(row) is None && values.cell(row) == value,
                Err(error) => errors.at(row) == Some(error),
            } by {
                assert(current.computed.has(row));
                assert(values.cell(row) == current.values.cell(row));
            }
        }
        let ghost w1 = self.worked();
        assert(rows_of(current.computed) =~= done.union(rows_of(pending)));
        self.scalar_cache.set(derived_index, Some(current));
        assert(
            self.worked() =~~= LifeWorked { own: Worked { scalars: w1.own.scalars.update(
                derived_index as int,
                done.union(rows_of(pending)),
            ), ..w1.own }, ..w1 }
        );
        assert(none_of(rows_of(*mask)) ==> self.worked() =~~= w0);
        Ok((values, errors))
    }

    fn compute_scalar(
        &mut self,
        derived_index: usize,
        mask: &RowMask,
        Ghost(lx): Ghost<LifetimeFacts>,
    ) -> (r: Result<(DenseColumn, RowErrors), EvalError>)
        requires
            old(self).ready(lx),
            derived_index < lx.program.derived@.len(),
            mask@.len() == lx.row_count,
        ensures
            final(self).ready(lx),
            evaluated(
                r,
                *mask,
                |row: int| life_rule(lx, derived_index as nat, row),
                life_rule_kind(lx, derived_index as nat),
                life_formula_work(lx, derived_index as nat, rows_of(*mask), old(self).worked()),
                final(self).worked(),
            ),
        decreases derived_index as nat, 3nat, lx, 0int,
    {
        let program = self.program;
        let derived = &program.derived[derived_index];
        assert(lx.program.derived@[derived_index as int] == *derived);
        let expr = match &derived.semantics {
            CompiledSemantics::Scalar(expr) => expr,
            CompiledSemantics::Judgment(_) => {
                return Ok(fail_numeric(mask, EvalError::ExpectedScalar(derived.name.clone())));
            },
        };
        let (column, errors) = match self.eval_scalar(
            expr,
            mask,
            Ghost(lx),
            Ghost(derived_index as nat),
        ) {
            Ok(part) => part,
            Err(error) => return Err(error),
        };
        let errors = errors.within_rule(derived.label.as_str());
        let column = match derived.rounding {
            Some(rounding) => round_dense_column(column, rounding),
            None => column,
        };
        Ok((column, errors))
    }

    /// A judgment rule's outcomes for the rows of `mask`, computed only for rows that
    /// no earlier reference asked for.
    pub(crate) fn evaluate_judgment(
        &mut self,
        derived_index: usize,
        mask: &RowMask,
        Ghost(lx): Ghost<LifetimeFacts>,
    ) -> (r: Result<(Vec<JudgmentOutcome>, RowErrors), EvalError>)
        requires
            old(self).ready(lx),
            derived_index < lx.program.derived@.len(),
            mask@.len() == lx.row_count,
        ensures
            final(self).ready(lx),
            assessed(
                r,
                *mask,
                |row: int| life_rule_outcome(lx, derived_index as nat, row),
                life_rule_typed(lx, derived_index as nat),
                life_rule_judgment_work(
                    lx,
                    derived_index as nat,
                    rows_of(*mask),
                    old(self).worked(),
                ),
                final(self).worked(),
            ),
        decreases derived_index as nat, 3nat, lx, 1int,
    {
        let ghost f = |row: int| life_rule_outcome(lx, derived_index as nat, row);
        let ghost w0 = self.worked();
        let mut cached: Option<DerivedColumn<Vec<JudgmentOutcome>>> = None;
        self.judgment_cache.set_and_swap(derived_index, &mut cached);
        assert(self.ready(lx));
        let pending = pending_rows(&cached, mask);
        let ghost done = done_rows(cached);
        let ghost aside = LifeWorked { own: Worked { judgments: w0.own.judgments.update(
            derived_index as int,
            Set::empty(),
        ), ..w0.own }, ..w0 };
        proof {
            assert(done =~= w0.own.judgments[derived_index as int]);
            assert(self.worked() =~~= aside);
            assert(rows_of(pending) =~= rows_of(*mask).difference(done));
            if none_of(rows_of(pending)) {
                life_judgment_formula_rests(lx, derived_index as nat, rows_of(pending), aside);
            }
        }
        let current = if cached.is_some() && pending.is_empty() {
            match cached {
                Some(current) => current,
                None => return self.compute_judgment(derived_index, mask, Ghost(lx)),
            }
        } else {
            let part = match self.compute_judgment(derived_index, &pending, Ghost(lx)) {
                Ok(part) => part,
                Err(error) => return Err(error),
            };
            merge_judgment(cached, pending, part, Ghost(f))
        };
        let values = copied(&current.values);
        let errors = current.errors.restricted_to(mask);
        proof {
            assert forall|row: int| #[trigger] mask.has(row) implies match f(row) {
                Ok(value) => errors.at(row) is None && values@[row] == value,
                Err(error) => errors.at(row) == Some(error),
            } by {
                assert(pending.has(row) || current.computed.has(row));
                assert(current.computed.has(row));
            }
        }
        let ghost w1 = self.worked();
        assert(rows_of(current.computed) =~= done.union(rows_of(pending)));
        self.judgment_cache.set(derived_index, Some(current));
        assert(
            self.worked() =~~= LifeWorked { own: Worked { judgments: w1.own.judgments.update(
                derived_index as int,
                done.union(rows_of(pending)),
            ), ..w1.own }, ..w1 }
        );
        assert(none_of(rows_of(*mask)) ==> self.worked() =~~= w0);
        Ok((values, errors))
    }

    fn compute_judgment(
        &mut self,
        derived_index: usize,
        mask: &RowMask,
        Ghost(lx): Ghost<LifetimeFacts>,
    ) -> (r: Result<(Vec<JudgmentOutcome>, RowErrors), EvalError>)
        requires
            old(self).ready(lx),
            derived_index < lx.program.derived@.len(),
            mask@.len() == lx.row_count,
        ensures
            final(self).ready(lx),
            assessed(
                r,
                *mask,
                |row: int| life_rule_outcome(lx, derived_index as nat, row),
                life_rule_typed(lx, derived_index as nat),
                life_judgment_formula_work(
                    lx,
                    derived_index as nat,
                    rows_of(*mask),
                    old(self).worked(),
                ),
                final(self).worked(),
            ),
        decreases derived_index as nat, 3nat, lx, 0int,
    {
        let program = self.program;
        let derived = &program.derived[derived_index];
        assert(lx.program.derived@[derived_index as int] == *derived);
        match &derived.semantics {
            CompiledSemantics::Judgment(expr) => {
                match self.eval_judgment(expr, mask, Ghost(lx), Ghost(derived_index as nat)) {
                    Ok((values, errors)) => Ok(
                        (values, errors.within_rule(derived.label.as_str())),
                    ),
                    Err(error) => Err(error),
                }
            },
            CompiledSemantics::Scalar(_) => {
                let mut errors = RowErrors::new();
                errors.record_all(mask, &EvalError::ExpectedJudgment(derived.name.clone()));
                Ok((repeated(JudgmentOutcome::NotHolds, mask.len()), errors))
            },
        }
    }

    /// A formula in one period.
    fn eval_in_period(
        &mut self,
        p: usize,
        expr: &CompiledScalarExpr,
        mask: &RowMask,
        Ghost(lx): Ghost<LifetimeFacts>,
        Ghost(bound): Ghost<nat>,
    ) -> (r: Result<(DenseColumn, RowErrors), EvalError>)
        requires
            old(self).ready(lx),
            p < lx.periods.len(),
            bound <= lx.program.derived@.len(),
            mask@.len() == lx.row_count,
            scalar_fits(lx.program, bound, 2, *expr),
        ensures
            final(self).ready(lx),
            evaluated(
                r,
                *mask,
                |row: int| period_cell(lx, bound, *expr, p as int, row),
                root_kind(lx.periods[p as int], bound, 2, *expr),
                in_period(lx, bound, *expr, p as int, rows_of(*mask), old(self).worked()),
                final(self).worked(),
            ),
    {
        let ghost before = self.period_executors@;
        assert(before[p as int].ready() && before[p as int].facts() == lx.periods[p as int]);
        let ghost w0 = self.worked();
        let executor = &mut self.period_executors[p];
        let r = executor.eval_scalar_expr(expr, mask, Ghost(bound), Ghost(2nat));
        proof {
            assert(w0.periods[p as int] == before[p as int].worked());
            assert(self.worked() =~~= LifeWorked {
                periods: w0.periods.update(p as int, self.period_executors@[p as int].worked()),
                ..w0
            });
        }
        r
    }

    /// How errors name a period.
    fn period_label(&self, p: usize, Ghost(lx): Ghost<LifetimeFacts>) -> (r: String)
        requires
            self.ready(lx),
            p < lx.periods.len(),
        ensures
            r@ == lx.label(p as int),
    {
        let executor = &self.period_executors[p];
        let mut label = owned("in ");
        label.append(executor.start.to_text().as_str());
        label.append("..");
        label.append(executor.end.to_text().as_str());
        label
    }

    /// A formula in every period. A row that fails in one is not evaluated in later
    /// ones.
    fn period_columns(
        &mut self,
        expr: &CompiledScalarExpr,
        mask: &RowMask,
        Ghost(lx): Ghost<LifetimeFacts>,
        Ghost(bound): Ghost<nat>,
    ) -> (r: Result<(Vec<DenseColumn>, RowMask, RowErrors), EvalError>)
        requires
            old(self).ready(lx),
            bound <= lx.program.derived@.len(),
            mask@.len() == lx.row_count,
            scalar_fits(lx.program, bound, 2, *expr),
        ensures
            final(self).ready(lx),
            match r {
                Ok((columns, live, errors)) => {
                    &&& cells_work(
                        lx,
                        bound,
                        *expr,
                        lx.periods.len(),
                        rows_of(*mask),
                        old(self).worked(),
                    ) == Some(
                        final(self).worked(),
                    )
                    &&& columns@.len() == lx.periods.len()
                    &&& columns_are(lx, bound, *expr, columns@, live, errors, *mask)
                    &&& root_kind(lx.periods[0], bound, 2, *expr) matches Some(k)
                        ==> columns@[0].kind() == k
                },
                Err(error) => {
                    &&& !periods_typed(lx, bound, *expr)
                    &&& error@ == mixed_branches()
                    &&& cells_work(
                        lx,
                        bound,
                        *expr,
                        lx.periods.len(),
                        rows_of(*mask),
                        old(self).worked(),
                    ) is None
                },
            },
    {
        let mut columns: Vec<DenseColumn> = Vec::new();
        let mut live = mask.duplicate();
        let mut errors = RowErrors::new();
        let count = self.period_executors.len();
        let mut p: usize = 0;
        let ghost w0 = self.worked();
        proof {
            assert forall|row: int| #[trigger] live.has(row) <==> mask.has(row) by {}
            assert forall|row: int| cells_at(columns@, row) =~= Seq::empty() by {}
        }
        while p < count
            invariant
                p <= count,
                count == lx.periods.len(),
                self.ready(lx),
                bound <= lx.program.derived@.len(),
                mask@.len() == lx.row_count,
                scalar_fits(lx.program, bound, 2, *expr),
                columns@.len() == p,
                columns_are(lx, bound, *expr, columns@, live, errors, *mask),
                p > 0 ==> (root_kind(lx.periods[0], bound, 2, *expr) matches Some(k)
                    ==> columns@[0].kind() == k),
                w0 == old(self).worked(),
                cells_work(lx, bound, *expr, p as nat, rows_of(*mask), w0) == Some(self.worked()),
            decreases count - p,
        {
            let ghost before = columns@;
            let ghost live0 = live;
            assert(rows_of(live) =~= ok_rows(
                rows_of(*mask),
                |row: int| period_cells(lx, bound, *expr, p as nat, row),
            ));
            proof {
                if none_of(rows_of(*mask)) {
                    cells_rests(lx, bound, *expr, (p + 1) as nat, rows_of(*mask), w0);
                    in_period_rests(lx, bound, *expr, p as int, rows_of(live), self.worked());
                }
            }
            let ghost errors0 = errors;
            let (column, period_errors) = match self.eval_in_period(
                p,
                expr,
                &live,
                Ghost(lx),
                Ghost(bound),
            ) {
                Ok(part) => part,
                Err(error) => {
                    proof {
                        assert(root_kind(lx.periods[p as int], bound, 2, *expr) is None);
                        cells_fails(
                            lx,
                            bound,
                            *expr,
                            (p + 1) as nat,
                            lx.periods.len(),
                            rows_of(*mask),
                            w0,
                        );
                    }
                    return Err(error);
                },
            };
            live = live.without(&period_errors);
            errors.absorb(period_errors);
            columns.push(column);
            proof {
                assert forall|row: int| #[trigger] mask.has(row) implies match period_cells(
                    lx,
                    bound,
                    *expr,
                    columns@.len(),
                    row,
                ) {
                    Ok(cells) => live.has(row) && errors.at(row) is None && cells == cells_at(
                        columns@,
                        row,
                    ),
                    Err(error) => !live.has(row) && errors.at(row) == Some(error),
                } by {
                    assert(live0.has(row) == live0.has(row));
                    assert(cells_at(columns@, row) =~= cells_at(before, row).push(
                        column.cell(row),
                    ));
                    if live0.has(row) {
                        assert(period_errors.at(row) == period_errors.at(row));
                    } else {
                        assert(period_errors.at(row) is None);
                    }
                }
                assert forall|row: int| #[trigger] live.has(row) implies mask.has(row) by {
                    assert(live0.has(row));
                }
                assert forall|row: int| #![trigger errors.at(row)] !mask.has(
                    row,
                ) implies errors.at(row) is None by {
                    assert(!live0.has(row));
                    assert(errors0.at(row) is None);
                    assert(period_errors.at(row) is None);
                }
            }
            p = p + 1;
        }
        Ok((columns, live, errors))
    }

    /// The numbers of a formula in every period.
    fn period_matrix(
        &mut self,
        expr: &CompiledScalarExpr,
        mask: &RowMask,
        Ghost(lx): Ghost<LifetimeFacts>,
        Ghost(bound): Ghost<nat>,
    ) -> (r: Result<(Vec<Vec<Decimal>>, RowMask, RowErrors), EvalError>)
        requires
            old(self).ready(lx),
            bound <= lx.program.derived@.len(),
            mask@.len() == lx.row_count,
            scalar_fits(lx.program, bound, 2, *expr),
        ensures
            final(self).ready(lx),
            match r {
                Ok((numbers, live, errors)) => {
                    &&& numbers_work(
                        lx,
                        bound,
                        *expr,
                        lx.periods.len(),
                        rows_of(*mask),
                        old(self).worked(),
                    ) == Some(
                        final(self).worked(),
                    )
                    &&& numbers@.len() == lx.periods.len()
                    &&& numbers_are(lx, bound, *expr, numbers@, live, errors, *mask)
                },
                Err(error) => {
                    &&& !periods_typed(lx, bound, *expr)
                    &&& error@ == mixed_branches()
                    &&& numbers_work(
                        lx,
                        bound,
                        *expr,
                        lx.periods.len(),
                        rows_of(*mask),
                        old(self).worked(),
                    ) is None
                },
            },
    {
        let mut numbers: Vec<Vec<Decimal>> = Vec::new();
        let mut live = mask.duplicate();
        let mut errors = RowErrors::new();
        let count = self.period_executors.len();
        let mut p: usize = 0;
        let ghost w0 = self.worked();
        proof {
            assert forall|row: int| #[trigger] live.has(row) <==> mask.has(row) by {}
            assert forall|row: int| numbers_at(numbers@, row) =~= Seq::empty() by {}
        }
        while p < count
            invariant
                p <= count,
                count == lx.periods.len(),
                self.ready(lx),
                bound <= lx.program.derived@.len(),
                mask@.len() == lx.row_count,
                scalar_fits(lx.program, bound, 2, *expr),
                numbers@.len() == p,
                numbers_are(lx, bound, *expr, numbers@, live, errors, *mask),
                w0 == old(self).worked(),
                numbers_work(lx, bound, *expr, p as nat, rows_of(*mask), w0) == Some(self.worked()),
            decreases count - p,
        {
            let ghost before = numbers@;
            let ghost live0 = live;
            assert(rows_of(live) =~= ok_rows(
                rows_of(*mask),
                |row: int| period_numbers(lx, bound, *expr, p as nat, row),
            ));
            proof {
                if none_of(rows_of(*mask)) {
                    numbers_rests(lx, bound, *expr, (p + 1) as nat, rows_of(*mask), w0);
                    in_period_rests(lx, bound, *expr, p as int, rows_of(live), self.worked());
                }
            }
            let ghost errors0 = errors;
            let (column, mut period_errors) = match self.eval_in_period(
                p,
                expr,
                &live,
                Ghost(lx),
                Ghost(bound),
            ) {
                Ok(part) => part,
                Err(error) => {
                    proof {
                        assert(root_kind(lx.periods[p as int], bound, 2, *expr) is None);
                        numbers_fails(
                            lx,
                            bound,
                            *expr,
                            (p + 1) as nat,
                            lx.periods.len(),
                            rows_of(*mask),
                            w0,
                        );
                    }
                    return Err(error);
                },
            };
            let ghost f = |row: int| period_cell(lx, bound, *expr, p as int, row);
            let (values, next) = numeric_operand(&column, &mut period_errors, &live, Ghost(f));
            live = next;
            errors.absorb(period_errors);
            numbers.push(values);
            proof {
                assert forall|row: int| #[trigger] mask.has(row) implies match period_numbers(
                    lx,
                    bound,
                    *expr,
                    numbers@.len(),
                    row,
                ) {
                    Ok(list) => live.has(row) && errors.at(row) is None && list == numbers_at(
                        numbers@,
                        row,
                    ),
                    Err(error) => !live.has(row) && errors.at(row) == Some(error),
                } by {
                    assert(live0.has(row) == live0.has(row));
                    assert(numbers_at(numbers@, row) =~= numbers_at(before, row).push(
                        values@[row],
                    ));
                    if live0.has(row) {
                        assert(period_errors.at(row) == period_errors.at(row));
                    } else {
                        assert(period_errors.at(row) is None);
                    }
                }
                assert forall|row: int| #[trigger] live.has(row) implies mask.has(row) by {
                    assert(live0.has(row));
                }
                assert forall|row: int| #![trigger errors.at(row)] !mask.has(
                    row,
                ) implies errors.at(row) is None by {
                    assert(!live0.has(row));
                    assert(errors0.at(row) is None);
                    assert(period_errors.at(row) is None);
                }
            }
            p = p + 1;
        }
        Ok((numbers, live, errors))
    }

    /// `count_over_periods`: the periods whose value is a true boolean or a number
    /// other than zero.
    fn eval_period_count(
        &mut self,
        expr: &CompiledScalarExpr,
        mask: &RowMask,
        Ghost(lx): Ghost<LifetimeFacts>,
        Ghost(bound): Ghost<nat>,
    ) -> (r: Result<(DenseColumn, RowErrors), EvalError>)
        requires
            old(self).ready(lx),
            bound <= lx.program.derived@.len(),
            mask@.len() == lx.row_count,
            scalar_fits(lx.program, bound, 2, *expr),
        ensures
            final(self).ready(lx),
            evaluated(
                r,
                *mask,
                |row: int|
                    over_periods_cell(lx, bound, OverPeriodsKind::Count, *expr, None, row),
                typed_as(periods_typed(lx, bound, *expr), ColumnKind::Integer),
                counts_work(lx, bound, *expr, lx.periods.len(), rows_of(*mask), old(self).worked()),
                final(self).worked(),
            ),
    {
        let mut counts: Vec<i64> = repeated(0i64, mask.len());
        let mut live = mask.duplicate();
        let mut errors = RowErrors::new();
        let count = self.period_executors.len();
        let mut p: usize = 0;
        let ghost w0 = self.worked();
        proof {
            assert forall|row: int| #[trigger] live.has(row) <==> mask.has(row) by {}
        }
        while p < count
            invariant
                p <= count,
                count == lx.periods.len(),
                self.ready(lx),
                bound <= lx.program.derived@.len(),
                mask@.len() == lx.row_count,
                scalar_fits(lx.program, bound, 2, *expr),
                counts_are(lx, bound, *expr, p as nat, counts@, live, errors, *mask),
                w0 == old(self).worked(),
                counts_work(lx, bound, *expr, p as nat, rows_of(*mask), w0) == Some(self.worked()),
            decreases count - p,
        {
            let ghost live0 = live;
            assert(rows_of(live) =~= ok_rows(
                rows_of(*mask),
                |row: int| period_count(lx, bound, *expr, p as nat, row),
            ));
            proof {
                if none_of(rows_of(*mask)) {
                    counts_rests(lx, bound, *expr, (p + 1) as nat, rows_of(*mask), w0);
                    in_period_rests(lx, bound, *expr, p as int, rows_of(live), self.worked());
                }
            }
            let ghost errors0 = errors;
            let ghost counts0 = counts@;
            let (column, period_errors) = match self.eval_in_period(
                p,
                expr,
                &live,
                Ghost(lx),
                Ghost(bound),
            ) {
                Ok(part) => part,
                Err(error) => {
                    proof {
                        assert(root_kind(lx.periods[p as int], bound, 2, *expr) is None);
                        counts_fails(
                            lx,
                            bound,
                            *expr,
                            (p + 1) as nat,
                            lx.periods.len(),
                            rows_of(*mask),
                            w0,
                        );
                    }
                    return Err(error);
                },
            };
            let still = live.without(&period_errors);
            errors.absorb(period_errors);
            let ghost errors1 = errors;
            let mut count_errors = RowErrors::new();
            match accumulate_nonzero_counts(&column, &still, &mut counts, &mut count_errors) {
                Ok(()) => {},
                Err(error) => return Err(error),
            }
            live = still.without(&count_errors);
            errors.absorb(count_errors);
            proof {
                assert forall|row: int| #[trigger] mask.has(row) implies match period_count(
                    lx,
                    bound,
                    *expr,
                    (p + 1) as nat,
                    row,
                ) {
                    Ok(c) => live.has(row) && errors.at(row) is None && counts@[row] == capped(c),
                    Err(error) => !live.has(row) && errors.at(row) == Some(error),
                } by {
                    assert(live0.has(row) == live0.has(row));
                    assert(period_errors.at(row) == period_errors.at(row));
                    assert(still.has(row) == still.has(row));
                    assert(count_errors.at(row) == count_errors.at(row));
                    assert(errors1.at(row) == errors1.at(row));
                    if live0.has(row) {
                        assert(still.has(row) == (period_cell(
                            lx,
                            bound,
                            *expr,
                            p as int,
                            row,
                        ) is Ok));
                    } else {
                        assert(!still.has(row));
                        assert(period_errors.at(row) is None);
                    }
                }
                assert forall|row: int| #[trigger] live.has(row) implies mask.has(row) by {
                    assert(still.has(row));
                    assert(live0.has(row));
                }
                assert forall|row: int| #![trigger errors.at(row)] !mask.has(
                    row,
                ) implies errors.at(row) is None by {
                    assert(!live0.has(row));
                    assert(!still.has(row));
                    assert(errors0.at(row) is None);
                    assert(period_errors.at(row) is None);
                    assert(errors1.at(row) is None);
                    assert(count_errors.at(row) is None);
                }
            }
            p = p + 1;
        }
        Ok((DenseColumn::Integer(counts), errors))
    }

    /// The `n` of `sum_top_n_over_periods` per row: the same in every period, cut
    /// toward zero, and between one and the number of periods.
    fn eval_top_n_counts(
        &mut self,
        n: &Option<Box<CompiledScalarExpr>>,
        mask: &RowMask,
        Ghost(lx): Ghost<LifetimeFacts>,
        Ghost(bound): Ghost<nat>,
    ) -> (r: Result<(Vec<usize>, RowMask, RowErrors), EvalError>)
        requires
            old(self).ready(lx),
            bound <= lx.program.derived@.len(),
            mask@.len() == lx.row_count,
            *n matches Some(e) ==> scalar_fits(lx.program, bound, 2, *e),
        ensures
            final(self).ready(lx),
            match r {
                Ok((counts, live, errors)) => {
                    &&& top_n_work(
                        lx,
                        bound,
                        *n,
                        rows_of(*mask),
                        old(self).worked(),
                    ) == Some(final(self).worked())
                    &&& staged(
                        counts@,
                        live,
                        errors,
                        *mask,
                        |row: int|
                            match top_n(lx, bound, *n, row) {
                                Ok(c) => Ok(c as usize),
                                Err(error) => Err(error),
                            },
                    )
                },
                Err(error) => error@ == mixed_branches() && (*n matches Some(e) && !periods_typed(
                    lx,
                    bound,
                    *e,
                )) && top_n_work(lx, bound, *n, rows_of(*mask), old(self).worked()) is None,
            },
    {
        let len = mask.len();
        let e = match n {
            Some(e) => e,
            None => {
                let mut errors = RowErrors::new();
                errors.record_all(
                    mask,
                    &EvalError::TypeMismatch(
                        owned("sum_top_n_over_periods requires an n argument"),
                    ),
                );
                let live = mask.without(&errors);
                return Ok((repeated(0usize, len), live, errors));
            },
        };
        let (columns, live, mut errors) = match self.period_columns(
            e,
            mask,
            Ghost(lx),
            Ghost(bound),
        ) {
            Ok(part) => part,
            Err(error) => return Err(error),
        };
        let period_count = columns.len();
        let reduction = OverPeriodsKind::SumTopN.as_call_name();
        let reference = &columns[period_count - 1];
        let ghost errors0 = errors;
        let ghost w1 = self.worked();
        let mut counts: Vec<usize> = Vec::new();
        let mut row: usize = 0;
        while row < len
            invariant
                row <= len,
                len == mask@.len(),
                len == lx.row_count,
                self.ready(lx),
                self.worked() == w1,
                *n == Some(*e),
                period_count == lx.periods.len(),
                columns@.len() == period_count,
                period_count > 0,
                *reference == columns@[period_count - 1],
                reduction@ == OverPeriodsKind::SumTopN.call_name(),
                columns_are(lx, bound, **e, columns@, live, errors0, *mask),
                counts@.len() == row,
                forall|i: int| #[trigger]
                    live.has(i) && i < row ==> match top_n(lx, bound, *n, i) {
                        Ok(c) => counts@[i] == c && errors.at(i) is None,
                        Err(error) => errors.at(i) == Some(error),
                    },
                forall|i: int|
                    #![trigger errors.at(i)]
                    !live.has(i) || i >= row ==> errors.at(i) == errors0.at(i),
            decreases len - row,
        {
            let mut count: usize = 0;
            if live.contains(row) {
                assert(mask.has(row as int));
                let ghost cells = cells_at(columns@, row as int);
                let mut p: usize = 0;
                while p < period_count - 1 && !values_differ(reference, &columns[p], row)
                    invariant
                        p <= period_count - 1,
                        period_count == columns@.len(),
                        *reference == columns@[period_count - 1],
                        row < len,
                        forall|q: int|
                            0 <= q < columns@.len() ==> (#[trigger] columns@[q]).rows() == len,
                        cells == cells_at(columns@, row as int),
                        varying_at(cells, p as nat) is None,
                    ensures
                        p <= period_count - 1,
                        varying_at(cells, p as nat) is None,
                        p < period_count - 1 ==> !cells.last().equals(cells[p as int]),
                    decreases period_count - p,
                {
                    p = p + 1;
                }
                if p < period_count - 1 {
                    proof {
                        varying_kept(cells, (p + 1) as nat, (period_count - 1) as nat);
                    }
                    errors.record(
                        row,
                        EvalError::OverPeriodsTopNPeriodVarying {
                            reduction,
                            first_period: self.period_label(p, Ghost(lx)),
                            first_value: format_value_label(&columns[p].value_at(row)),
                            second_period: self.period_label(period_count - 1, Ghost(lx)),
                            second_value: format_value_label(&reference.value_at(row)),
                        },
                    );
                } else {
                    let value = reference.value_at(row);
                    assert(value == cells.last());
                    match value.as_decimal() {
                        None => errors.record(
                            row,
                            EvalError::TypeMismatch(
                                owned("expected decimal-compatible dense column"),
                            ),
                        ),
                        Some(number) => match number.to_i64() {
                            None => errors.record(
                                row,
                                EvalError::OverPeriodsTopNOutOfRange {
                                    reduction,
                                    n: format_value_label(&value),
                                    period_count,
                                },
                            ),
                            Some(i) => {
                                if i < 1 || i as u64 > period_count as u64 {
                                    errors.record(
                                        row,
                                        EvalError::OverPeriodsTopNOutOfRange {
                                            reduction,
                                            n: i64_text(i),
                                            period_count,
                                        },
                                    );
                                } else {
                                    count = i as usize;
                                }
                            },
                        },
                    }
                }
            }
            counts.push(count);
            row = row + 1;
        }
        let still = live.without(&errors);
        proof {
            assert forall|i: int| #[trigger] mask.has(i) implies match top_n(lx, bound, *n, i) {
                Ok(c) => still.has(i) && errors.at(i) is None && counts@[i] == c as usize,
                Err(error) => !still.has(i) && errors.at(i) == Some(error),
            } by {
                assert(live.has(i) == live.has(i));
                assert(still.has(i) == still.has(i));
            }
            assert forall|i: int| #[trigger] still.has(i) implies mask.has(i) by {
                assert(live.has(i));
            }
            assert forall|i: int| #![trigger errors.at(i)] !mask.has(i) implies errors.at(
                i,
            ) is None by {
                assert(!live.has(i));
            }
        }
        Ok((counts, still, errors))
    }

    /// A reduction over the periods.
    fn eval_over_periods(
        &mut self,
        kind: OverPeriodsKind,
        value: &CompiledScalarExpr,
        n: &Option<Box<CompiledScalarExpr>>,
        mask: &RowMask,
        Ghost(lx): Ghost<LifetimeFacts>,
        Ghost(bound): Ghost<nat>,
    ) -> (r: Result<(DenseColumn, RowErrors), EvalError>)
        requires
            old(self).ready(lx),
            bound <= lx.program.derived@.len(),
            mask@.len() == lx.row_count,
            scalar_fits(lx.program, bound, 2, *value),
            *n matches Some(e) ==> scalar_fits(lx.program, bound, 2, *e),
        ensures
            final(self).ready(lx),
            evaluated(
                r,
                *mask,
                |row: int| over_periods_cell(lx, bound, kind, *value, *n, row),
                typed_as(
                    periods_typed(lx, bound, *value) && match *n {
                        Some(n) => kind == OverPeriodsKind::SumTopN ==> periods_typed(
                            lx,
                            bound,
                            *n,
                        ),
                        None => true,
                    },
                    if kind == OverPeriodsKind::Count {
                        ColumnKind::Integer
                    } else {
                        ColumnKind::Decimal
                    },
                ),
                over_periods_work(lx, bound, kind, *value, *n, rows_of(*mask), old(self).worked()),
                final(self).worked(),
            ),
    {
        if kind == OverPeriodsKind::Count {
            return self.eval_period_count(value, mask, Ghost(lx), Ghost(bound));
        }
        let (numbers, live, mut errors) = match self.period_matrix(
            value,
            mask,
            Ghost(lx),
            Ghost(bound),
        ) {
            Ok(part) => part,
            Err(error) => return Err(error),
        };
        let ghost errors0 = errors;
        let ghost live0 = live;
        assert(rows_of(live) =~= ok_rows(
            rows_of(*mask),
            |row: int| period_numbers(lx, bound, *value, lx.periods.len(), row),
        ));
        let len = mask.len();
        let top = kind == OverPeriodsKind::SumTopN;
        let (counts, live) = if top {
            let (counts, still, count_errors) = match self.eval_top_n_counts(
                n,
                &live,
                Ghost(lx),
                Ghost(bound),
            ) {
                Ok(part) => part,
                Err(error) => return Err(error),
            };
            errors.absorb(count_errors);
            proof {
                assert forall|row: int| #[trigger] mask.has(row)
                    && live.has(row) implies match top_n(
                    lx,
                    bound,
                    *n,
                    row,
                ) {
                    Ok(c) => still.has(row) && errors.at(row) is None && counts@[row] == c as usize,
                    Err(error) => !still.has(row) && errors.at(row) == Some(error),
                } by {
                    assert(live0.has(row));
                    assert(errors0.at(row) is None);
                }
                assert forall|row: int| !live0.has(row) implies #[trigger] errors.at(row)
                    == errors0.at(row) && !still.has(row) by {
                    assert(count_errors.at(row) is None);
                    if still.has(row) {
                        assert(live0.has(row));
                    }
                }
            }
            (counts, still)
        } else {
            (repeated(0usize, len), live)
        };
        let ghost errors1 = errors;
        let mut result: Vec<Decimal> = Vec::new();
        let mut row: usize = 0;
        while row < len
            invariant
                row <= len,
                len == mask@.len(),
                live@.len() == len,
                counts@.len() == len,
                top == (kind == OverPeriodsKind::SumTopN),
                kind != OverPeriodsKind::Count,
                lx.aligned(),
                numbers@.len() == lx.periods.len(),
                forall|p: int| 0 <= p < numbers@.len() ==> (#[trigger] numbers@[p])@.len() == len,
                forall|i: int| #[trigger]
                    live.has(i) ==> period_numbers(lx, bound, *value, lx.periods.len(), i) == Ok::<
                        Seq<Decimal>,
                        ErrorView,
                    >(numbers_at(numbers@, i)),
                top ==> forall|i: int| #[trigger]
                    live.has(i) ==> (top_n(lx, bound, *n, i) matches Ok(c) && counts@[i] == c
                        && c <= lx.periods.len()),
                forall|i: int| #[trigger] live.has(i) ==> errors1.at(i) is None,
                result@.len() == row,
                forall|i: int| #[trigger]
                    live.has(i) && i < row ==> match over_periods_cell(
                        lx,
                        bound,
                        kind,
                        *value,
                        *n,
                        i,
                    ) {
                        Ok(v) => v == ScalarValue::Decimal(result@[i]) && errors.at(i) is None,
                        Err(error) => errors.at(i) == Some(error),
                    },
                forall|i: int|
                    #![trigger errors.at(i)]
                    !live.has(i) || i >= row ==> errors.at(i) == errors1.at(i),
            decreases len - row,
        {
            let mut value_here = Decimal::zero();
            if live.contains(row) {
                assert(live.has(row as int));
                let list = row_numbers(&numbers, row);
                let reduced = match kind {
                    OverPeriodsKind::Max => Ok(largest(&list)),
                    OverPeriodsKind::SumTopN => {
                        let sorted = sorted_descending(&list);
                        proof {
                            descending_is_sorted(list@);
                        }
                        total(&sorted, counts[row])
                    },
                    _ => {
                        assert(list@.take(list@.len() as int) =~= list@);
                        total(&list, list.len())
                    },
                };
                match reduced {
                    Ok(v) => {
                        value_here = v;
                    },
                    Err(error) => {
                        errors.record(row, error);
                    },
                }
            }
            result.push(value_here);
            row = row + 1;
        }
        let column = DenseColumn::Decimal(result);
        proof {
            assert forall|i: int| #[trigger] mask.has(i) implies match over_periods_cell(
                lx,
                bound,
                kind,
                *value,
                *n,
                i,
            ) {
                Ok(v) => errors.at(i) is None && column.cell(i) == v,
                Err(error) => errors.at(i) == Some(error),
            } by {
                assert(live0.has(i) == live0.has(i));
                assert(live.has(i) == live.has(i));
                assert(errors0.at(i) == errors0.at(i));
                assert(errors1.at(i) == errors1.at(i));
            }
            assert forall|i: int| #![trigger errors.at(i)] !mask.has(i) implies errors.at(
                i,
            ) is None by {
                assert(!live0.has(i));
                assert(errors0.at(i) is None);
                assert(errors1.at(i) is None);
                assert(!live.has(i));
            }
        }
        Ok((column, errors))
    }

    /// An input outside a reduction: bound for a row only where its value is the same
    /// in every period.
    #[verifier::rlimit(60)]
    #[verifier::spinoff_prover]
    fn eval_period_invariant_input(
        &mut self,
        expr: &CompiledScalarExpr,
        input_name: &str,
        mask: &RowMask,
        Ghost(lx): Ghost<LifetimeFacts>,
        Ghost(bound): Ghost<nat>,
    ) -> (r: Result<(DenseColumn, RowErrors), EvalError>)
        requires
            old(self).ready(lx),
            bound <= lx.program.derived@.len(),
            mask@.len() == lx.row_count,
            scalar_fits(lx.program, bound, 2, *expr),
        ensures
            final(self).ready(lx),
            evaluated(
                r,
                *mask,
                |row: int| invariant_cell(lx, bound, *expr, input_name@, row),
                if periods_typed(lx, bound, *expr) {
                    root_kind(lx.periods[0], bound, 2, *expr)
                } else {
                    None
                },
                cells_work(lx, bound, *expr, lx.periods.len(), rows_of(*mask), old(self).worked()),
                final(self).worked(),
            ),
    {
        let len = mask.len();
        let (columns, live, mut errors) = match self.period_columns(
            expr,
            mask,
            Ghost(lx),
            Ghost(bound),
        ) {
            Ok(part) => part,
            Err(error) => return Err(error),
        };
        let period_count = columns.len();
        let first = &columns[0];
        let ghost errors0 = errors;
        let ghost w1 = self.worked();
        let mut row: usize = 0;
        while row < len
            invariant
                row <= len,
                len == mask@.len(),
                len == lx.row_count,
                self.ready(lx),
                self.worked() == w1,
                period_count == lx.periods.len(),
                columns@.len() == period_count,
                period_count > 0,
                *first == columns@[0],
                columns_are(lx, bound, *expr, columns@, live, errors0, *mask),
                forall|i: int| #[trigger]
                    live.has(i) && i < row ==> match invariant_cell(
                        lx,
                        bound,
                        *expr,
                        input_name@,
                        i,
                    ) {
                        Ok(v) => v == first.cell(i) && errors.at(i) is None,
                        Err(error) => errors.at(i) == Some(error),
                    },
                forall|i: int|
                    #![trigger errors.at(i)]
                    !live.has(i) || i >= row ==> errors.at(i) == errors0.at(i),
            decreases len - row,
        {
            if live.contains(row) {
                assert(mask.has(row as int));
                let ghost cells = cells_at(columns@, row as int);
                let mut p: usize = 1;
                while p < period_count && !values_differ(first, &columns[p], row)
                    invariant
                        1 <= p <= period_count,
                        period_count == columns@.len(),
                        *first == columns@[0],
                        row < len,
                        forall|q: int|
                            0 <= q < columns@.len() ==> (#[trigger] columns@[q]).rows() == len,
                        cells == cells_at(columns@, row as int),
                        diverging_at(cells, p as nat) is None,
                    ensures
                        1 <= p <= period_count,
                        diverging_at(cells, p as nat) is None,
                        p < period_count ==> !cells[0].equals(cells[p as int]),
                    decreases period_count - p,
                {
                    p = p + 1;
                }
                if p < period_count {
                    proof {
                        diverging_kept(cells, (p + 1) as nat, period_count as nat);
                    }
                    errors.record(
                        row,
                        EvalError::LifetimePeriodVaryingInput {
                            input: owned(input_name),
                            first_period: self.period_label(0, Ghost(lx)),
                            first_value: format_value_label(&first.value_at(row)),
                            second_period: self.period_label(p, Ghost(lx)),
                            second_value: format_value_label(&columns[p].value_at(row)),
                        },
                    );
                }
            }
            row = row + 1;
        }
        let column = first.duplicate();
        proof {
            assert forall|i: int| #[trigger] mask.has(i) implies match invariant_cell(
                lx,
                bound,
                *expr,
                input_name@,
                i,
            ) {
                Ok(v) => errors.at(i) is None && column.cell(i) == v,
                Err(error) => errors.at(i) == Some(error),
            } by {
                assert(live.has(i) == live.has(i));
                assert(errors0.at(i) == errors0.at(i));
                assert(column.cell(i) == first.cell(i));
            }
            assert forall|i: int| #![trigger errors.at(i)] !mask.has(i) implies errors.at(
                i,
            ) is None by {
                assert(!live.has(i));
                assert(errors0.at(i) is None);
            }
        }
        Ok((column, errors))
    }

    /// The outcomes of a judgment over the lifetime for the rows of `mask`.
    fn eval_judgment(
        &mut self,
        expr: &CompiledJudgmentExpr,
        mask: &RowMask,
        Ghost(lx): Ghost<LifetimeFacts>,
        Ghost(bound): Ghost<nat>,
    ) -> (r: Result<(Vec<JudgmentOutcome>, RowErrors), EvalError>)
        requires
            old(self).ready(lx),
            bound <= lx.program.derived@.len(),
            mask@.len() == lx.row_count,
            judgment_fits(lx.program, bound, 2, *expr),
        ensures
            final(self).ready(lx),
            assessed(
                r,
                *mask,
                |row: int| life_outcome(lx, bound, *expr, row),
                life_typed(lx, bound, *expr),
                life_judgment_work(lx, bound, *expr, rows_of(*mask), old(self).worked()),
                final(self).worked(),
            ),
        decreases bound, 2nat, *expr, 2int,
    {
        proof {
            life_outcome_is_step(lx, bound, *expr);
        }
        match expr {
            CompiledJudgmentExpr::Comparison { left, op, right } => self.life_comparison(
                left,
                *op,
                right,
                mask,
                Ghost(lx),
                Ghost(bound),
                Ghost(*expr),
            ),
            CompiledJudgmentExpr::Derived(index) => self.evaluate_judgment(*index, mask, Ghost(lx)),
            CompiledJudgmentExpr::And(items) => self.life_short_circuit(
                items,
                JudgmentOutcome::NotHolds,
                mask,
                Ghost(lx),
                Ghost(bound),
                Ghost(*expr),
            ),
            CompiledJudgmentExpr::Or(items) => self.life_short_circuit(
                items,
                JudgmentOutcome::Holds,
                mask,
                Ghost(lx),
                Ghost(bound),
                Ghost(*expr),
            ),
            CompiledJudgmentExpr::Not(item) => {
                match self.eval_judgment(item, mask, Ghost(lx), Ghost(bound)) {
                    Ok((values, errors)) => Ok((negate(values), errors)),
                    Err(error) => Err(error),
                }
            },
        }
    }

    /// The values of a formula over the lifetime for the rows of `mask`.
    fn eval_scalar(
        &mut self,
        expr: &CompiledScalarExpr,
        mask: &RowMask,
        Ghost(lx): Ghost<LifetimeFacts>,
        Ghost(bound): Ghost<nat>,
    ) -> (r: Result<(DenseColumn, RowErrors), EvalError>)
        requires
            old(self).ready(lx),
            bound <= lx.program.derived@.len(),
            mask@.len() == lx.row_count,
            scalar_fits(lx.program, bound, 2, *expr),
        ensures
            final(self).ready(lx),
            evaluated(
                r,
                *mask,
                |row: int| life_cell(lx, bound, *expr, row),
                life_kind(lx, bound, *expr),
                life_work(lx, bound, *expr, rows_of(*mask), old(self).worked()),
                final(self).worked(),
            ),
        decreases bound, 2nat, *expr, 2int,
    {
        let len = mask.len();
        proof {
            life_is_step(lx, bound, *expr);
        }
        match expr {
            CompiledScalarExpr::OverPeriods { kind, value, n } => self.eval_over_periods(
                *kind,
                value,
                n,
                mask,
                Ghost(lx),
                Ghost(bound),
            ),
            CompiledScalarExpr::Literal(value) => Ok(
                (broadcast_scalar_literal(value, len), RowErrors::new()),
            ),
            CompiledScalarExpr::Derived(index) => self.evaluate_scalar(*index, mask, Ghost(lx)),
            // A parameter is read in the last period.
            CompiledScalarExpr::ParameterLookup { parameter, index } => {
                match self.eval_scalar(index, mask, Ghost(lx), Ghost(bound)) {
                    Ok(keys) => {
                        let last = self.period_executors.len() - 1;
                        assert(self.period_executors@[last as int].facts()
                            == lx.periods[last as int]);
                        Ok(
                            lookup_parameter_dense(
                                &self.program.parameters[*parameter].parameter,
                                keys,
                                mask,
                                self.period_executors[last].start,
                                Ghost(|row: int| life_cell(lx, bound, **index, row)),
                            ),
                        )
                    },
                    Err(error) => Err(error),
                }
            },
            CompiledScalarExpr::Add(items) => self.life_add(
                items,
                mask,
                Ghost(lx),
                Ghost(bound),
                Ghost(*expr),
            ),
            CompiledScalarExpr::Sub(left, right) => self.life_binary(
                BinaryOp::Sub,
                left,
                right,
                mask,
                Ghost(lx),
                Ghost(bound),
                Ghost(*expr),
            ),
            CompiledScalarExpr::Mul(left, right) => self.life_binary(
                BinaryOp::Mul,
                left,
                right,
                mask,
                Ghost(lx),
                Ghost(bound),
                Ghost(*expr),
            ),
            CompiledScalarExpr::Div(left, right) => self.life_binary(
                BinaryOp::Div,
                left,
                right,
                mask,
                Ghost(lx),
                Ghost(bound),
                Ghost(*expr),
            ),
            CompiledScalarExpr::Max(items) => {
                if items.len() == 0 {
                    return Ok(
                        fail_numeric(
                            mask,
                            EvalError::TypeMismatch(owned("max() requires at least one operand")),
                        ),
                    );
                }
                self.life_extremum(items, true, mask, Ghost(lx), Ghost(bound), Ghost(*expr))
            },
            CompiledScalarExpr::Min(items) => {
                if items.len() == 0 {
                    return Ok(
                        fail_numeric(
                            mask,
                            EvalError::TypeMismatch(owned("min() requires at least one operand")),
                        ),
                    );
                }
                self.life_extremum(items, false, mask, Ghost(lx), Ghost(bound), Ghost(*expr))
            },
            CompiledScalarExpr::Ceil(value) => self.life_integral(
                true,
                value,
                mask,
                Ghost(lx),
                Ghost(bound),
                Ghost(*expr),
            ),
            CompiledScalarExpr::Floor(value) => self.life_integral(
                false,
                value,
                mask,
                Ghost(lx),
                Ghost(bound),
                Ghost(*expr),
            ),
            CompiledScalarExpr::If { condition, then_expr, else_expr } => self.life_choice(
                condition,
                then_expr,
                else_expr,
                mask,
                Ghost(lx),
                Ghost(bound),
                Ghost(*expr),
            ),
            CompiledScalarExpr::NoMatch { subject, placeholder, labels } => self.life_no_match(
                subject,
                placeholder,
                labels,
                mask,
                Ghost(lx),
                Ghost(bound),
                Ghost(*expr),
            ),
            CompiledScalarExpr::Input(index) => {
                let name = self.program.root_inputs[*index].clone();
                self.eval_period_invariant_input(
                    expr,
                    name.as_str(),
                    mask,
                    Ghost(lx),
                    Ghost(bound),
                )
            },
            CompiledScalarExpr::InputOrElse { input, .. } => {
                let name = self.program.root_inputs[*input].clone();
                self.eval_period_invariant_input(
                    expr,
                    name.as_str(),
                    mask,
                    Ghost(lx),
                    Ghost(bound),
                )
            },
            CompiledScalarExpr::PeriodStart => Ok(ambiguous_dates(mask, "period_start")),
            CompiledScalarExpr::PeriodEnd => Ok(ambiguous_dates(mask, "period_end")),
            CompiledScalarExpr::DateShift { unit, .. } => Ok(
                ambiguous_dates(
                    mask,
                    match unit {
                        ShiftUnit::Days => "date_add_days",
                        ShiftUnit::Months => "date_add_months",
                        ShiftUnit::Years => "date_add_years",
                    },
                ),
            ),
            CompiledScalarExpr::DaysBetween { .. } => Ok(
                ambiguous_counts(mask, "days_between"),
            ),
            CompiledScalarExpr::CountRelated { .. } => Ok(
                ambiguous_counts(mask, "count/len over a relation"),
            ),
            CompiledScalarExpr::SumRelated { .. } => Ok(
                fail_numeric(mask, EvalError::LifetimeAmbiguousLeaf(owned("sum over a relation"))),
            ),
        }
    }

    /// Evaluates two numbers and combines them: the left operand first.
    fn life_binary(
        &mut self,
        op: BinaryOp,
        left: &CompiledScalarExpr,
        right: &CompiledScalarExpr,
        mask: &RowMask,
        Ghost(lx): Ghost<LifetimeFacts>,
        Ghost(bound): Ghost<nat>,
        Ghost(whole): Ghost<CompiledScalarExpr>,
    ) -> (r: Result<(DenseColumn, RowErrors), EvalError>)
        requires
            old(self).ready(lx),
            bound <= lx.program.derived@.len(),
            mask@.len() == lx.row_count,
            scalar_fits(lx.program, bound, 2, *left),
            scalar_fits(lx.program, bound, 2, *right),
            decreases_to!(whole => *left),
            decreases_to!(whole => *right),
            match op {
                BinaryOp::Sub => whole matches CompiledScalarExpr::Sub(a, b)
                    && *a == *left
                    && *b == *right,
                BinaryOp::Mul => whole matches CompiledScalarExpr::Mul(a, b)
                    && *a == *left
                    && *b == *right,
                BinaryOp::Div => whole matches CompiledScalarExpr::Div(a, b)
                    && *a == *left
                    && *b == *right,
            },
        ensures
            final(self).ready(lx),
            evaluated(
                r,
                *mask,
                |row: int|
                    binary_cell(
                        op,
                        numbered(life_cell(lx, bound, *left, row)),
                        numbered(life_cell(lx, bound, *right, row)),
                        false,
                    ),
                typed_as(
                    life_kind(lx, bound, *left) is Some && life_kind(lx, bound, *right) is Some,
                    ColumnKind::Decimal,
                ),
                life_work_step(lx, bound, whole, rows_of(*mask), old(self).worked()),
                final(self).worked(),
            ),
        decreases bound, 2nat, whole, 1int,
    {
        let ghost f = |row: int| life_cell(lx, bound, *left, row);
        let ghost g = |row: int| life_cell(lx, bound, *right, row);
        let (column, mut errors) = match self.eval_scalar(left, mask, Ghost(lx), Ghost(bound)) {
            Ok(part) => part,
            Err(error) => return Err(error),
        };
        let (a, live) = numeric_operand(&column, &mut errors, mask, Ghost(f));
        assert(
            rows_of(live) =~= ok_rows(
                rows_of(*mask),
                |row: int| numbered(life_cell(lx, bound, *left, row)),
            )
        );
        let (column, mut more) = match self.eval_scalar(right, &live, Ghost(lx), Ghost(bound)) {
            Ok(part) => part,
            Err(error) => return Err(error),
        };
        let (b, still) = numeric_operand(&column, &mut more, &live, Ghost(g));
        Ok(
            combine_binary(
                op,
                false,
                (a, live, errors),
                (b, still, more),
                mask,
                Ghost(|row: int| numbered(f(row))),
                Ghost(|row: int| numbered(g(row))),
            ),
        )
    }

    /// A sum: each item is evaluated for the rows that no earlier one failed.
    fn life_add(
        &mut self,
        items: &Vec<CompiledScalarExpr>,
        mask: &RowMask,
        Ghost(lx): Ghost<LifetimeFacts>,
        Ghost(bound): Ghost<nat>,
        Ghost(whole): Ghost<CompiledScalarExpr>,
    ) -> (r: Result<(DenseColumn, RowErrors), EvalError>)
        requires
            old(self).ready(lx),
            bound <= lx.program.derived@.len(),
            mask@.len() == lx.row_count,
            scalars_fit(lx.program, bound, 2, items@, items@.len()),
            forall|i: int| #![trigger items@[i]] 0 <= i < items@.len() ==> decreases_to!(whole => items@[i]),
            whole == CompiledScalarExpr::Add(*items),
        ensures
            final(self).ready(lx),
            evaluated(
                r,
                *mask,
                |row: int|
                    as_decimal_value(
                        life_sum(lx, bound, items@, items@.len(), row),
                    ),
                typed_as(
                    lives_typed(lx, bound, items@, items@.len()),
                    ColumnKind::Decimal,
                ),
                life_work_step(lx, bound, whole, rows_of(*mask), old(self).worked()),
                final(self).worked(),
            ),
        decreases bound, 2nat, whole, 1int,
    {
        let ghost w0 = self.worked();
        let mut state = (
            repeated(Decimal::zero(), mask.len()),
            mask.duplicate(),
            RowErrors::new(),
        );
        let mut i: usize = 0;
        while i < items.len()
            invariant
                i <= items@.len(),
                self.ready(lx),
                bound <= lx.program.derived@.len(),
                mask@.len() == lx.row_count,
                scalars_fit(lx.program, bound, 2, items@, items@.len()),
                forall|j: int| #![trigger items@[j]] 0 <= j < items@.len() ==> decreases_to!(whole => items@[j]),
                staged(
                    state.0@,
                    state.1,
                    state.2,
                    *mask,
                    |row: int| life_sum(lx, bound, items@, i as nat, row),
                ),
                w0 == old(self).worked(),
                whole == CompiledScalarExpr::Add(*items),
                life_sum_work(
                    lx,
                    bound,
                    items@,
                    i as nat,
                    rows_of(*mask),
                    w0,
                ) == Some(self.worked()),
            decreases items@.len() - i,
        {
            let ghost f = |row: int| life_sum(lx, bound, items@, i as nat, row);
            let ghost g = |row: int| life_cell(lx, bound, items@[i as int], row);
            proof {
                scalars_fit_each(lx.program, bound, 2, items@, items@.len(), i as int);
            }
            assert(decreases_to!(whole => items@[i as int]));
            assert(
                rows_of(state.1) =~= ok_rows(
                    rows_of(*mask),
                    |row: int| life_sum(lx, bound, items@, i as nat, row),
                )
            );
            let part = match self.eval_scalar(&items[i], &state.1, Ghost(lx), Ghost(bound)) {
                Ok(part) => part,
                Err(error) => {
                    proof {
                        if lives_typed(lx, bound, items@, items@.len()) {
                            lives_typed_each(lx, bound, items@, items@.len(), i as int);
                        }
                        life_sum_fails(
                            lx,
                            bound,
                            items@,
                            (i + 1) as nat,
                            items@.len(),
                            rows_of(*mask),
                            w0,
                        );
                    }
                    return Err(error);
                },
            };
            state = add_item(state, part, mask, Ghost(f), Ghost(g));
            i = i + 1;
        }
        let ghost f = |row: int| life_sum(lx, bound, items@, items@.len(), row);
        Ok(number_column(state, mask, Ghost(f)))
    }

    /// `max` or `min`: each item is evaluated for the rows that no earlier one failed.
    fn life_extremum(
        &mut self,
        items: &Vec<CompiledScalarExpr>,
        largest: bool,
        mask: &RowMask,
        Ghost(lx): Ghost<LifetimeFacts>,
        Ghost(bound): Ghost<nat>,
        Ghost(whole): Ghost<CompiledScalarExpr>,
    ) -> (r: Result<(DenseColumn, RowErrors), EvalError>)
        requires
            old(self).ready(lx),
            bound <= lx.program.derived@.len(),
            mask@.len() == lx.row_count,
            items@.len() > 0,
            scalars_fit(lx.program, bound, 2, items@, items@.len()),
            forall|i: int| #![trigger items@[i]] 0 <= i < items@.len() ==> decreases_to!(whole => items@[i]),
            whole == (
                if largest { CompiledScalarExpr::Max(*items) } else { CompiledScalarExpr::Min(*items) }
            ),
        ensures
            final(self).ready(lx),
            evaluated(
                r,
                *mask,
                |row: int|
                    as_decimal_value(
                        life_extremum(lx, bound, items@, items@.len(), largest, row),
                    ),
                typed_as(
                    lives_typed(lx, bound, items@, items@.len()),
                    ColumnKind::Decimal,
                ),
                life_work_step(lx, bound, whole, rows_of(*mask), old(self).worked()),
                final(self).worked(),
            ),
        decreases bound, 2nat, whole, 1int,
    {
        let ghost w0 = self.worked();
        proof {
                scalars_fit_each(lx.program, bound, 2, items@, items@.len(), 0);
            }
        assert(decreases_to!(whole => items@[0]));
        assert(life_extremum_work(lx, bound, items@, 0, largest, rows_of(*mask), w0) == Some(w0));
        assert(
            life_extremum_work(
                lx,
                bound,
                items@,
                1,
                largest,
                rows_of(*mask),
                w0,
            ) == life_work(lx, bound, items@[0], rows_of(*mask), w0)
        );
        let (column, mut errors) = match self.eval_scalar(
            &items[0],
            mask,
            Ghost(lx),
            Ghost(bound),
        ) {
            Ok(part) => part,
            Err(error) => {
                proof {
                        if lives_typed(lx, bound, items@, items@.len()) {
                            lives_typed_each(lx, bound, items@, items@.len(), 0);
                        }
                        life_extremum_fails(
                            lx,
                            bound,
                            items@,
                            1,
                            items@.len(),
                            largest,
                            rows_of(*mask),
                            w0,
                        );
                    }
                return Err(error);
            },
        };
        let (best, live) = numeric_operand(
            &column,
            &mut errors,
            mask,
            Ghost(|row: int| life_cell(lx, bound, items@[0], row)),
        );
        let mut state = (best, live, errors);
        let mut i: usize = 1;
        while i < items.len()
            invariant
                1 <= i <= items@.len(),
                self.ready(lx),
                bound <= lx.program.derived@.len(),
                mask@.len() == lx.row_count,
                scalars_fit(lx.program, bound, 2, items@, items@.len()),
                forall|j: int| #![trigger items@[j]] 0 <= j < items@.len() ==> decreases_to!(whole => items@[j]),
                staged(
                    state.0@,
                    state.1,
                    state.2,
                    *mask,
                    |row: int| life_extremum(lx, bound, items@, i as nat, largest, row),
                ),
                w0 == old(self).worked(),
                whole == (
                    if largest { CompiledScalarExpr::Max(*items) } else { CompiledScalarExpr::Min(*items) }
                ),
                life_extremum_work(
                    lx,
                    bound,
                    items@,
                    i as nat,
                    largest,
                    rows_of(*mask),
                    w0,
                ) == Some(self.worked()),
            decreases items@.len() - i,
        {
            let ghost f = |row: int| life_extremum(lx, bound, items@, i as nat, largest, row);
            let ghost g = |row: int| life_cell(lx, bound, items@[i as int], row);
            proof {
                scalars_fit_each(lx.program, bound, 2, items@, items@.len(), i as int);
            }
            assert(decreases_to!(whole => items@[i as int]));
            assert(
                rows_of(state.1) =~= ok_rows(
                    rows_of(*mask),
                    |row: int| life_extremum(lx, bound, items@, i as nat, largest, row),
                )
            );
            let part = match self.eval_scalar(&items[i], &state.1, Ghost(lx), Ghost(bound)) {
                Ok(part) => part,
                Err(error) => {
                    proof {
                        if lives_typed(lx, bound, items@, items@.len()) {
                            lives_typed_each(lx, bound, items@, items@.len(), i as int);
                        }
                        life_extremum_fails(
                            lx,
                            bound,
                            items@,
                            (i + 1) as nat,
                            items@.len(),
                            largest,
                            rows_of(*mask),
                            w0,
                        );
                    }
                    return Err(error);
                },
            };
            state = extremum_item(largest, state, part, mask, Ghost(f), Ghost(g));
            i = i + 1;
        }
        let ghost f = |row: int| life_extremum(lx, bound, items@, items@.len(), largest, row);
        Ok(number_column(state, mask, Ghost(f)))
    }

    /// `ceil` or `floor`.
    fn life_integral(
        &mut self,
        upward: bool,
        value: &CompiledScalarExpr,
        mask: &RowMask,
        Ghost(lx): Ghost<LifetimeFacts>,
        Ghost(bound): Ghost<nat>,
        Ghost(whole): Ghost<CompiledScalarExpr>,
    ) -> (r: Result<(DenseColumn, RowErrors), EvalError>)
        requires
            old(self).ready(lx),
            bound <= lx.program.derived@.len(),
            mask@.len() == lx.row_count,
            scalar_fits(lx.program, bound, 2, *value),
            decreases_to!(whole => *value),
            if upward {
                whole matches CompiledScalarExpr::Ceil(a) && *a == *value
            } else {
                whole matches CompiledScalarExpr::Floor(a) && *a == *value
            },
        ensures
            final(self).ready(lx),
            evaluated(
                r,
                *mask,
                |row: int| integral_cell(upward, numbered(life_cell(lx, bound, *value, row))),
                typed_as(life_kind(lx, bound, *value) is Some, ColumnKind::Decimal),
                life_work_step(lx, bound, whole, rows_of(*mask), old(self).worked()),
                final(self).worked(),
            ),
        decreases bound, 2nat, whole, 1int,
    {
        let ghost f = |row: int| life_cell(lx, bound, *value, row);
        let (column, mut errors) = match self.eval_scalar(value, mask, Ghost(lx), Ghost(bound)) {
            Ok(part) => part,
            Err(error) => return Err(error),
        };
        let (numbers, live) = numeric_operand(&column, &mut errors, mask, Ghost(f));
        Ok(
            integral_column(
                upward,
                (numbers, live, errors),
                mask,
                Ghost(|row: int| numbered(f(row))),
            ),
        )
    }

    /// The fallback of a `match`. The placeholder is evaluated for no rows.
    fn life_no_match(
        &mut self,
        subject: &CompiledScalarExpr,
        placeholder: &CompiledScalarExpr,
        labels: &MatchLabels,
        mask: &RowMask,
        Ghost(lx): Ghost<LifetimeFacts>,
        Ghost(bound): Ghost<nat>,
        Ghost(whole): Ghost<CompiledScalarExpr>,
    ) -> (r: Result<(DenseColumn, RowErrors), EvalError>)
        requires
            old(self).ready(lx),
            bound <= lx.program.derived@.len(),
            mask@.len() == lx.row_count,
            scalar_fits(lx.program, bound, 2, *subject),
            scalar_fits(lx.program, bound, 2, *placeholder),
            decreases_to!(whole => *subject),
            decreases_to!(whole => *placeholder),
            whole matches CompiledScalarExpr::NoMatch { subject: a, .. } && *a == *subject,
        ensures
            final(self).ready(lx),
            evaluated(
                r,
                *mask,
                |row: int| no_match_cell(*labels, life_cell(lx, bound, *subject, row)),
                if life_kind(lx, bound, *subject) is Some {
                    life_kind(lx, bound, *placeholder)
                } else {
                    None
                },
                life_work_step(lx, bound, whole, rows_of(*mask), old(self).worked()),
                final(self).worked(),
            ),
        decreases bound, 2nat, whole, 1int,
    {
        let nothing = RowMask::none(mask.len());
        proof {
            life_rests(lx, bound, *placeholder, rows_of(nothing), self.worked());
        }
        let (column, _) = match self.eval_scalar(placeholder, &nothing, Ghost(lx), Ghost(bound)) {
            Ok(part) => part,
            Err(error) => return Err(error),
        };
        let part = match self.eval_scalar(subject, mask, Ghost(lx), Ghost(bound)) {
            Ok(part) => part,
            Err(error) => return Err(error),
        };
        Ok(
            no_match_column(
                labels,
                column,
                part,
                mask,
                Ghost(|row: int| life_cell(lx, bound, *subject, row)),
            ),
        )
    }

    /// `if`: each branch is evaluated for the rows that select it.
    fn life_choice(
        &mut self,
        condition: &CompiledJudgmentExpr,
        then_expr: &CompiledScalarExpr,
        else_expr: &CompiledScalarExpr,
        mask: &RowMask,
        Ghost(lx): Ghost<LifetimeFacts>,
        Ghost(bound): Ghost<nat>,
        Ghost(whole): Ghost<CompiledScalarExpr>,
    ) -> (r: Result<(DenseColumn, RowErrors), EvalError>)
        requires
            old(self).ready(lx),
            bound <= lx.program.derived@.len(),
            mask@.len() == lx.row_count,
            judgment_fits(lx.program, bound, 2, *condition),
            scalar_fits(lx.program, bound, 2, *then_expr),
            scalar_fits(lx.program, bound, 2, *else_expr),
            decreases_to!(whole => *condition),
            decreases_to!(whole => *then_expr),
            decreases_to!(whole => *else_expr),
            whole matches CompiledScalarExpr::If { condition: c, then_expr: a, else_expr: b }
                && *c == *condition
                && *a == *then_expr
                && *b == *else_expr,
        ensures
            final(self).ready(lx),
            evaluated(
                r,
                *mask,
                |row: int|
                    if_cell(
                        life_outcome(lx, bound, *condition, row),
                        life_cell(lx, bound, *then_expr, row),
                        life_cell(lx, bound, *else_expr, row),
                    ),
                if life_typed(lx, bound, *condition) {
                    joined_kind(
                        life_kind(lx, bound, *then_expr),
                        life_kind(lx, bound, *else_expr),
                    )
                } else {
                    None
                },
                life_work_step(lx, bound, whole, rows_of(*mask), old(self).worked()),
                final(self).worked(),
            ),
        decreases bound, 2nat, whole, 1int,
    {
        let ghost c = |row: int| life_outcome(lx, bound, *condition, row);
        let ghost f = |row: int| life_cell(lx, bound, *then_expr, row);
        let ghost g = |row: int| life_cell(lx, bound, *else_expr, row);
        let (outcomes, errors) = match self.eval_judgment(
            condition,
            mask,
            Ghost(lx),
            Ghost(bound),
        ) {
            Ok(part) => part,
            Err(error) => return Err(error),
        };
        let live = mask.without(&errors);
        let then_rows = holding_rows(&outcomes, &live);
        let else_rows = live.difference(&then_rows);
        proof {
            assert forall|row: int| #[trigger] mask.has(row) implies match c(row) {
                Err(error) => errors.at(row) == Some(error) && !then_rows.has(row)
                    && !else_rows.has(row),
                Ok(outcome) => errors.at(row) is None && then_rows.has(row) == (outcome is Holds)
                    && else_rows.has(row) == !(outcome is Holds),
            } by {
                assert(live.has(row) == (c(row) is Ok));
            }
            assert forall|row: int| #[trigger] then_rows.has(row) implies mask.has(row) by {
                assert(live.has(row));
            }
            assert forall|row: int| #[trigger] else_rows.has(row) implies mask.has(row) by {
                assert(live.has(row));
            }
            assert(
                rows_of(then_rows) =~= taken_rows(
                    rows_of(*mask),
                    |row: int| life_outcome(lx, bound, *condition, row),
                )
            );
            assert(
                rows_of(else_rows) =~= passed_rows(
                    rows_of(*mask),
                    |row: int| life_outcome(lx, bound, *condition, row),
                )
            );
        }
        let then_part = match self.eval_scalar(then_expr, &then_rows, Ghost(lx), Ghost(bound)) {
            Ok(part) => part,
            Err(error) => return Err(error),
        };
        let else_part = match self.eval_scalar(else_expr, &else_rows, Ghost(lx), Ghost(bound)) {
            Ok(part) => part,
            Err(error) => return Err(error),
        };
        combine_if(
            errors,
            &then_rows,
            then_part,
            &else_rows,
            else_part,
            mask,
            Ghost(c),
            Ghost(f),
            Ghost(g),
        )
    }

    /// A comparison: the left side first.
    fn life_comparison(
        &mut self,
        left: &CompiledScalarExpr,
        op: ComparisonOp,
        right: &CompiledScalarExpr,
        mask: &RowMask,
        Ghost(lx): Ghost<LifetimeFacts>,
        Ghost(bound): Ghost<nat>,
        Ghost(whole): Ghost<CompiledJudgmentExpr>,
    ) -> (r: Result<(Vec<JudgmentOutcome>, RowErrors), EvalError>)
        requires
            old(self).ready(lx),
            bound <= lx.program.derived@.len(),
            mask@.len() == lx.row_count,
            scalar_fits(lx.program, bound, 2, *left),
            scalar_fits(lx.program, bound, 2, *right),
            decreases_to!(whole => *left),
            decreases_to!(whole => *right),
            whole matches CompiledJudgmentExpr::Comparison { left: a, right: b, .. }
                && a == *left
                && b == *right,
        ensures
            final(self).ready(lx),
            assessed(
                r,
                *mask,
                |row: int|
                    compare_cell(
                        life_cell(lx, bound, *left, row),
                        op,
                        life_cell(lx, bound, *right, row),
                    ),
                life_kind(lx, bound, *left) is Some && life_kind(lx, bound, *right) is Some,
                life_judgment_work_step(lx, bound, whole, rows_of(*mask), old(self).worked()),
                final(self).worked(),
            ),
        decreases bound, 2nat, whole, 1int,
    {
        let left_part = match self.eval_scalar(left, mask, Ghost(lx), Ghost(bound)) {
            Ok(part) => part,
            Err(error) => return Err(error),
        };
        let live = mask.without(&left_part.1);
        assert(
            rows_of(live) =~= ok_rows(rows_of(*mask), |row: int| life_cell(lx, bound, *left, row))
        );
        let right_part = match self.eval_scalar(right, &live, Ghost(lx), Ghost(bound)) {
            Ok(part) => part,
            Err(error) => return Err(error),
        };
        Ok(
            compare_dense(
                left_part,
                op,
                right_part,
                mask,
                &live,
                Ghost(|row: int| life_cell(lx, bound, *left, row)),
                Ghost(|row: int| life_cell(lx, bound, *right, row)),
            ),
        )
    }

    /// `and` or `or`: each item is evaluated for the rows that no earlier item
    /// decided. A row with an undetermined item and no decisive one is undetermined.
    fn life_short_circuit(
        &mut self,
        items: &Vec<CompiledJudgmentExpr>,
        decisive: JudgmentOutcome,
        mask: &RowMask,
        Ghost(lx): Ghost<LifetimeFacts>,
        Ghost(bound): Ghost<nat>,
        Ghost(whole): Ghost<CompiledJudgmentExpr>,
    ) -> (r: Result<(Vec<JudgmentOutcome>, RowErrors), EvalError>)
        requires
            old(self).ready(lx),
            bound <= lx.program.derived@.len(),
            mask@.len() == lx.row_count,
            judgments_fit(lx.program, bound, 2, items@, items@.len()),
            forall|i: int| #![trigger items@[i]] 0 <= i < items@.len() ==> decreases_to!(whole => items@[i]),
            (decisive == JudgmentOutcome::NotHolds && whole == CompiledJudgmentExpr::And(*items))
                || (decisive == JudgmentOutcome::Holds
                    && whole == CompiledJudgmentExpr::Or(*items)),
        ensures
            final(self).ready(lx),
            assessed(
                r,
                *mask,
                |row: int|
                    connective_outcome(
                        decisive,
                        life_connective(lx, bound, items@, items@.len(), decisive, row),
                    ),
                life_items_typed(lx, bound, items@, items@.len()),
                life_judgment_work_step(lx, bound, whole, rows_of(*mask), old(self).worked()),
                final(self).worked(),
            ),
        decreases bound, 2nat, whole, 1int,
    {
        let ghost w0 = self.worked();
        let mut state = (
            mask.duplicate(),
            repeated(false, mask.len()),
            RowErrors::new(),
        );
        let mut i: usize = 0;
        while i < items.len() && !state.0.is_empty()
            invariant
                i <= items@.len(),
                self.ready(lx),
                bound <= lx.program.derived@.len(),
                mask@.len() == lx.row_count,
                judgments_fit(lx.program, bound, 2, items@, items@.len()),
                forall|j: int| #![trigger items@[j]] 0 <= j < items@.len() ==> decreases_to!(whole => items@[j]),
                connective_is(
                    state.0,
                    state.1@,
                    state.2,
                    *mask,
                    |row: int| life_connective(lx, bound, items@, i as nat, decisive, row),
                ),
                w0 == old(self).worked(),
                (decisive == JudgmentOutcome::NotHolds
                    && whole == CompiledJudgmentExpr::And(*items))
                    || (decisive == JudgmentOutcome::Holds
                        && whole == CompiledJudgmentExpr::Or(*items)),
                life_connective_work(
                    lx,
                    bound,
                    items@,
                    i as nat,
                    decisive,
                    rows_of(*mask),
                    w0,
                ) == Some(self.worked()),
            decreases items@.len() - i,
        {
            let ghost f = |row: int| life_connective(lx, bound, items@, i as nat, decisive, row);
            let ghost g = |row: int| life_outcome(lx, bound, items@[i as int], row);
            proof {
                judgments_fit_each(lx.program, bound, 2, items@, items@.len(), i as int);
            }
            assert(decreases_to!(whole => items@[i as int]));
            assert(
                rows_of(state.0) =~= open_rows(
                    rows_of(*mask),
                    |row: int| life_connective(lx, bound, items@, i as nat, decisive, row),
                )
            );
            let part = match self.eval_judgment(&items[i], &state.0, Ghost(lx), Ghost(bound)) {
                Ok(part) => part,
                Err(error) => {
                    proof {
                        if life_items_typed(lx, bound, items@, items@.len()) {
                            life_items_typed_each(lx, bound, items@, items@.len(), i as int);
                        }
                        life_connective_fails(
                            lx,
                            bound,
                            items@,
                            (i + 1) as nat,
                            items@.len(),
                            decisive,
                            rows_of(*mask),
                            w0,
                        );
                    }
                    return Err(error);
                },
            };
            state = short_circuit_item(decisive, state, part, mask, Ghost(f), Ghost(g));
            i = i + 1;
        }
        let ghost f = |row: int| life_connective(lx, bound, items@, items@.len(), decisive, row);
        proof {
            assert(
                rows_of(state.0) =~= open_rows(
                    rows_of(*mask),
                    |row: int| life_connective(lx, bound, items@, i as nat, decisive, row),
                )
            );
            if i < items@.len() {
                life_connective_rests(
                    lx,
                    bound,
                    items@,
                    i as nat,
                    items@.len(),
                    decisive,
                    rows_of(*mask),
                    w0,
                );
            }
        }
        proof {
            assert forall|row: int| #[trigger] mask.has(row) implies f(row) == life_connective(
                lx,
                bound,
                items@,
                i as nat,
                decisive,
                row,
            ) by {
                if i < items@.len() {
                    assert(!state.0.has(row));
                    life_connective_settled(
                        lx,
                        bound,
                        items@,
                        i as nat,
                        items@.len(),
                        decisive,
                        row,
                    );
                }
            }
        }
        Ok(short_circuit_end(decisive, state, mask, Ghost(f)))
    }
}

/// Dates with the error of a formula that needs a period.
fn ambiguous_dates(mask: &RowMask, leaf: &str) -> (r: (DenseColumn, RowErrors))
    ensures
        r.0.kind() == ColumnKind::Date,
        column_is(r.0, r.1, *mask, |row: int| Err(ErrorView::LifetimeAmbiguousLeaf(leaf@))),
{
    fail_all(
        DenseColumn::Date(repeated(Date::epoch(), mask.len())),
        mask,
        EvalError::LifetimeAmbiguousLeaf(owned(leaf)),
    )
}

/// Integers with the error of a formula that needs a period.
fn ambiguous_counts(mask: &RowMask, leaf: &str) -> (r: (DenseColumn, RowErrors))
    ensures
        r.0.kind() == ColumnKind::Integer,
        column_is(r.0, r.1, *mask, |row: int| Err(ErrorView::LifetimeAmbiguousLeaf(leaf@))),
{
    fail_all(
        DenseColumn::Integer(repeated(0i64, mask.len())),
        mask,
        EvalError::LifetimeAmbiguousLeaf(owned(leaf)),
    )
}

proof fn varying_kept(cells: Seq<ScalarValue>, m: nat, n: nat)
    requires
        m <= n <= cells.len(),
        varying_at(cells, m) is Some,
    ensures
        varying_at(cells, n) == varying_at(cells, m),
    decreases n,
{
    if m < n {
        varying_kept(cells, m, (n - 1) as nat);
    }
}

proof fn diverging_kept(cells: Seq<ScalarValue>, m: nat, n: nat)
    requires
        m <= n <= cells.len(),
        diverging_at(cells, m) is Some,
    ensures
        diverging_at(cells, n) == diverging_at(cells, m),
    decreases n,
{
    if m < n {
        diverging_kept(cells, m, (n - 1) as nat);
    }
}

} // verus!
