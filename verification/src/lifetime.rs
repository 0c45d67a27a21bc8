//! What compiled formulas give over an entity's lifetime.
//!
//! A lifetime is a list of periods with one batch each, all of the same rows in the
//! same order. A reduction evaluates its argument in every period and reduces along
//! them. Outside a reduction a formula has no period: parameters read the last
//! period, an input must have one value in all periods, and what depends on a
//! period fails.
use crate::column::{
    binary_cell, compare_cell, connective_item, connective_outcome, connective_start,
    extremum_cell, if_cell, integral_cell, no_match_cell, normal, numbered, parameter_cell,
    parameter_kind, rounded_cell, rounded_kind, sum_cell, value_column_kind, BinaryOp, ColumnKind,
    ConnectiveState, ShiftUnit,
};
use crate::date::Date;
use crate::decimal::Decimal;
use crate::dense::{
    left_rule, root_cell, CompiledJudgmentExpr, CompiledScalarExpr, CompiledSemantics,
    DenseCompiledProgram, DenseFacts,
};
use crate::error::ErrorView;
use crate::format::value_label;
use crate::idle::{life_idle, life_judgment_idle};
use crate::kinds::{joined_kind, root_kind, typed_as};
use crate::mixing::{
    life_judgment_work, life_judgment_work_step, life_work, life_work_step, none_of, LifeWorked,
};
use crate::model::{JudgmentOutcome, OverPeriodsKind, ScalarValue};
use crate::semantics::{as_decimal_value, better, capped};
use crate::text::int_text;
use vstd::prelude::*;

verus! {

/// A compiled program with the periods that it is evaluated over.
pub ghost struct LifetimeFacts {
    pub program: DenseCompiledProgram,
    /// The program on each period's batch.
    pub periods: Seq<DenseFacts>,
    pub row_count: nat,
}

impl LifetimeFacts {
    /// There is a period, and the batches fit the program and have the same rows.
    pub open spec fn aligned(self) -> bool {
        &&& self.periods.len() > 0
        &&& self.periods.len() <= usize::MAX
        &&& self.program.well_formed()
        &&& forall|p: int| #![trigger self.periods[p]]
            0 <= p < self.periods.len() ==> self.periods[p].bound_well() && self.periods[p].program
                == self.program && self.periods[p].batch.row_count == self.row_count
    }

    /// The last period.
    pub open spec fn reference(self) -> DenseFacts {
        self.periods[self.periods.len() - 1]
    }

    /// How errors name a period.
    pub open spec fn label(self, p: int) -> Seq<char> {
        "in "@ + self.periods[p].start.text() + ".."@ + self.periods[p].end.text()
    }
}

/// The value of a formula in a period.
pub open spec fn period_cell(
    lx: LifetimeFacts,
    bound: nat,
    e: CompiledScalarExpr,
    p: int,
    row: int,
) -> Result<ScalarValue, ErrorView> {
    root_cell(lx.periods[p], bound, 2, e, row)
}

/// The values of a formula in the first `n` periods, or the first error.
pub open spec fn period_cells(
    lx: LifetimeFacts,
    bound: nat,
    e: CompiledScalarExpr,
    n: nat,
    row: int,
) -> Result<Seq<ScalarValue>, ErrorView>
    decreases n,
{
    if n == 0 {
        Ok(Seq::empty())
    } else {
        match period_cells(lx, bound, e, (n - 1) as nat, row) {
            Err(error) => Err(error),
            Ok(cells) => match period_cell(lx, bound, e, n - 1, row) {
                Err(error) => Err(error),
                Ok(cell) => Ok(cells.push(cell)),
            },
        }
    }
}

/// The numbers of a formula in the first `n` periods, or the first error.
pub open spec fn period_numbers(
    lx: LifetimeFacts,
    bound: nat,
    e: CompiledScalarExpr,
    n: nat,
    row: int,
) -> Result<Seq<Decimal>, ErrorView>
    decreases n,
{
    if n == 0 {
        Ok(Seq::empty())
    } else {
        match period_numbers(lx, bound, e, (n - 1) as nat, row) {
            Err(error) => Err(error),
            Ok(numbers) => match numbered(period_cell(lx, bound, e, n - 1, row)) {
                Err(error) => Err(error),
                Ok(number) => Ok(numbers.push(number)),
            },
        }
    }
}

/// Whether a value counts in `count_over_periods`: a true boolean or a number other
/// than zero.
pub open spec fn counts_as(value: ScalarValue) -> Result<bool, ErrorView> {
    match value {
        ScalarValue::Bool(b) => Ok(b),
        ScalarValue::Integer(i) => Ok(i != 0),
        ScalarValue::Decimal(d) => Ok(d.magnitude() != 0),
        _ => Err(
            ErrorView::TypeMismatch(
                "count_over_periods requires a numeric or boolean inner value (text and date have no zero to count against)"@,
            ),
        ),
    }
}

/// How many of the first `n` periods have a value that counts, or the first error.
pub open spec fn period_count(
    lx: LifetimeFacts,
    bound: nat,
    e: CompiledScalarExpr,
    n: nat,
    row: int,
) -> Result<nat, ErrorView>
    decreases n,
{
    if n == 0 {
        Ok(0)
    } else {
        match period_count(lx, bound, e, (n - 1) as nat, row) {
            Err(error) => Err(error),
            Ok(count) => match period_cell(lx, bound, e, n - 1, row) {
                Err(error) => Err(error),
                Ok(value) => match counts_as(value) {
                    Err(error) => Err(error),
                    Ok(counts) => Ok(
                        if counts {
                            count + 1
                        } else {
                            count
                        },
                    ),
                },
            },
        }
    }
}

/// The sum of numbers from left to right.
pub open spec fn total_of(numbers: Seq<Decimal>) -> Result<Decimal, ErrorView>
    decreases numbers.len(),
{
    if numbers.len() == 0 {
        Ok(Decimal::zero_value())
    } else {
        sum_cell(total_of(numbers.drop_last()), Ok(numbers.last()))
    }
}

/// The largest number; of equal ones the first.
pub open spec fn largest_of(numbers: Seq<Decimal>) -> Decimal
    decreases numbers.len(),
{
    if numbers.len() <= 1 {
        numbers[0]
    } else {
        better(true, largest_of(numbers.drop_last()), numbers.last())
    }
}

/// Where a number goes in a descending list: behind all that are not smaller.
pub open spec fn rank_in(numbers: Seq<Decimal>, x: Decimal) -> nat
    decreases numbers.len(),
{
    if numbers.len() == 0 {
        0
    } else if numbers.last().below(x) {
        rank_in(numbers.drop_last(), x)
    } else {
        numbers.len()
    }
}

/// The numbers in descending order, equal ones in their order.
pub open spec fn descending(numbers: Seq<Decimal>) -> Seq<Decimal>
    decreases numbers.len(),
{
    if numbers.len() == 0 {
        numbers
    } else {
        let before = descending(numbers.drop_last());
        before.insert(rank_in(before, numbers.last()) as int, numbers.last())
    }
}

/// The first of `n` earlier periods whose value is not that of the last.
pub open spec fn varying_at(cells: Seq<ScalarValue>, n: nat) -> Option<nat>
    decreases n,
{
    if n == 0 || n > cells.len() {
        None
    } else {
        match varying_at(cells, (n - 1) as nat) {
            Some(p) => Some(p),
            None => if cells.last().equals(cells[n - 1]) {
                None
            } else {
                Some((n - 1) as nat)
            },
        }
    }
}

/// The first of the first `n` periods whose value is not that of the first.
pub open spec fn diverging_at(cells: Seq<ScalarValue>, n: nat) -> Option<nat>
    decreases n,
{
    if n <= 1 || n > cells.len() {
        None
    } else {
        match diverging_at(cells, (n - 1) as nat) {
            Some(p) => Some(p),
            None => if cells[0].equals(cells[n - 1]) {
                None
            } else {
                Some((n - 1) as nat)
            },
        }
    }
}

/// The `n` of `sum_top_n_over_periods`: the same in every period, and between one
/// and the number of periods.
pub open spec fn top_n(
    lx: LifetimeFacts,
    bound: nat,
    n: Option<Box<CompiledScalarExpr>>,
    row: int,
) -> Result<nat, ErrorView> {
    let reduction = OverPeriodsKind::SumTopN.call_name();
    let count = lx.periods.len();
    match n {
        None => Err(ErrorView::TypeMismatch("sum_top_n_over_periods requires an n argument"@)),
        Some(e) => match period_cells(lx, bound, *e, count, row) {
            Err(error) => Err(error),
            Ok(cells) => match varying_at(cells, (count - 1) as nat) {
                Some(p) => Err(
                    ErrorView::OverPeriodsTopNPeriodVarying {
                        reduction,
                        first_period: lx.label(p as int),
                        first_value: value_label(cells[p as int]),
                        second_period: lx.label(count - 1),
                        second_value: value_label(cells.last()),
                    },
                ),
                None => match numbered(Ok(cells.last())) {
                    Err(error) => Err(error),
                    Ok(number) => match number.truncated() {
                        None => Err(
                            ErrorView::OverPeriodsTopNOutOfRange {
                                reduction,
                                n: value_label(cells.last()),
                                period_count: count,
                            },
                        ),
                        Some(i) => if 1 <= i <= count {
                            Ok(i as nat)
                        } else {
                            Err(
                                ErrorView::OverPeriodsTopNOutOfRange {
                                    reduction,
                                    n: int_text(i as int),
                                    period_count: count,
                                },
                            )
                        },
                    },
                },
            },
        },
    }
}

/// A reduction over the periods.
pub open spec fn over_periods_cell(
    lx: LifetimeFacts,
    bound: nat,
    kind: OverPeriodsKind,
    value: CompiledScalarExpr,
    n: Option<Box<CompiledScalarExpr>>,
    row: int,
) -> Result<ScalarValue, ErrorView> {
    let count = lx.periods.len();
    match kind {
        OverPeriodsKind::Count => match period_count(lx, bound, value, count, row) {
            Err(error) => Err(error),
            Ok(c) => Ok(ScalarValue::Decimal(Decimal::of_int(capped(c) as int))),
        },
        _ => match period_numbers(lx, bound, value, count, row) {
            Err(error) => Err(error),
            Ok(numbers) => match kind {
                OverPeriodsKind::Max => Ok(ScalarValue::Decimal(largest_of(numbers))),
                OverPeriodsKind::SumTopN => match top_n(lx, bound, n, row) {
                    Err(error) => Err(error),
                    Ok(c) => as_decimal_value(total_of(descending(numbers).take(c as int))),
                },
                _ => as_decimal_value(total_of(numbers)),
            },
        },
    }
}

/// An input outside a reduction: its value must be the same in every period.
pub open spec fn invariant_cell(
    lx: LifetimeFacts,
    bound: nat,
    e: CompiledScalarExpr,
    input: Seq<char>,
    row: int,
) -> Result<ScalarValue, ErrorView> {
    match period_cells(lx, bound, e, lx.periods.len(), row) {
        Err(error) => Err(error),
        Ok(cells) => match diverging_at(cells, lx.periods.len()) {
            Some(p) => Err(
                ErrorView::LifetimePeriodVaryingInput {
                    input,
                    first_period: lx.label(0),
                    first_value: value_label(cells[0]),
                    second_period: lx.label(p as int),
                    second_value: value_label(cells[p as int]),
                },
            ),
            None => Ok(cells[0]),
        },
    }
}

/// The error of a formula that needs a period.
pub open spec fn ambiguous(leaf: Seq<char>) -> Result<ScalarValue, ErrorView> {
    Err(ErrorView::LifetimeAmbiguousLeaf(leaf))
}

pub open spec fn shift_leaf(unit: ShiftUnit) -> Seq<char> {
    match unit {
        ShiftUnit::Days => "date_add_days"@,
        ShiftUnit::Months => "date_add_months"@,
        ShiftUnit::Years => "date_add_years"@,
    }
}

/// The value of a rule over a lifetime.
pub open spec fn life_rule(lx: LifetimeFacts, i: nat, row: int) -> Result<ScalarValue, ErrorView>
    decreases i, 3nat, lx, 0int, 0int,
{
    let d = lx.program.derived@[i as int];
    match d.semantics {
        CompiledSemantics::Judgment(_) => Err(ErrorView::ExpectedScalar(d.name@)),
        CompiledSemantics::Scalar(e) => {
            let value = left_rule(d.label@, life_cell(lx, i, e, row));
            match d.rounding {
                Some(rounding) => rounded_cell(rounding, value),
                None => value,
            }
        },
    }
}

/// The judgment of a rule over a lifetime.
pub open spec fn life_rule_outcome(lx: LifetimeFacts, i: nat, row: int) -> Result<
    JudgmentOutcome,
    ErrorView,
>
    decreases i, 3nat, lx, 0int, 0int,
{
    let d = lx.program.derived@[i as int];
    match d.semantics {
        CompiledSemantics::Scalar(_) => Err(ErrorView::ExpectedJudgment(d.name@)),
        CompiledSemantics::Judgment(e) => left_rule(d.label@, life_outcome(lx, i, e, row)),
    }
}

/// The value of a formula over a lifetime.
#[verifier::opaque]
pub open spec fn life_cell(
    lx: LifetimeFacts,
    bound: nat,
    e: CompiledScalarExpr,
    row: int,
) -> Result<ScalarValue, ErrorView>
    decreases bound, 2nat, e, 3int, 0int,
{
    life_step(lx, bound, e, row)
}

/// The value of a formula over a lifetime over the values of its parts.
pub open spec fn life_step(
    lx: LifetimeFacts,
    bound: nat,
    e: CompiledScalarExpr,
    row: int,
) -> Result<ScalarValue, ErrorView>
    decreases bound, 2nat, e, 2int, 0int,
{
    match e {
        CompiledScalarExpr::Literal(value) => Ok(normal(value)),
        CompiledScalarExpr::Input(i) => invariant_cell(
            lx,
            bound,
            e,
            lx.program.root_inputs@[i as int]@,
            row,
        ),
        CompiledScalarExpr::InputOrElse { input, .. } => invariant_cell(
            lx,
            bound,
            e,
            lx.program.root_inputs@[input as int]@,
            row,
        ),
        CompiledScalarExpr::Derived(i) => if i < bound {
            life_rule(lx, i as nat, row)
        } else {
            Err(ErrorView::DivisionByZero)
        },
        CompiledScalarExpr::ParameterLookup { parameter, index } => parameter_cell(
            lx.program.parameters@[parameter as int].parameter,
            lx.reference().start,
            life_cell(lx, bound, *index, row),
        ),
        CompiledScalarExpr::Add(items) => as_decimal_value(
            life_sum(lx, bound, items@, items@.len(), row),
        ),
        CompiledScalarExpr::Sub(a, b) => binary_cell(
            BinaryOp::Sub,
            numbered(life_cell(lx, bound, *a, row)),
            numbered(life_cell(lx, bound, *b, row)),
            false,
        ),
        CompiledScalarExpr::Mul(a, b) => binary_cell(
            BinaryOp::Mul,
            numbered(life_cell(lx, bound, *a, row)),
            numbered(life_cell(lx, bound, *b, row)),
            false,
        ),
        CompiledScalarExpr::Div(a, b) => binary_cell(
            BinaryOp::Div,
            numbered(life_cell(lx, bound, *a, row)),
            numbered(life_cell(lx, bound, *b, row)),
            false,
        ),
        CompiledScalarExpr::Max(items) => if items@.len() == 0 {
            Err(ErrorView::TypeMismatch("max() requires at least one operand"@))
        } else {
            as_decimal_value(life_extremum(lx, bound, items@, items@.len(), true, row))
        },
        CompiledScalarExpr::Min(items) => if items@.len() == 0 {
            Err(ErrorView::TypeMismatch("min() requires at least one operand"@))
        } else {
            as_decimal_value(life_extremum(lx, bound, items@, items@.len(), false, row))
        },
        CompiledScalarExpr::Ceil(a) => integral_cell(true, numbered(life_cell(lx, bound, *a, row))),
        CompiledScalarExpr::Floor(a) => integral_cell(
            false,
            numbered(life_cell(lx, bound, *a, row)),
        ),
        CompiledScalarExpr::PeriodStart => ambiguous("period_start"@),
        CompiledScalarExpr::PeriodEnd => ambiguous("period_end"@),
        CompiledScalarExpr::DateShift { unit, .. } => ambiguous(shift_leaf(unit)),
        CompiledScalarExpr::DaysBetween { .. } => ambiguous("days_between"@),
        CompiledScalarExpr::CountRelated { .. } => ambiguous("count/len over a relation"@),
        CompiledScalarExpr::SumRelated { .. } => ambiguous("sum over a relation"@),
        CompiledScalarExpr::If { condition, then_expr, else_expr } => if_cell(
            life_outcome(lx, bound, *condition, row),
            life_cell(lx, bound, *then_expr, row),
            life_cell(lx, bound, *else_expr, row),
        ),
        CompiledScalarExpr::NoMatch { subject, labels, .. } => no_match_cell(
            labels,
            life_cell(lx, bound, *subject, row),
        ),
        CompiledScalarExpr::OverPeriods { kind, value, n } => over_periods_cell(
            lx,
            bound,
            kind,
            *value,
            n,
            row,
        ),
    }
}

/// The sum of the first `n` items over a lifetime.
pub open spec fn life_sum(
    lx: LifetimeFacts,
    bound: nat,
    items: Seq<CompiledScalarExpr>,
    n: nat,
    row: int,
) -> Result<Decimal, ErrorView>
    decreases bound, 2nat, items, 0int, n,
{
    if n == 0 || n > items.len() {
        Ok(Decimal::zero_value())
    } else {
        sum_cell(
            life_sum(lx, bound, items, (n - 1) as nat, row),
            numbered(life_cell(lx, bound, items[n - 1], row)),
        )
    }
}

/// The largest or smallest of the first `n` items over a lifetime.
pub open spec fn life_extremum(
    lx: LifetimeFacts,
    bound: nat,
    items: Seq<CompiledScalarExpr>,
    n: nat,
    largest: bool,
    row: int,
) -> Result<Decimal, ErrorView>
    decreases bound, 2nat, items, 0int, n,
{
    if n <= 1 || n > items.len() {
        if items.len() > 0 {
            numbered(life_cell(lx, bound, items[0], row))
        } else {
            Ok(Decimal::zero_value())
        }
    } else {
        extremum_cell(
            largest,
            life_extremum(lx, bound, items, (n - 1) as nat, largest, row),
            numbered(life_cell(lx, bound, items[n - 1], row)),
        )
    }
}

/// The judgment of a formula over a lifetime.
#[verifier::opaque]
pub open spec fn life_outcome(
    lx: LifetimeFacts,
    bound: nat,
    e: CompiledJudgmentExpr,
    row: int,
) -> Result<JudgmentOutcome, ErrorView>
    decreases bound, 2nat, e, 3int, 0int,
{
    life_outcome_step(lx, bound, e, row)
}

pub open spec fn life_outcome_step(
    lx: LifetimeFacts,
    bound: nat,
    e: CompiledJudgmentExpr,
    row: int,
) -> Result<JudgmentOutcome, ErrorView>
    decreases bound, 2nat, e, 2int, 0int,
{
    match e {
        CompiledJudgmentExpr::Comparison { left, op, right } => compare_cell(
            life_cell(lx, bound, left, row),
            op,
            life_cell(lx, bound, right, row),
        ),
        CompiledJudgmentExpr::Derived(i) => if i < bound {
            life_rule_outcome(lx, i as nat, row)
        } else {
            Err(ErrorView::DivisionByZero)
        },
        CompiledJudgmentExpr::And(items) => connective_outcome(
            JudgmentOutcome::NotHolds,
            life_connective(lx, bound, items@, items@.len(), JudgmentOutcome::NotHolds, row),
        ),
        CompiledJudgmentExpr::Or(items) => connective_outcome(
            JudgmentOutcome::Holds,
            life_connective(lx, bound, items@, items@.len(), JudgmentOutcome::Holds, row),
        ),
        CompiledJudgmentExpr::Not(item) => match life_outcome(lx, bound, *item, row) {
            Ok(o) => Ok(o.negated()),
            Err(error) => Err(error),
        },
    }
}

/// The state of `and` or `or` after the first `n` items over a lifetime.
pub open spec fn life_connective(
    lx: LifetimeFacts,
    bound: nat,
    items: Seq<CompiledJudgmentExpr>,
    n: nat,
    decisive: JudgmentOutcome,
    row: int,
) -> Result<ConnectiveState, ErrorView>
    decreases bound, 2nat, items, 0int, n,
{
    if n == 0 || n > items.len() {
        connective_start()
    } else {
        connective_item(
            decisive,
            life_connective(lx, bound, items, (n - 1) as nat, decisive, row),
            life_outcome(lx, bound, items[n - 1], row),
        )
    }
}

/// Whether a formula has a dtype in every period.
pub open spec fn periods_typed(lx: LifetimeFacts, bound: nat, e: CompiledScalarExpr) -> bool {
    forall|p: int| #![trigger lx.periods[p]]
        0 <= p < lx.periods.len() ==> root_kind(lx.periods[p], bound, 2, e) is Some
}

/// The dtype of a rule's column over a lifetime.
pub open spec fn life_rule_kind(lx: LifetimeFacts, i: nat) -> Option<ColumnKind>
    decreases i, 3nat, lx, 0int, 0int,
{
    let d = lx.program.derived@[i as int];
    match d.semantics {
        CompiledSemantics::Judgment(_) => Some(ColumnKind::Decimal),
        CompiledSemantics::Scalar(e) => match life_kind(lx, i, e) {
            Some(kind) => Some(
                if d.rounding is Some {
                    rounded_kind(kind)
                } else {
                    kind
                },
            ),
            None => None,
        },
    }
}

pub open spec fn life_rule_typed(lx: LifetimeFacts, i: nat) -> bool
    decreases i, 3nat, lx, 0int, 0int,
{
    match lx.program.derived@[i as int].semantics {
        CompiledSemantics::Scalar(_) => true,
        CompiledSemantics::Judgment(e) => life_typed(lx, i, e),
    }
}

/// The dtype of a formula's column over a lifetime.
#[verifier::opaque]
pub open spec fn life_kind(lx: LifetimeFacts, bound: nat, e: CompiledScalarExpr) -> Option<
    ColumnKind,
>
    decreases bound, 2nat, e, 3int, 0int,
{
    life_kind_step(lx, bound, e)
}

pub open spec fn life_kind_step(lx: LifetimeFacts, bound: nat, e: CompiledScalarExpr) -> Option<
    ColumnKind,
>
    decreases bound, 2nat, e, 2int, 0int,
{
    match e {
        CompiledScalarExpr::Literal(value) => Some(value_column_kind(value)),
        CompiledScalarExpr::Input(_) => if periods_typed(lx, bound, e) {
            root_kind(lx.periods[0], bound, 2, e)
        } else {
            None
        },
        CompiledScalarExpr::InputOrElse { .. } => if periods_typed(lx, bound, e) {
            root_kind(lx.periods[0], bound, 2, e)
        } else {
            None
        },
        CompiledScalarExpr::Derived(i) => if i < bound {
            life_rule_kind(lx, i as nat)
        } else {
            None
        },
        CompiledScalarExpr::ParameterLookup { parameter, index } => typed_as(
            life_kind(lx, bound, *index) is Some,
            parameter_kind(
                lx.program.parameters@[parameter as int].parameter,
                lx.reference().start,
            ),
        ),
        CompiledScalarExpr::Add(items) => typed_as(
            lives_typed(lx, bound, items@, items@.len()),
            ColumnKind::Decimal,
        ),
        CompiledScalarExpr::Max(items) => typed_as(
            lives_typed(lx, bound, items@, items@.len()),
            ColumnKind::Decimal,
        ),
        CompiledScalarExpr::Min(items) => typed_as(
            lives_typed(lx, bound, items@, items@.len()),
            ColumnKind::Decimal,
        ),
        CompiledScalarExpr::Sub(a, b) => typed_as(
            life_kind(lx, bound, *a) is Some && life_kind(lx, bound, *b) is Some,
            ColumnKind::Decimal,
        ),
        CompiledScalarExpr::Mul(a, b) => typed_as(
            life_kind(lx, bound, *a) is Some && life_kind(lx, bound, *b) is Some,
            ColumnKind::Decimal,
        ),
        CompiledScalarExpr::Div(a, b) => typed_as(
            life_kind(lx, bound, *a) is Some && life_kind(lx, bound, *b) is Some,
            ColumnKind::Decimal,
        ),
        CompiledScalarExpr::Ceil(a) => typed_as(
            life_kind(lx, bound, *a) is Some,
            ColumnKind::Decimal,
        ),
        CompiledScalarExpr::Floor(a) => typed_as(
            life_kind(lx, bound, *a) is Some,
            ColumnKind::Decimal,
        ),
        CompiledScalarExpr::PeriodStart => Some(ColumnKind::Date),
        CompiledScalarExpr::PeriodEnd => Some(ColumnKind::Date),
        CompiledScalarExpr::DateShift { .. } => Some(ColumnKind::Date),
        CompiledScalarExpr::DaysBetween { .. } => Some(ColumnKind::Integer),
        CompiledScalarExpr::CountRelated { .. } => Some(ColumnKind::Integer),
        CompiledScalarExpr::SumRelated { .. } => Some(ColumnKind::Decimal),
        CompiledScalarExpr::If { condition, then_expr, else_expr } => if life_typed(
            lx,
            bound,
            *condition,
        ) {
            joined_kind(life_kind(lx, bound, *then_expr), life_kind(lx, bound, *else_expr))
        } else {
            None
        },
        CompiledScalarExpr::NoMatch { subject, placeholder, .. } => if life_kind(
            lx,
            bound,
            *subject,
        ) is Some {
            life_kind(lx, bound, *placeholder)
        } else {
            None
        },
        CompiledScalarExpr::OverPeriods { kind, value, n } => typed_as(
            periods_typed(lx, bound, *value) && match n {
                Some(n) => kind == OverPeriodsKind::SumTopN ==> periods_typed(lx, bound, *n),
                None => true,
            },
            if kind == OverPeriodsKind::Count {
                ColumnKind::Integer
            } else {
                ColumnKind::Decimal
            },
        ),
    }
}

/// Whether the first `n` items have dtypes over a lifetime.
pub open spec fn lives_typed(
    lx: LifetimeFacts,
    bound: nat,
    items: Seq<CompiledScalarExpr>,
    n: nat,
) -> bool
    decreases bound, 2nat, items, 0int, n,
{
    n == 0 || n > items.len() || (lives_typed(lx, bound, items, (n - 1) as nat) && life_kind(
        lx,
        bound,
        items[n - 1],
    ) is Some)
}

pub proof fn lives_typed_each(
    lx: LifetimeFacts,
    bound: nat,
    items: Seq<CompiledScalarExpr>,
    n: nat,
    i: int,
)
    requires
        lives_typed(lx, bound, items, n),
        0 <= i < n <= items.len(),
    ensures
        life_kind(lx, bound, items[i]) is Some,
    decreases n,
{
    reveal(life_kind);
    if i < n - 1 {
        lives_typed_each(lx, bound, items, (n - 1) as nat, i);
    }
}

/// Whether the parts of a judgment have dtypes over a lifetime.
#[verifier::opaque]
pub open spec fn life_typed(lx: LifetimeFacts, bound: nat, e: CompiledJudgmentExpr) -> bool
    decreases bound, 2nat, e, 3int, 0int,
{
    life_typed_step(lx, bound, e)
}

pub open spec fn life_typed_step(lx: LifetimeFacts, bound: nat, e: CompiledJudgmentExpr) -> bool
    decreases bound, 2nat, e, 2int, 0int,
{
    match e {
        CompiledJudgmentExpr::Comparison { left, right, .. } => life_kind(lx, bound, left) is Some
            && life_kind(lx, bound, right) is Some,
        CompiledJudgmentExpr::Derived(i) => i < bound && life_rule_typed(lx, i as nat),
        CompiledJudgmentExpr::And(items) => life_items_typed(lx, bound, items@, items@.len()),
        CompiledJudgmentExpr::Or(items) => life_items_typed(lx, bound, items@, items@.len()),
        CompiledJudgmentExpr::Not(item) => life_typed(lx, bound, *item),
    }
}

/// Whether the first `n` items have dtypes over a lifetime.
pub open spec fn life_items_typed(
    lx: LifetimeFacts,
    bound: nat,
    items: Seq<CompiledJudgmentExpr>,
    n: nat,
) -> bool
    decreases bound, 2nat, items, 0int, n,
{
    n == 0 || n > items.len() || (life_items_typed(lx, bound, items, (n - 1) as nat) && life_typed(
        lx,
        bound,
        items[n - 1],
    ))
}

pub proof fn life_items_typed_each(
    lx: LifetimeFacts,
    bound: nat,
    items: Seq<CompiledJudgmentExpr>,
    n: nat,
    i: int,
)
    requires
        life_items_typed(lx, bound, items, n),
        0 <= i < n <= items.len(),
    ensures
        life_typed(lx, bound, items[i]),
    decreases n,
{
    reveal(life_typed);
    if i < n - 1 {
        life_items_typed_each(lx, bound, items, (n - 1) as nat, i);
    }
}

pub proof fn life_is_step(lx: LifetimeFacts, bound: nat, e: CompiledScalarExpr)
    ensures
        forall|row: int| #[trigger] life_cell(lx, bound, e, row) == life_step(lx, bound, e, row),
        life_kind(lx, bound, e) == life_kind_step(lx, bound, e),
        forall|rows: Set<int>, w: LifeWorked| #[trigger]
            life_work(lx, bound, e, rows, w) == life_work_step(lx, bound, e, rows, w),
{
    reveal(life_work);
    assert forall|rows: Set<int>, w: LifeWorked| #[trigger]
        life_work(lx, bound, e, rows, w) == life_work_step(lx, bound, e, rows, w) by {
        if none_of(rows) {
            life_idle(lx, bound, e, rows, w);
        }
    }
    reveal(life_cell);
    reveal(life_kind);
}

pub proof fn life_outcome_is_step(lx: LifetimeFacts, bound: nat, e: CompiledJudgmentExpr)
    ensures
        forall|row: int| #[trigger]
            life_outcome(lx, bound, e, row) == life_outcome_step(lx, bound, e, row),
        life_typed(lx, bound, e) == life_typed_step(lx, bound, e),
        forall|rows: Set<int>, w: LifeWorked| #[trigger]
            life_judgment_work(lx, bound, e, rows, w) == life_judgment_work_step(lx, bound, e, rows, w),
{
    reveal(life_judgment_work);
    assert forall|rows: Set<int>, w: LifeWorked| #[trigger]
        life_judgment_work(lx, bound, e, rows, w) == life_judgment_work_step(lx, bound, e, rows, w) by {
        if none_of(rows) {
            life_judgment_idle(lx, bound, e, rows, w);
        }
    }
    reveal(life_outcome);
    reveal(life_typed);
}

/// Whether numbers do not rise.
pub open spec fn falls(numbers: Seq<Decimal>) -> bool {
    forall|i: int, j: int|
        0 <= i < j < numbers.len() ==> !(#[trigger] numbers[i]).below(#[trigger] numbers[j])
}

/// What is not below is not below, over three numbers.
pub proof fn below_trans(a: Decimal, b: Decimal, c: Decimal)
    requires
        !a.below(b),
        !b.below(c),
    ensures
        !a.below(c),
{
    let pa = crate::decimal::pow10(a.places());
    let pb = crate::decimal::pow10(b.places());
    let pc = crate::decimal::pow10(c.places());
    crate::decimal::pow10_positive(a.places());
    crate::decimal::pow10_positive(b.places());
    crate::decimal::pow10_positive(c.places());
    let (x, y, z) = (a.mantissa(), b.mantissa(), c.mantissa());
    assert(x * pb >= y * pa);
    assert(y * pc >= z * pb);
    assert(x * pc >= z * pa) by {
        assert((x * pb) * pc >= (y * pa) * pc) by (nonlinear_arith)
            requires
                x * pb >= y * pa,
                pc > 0,
        ;
        assert((y * pc) * pa >= (z * pb) * pa) by (nonlinear_arith)
            requires
                y * pc >= z * pb,
                pa > 0,
        ;
        assert((x * pc) * pb >= (z * pa) * pb) by (nonlinear_arith)
            requires
                (x * pb) * pc >= (y * pa) * pc,
                (y * pc) * pa >= (z * pb) * pa,
        ;
        assert(x * pc >= z * pa) by (nonlinear_arith)
            requires
                (x * pc) * pb >= (z * pa) * pb,
                pb > 0,
        ;
    }
}

proof fn rank_bounds(numbers: Seq<Decimal>, x: Decimal)
    requires
        falls(numbers),
    ensures
        rank_in(numbers, x) <= numbers.len(),
        forall|i: int| 0 <= i < rank_in(numbers, x) ==> !(#[trigger] numbers[i]).below(x),
        forall|i: int|
            rank_in(numbers, x) <= i < numbers.len() ==> (#[trigger] numbers[i]).below(x),
    decreases numbers.len(),
{
    if numbers.len() > 0 {
        if numbers.last().below(x) {
            let rest = numbers.drop_last();
            assert(falls(rest)) by {
                assert forall|i: int, j: int| 0 <= i < j < rest.len() implies !(
                #[trigger] rest[i]).below(#[trigger] rest[j]) by {
                    assert(rest[i] == numbers[i] && rest[j] == numbers[j]);
                }
            }
            rank_bounds(rest, x);
            assert forall|i: int| 0 <= i < rank_in(numbers, x) implies !(
            #[trigger] numbers[i]).below(x) by {
                assert(numbers[i] == rest[i]);
            }
            assert forall|i: int| rank_in(numbers, x) <= i < numbers.len() implies (
            #[trigger] numbers[i]).below(x) by {
                if i < rest.len() {
                    assert(numbers[i] == rest[i]);
                }
            }
        } else {
            assert forall|i: int| 0 <= i < numbers.len() implies !(#[trigger] numbers[i]).below(
                x,
            ) by {
                if i < numbers.len() - 1 {
                    assert(!numbers[i].below(numbers[numbers.len() - 1]));
                    below_trans(numbers[i], numbers.last(), x);
                }
            }
        }
    }
}

proof fn not_both_below(a: Decimal, b: Decimal)
    requires
        a.below(b),
    ensures
        !b.below(a),
{
}

/// The numbers that `sum_top_n_over_periods` takes from are those of the periods in
/// an order that does not rise.
pub proof fn descending_is_sorted(numbers: Seq<Decimal>)
    ensures
        falls(descending(numbers)),
        descending(numbers).len() == numbers.len(),
        descending(numbers).to_multiset() == numbers.to_multiset(),
    decreases numbers.len(),
{
    broadcast use vstd::seq_lib::group_to_multiset_ensures;

    if numbers.len() > 0 {
        let rest = numbers.drop_last();
        let x = numbers.last();
        descending_is_sorted(rest);
        let before = descending(rest);
        rank_bounds(before, x);
        let at = rank_in(before, x) as int;
        let s = before.insert(at, x);
        assert(s == descending(numbers));
        assert forall|i: int, j: int| 0 <= i < j < s.len() implies !(#[trigger] s[i]).below(
            #[trigger] s[j],
        ) by {
            if j < at {
                assert(s[i] == before[i] && s[j] == before[j]);
            } else if j == at {
                assert(s[i] == before[i]);
            } else if i < at {
                assert(s[i] == before[i] && s[j] == before[j - 1]);
            } else if i == at {
                assert(s[j] == before[j - 1]);
                assert(before[j - 1].below(x));
                not_both_below(before[j - 1], x);
            } else {
                assert(s[i] == before[i - 1] && s[j] == before[j - 1]);
            }
        }
        assert(numbers =~= rest.push(x));
        assert(s.to_multiset() =~= before.to_multiset().insert(x));
        assert(numbers.to_multiset() =~= rest.to_multiset().insert(x));
    }
}

} // verus!
