//! Laws of what formulas give over a lifetime.
use super::facts::same_values;
use super::formulas::{at_most, runs_over};
use crate::decimal::{decimal_difference, decimal_product, decimal_quotient, decimal_sum, Decimal};
use crate::dense::{CompiledJudgmentExpr, CompiledScalarExpr, CompiledSemantics};
use crate::error::ErrorView;
use crate::lifetime::{
    below_trans, descending, descending_is_sorted, diverging_at, falls, largest_of, life_cell,
    life_connective, life_extremum, life_is_step, life_outcome, life_outcome_is_step, life_rule,
    life_rule_outcome, life_sum, over_periods_cell, period_cell, period_cells, period_count,
    period_numbers, total_of, varying_at, LifetimeFacts,
};
use crate::model::{ComparisonOp, JudgmentOutcome, OverPeriodsKind, ScalarValue};
use vstd::prelude::*;

verus! {

/// A row of a lifetime.
pub ghost struct Life {
    pub lx: LifetimeFacts,
    pub bound: nat,
    pub row: int,
}

impl Life {
    /// Whether a formula has a value over the lifetime.
    pub open spec fn gives(self, e: CompiledScalarExpr, value: ScalarValue) -> bool {
        life_cell(self.lx, self.bound, e, self.row) == Ok::<ScalarValue, ErrorView>(value)
    }

    pub open spec fn fails(self, e: CompiledScalarExpr, error: ErrorView) -> bool {
        life_cell(self.lx, self.bound, e, self.row) == Err::<ScalarValue, ErrorView>(error)
    }

    /// Whether a formula has the value of a number.
    pub open spec fn counts(self, e: CompiledScalarExpr, number: Decimal) -> bool {
        ||| self.gives(e, ScalarValue::Decimal(number))
        ||| exists|i: i64| #[trigger]
            self.gives(e, ScalarValue::Integer(i)) && number == Decimal::of_int(i as int)
    }

    pub open spec fn finds(self, e: CompiledJudgmentExpr, outcome: JudgmentOutcome) -> bool {
        life_outcome(self.lx, self.bound, e, self.row) == Ok::<JudgmentOutcome, ErrorView>(outcome)
    }

    pub open spec fn holds(self, e: CompiledJudgmentExpr) -> bool {
        self.finds(e, JudgmentOutcome::Holds)
    }

    /// Whether a judgment has an outcome.
    pub open spec fn decides(self, e: CompiledJudgmentExpr) -> bool {
        self.holds(e) || self.finds(e, JudgmentOutcome::NotHolds) || self.finds(
            e,
            JudgmentOutcome::Undetermined,
        )
    }

    /// Whether a formula has a value in a period.
    pub open spec fn gives_in(self, p: int, e: CompiledScalarExpr, value: ScalarValue) -> bool {
        period_cell(self.lx, self.bound, e, p, self.row) == Ok::<ScalarValue, ErrorView>(value)
    }

    /// Whether a formula has the value of a number in a period.
    pub open spec fn counts_in(self, p: int, e: CompiledScalarExpr, number: Decimal) -> bool {
        ||| self.gives_in(p, e, ScalarValue::Decimal(number))
        ||| exists|i: i64| #[trigger]
            self.gives_in(p, e, ScalarValue::Integer(i)) && number == Decimal::of_int(i as int)
    }

    /// How many periods there are.
    pub open spec fn span(self) -> nat {
        self.lx.periods.len()
    }
}

/// Whether a value is one that `count_over_periods` counts: true, or a number other than zero.
pub open spec fn is_something(value: ScalarValue) -> bool {
    match value {
        ScalarValue::Bool(b) => b == true,
        ScalarValue::Integer(i) => i != 0,
        ScalarValue::Decimal(d) => d.mantissa() != 0,
        _ => false,
    }
}

proof fn periods_are_counted(at: Life, e: CompiledScalarExpr, cells: Seq<ScalarValue>, n: nat)
    requires
        n <= cells.len() == at.span(),
        forall|p: int| 0 <= p < cells.len() ==> at.gives_in(p, e, #[trigger] cells[p]),
        forall|p: int|
            0 <= p < cells.len() ==> !((#[trigger] cells[p]) is Text) && !(cells[p] is Date),
    ensures
        ({
            let counted = Set::new(|p: int| 0 <= p < n && is_something(cells[p]));
            &&& counted.finite()
            &&& counted.len() <= n
            &&& period_count(at.lx, at.bound, e, n, at.row) == Ok::<nat, ErrorView>(counted.len())
        }),
    decreases n,
{
    let counted = Set::new(|p: int| 0 <= p < n && is_something(cells[p]));
    if n > 0 {
        periods_are_counted(at, e, cells, (n - 1) as nat);
        let before = Set::new(|p: int| 0 <= p < n - 1 && is_something(cells[p]));
        assert(at.gives_in(n - 1, e, cells[n - 1]));
        if is_something(cells[n - 1]) {
            assert(counted =~= before.insert(n - 1));
            assert(!before.contains(n - 1));
        } else {
            assert(counted =~= before);
        }
    } else {
        assert(counted =~= Set::empty());
    }
}

/// The formula that reduces another over the periods.
pub open spec fn reduced(
    kind: OverPeriodsKind,
    value: CompiledScalarExpr,
    n: Option<Box<CompiledScalarExpr>>,
) -> CompiledScalarExpr {
    CompiledScalarExpr::OverPeriods { kind, value: Box::new(value), n }
}

/// `count_over_periods` gives the number of periods in which its argument is true, or a number
/// other than zero: of a boolean, those in which it is true.
pub proof fn periods_count_where_the_value_is_something(
    at: Life,
    value: CompiledScalarExpr,
    n: Option<Box<CompiledScalarExpr>>,
    cells: Seq<ScalarValue>,
)
    requires
        cells.len() == at.span(),
        at.span() <= i64::MAX,
        forall|p: int| 0 <= p < cells.len() ==> at.gives_in(p, value, #[trigger] cells[p]),
        forall|p: int|
            0 <= p < cells.len() ==> !((#[trigger] cells[p]) is Text) && !(cells[p] is Date),
    ensures
        ({
            let counted = Set::new(|p: int| 0 <= p < at.span() && is_something(cells[p]));
            &&& counted.finite()
            &&& at.gives(
                reduced(OverPeriodsKind::Count, value, n),
                ScalarValue::Decimal(Decimal::of_int(counted.len() as int)),
            )
        }),
        (forall|p: int| 0 <= p < cells.len() ==> #[trigger] cells[p] == ScalarValue::Bool(false))
            ==> at.gives(
            reduced(OverPeriodsKind::Count, value, n),
            ScalarValue::Decimal(Decimal::of_int(0)),
        ),
        (forall|p: int| 0 <= p < cells.len() ==> #[trigger] cells[p] == ScalarValue::Bool(true))
            ==> at.gives(
            reduced(OverPeriodsKind::Count, value, n),
            ScalarValue::Decimal(Decimal::of_int(at.span() as int)),
        ),
{
    life_is_step(at.lx, at.bound, reduced(OverPeriodsKind::Count, value, n));
    periods_are_counted(at, value, cells, at.span());
    let counted = Set::new(|p: int| 0 <= p < at.span() && is_something(cells[p]));
    if forall|p: int| 0 <= p < cells.len() ==> #[trigger] cells[p] == ScalarValue::Bool(false) {
        assert(counted =~= Set::empty());
    }
    if forall|p: int| 0 <= p < cells.len() ==> #[trigger] cells[p] == ScalarValue::Bool(true) {
        assert(counted =~= vstd::set_lib::set_int_range(0, at.span() as int));
        vstd::set_lib::lemma_int_range(0, at.span() as int);
    }
    assert(life_cell(
        at.lx,
        at.bound,
        reduced(OverPeriodsKind::Count, value, n),
        at.row,
    ) == over_periods_cell(at.lx, at.bound, OverPeriodsKind::Count, value, n, at.row));
}

/// Text and dates are not counted: they have no zero to count against.
pub proof fn texts_and_dates_are_not_counted(
    at: Life,
    value: CompiledScalarExpr,
    n: Option<Box<CompiledScalarExpr>>,
    first: ScalarValue,
    result: ScalarValue,
)
    requires
        at.span() > 0,
        at.gives_in(0, value, first),
        first is Text || first is Date,
    ensures
        !at.gives(reduced(OverPeriodsKind::Count, value, n), result),
{
    life_is_step(at.lx, at.bound, reduced(OverPeriodsKind::Count, value, n));
    count_fails_on(at, value, at.span());
    assert(life_cell(
        at.lx,
        at.bound,
        reduced(OverPeriodsKind::Count, value, n),
        at.row,
    ) == over_periods_cell(at.lx, at.bound, OverPeriodsKind::Count, value, n, at.row));
}

proof fn count_fails_on(at: Life, value: CompiledScalarExpr, n: nat)
    requires
        n > 0,
        exists|first: ScalarValue|
            at.gives_in(0, value, first) && (first is Text || first is Date),
    ensures
        period_count(at.lx, at.bound, value, n, at.row) is Err,
    decreases n,
{
    if n > 1 {
        count_fails_on(at, value, (n - 1) as nat);
    } else {
        assert(period_count(at.lx, at.bound, value, 0, at.row) == Ok::<nat, ErrorView>(0));
    }
}

proof fn numbers_are_gathered(at: Life, e: CompiledScalarExpr, numbers: Seq<Decimal>, n: nat)
    requires
        n <= numbers.len() == at.span(),
        forall|p: int| 0 <= p < numbers.len() ==> at.counts_in(p, e, #[trigger] numbers[p]),
    ensures
        period_numbers(at.lx, at.bound, e, n, at.row) == Ok::<Seq<Decimal>, ErrorView>(
            numbers.take(n as int),
        ),
    decreases n,
{
    if n > 0 {
        numbers_are_gathered(at, e, numbers, (n - 1) as nat);
        assert(at.counts_in(n - 1, e, numbers[n - 1]));
        assert(numbers.take(n as int) =~= numbers.take(n - 1).push(numbers[n - 1]));
    } else {
        assert(numbers.take(0) =~= Seq::empty());
    }
}

proof fn total_runs_over(numbers: Seq<Decimal>, totals: Seq<Decimal>, n: nat)
    requires
        runs_over(totals, numbers),
        n <= numbers.len(),
    ensures
        total_of(numbers.take(n as int)) == Ok::<Decimal, ErrorView>(totals[n as int]),
    decreases n,
{
    let part = numbers.take(n as int);
    if n > 0 {
        total_runs_over(numbers, totals, (n - 1) as nat);
        assert(part.drop_last() =~= numbers.take(n - 1));
        assert(decimal_sum(totals[n - 1], numbers[n - 1]) == Some(totals[n as int]));
    } else {
        assert(part.len() == 0);
    }
}

proof fn step_of_reduction(
    at: Life,
    kind: OverPeriodsKind,
    value: CompiledScalarExpr,
    n: Option<Box<CompiledScalarExpr>>,
)
    ensures
        life_cell(at.lx, at.bound, reduced(kind, value, n), at.row) == over_periods_cell(
            at.lx,
            at.bound,
            kind,
            value,
            n,
            at.row,
        ),
{
    life_is_step(at.lx, at.bound, reduced(kind, value, n));
}

/// `sum_over_periods` gives the sum of the numbers of all the periods, added from zero in the order
/// of the periods.
pub proof fn periods_are_summed(
    at: Life,
    value: CompiledScalarExpr,
    n: Option<Box<CompiledScalarExpr>>,
    numbers: Seq<Decimal>,
    totals: Seq<Decimal>,
)
    requires
        numbers.len() == at.span(),
        forall|p: int| 0 <= p < numbers.len() ==> at.counts_in(p, value, #[trigger] numbers[p]),
        runs_over(totals, numbers),
    ensures
        at.gives(
            reduced(OverPeriodsKind::Sum, value, n),
            ScalarValue::Decimal(totals.last()),
        ),
{
    step_of_reduction(at, OverPeriodsKind::Sum, value, n);
    numbers_are_gathered(at, value, numbers, at.span());
    total_runs_over(numbers, totals, at.span());
    assert(numbers.take(at.span() as int) =~= numbers);
}

proof fn largest_is_largest(numbers: Seq<Decimal>)
    requires
        numbers.len() > 0,
    ensures
        numbers.contains(largest_of(numbers)),
        forall|p: int| 0 <= p < numbers.len() ==> at_most(#[trigger] numbers[p], largest_of(numbers)),
    decreases numbers.len(),
{
    let best = largest_of(numbers);
    if numbers.len() > 1 {
        let rest = numbers.drop_last();
        largest_is_largest(rest);
        let before = largest_of(rest);
        let k = rest.index_of(before);
        assert(numbers[k] == before);
        assert(numbers[numbers.len() - 1] == numbers.last());
        assert forall|p: int| 0 <= p < numbers.len() implies at_most(
            #[trigger] numbers[p],
            best,
        ) by {
            if p < rest.len() {
                assert(rest[p] == numbers[p]);
                if best == numbers.last() {
                    below_trans(best, before, numbers[p]);
                }
            }
        }
    } else {
        assert(numbers[0] == best);
    }
}

/// `max_over_periods` gives the number of one of the periods, and none of the periods has a greater
/// one.
pub proof fn the_greatest_of_the_periods_is_taken(
    at: Life,
    value: CompiledScalarExpr,
    n: Option<Box<CompiledScalarExpr>>,
    numbers: Seq<Decimal>,
)
    requires
        at.span() > 0,
        numbers.len() == at.span(),
        forall|p: int| 0 <= p < numbers.len() ==> at.counts_in(p, value, #[trigger] numbers[p]),
    ensures
        exists|p: int|
            {
                &&& 0 <= p < at.span()
                &&& at.gives(
                    reduced(OverPeriodsKind::Max, value, n),
                    ScalarValue::Decimal(#[trigger] numbers[p]),
                )
                &&& forall|q: int|
                    0 <= q < at.span() ==> at_most(#[trigger] numbers[q], numbers[p])
            },
{
    step_of_reduction(at, OverPeriodsKind::Max, value, n);
    numbers_are_gathered(at, value, numbers, at.span());
    assert(numbers.take(at.span() as int) =~= numbers);
    largest_is_largest(numbers);
    let p = numbers.index_of(largest_of(numbers));
    assert(numbers[p] == largest_of(numbers));
}

proof fn cells_are_gathered(at: Life, e: CompiledScalarExpr, cells: Seq<ScalarValue>, n: nat)
    requires
        n <= cells.len() == at.span(),
        forall|p: int| 0 <= p < cells.len() ==> at.gives_in(p, e, #[trigger] cells[p]),
    ensures
        period_cells(at.lx, at.bound, e, n, at.row) == Ok::<Seq<ScalarValue>, ErrorView>(
            cells.take(n as int),
        ),
    decreases n,
{
    if n > 0 {
        cells_are_gathered(at, e, cells, (n - 1) as nat);
        assert(at.gives_in(n - 1, e, cells[n - 1]));
        assert(cells.take(n as int) =~= cells.take(n - 1).push(cells[n - 1]));
    } else {
        assert(cells.take(0) =~= Seq::empty());
    }
}

proof fn nothing_varies(cells: Seq<ScalarValue>, n: nat, count: i64)
    requires
        n <= cells.len(),
        forall|p: int| 0 <= p < cells.len() ==> #[trigger] cells[p] == ScalarValue::Integer(count),
    ensures
        varying_at(cells, n) is None,
    decreases n,
{
    if n > 0 {
        nothing_varies(cells, (n - 1) as nat, count);
        assert(cells[n - 1] == ScalarValue::Integer(count));
        assert(cells[cells.len() - 1] == ScalarValue::Integer(count));
    }
}

/// `sum_top_n_over_periods` gives the sum of as many numbers of the periods as `n` says, the
/// greatest of them: of the numbers in an order that does not rise, the first `n`, added in this
/// order. An `n` below one or above the number of periods is an error.
pub proof fn the_greatest_n_of_the_periods_are_summed(
    at: Life,
    value: CompiledScalarExpr,
    n: CompiledScalarExpr,
    numbers: Seq<Decimal>,
    count: i64,
)
    requires
        0 < at.span() <= i64::MAX,
        numbers.len() == at.span(),
        forall|p: int| 0 <= p < numbers.len() ==> at.counts_in(p, value, #[trigger] numbers[p]),
        forall|p: int|
            #![trigger at.lx.periods[p]]
            0 <= p < at.span() ==> at.gives_in(p, n, ScalarValue::Integer(count)),
    ensures
        ({
            let e = reduced(OverPeriodsKind::SumTopN, value, Some(Box::new(n)));
            if 1 <= count <= at.span() {
                exists|order: Seq<Decimal>| #[trigger]
                    falls(order) && order.to_multiset() == numbers.to_multiset()
                        && forall|totals: Seq<Decimal>| #[trigger]
                        runs_over(totals, order.take(count as int)) ==> at.gives(
                            e,
                            ScalarValue::Decimal(totals.last()),
                        )
            } else {
                exists|error: ErrorView| at.fails(e, error)
            }
        }),
{
    let e = reduced(OverPeriodsKind::SumTopN, value, Some(Box::new(n)));
    step_of_reduction(at, OverPeriodsKind::SumTopN, value, Some(Box::new(n)));
    numbers_are_gathered(at, value, numbers, at.span());
    assert(numbers.take(at.span() as int) =~= numbers);
    let cells = Seq::new(at.span(), |p: int| ScalarValue::Integer(count));
    assert forall|p: int| 0 <= p < cells.len() implies at.gives_in(p, n, #[trigger] cells[p]) by {
        assert(at.lx.periods[p] == at.lx.periods[p]);
    }
    cells_are_gathered(at, n, cells, at.span());
    assert(cells.take(at.span() as int) =~= cells);
    nothing_varies(cells, (at.span() - 1) as nat, count);
    Decimal::int_as_index(count);
    assert(cells.last() == ScalarValue::Integer(count));
    descending_is_sorted(numbers);
    let order = descending(numbers);
    if 1 <= count <= at.span() {
        assert forall|totals: Seq<Decimal>| #[trigger]
            runs_over(totals, order.take(count as int)) implies at.gives(
            e,
            ScalarValue::Decimal(totals.last()),
        ) by {
            let part = order.take(count as int);
            total_runs_over(part, totals, part.len());
            assert(part.take(part.len() as int) =~= part);
        }
        assert(falls(order));
    } else {
        assert(at.fails(e, life_cell(at.lx, at.bound, e, at.row)->Err_0));
    }
}

proof fn values_are_symmetric(a: ScalarValue, b: ScalarValue)
    ensures
        a.equals(b) <==> same_values(a, b),
{
    if let (ScalarValue::Date(x), ScalarValue::Date(y)) = (a, b) {
        crate::date::Date::of_number_of(x);
        crate::date::Date::of_number_of(y);
    }
}

proof fn divergence_is_first(cells: Seq<ScalarValue>, n: nat)
    requires
        n <= cells.len(),
    ensures
        match diverging_at(cells, n) {
            None => forall|p: int| 1 <= p < n ==> same_values(cells[0], #[trigger] cells[p]),
            Some(p) => p < n && !same_values(cells[0], cells[p as int]) && forall|q: int|
                1 <= q < p ==> same_values(cells[0], #[trigger] cells[q]),
        },
    decreases n,
{
    if n > 1 {
        divergence_is_first(cells, (n - 1) as nat);
        values_are_symmetric(cells[0], cells[n - 1]);
    }
}

/// Outside a reduction an input has the value that it has in every period; one that is not the same
/// in all periods is an error.
pub proof fn an_input_outside_a_reduction_is_the_same_in_every_period(
    at: Life,
    e: CompiledScalarExpr,
    cells: Seq<ScalarValue>,
)
    requires
        e is Input || e is InputOrElse,
        at.span() > 0,
        cells.len() == at.span(),
        forall|p: int| 0 <= p < cells.len() ==> at.gives_in(p, e, #[trigger] cells[p]),
    ensures
        (forall|p: int| 1 <= p < cells.len() ==> same_values(cells[0], #[trigger] cells[p]))
            ==> at.gives(e, cells[0]),
        (exists|p: int| 1 <= p < cells.len() && !same_values(cells[0], #[trigger] cells[p]))
            ==> exists|error: ErrorView|
            at.fails(e, error) && error is LifetimePeriodVaryingInput,
{
    life_is_step(at.lx, at.bound, e);
    cells_are_gathered(at, e, cells, at.span());
    assert(cells.take(at.span() as int) =~= cells);
    divergence_is_first(cells, at.span());
    assert(life_cell(at.lx, at.bound, e, at.row) == crate::lifetime::life_step(
        at.lx,
        at.bound,
        e,
        at.row,
    ));
    if exists|p: int| 1 <= p < cells.len() && !same_values(cells[0], #[trigger] cells[p]) {
        assert(at.fails(e, life_cell(at.lx, at.bound, e, at.row)->Err_0));
    }
}

/// What an outcome of `rust_decimal` gives as the value of a formula: the number, or an overflow.
pub open spec fn gives_number(at: Life, e: CompiledScalarExpr, number: Option<Decimal>) -> bool {
    match number {
        Some(x) => at.gives(e, ScalarValue::Decimal(x)),
        None => at.fails(e, ErrorView::ArithmeticOverflow),
    }
}

proof fn step(at: Life, e: CompiledScalarExpr)
    ensures
        life_cell(at.lx, at.bound, e, at.row) == crate::lifetime::life_step(
            at.lx,
            at.bound,
            e,
            at.row,
        ),
{
    life_is_step(at.lx, at.bound, e);
}

proof fn outcome_step(at: Life, e: CompiledJudgmentExpr)
    ensures
        life_outcome(at.lx, at.bound, e, at.row) == crate::lifetime::life_outcome_step(
            at.lx,
            at.bound,
            e,
            at.row,
        ),
{
    life_outcome_is_step(at.lx, at.bound, e);
}

/// Over a lifetime too a difference, a product and a quotient are those of the left number and the
/// right one, and `floor` and `ceil` are those of their number.
pub proof fn arithmetic_over_a_lifetime_is_that_of_its_operands(
    at: Life,
    left: CompiledScalarExpr,
    right: CompiledScalarExpr,
    a: Decimal,
    b: Decimal,
)
    requires
        at.counts(left, a),
        at.counts(right, b),
    ensures
        gives_number(
            at,
            CompiledScalarExpr::Sub(Box::new(left), Box::new(right)),
            decimal_difference(a, b),
        ),
        gives_number(
            at,
            CompiledScalarExpr::Mul(Box::new(left), Box::new(right)),
            decimal_product(a, b),
        ),
        b.magnitude() != 0 ==> gives_number(
            at,
            CompiledScalarExpr::Div(Box::new(left), Box::new(right)),
            decimal_quotient(a, b),
        ),
        b.magnitude() == 0 ==> at.fails(
            CompiledScalarExpr::Div(Box::new(left), Box::new(right)),
            ErrorView::DivisionByZero,
        ),
        at.gives(
            CompiledScalarExpr::Floor(Box::new(left)),
            ScalarValue::Decimal(a.floor_value()),
        ),
        at.gives(
            CompiledScalarExpr::Ceil(Box::new(left)),
            ScalarValue::Decimal(a.ceil_value()),
        ),
{
    step(at, CompiledScalarExpr::Sub(Box::new(left), Box::new(right)));
    step(at, CompiledScalarExpr::Mul(Box::new(left), Box::new(right)));
    step(at, CompiledScalarExpr::Div(Box::new(left), Box::new(right)));
    step(at, CompiledScalarExpr::Floor(Box::new(left)));
    step(at, CompiledScalarExpr::Ceil(Box::new(left)));
}

proof fn life_sum_runs(
    at: Life,
    items: Seq<CompiledScalarExpr>,
    numbers: Seq<Decimal>,
    totals: Seq<Decimal>,
    n: nat,
)
    requires
        n <= items.len(),
        numbers.len() == items.len(),
        forall|i: int| 0 <= i < items.len() ==> at.counts(#[trigger] items[i], numbers[i]),
        runs_over(totals, numbers),
    ensures
        life_sum(at.lx, at.bound, items, n, at.row) == Ok::<Decimal, ErrorView>(totals[n as int]),
    decreases n,
{
    if n > 0 {
        life_sum_runs(at, items, numbers, totals, (n - 1) as nat);
        assert(at.counts(items[n - 1], numbers[n - 1]));
        assert(decimal_sum(totals[n - 1], numbers[n - 1]) == Some(totals[n as int]));
    }
}

proof fn life_extremum_is_extreme(
    at: Life,
    items: Seq<CompiledScalarExpr>,
    numbers: Seq<Decimal>,
    n: nat,
    largest: bool,
)
    requires
        1 <= n <= items.len(),
        numbers.len() == items.len(),
        forall|i: int| 0 <= i < items.len() ==> at.counts(#[trigger] items[i], numbers[i]),
    ensures
        life_extremum(at.lx, at.bound, items, n, largest, at.row) matches Ok(best) && {
            &&& exists|i: int| 0 <= i < n && #[trigger] numbers[i] == best
            &&& forall|i: int|
                0 <= i < n ==> if largest {
                    at_most(#[trigger] numbers[i], best)
                } else {
                    at_most(best, numbers[i])
                }
        },
    decreases n,
{
    assert(at.counts(items[n - 1], numbers[n - 1]));
    if n > 1 {
        let m = (n - 1) as nat;
        life_extremum_is_extreme(at, items, numbers, m, largest);
        let before = life_extremum(at.lx, at.bound, items, m, largest, at.row)->Ok_0;
        let best = life_extremum(at.lx, at.bound, items, n, largest, at.row)->Ok_0;
        let last = numbers[n - 1];
        assert forall|i: int| 0 <= i < n implies if largest {
            at_most(#[trigger] numbers[i], best)
        } else {
            at_most(best, numbers[i])
        } by {
            if i < m && best == last {
                if largest {
                    below_trans(last, before, numbers[i]);
                } else {
                    below_trans(numbers[i], before, last);
                }
            }
        }
    } else {
        assert(numbers[0] == numbers[0]);
    }
}

/// Over a lifetime too a sum is that of all its items, and the largest and the smallest are items
/// that none exceeds and none falls below.
pub proof fn sums_and_extremes_over_a_lifetime(
    at: Life,
    items: Vec<CompiledScalarExpr>,
    numbers: Seq<Decimal>,
    totals: Seq<Decimal>,
)
    requires
        items@.len() > 0,
        numbers.len() == items@.len(),
        forall|i: int| 0 <= i < items@.len() ==> at.counts(#[trigger] items@[i], numbers[i]),
    ensures
        runs_over(totals, numbers) ==> at.gives(
            CompiledScalarExpr::Add(items),
            ScalarValue::Decimal(totals.last()),
        ),
        exists|i: int|
            {
                &&& 0 <= i < items@.len()
                &&& at.gives(
                    CompiledScalarExpr::Max(items),
                    ScalarValue::Decimal(#[trigger] numbers[i]),
                )
                &&& forall|j: int|
                    0 <= j < items@.len() ==> at_most(#[trigger] numbers[j], numbers[i])
            },
        exists|i: int|
            {
                &&& 0 <= i < items@.len()
                &&& at.gives(
                    CompiledScalarExpr::Min(items),
                    ScalarValue::Decimal(#[trigger] numbers[i]),
                )
                &&& forall|j: int|
                    0 <= j < items@.len() ==> at_most(numbers[i], #[trigger] numbers[j])
            },
{
    step(at, CompiledScalarExpr::Add(items));
    step(at, CompiledScalarExpr::Max(items));
    step(at, CompiledScalarExpr::Min(items));
    if runs_over(totals, numbers) {
        life_sum_runs(at, items@, numbers, totals, items@.len());
    }
    life_extremum_is_extreme(at, items@, numbers, items@.len(), true);
    life_extremum_is_extreme(at, items@, numbers, items@.len(), false);
}

/// Over a lifetime too a branch is its first formula where the condition holds and its second
/// where it has another outcome.
pub proof fn a_branch_over_a_lifetime_is_the_one_taken(
    at: Life,
    condition: CompiledJudgmentExpr,
    then_expr: CompiledScalarExpr,
    else_expr: CompiledScalarExpr,
)
    ensures
        ({
            let e = CompiledScalarExpr::If {
                condition: Box::new(condition),
                then_expr: Box::new(then_expr),
                else_expr: Box::new(else_expr),
            };
            let cell = |x: CompiledScalarExpr| life_cell(at.lx, at.bound, x, at.row);
            &&& at.holds(condition) ==> cell(e) == cell(then_expr)
            &&& at.finds(condition, JudgmentOutcome::NotHolds) || at.finds(
                condition,
                JudgmentOutcome::Undetermined,
            ) ==> cell(e) == cell(else_expr)
        }),
{
    step(
        at,
        CompiledScalarExpr::If {
            condition: Box::new(condition),
            then_expr: Box::new(then_expr),
            else_expr: Box::new(else_expr),
        },
    );
}

/// Over a lifetime too numbers compare by their values and dates by the day.
pub proof fn comparisons_over_a_lifetime(
    at: Life,
    left: CompiledScalarExpr,
    right: CompiledScalarExpr,
    op: ComparisonOp,
)
    ensures
        ({
            let test = CompiledJudgmentExpr::Comparison { left, op, right };
            &&& forall|a: Decimal, b: Decimal|
                #![trigger at.counts(left, a), at.counts(right, b)]
                at.counts(left, a) && at.counts(right, b) ==> at.finds(
                    test,
                    if match op {
                        ComparisonOp::Lt => !at_most(b, a),
                        ComparisonOp::Lte => at_most(a, b),
                        ComparisonOp::Gt => !at_most(a, b),
                        ComparisonOp::Gte => at_most(b, a),
                        ComparisonOp::Eq => at_most(a, b) && at_most(b, a),
                        ComparisonOp::Ne => !at_most(a, b) || !at_most(b, a),
                    } {
                        JudgmentOutcome::Holds
                    } else {
                        JudgmentOutcome::NotHolds
                    },
                )
            &&& forall|a: crate::date::Date, b: crate::date::Date|
                #![trigger at.gives(left, ScalarValue::Date(a)), at.gives(right, ScalarValue::Date(b))]
                at.gives(left, ScalarValue::Date(a)) && at.gives(right, ScalarValue::Date(b))
                    ==> at.finds(
                    test,
                    if match op {
                        ComparisonOp::Lt => a.number() < b.number(),
                        ComparisonOp::Lte => a.number() <= b.number(),
                        ComparisonOp::Gt => a.number() > b.number(),
                        ComparisonOp::Gte => a.number() >= b.number(),
                        ComparisonOp::Eq => a.number() == b.number(),
                        ComparisonOp::Ne => a.number() != b.number(),
                    } {
                        JudgmentOutcome::Holds
                    } else {
                        JudgmentOutcome::NotHolds
                    },
                )
        }),
{
    let test = CompiledJudgmentExpr::Comparison { left, op, right };
    outcome_step(at, test);
    assert forall|a: crate::date::Date, b: crate::date::Date|
        #![trigger at.gives(left, ScalarValue::Date(a)), at.gives(right, ScalarValue::Date(b))]
        at.gives(left, ScalarValue::Date(a)) && at.gives(
            right,
            ScalarValue::Date(b),
        ) implies at.finds(
        test,
        if match op {
            ComparisonOp::Lt => a.number() < b.number(),
            ComparisonOp::Lte => a.number() <= b.number(),
            ComparisonOp::Gt => a.number() > b.number(),
            ComparisonOp::Gte => a.number() >= b.number(),
            ComparisonOp::Eq => a.number() == b.number(),
            ComparisonOp::Ne => a.number() != b.number(),
        } {
            JudgmentOutcome::Holds
        } else {
            JudgmentOutcome::NotHolds
        },
    ) by {
        crate::date::Date::of_number_of(a);
        crate::date::Date::of_number_of(b);
    }
}

proof fn life_connective_meaning(
    at: Life,
    items: Seq<CompiledJudgmentExpr>,
    n: nat,
    decisive: JudgmentOutcome,
)
    requires
        n <= items.len(),
        forall|i: int|
            0 <= i < items.len() ==> at.decides(#[trigger] items[i]),
    ensures
        life_connective(at.lx, at.bound, items, n, decisive, at.row) matches Ok(state) && {
            &&& state.decided <==> exists|i: int|
                0 <= i < n && at.finds(#[trigger] items[i], decisive)
            &&& !state.decided ==> (state.undetermined <==> exists|i: int|
                0 <= i < n && at.finds(#[trigger] items[i], JudgmentOutcome::Undetermined))
        },
    decreases n,
{
    if n > 0 {
        life_connective_meaning(at, items, (n - 1) as nat, decisive);
        assert(at.decides(items[n - 1]));
    }
}

/// Over a lifetime too `and` needs all its items, `or` one of them, and `not` denies.
pub proof fn connectives_over_a_lifetime(
    at: Life,
    items: Vec<CompiledJudgmentExpr>,
    item: CompiledJudgmentExpr,
)
    requires
        forall|i: int|
            0 <= i < items@.len() ==> at.decides(#[trigger] items@[i]),
    ensures
        at.holds(CompiledJudgmentExpr::And(items)) <==> forall|i: int|
            0 <= i < items@.len() ==> at.holds(#[trigger] items@[i]),
        at.finds(CompiledJudgmentExpr::And(items), JudgmentOutcome::NotHolds) <==> exists|i: int|
            0 <= i < items@.len() && at.finds(#[trigger] items@[i], JudgmentOutcome::NotHolds),
        at.holds(CompiledJudgmentExpr::Or(items)) <==> exists|i: int|
            0 <= i < items@.len() && at.holds(#[trigger] items@[i]),
        at.finds(CompiledJudgmentExpr::Or(items), JudgmentOutcome::NotHolds) <==> forall|i: int|
            0 <= i < items@.len() ==> at.finds(#[trigger] items@[i], JudgmentOutcome::NotHolds),
        at.holds(CompiledJudgmentExpr::Not(Box::new(item))) <==> at.finds(
            item,
            JudgmentOutcome::NotHolds,
        ),
        at.finds(CompiledJudgmentExpr::Not(Box::new(item)), JudgmentOutcome::NotHolds) <==> at.holds(
            item,
        ),
{
    outcome_step(at, CompiledJudgmentExpr::And(items));
    outcome_step(at, CompiledJudgmentExpr::Or(items));
    outcome_step(at, CompiledJudgmentExpr::Not(Box::new(item)));
    life_connective_meaning(at, items@, items@.len(), JudgmentOutcome::NotHolds);
    life_connective_meaning(at, items@, items@.len(), JudgmentOutcome::Holds);
}

/// Over a lifetime a table is read in the version in force at the start of the last period, at the
/// index that is asked for; where none stands there the lookup fails.
pub proof fn tables_over_a_lifetime_are_those_of_the_last_period(
    at: Life,
    parameter: usize,
    index: CompiledScalarExpr,
    key: i64,
    result: ScalarValue,
)
    requires
        at.span() > 0,
        at.gives(index, ScalarValue::Integer(key)),
    ensures
        ({
            let e = CompiledScalarExpr::ParameterLookup { parameter, index: Box::new(index) };
            let table = at.lx.program.parameters@[parameter as int].parameter;
            let last = at.lx.periods[at.span() - 1].start;
            match table.version_at(last) {
                Some(version) => if version.values@.contains_key(key) {
                    at.gives(e, result) ==> same_number(version.values@[key], result)
                } else {
                    exists|error: ErrorView|
                        at.fails(e, error) && error is MissingParameterValue
                },
                None => exists|error: ErrorView|
                    at.fails(e, error) && error is MissingParameterValue,
            }
        }),
{
    let e = CompiledScalarExpr::ParameterLookup { parameter, index: Box::new(index) };
    let table = at.lx.program.parameters@[parameter as int].parameter;
    let last = at.lx.periods[at.span() - 1].start;
    life_is_step(at.lx, at.bound, e);
    assert(life_cell(at.lx, at.bound, e, at.row) == crate::column::parameter_cell(
        table,
        last,
        life_cell(at.lx, at.bound, index, at.row),
    ));
    let missing = ErrorView::MissingParameterValue { parameter: table.name@, key, at: last };
    let read = table.version_at(last) matches Some(version) && version.values@.contains_key(key);
    if !read {
        assert(at.fails(e, missing));
    }
}

/// Whether two values are the same number, or the same value.
pub open spec fn same_number(a: ScalarValue, b: ScalarValue) -> bool {
    match (a, b) {
        (ScalarValue::Integer(i), ScalarValue::Decimal(d)) => d == Decimal::of_int(i as int),
        _ => a == b,
    }
}

/// Outside a reduction nothing that needs one period has a value over a lifetime: the bounds of the
/// period, arithmetic of dates, and aggregations over related rows.
pub proof fn what_needs_one_period_has_no_value_over_a_lifetime(at: Life, e: CompiledScalarExpr)
    requires
        e is PeriodStart || e is PeriodEnd || e is DateShift || e is DaysBetween || e is CountRelated
            || e is SumRelated,
    ensures
        exists|error: ErrorView| at.fails(e, error) && error is LifetimeAmbiguousLeaf,
{
    life_is_step(at.lx, at.bound, e);
    let error = crate::lifetime::life_step(at.lx, at.bound, e, at.row)->Err_0;
    assert(at.fails(e, error));
}

/// The value of a rule over a lifetime is that of its formula, and where the rule declares output
/// rounding and the value is a decimal, that value rounded. The judgment of a rule is that of its
/// formula.
pub proof fn rules_over_a_lifetime_are_their_formulas(lx: LifetimeFacts, i: nat, row: int)
    ensures
        ({
            let d = lx.program.derived@[i as int];
            let at = Life { lx, bound: i, row };
            match d.semantics {
                CompiledSemantics::Scalar(e) => forall|v: ScalarValue| #[trigger]
                    at.gives(e, v) ==> life_rule(lx, i, row) == Ok::<ScalarValue, ErrorView>(
                        match (d.rounding, v) {
                            (Some(rounding), ScalarValue::Decimal(x)) => ScalarValue::Decimal(
                                x.rounded(rounding.minor_units as nat, rounding.mode),
                            ),
                            _ => v,
                        },
                    ),
                CompiledSemantics::Judgment(e) => forall|o: JudgmentOutcome| #[trigger]
                    at.finds(e, o) ==> life_rule_outcome(lx, i, row) == Ok::<
                        JudgmentOutcome,
                        ErrorView,
                    >(o),
            }
        }),
{
}

} // verus!
