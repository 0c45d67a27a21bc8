//! Laws of arithmetic, dates, branches and tables in formulas.
use super::place::Place;
use crate::date::{day_number, days_in_month, max_year, min_year, valid_ymd, Date};
use crate::decimal::{
    decimal_difference, decimal_product, decimal_quotient, decimal_sum, pow10, Decimal,
};
use crate::error::ErrorView;
use crate::lifetime::below_trans;
use crate::model::{IndexedParameter, JudgmentExpr, JudgmentOutcome, ScalarExpr, ScalarValue};
use crate::semantics::{extremum_run, scalar_run, scalar_run_is_step, sum_run};
use vstd::prelude::*;

verus! {

/// What an outcome of `rust_decimal` gives as the value of a formula: the number, or an overflow.
pub open spec fn gives_number(at: Place, e: ScalarExpr, number: Option<Decimal>) -> bool {
    match number {
        Some(x) => at.gives(e, ScalarValue::Decimal(x)),
        None => at.fails(e, ErrorView::ArithmeticOverflow),
    }
}

/// A literal is its value, and the bounds of the period are its first and last day.
pub proof fn literals_and_bounds_are_themselves(at: Place, value: ScalarValue)
    ensures
        at.gives(ScalarExpr::Literal(value), value),
        at.gives(ScalarExpr::PeriodStart, ScalarValue::Date(at.cx.period.start)),
        at.gives(ScalarExpr::PeriodEnd, ScalarValue::Date(at.cx.period.end)),
{
    scalar_run_is_step(at.cx, at.fuel, ScalarExpr::Literal(value), at.ent, at.context);
    scalar_run_is_step(at.cx, at.fuel, ScalarExpr::PeriodStart, at.ent, at.context);
    scalar_run_is_step(at.cx, at.fuel, ScalarExpr::PeriodEnd, at.ent, at.context);
}

/// A difference, a product and a quotient are those of the left number and the right one, in this
/// order; a number is divided by a zero of no scale.
pub proof fn arithmetic_is_that_of_its_operands(
    at: Place,
    left: ScalarExpr,
    right: ScalarExpr,
    a: Decimal,
    b: Decimal,
)
    requires
        at.counts(left, a),
        at.counts(right, b),
    ensures
        gives_number(
            at,
            ScalarExpr::Sub(Box::new(left), Box::new(right)),
            decimal_difference(a, b),
        ),
        gives_number(
            at,
            ScalarExpr::Mul(Box::new(left), Box::new(right)),
            decimal_product(a, b),
        ),
        b.magnitude() != 0 ==> gives_number(
            at,
            ScalarExpr::Div(Box::new(left), Box::new(right)),
            decimal_quotient(a, b),
        ),
        b.magnitude() == 0 ==> at.fails(
            ScalarExpr::Div(Box::new(left), Box::new(right)),
            ErrorView::DivisionByZero,
        ),
{
    let sub = ScalarExpr::Sub(Box::new(left), Box::new(right));
    let mul = ScalarExpr::Mul(Box::new(left), Box::new(right));
    let div = ScalarExpr::Div(Box::new(left), Box::new(right));
    scalar_run_is_step(at.cx, at.fuel, sub, at.ent, at.context);
    scalar_run_is_step(at.cx, at.fuel, mul, at.ent, at.context);
    scalar_run_is_step(at.cx, at.fuel, div, at.ent, at.context);
}

/// What is not a number has no difference, product or quotient, and a failure of an operand is
/// that of the whole: of the left one first, but for a quotient, whose divisor is read first.
pub proof fn arithmetic_needs_numbers(at: Place, left: ScalarExpr, right: ScalarExpr, error: ErrorView)
    ensures
        at.fails(left, error) ==> {
            &&& at.fails(ScalarExpr::Sub(Box::new(left), Box::new(right)), error)
            &&& at.fails(ScalarExpr::Mul(Box::new(left), Box::new(right)), error)
        },
        at.fails(right, error) ==> at.fails(
            ScalarExpr::Div(Box::new(left), Box::new(right)),
            error,
        ),
        forall|v: ScalarValue| #[trigger]
            at.gives(left, v) && (v is Text || v is Bool || v is Date) ==> {
                &&& exists|x: ErrorView|
                    at.fails(ScalarExpr::Sub(Box::new(left), Box::new(right)), x)
                &&& exists|x: ErrorView|
                    at.fails(ScalarExpr::Mul(Box::new(left), Box::new(right)), x)
            },
        forall|v: ScalarValue| #[trigger]
            at.gives(right, v) && (v is Text || v is Bool || v is Date) ==> exists|x: ErrorView|
                at.fails(ScalarExpr::Div(Box::new(left), Box::new(right)), x),
{
    let sub = ScalarExpr::Sub(Box::new(left), Box::new(right));
    let mul = ScalarExpr::Mul(Box::new(left), Box::new(right));
    let div = ScalarExpr::Div(Box::new(left), Box::new(right));
    scalar_run_is_step(at.cx, at.fuel, sub, at.ent, at.context);
    scalar_run_is_step(at.cx, at.fuel, mul, at.ent, at.context);
    scalar_run_is_step(at.cx, at.fuel, div, at.ent, at.context);
    let first = scalar_run(at.cx, at.fuel, sub, at.ent, at.context)->0.value->Err_0;
    assert forall|v: ScalarValue| #[trigger]
        at.gives(left, v) && (v is Text || v is Bool || v is Date) implies at.fails(sub, first)
        && at.fails(mul, first) by {}
    assert forall|v: ScalarValue| #[trigger]
        at.gives(right, v) && (v is Text || v is Bool || v is Date) implies at.fails(
        div,
        first,
    ) || at.fails(div, scalar_run(at.cx, at.fuel, div, at.ent, at.context)->0.value->Err_0) by {}
}

/// Whether totals run from zero over numbers, each added to what came before.
pub open spec fn runs_over(totals: Seq<Decimal>, numbers: Seq<Decimal>) -> bool {
    &&& totals.len() == numbers.len() + 1
    &&& totals[0] == Decimal::zero_value()
    &&& forall|i: int|
        0 <= i < numbers.len() ==> decimal_sum(totals[i], #[trigger] numbers[i]) == Some(
            totals[i + 1],
        )
}

proof fn sum_runs(
    at: Place,
    items: Seq<ScalarExpr>,
    numbers: Seq<Decimal>,
    totals: Seq<Decimal>,
    n: nat,
)
    requires
        n <= items.len(),
        numbers.len() == items.len(),
        forall|i: int| 0 <= i < items.len() ==> at.counts(#[trigger] items[i], numbers[i]),
        runs_over(totals, numbers),
    ensures
        sum_run(at.cx, at.fuel, items, n, at.ent, at.context) matches Some(run) && run.value
            == Ok::<Decimal, ErrorView>(totals[n as int]),
    decreases n,
{
    if n > 0 {
        sum_runs(at, items, numbers, totals, (n - 1) as nat);
        assert(at.counts(items[n - 1], numbers[n - 1]));
        assert(decimal_sum(totals[n - 1], numbers[n - 1]) == Some(totals[n as int]));
    }
}

/// A sum is that of the numbers of all its items, added from zero in their order; the sum of none
/// is zero.
pub proof fn a_sum_is_that_of_all_its_items(
    at: Place,
    items: Vec<ScalarExpr>,
    numbers: Seq<Decimal>,
    totals: Seq<Decimal>,
)
    requires
        numbers.len() == items@.len(),
        forall|i: int| 0 <= i < items@.len() ==> at.counts(#[trigger] items@[i], numbers[i]),
        runs_over(totals, numbers),
    ensures
        at.gives(ScalarExpr::Add(items), ScalarValue::Decimal(totals.last())),
        items@.len() == 0 ==> at.gives(
            ScalarExpr::Add(items),
            ScalarValue::Decimal(Decimal::of_int(0)),
        ),
{
    scalar_run_is_step(at.cx, at.fuel, ScalarExpr::Add(items), at.ent, at.context);
    sum_runs(at, items@, numbers, totals, items@.len());
}

/// Whether a number is at most another.
pub open spec fn at_most(a: Decimal, b: Decimal) -> bool {
    a.mantissa() * pow10(b.places()) <= b.mantissa() * pow10(a.places())
}

proof fn extremum_is_extreme(
    at: Place,
    items: Seq<ScalarExpr>,
    numbers: Seq<Decimal>,
    n: nat,
    largest: bool,
)
    requires
        1 <= n <= items.len(),
        numbers.len() == items.len(),
        forall|i: int| 0 <= i < items.len() ==> at.counts(#[trigger] items[i], numbers[i]),
    ensures
        extremum_run(at.cx, at.fuel, items, n, largest, at.ent, at.context) matches Some(run)
            && run.value matches Ok(best) && {
            &&& exists|i: int| 0 <= i < n && #[trigger] numbers[i] == best
            &&& forall|i: int|
                0 <= i < n ==> if largest {
                    at_most(#[trigger] numbers[i], best)
                } else {
                    at_most(best, numbers[i])
                }
        },
    decreases n,
{
    assert(at.counts(items[n - 1], numbers[n - 1]));
    if n > 1 {
        let m = (n - 1) as nat;
        extremum_is_extreme(at, items, numbers, m, largest);
        let before =
            extremum_run(at.cx, at.fuel, items, m, largest, at.ent, at.context)->0.value->Ok_0;
        let best =
            extremum_run(at.cx, at.fuel, items, n, largest, at.ent, at.context)->0.value->Ok_0;
        let last = numbers[n - 1];
        assert forall|i: int| 0 <= i < n implies if largest {
            at_most(#[trigger] numbers[i], best)
        } else {
            at_most(best, numbers[i])
        } by {
            if i < m {
                if largest {
                    if best == last {
                        below_trans(last, before, numbers[i]);
                    }
                } else {
                    if best == last {
                        below_trans(numbers[i], before, last);
                    }
                }
            }
        }
    } else {
        assert(numbers[0] == numbers[0]);
    }
}

/// The largest of some numbers is one of them, and none exceeds it; the smallest is one of them,
/// and none falls below it. Of no numbers there is neither.
pub proof fn extremes_are_extreme(at: Place, items: Vec<ScalarExpr>, numbers: Seq<Decimal>)
    requires
        numbers.len() == items@.len(),
        forall|i: int| 0 <= i < items@.len() ==> at.counts(#[trigger] items@[i], numbers[i]),
    ensures
        items@.len() > 0 ==> exists|i: int|
            {
                &&& 0 <= i < items@.len()
                &&& at.gives(ScalarExpr::Max(items), ScalarValue::Decimal(#[trigger] numbers[i]))
                &&& forall|j: int|
                    0 <= j < items@.len() ==> at_most(#[trigger] numbers[j], numbers[i])
            },
        items@.len() > 0 ==> exists|i: int|
            {
                &&& 0 <= i < items@.len()
                &&& at.gives(ScalarExpr::Min(items), ScalarValue::Decimal(#[trigger] numbers[i]))
                &&& forall|j: int|
                    0 <= j < items@.len() ==> at_most(numbers[i], #[trigger] numbers[j])
            },
        items@.len() == 0 ==> {
            &&& exists|x: ErrorView| at.fails(ScalarExpr::Max(items), x)
            &&& exists|x: ErrorView| at.fails(ScalarExpr::Min(items), x)
        },
{
    let (max, min) = (ScalarExpr::Max(items), ScalarExpr::Min(items));
    scalar_run_is_step(at.cx, at.fuel, max, at.ent, at.context);
    scalar_run_is_step(at.cx, at.fuel, min, at.ent, at.context);
    if items@.len() > 0 {
        extremum_is_extreme(at, items@, numbers, items@.len(), true);
        extremum_is_extreme(at, items@, numbers, items@.len(), false);
    } else {
        assert(at.fails(max, scalar_run(at.cx, at.fuel, max, at.ent, at.context)->0.value->Err_0));
        assert(at.fails(min, scalar_run(at.cx, at.fuel, min, at.ent, at.context)->0.value->Err_0));
    }
}

/// `floor` and `ceil` give whole numbers: the greatest that is at most the number, and the least
/// that is at least the number.
pub proof fn floor_and_ceil_are_the_next_whole_numbers(at: Place, e: ScalarExpr, x: Decimal)
    requires
        at.counts(e, x),
        x.places() <= 28,
    ensures
        exists|f: Decimal, k: int| #[trigger]
            f.has_value(k, 0) && at.gives(
                ScalarExpr::Floor(Box::new(e)),
                ScalarValue::Decimal(f),
            ) && k * pow10(x.places()) <= x.mantissa() < (k + 1) * pow10(x.places()),
        exists|f: Decimal, k: int| #[trigger]
            f.has_value(k, 0) && at.gives(
                ScalarExpr::Ceil(Box::new(e)),
                ScalarValue::Decimal(f),
            ) && (k - 1) * pow10(x.places()) < x.mantissa() <= k * pow10(x.places()),
{
    let (floor, ceil) = (ScalarExpr::Floor(Box::new(e)), ScalarExpr::Ceil(Box::new(e)));
    scalar_run_is_step(at.cx, at.fuel, floor, at.ent, at.context);
    scalar_run_is_step(at.cx, at.fuel, ceil, at.ent, at.context);
    Decimal::floor_is_next_below(x);
    Decimal::ceil_is_next_above(x);
    let k = choose|k: int|
        #[trigger] x.floor_value().has_value(k, 0) && k * pow10(x.places()) <= x.mantissa() < (k
            + 1) * pow10(x.places());
    assert(x.floor_value().has_value(k, 0));
    let j = choose|k: int|
        #[trigger] x.ceil_value().has_value(k, 0) && (k - 1) * pow10(x.places()) < x.mantissa()
            <= k * pow10(x.places());
    assert(x.ceil_value().has_value(j, 0));
}

/// Days are added as days: the date that many days later, and an error outside the calendar. The
/// days between a date and that later date are the days that were added, and the other way round
/// as many the other way.
pub proof fn days_are_added_as_days(
    at: Place,
    date: ScalarExpr,
    days: ScalarExpr,
    a: Date,
    n: i64,
)
    requires
        at.gives(date, ScalarValue::Date(a)),
        at.gives(days, ScalarValue::Integer(n)),
    ensures
        ({
            let e = ScalarExpr::DateAddDays { date: Box::new(date), days: Box::new(days) };
            let target = a.number() + n;
            if crate::date::MIN_DAYS <= target <= crate::date::MAX_DAYS {
                exists|b: Date| #[trigger]
                    at.gives(e, ScalarValue::Date(b)) && b.number() == a.number() + n && at.gives(
                        ScalarExpr::DaysBetween { from: Box::new(date), to: Box::new(e) },
                        ScalarValue::Integer(n),
                    ) && at.gives(
                        ScalarExpr::DaysBetween { from: Box::new(e), to: Box::new(date) },
                        ScalarValue::Integer((-n) as i64),
                    )
            } else {
                exists|x: ErrorView| at.fails(e, x)
            }
        }),
{
    let e = ScalarExpr::DateAddDays { date: Box::new(date), days: Box::new(days) };
    scalar_run_is_step(at.cx, at.fuel, e, at.ent, at.context);
    let target = a.number() + n;
    if crate::date::MIN_DAYS <= target <= crate::date::MAX_DAYS {
        let b = Date::of_number(target);
        Date::number_of(target);
        Date::number_is_small(a);
        Date::number_is_small(b);
        assert(at.gives(e, ScalarValue::Date(b)));
        let to = ScalarExpr::DaysBetween { from: Box::new(date), to: Box::new(e) };
        let back = ScalarExpr::DaysBetween { from: Box::new(e), to: Box::new(date) };
        scalar_run_is_step(at.cx, at.fuel, to, at.ent, at.context);
        scalar_run_is_step(at.cx, at.fuel, back, at.ent, at.context);
    } else {
        assert(at.fails(e, scalar_run(at.cx, at.fuel, e, at.ent, at.context)->0.value->Err_0));
    }
}

/// The days between two dates are those from the first to the second, below zero where the second
/// is the earlier one.
pub proof fn days_between_are_counted(
    at: Place,
    from: ScalarExpr,
    to: ScalarExpr,
    a: Date,
    b: Date,
)
    requires
        at.gives(from, ScalarValue::Date(a)),
        at.gives(to, ScalarValue::Date(b)),
    ensures
        exists|n: i64| #[trigger]
            at.gives(
                ScalarExpr::DaysBetween { from: Box::new(from), to: Box::new(to) },
                ScalarValue::Integer(n),
            ) && a.number() + n == b.number(),
{
    let e = ScalarExpr::DaysBetween { from: Box::new(from), to: Box::new(to) };
    scalar_run_is_step(at.cx, at.fuel, e, at.ent, at.context);
    Date::number_is_small(a);
    Date::number_is_small(b);
    assert(at.gives(e, ScalarValue::Integer((b.number() - a.number()) as i64)));
}

/// Months are added in the calendar: the same day of the month that many months later, or that
/// month's last day where it has no such day; an error outside the calendar.
pub proof fn months_are_added_in_the_calendar(
    at: Place,
    date: ScalarExpr,
    months: ScalarExpr,
    a: Date,
    n: i64,
    year: int,
    month: int,
    day: int,
    to_year: int,
    to_month: int,
)
    requires
        at.gives(date, ScalarValue::Date(a)),
        at.gives(months, ScalarValue::Integer(n)),
        valid_ymd(year, month, day),
        a.number() == day_number(year, month, day),
        1 <= to_month <= 12,
        12 * to_year + to_month == 12 * year + month + n,
    ensures
        ({
            let e = ScalarExpr::DateAddMonths { date: Box::new(date), months: Box::new(months) };
            let last = days_in_month(to_year, to_month);
            if min_year() <= to_year <= max_year() {
                exists|b: Date| #[trigger]
                    at.gives(e, ScalarValue::Date(b)) && b.number() == day_number(
                        to_year,
                        to_month,
                        if day <= last {
                            day
                        } else {
                            last
                        },
                    )
            } else {
                exists|x: ErrorView| at.fails(e, x)
            }
        }),
{
    let e = ScalarExpr::DateAddMonths { date: Box::new(date), months: Box::new(months) };
    scalar_run_is_step(at.cx, at.fuel, e, at.ent, at.context);
    crate::date::civil_is(year, month, day);
    let count = year * 12 + month - 1 + n;
    assert(count / 12 == to_year && count % 12 + 1 == to_month) by (nonlinear_arith)
        requires
            count == 12 * to_year + (to_month - 1),
            1 <= to_month <= 12,
    ;
    let last = days_in_month(to_year, to_month);
    if min_year() <= to_year <= max_year() {
        let to_day = if day <= last {
            day
        } else {
            last
        };
        crate::date::day_number_in_range(to_year, to_month, to_day);
        Date::number_of(day_number(to_year, to_month, to_day));
        let b = Date::of_number(day_number(to_year, to_month, to_day));
        assert(a.months_later(n as int) == Some(b));
        assert(at.gives(e, ScalarValue::Date(b)));
    } else {
        assert(at.fails(e, scalar_run(at.cx, at.fuel, e, at.ent, at.context)->0.value->Err_0));
    }
}

/// A year is twelve months: adding years gives what adding twelve times as many months gives.
pub proof fn a_year_is_twelve_months(
    at: Place,
    date: ScalarExpr,
    years: ScalarExpr,
    months: ScalarExpr,
    n: i64,
    m: i64,
    value: ScalarValue,
)
    requires
        at.gives(years, ScalarValue::Integer(n)),
        at.gives(months, ScalarValue::Integer(m)),
        m == 12 * n,
    ensures
        at.gives(
            ScalarExpr::DateAddYears { date: Box::new(date), years: Box::new(years) },
            value,
        ) <==> at.gives(
            ScalarExpr::DateAddMonths { date: Box::new(date), months: Box::new(months) },
            value,
        ),
{
    let by_years = ScalarExpr::DateAddYears { date: Box::new(date), years: Box::new(years) };
    let by_months = ScalarExpr::DateAddMonths { date: Box::new(date), months: Box::new(months) };
    scalar_run_is_step(at.cx, at.fuel, by_years, at.ent, at.context);
    scalar_run_is_step(at.cx, at.fuel, by_months, at.ent, at.context);
}

/// A branch is its first formula where the condition holds and its second where it does not hold
/// or is undetermined; the one that is not taken has no effect, its failure included; and the
/// failure of the condition is that of the whole.
pub proof fn a_branch_is_the_one_that_is_taken(
    at: Place,
    condition: JudgmentExpr,
    then_expr: ScalarExpr,
    else_expr: ScalarExpr,
    value: ScalarValue,
    error: ErrorView,
)
    ensures
        ({
            let e = ScalarExpr::If {
                condition: Box::new(condition),
                then_expr: Box::new(then_expr),
                else_expr: Box::new(else_expr),
            };
            &&& at.holds(condition) ==> (at.gives(e, value) <==> at.gives(then_expr, value)) && (
            at.fails(e, error) <==> at.fails(then_expr, error))
            &&& at.goes_on(condition, JudgmentOutcome::Holds) ==> (at.gives(e, value) <==> at.gives(
                else_expr,
                value,
            )) && (at.fails(e, error) <==> at.fails(else_expr, error))
            &&& at.rejects(condition, error) ==> at.fails(e, error)
        }),
{
    let e = ScalarExpr::If {
        condition: Box::new(condition),
        then_expr: Box::new(then_expr),
        else_expr: Box::new(else_expr),
    };
    scalar_run_is_step(at.cx, at.fuel, e, at.ent, at.context);
}

/// A table is read in the version in force at the start of the period, at the index that is asked
/// for: the value is the one that stands there, and there is an error where none stands there or no
/// version is in force.
pub proof fn a_table_is_read_at_its_index(
    at: Place,
    parameter: String,
    index: ScalarExpr,
    p: IndexedParameter,
    key: i64,
)
    requires
        at.cx.program.parameter(parameter@) == Some(p),
        at.gives(index, ScalarValue::Integer(key)),
    ensures
        ({
            let e = ScalarExpr::ParameterLookup { parameter, index: Box::new(index) };
            match p.version_at(at.cx.period.start) {
                Some(version) => if version.values@.contains_key(key) {
                    at.gives(e, version.values@[key])
                } else {
                    at.fails(
                        e,
                        ErrorView::MissingParameterValue {
                            parameter: parameter@,
                            key,
                            at: at.cx.period.start,
                        },
                    )
                },
                None => at.fails(
                    e,
                    ErrorView::MissingParameterValue {
                        parameter: parameter@,
                        key,
                        at: at.cx.period.start,
                    },
                ),
            }
        }),
{
    let e = ScalarExpr::ParameterLookup { parameter, index: Box::new(index) };
    scalar_run_is_step(at.cx, at.fuel, e, at.ent, at.context);
}

/// An index may be written as a decimal without fraction: the table is read at the integer of that
/// value.
pub proof fn an_index_may_be_a_whole_decimal(
    at: Place,
    parameter: String,
    index: ScalarExpr,
    other: ScalarExpr,
    d: Decimal,
    key: i64,
    value: ScalarValue,
)
    requires
        at.gives(index, ScalarValue::Integer(key)),
        at.gives(other, ScalarValue::Decimal(d)),
        d.has_value(key as int, 0),
    ensures
        at.gives(ScalarExpr::ParameterLookup { parameter, index: Box::new(index) }, value)
            <==> at.gives(
            ScalarExpr::ParameterLookup { parameter, index: Box::new(other) },
            value,
        ),
{
    Decimal::whole_has_index(d, key);
    let e = ScalarExpr::ParameterLookup { parameter, index: Box::new(index) };
    let f = ScalarExpr::ParameterLookup { parameter, index: Box::new(other) };
    scalar_run_is_step(at.cx, at.fuel, e, at.ent, at.context);
    scalar_run_is_step(at.cx, at.fuel, f, at.ent, at.context);
}

/// A `match` that reaches its fallback has no value, and neither has a reduction over periods
/// outside a lifetime.
pub proof fn fallbacks_and_reductions_have_no_value(
    at: Place,
    subject: ScalarExpr,
    patterns: Vec<ScalarExpr>,
    kind: crate::model::OverPeriodsKind,
    inner: ScalarExpr,
    n: Option<Box<ScalarExpr>>,
    value: ScalarValue,
)
    ensures
        !at.gives(ScalarExpr::NoMatch { subject: Box::new(subject), patterns }, value),
        !at.gives(ScalarExpr::OverPeriods { kind, value: Box::new(inner), n }, value),
{
    let e = ScalarExpr::NoMatch { subject: Box::new(subject), patterns };
    let f = ScalarExpr::OverPeriods { kind, value: Box::new(inner), n };
    scalar_run_is_step(at.cx, at.fuel, e, at.ent, at.context);
    scalar_run_is_step(at.cx, at.fuel, f, at.ent, at.context);
}

} // verus!
