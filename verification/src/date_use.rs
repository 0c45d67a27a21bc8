//! When an evaluation meets dates: those of literals, facts and parameters, and what computes
//! with them. Only what is evaluated counts, not what a formula merely mentions.
use crate::bulk::{input_or, read_at, unsupported_text};
use crate::decimal::Decimal;
use crate::error::ErrorView;
use crate::lazy::RowMask;
use crate::model::{DerivedSemantics, JudgmentExpr, JudgmentOutcome, ScalarExpr, ScalarValue};
use crate::semantics::{
    extremum_run, judgment_run, number_of, rule_formula, rule_judgment, rule_scalar, scalar_run,
    sum_run, Eval, Facts,
};
use vstd::prelude::*;

verus! {

/// Whether an evaluation ended with a value.
pub open spec fn has_value<T>(run: Option<Eval<T>>) -> bool {
    run matches Some(eval) && eval.value is Ok
}

/// Whether an evaluation ended with a number other than zero.
pub open spec fn is_nonzero(run: Option<Eval<Decimal>>) -> bool {
    has_value(run) && run->0.value->Ok_0.magnitude() != 0
}

/// Whether an evaluation ended with the outcome that a condition asks for.
pub open spec fn is_held(run: Option<Eval<JudgmentOutcome>>) -> bool {
    has_value(run) && run->0.value->Ok_0 is Holds
}

/// Dates that an evaluation meets: where, as the numbers of the parts that lead there in the
/// order in which they are evaluated, and what they are.
pub ghost struct Met {
    pub path: Seq<nat>,
    pub what: Seq<char>,
}

/// Dates that are met here.
pub open spec fn met_here(what: Seq<char>) -> Option<Met> {
    Some(Met { path: Seq::empty(), what })
}

/// Dates that are met in part `k`.
pub open spec fn met_in(k: nat, met: Option<Met>) -> Option<Met> {
    match met {
        Some(m) => Some(Met { path: seq![k] + m.path, what: m.what }),
        None => None,
    }
}

/// Whether one place comes before another: its first part that differs has the smaller number.
pub open spec fn is_before(a: Seq<nat>, b: Seq<nat>) -> bool
    decreases a.len(),
{
    if b.len() == 0 {
        false
    } else if a.len() == 0 {
        true
    } else if a[0] != b[0] {
        a[0] < b[0]
    } else {
        is_before(a.skip(1), b.skip(1))
    }
}

proof fn parts_in_order(j: nat, a: Seq<nat>, k: nat, b: Seq<nat>)
    ensures
        is_before(seq![j] + a, seq![k] + b) == if j == k {
            is_before(a, b)
        } else {
            j < k
        },
{
    let (x, y) = (seq![j] + a, seq![k] + b);
    assert(x.skip(1) =~= a);
    assert(y.skip(1) =~= b);
    assert(x[0] == j && y[0] == k);
}

/// What a value is, where it is a date.
pub open spec fn date_of(value: Result<ScalarValue, ErrorView>, what: Seq<char>) -> Option<Met> {
    match value {
        Ok(ScalarValue::Date(_)) => met_here(what),
        _ => None,
    }
}

/// The first of two, where the second comes only on a condition.
pub open spec fn first_met(first: Option<Met>, reached: bool, second: Option<Met>) -> Option<Met> {
    if first is Some {
        first
    } else if reached {
        second
    } else {
        None
    }
}

/// The dates that evaluating a formula for an entity meets first.
#[verifier::opaque]
pub open spec fn date_met(cx: Facts, fuel: nat, e: ScalarExpr, id: Seq<char>) -> Option<Met>
    decreases 2 * fuel, e, 3int, 0nat,
{
    date_met_step(cx, fuel, e, id)
}

pub open spec fn date_met_step(cx: Facts, fuel: nat, e: ScalarExpr, id: Seq<char>) -> Option<Met>
    decreases 2 * fuel, e, 2int, 0nat,
{
    match e {
        ScalarExpr::Literal(v) => date_of(Ok(v), "date literals"@),
        ScalarExpr::Input(name) => date_of(input_or(cx, name@, id, None), "date inputs"@),
        ScalarExpr::InputOrElse { name, default } => date_of(
            input_or(cx, name@, id, Some(default)),
            "date inputs"@,
        ),
        ScalarExpr::Derived(name) => if fuel > 0 {
            rule_date_met(cx, (fuel - 1) as nat, name@, id)
        } else {
            None
        },
        ScalarExpr::ParameterLookup { parameter, index } => {
            let key = scalar_run(cx, fuel, *index, id, None);
            first_met(
                met_in(0, date_met(cx, fuel, *index, id)),
                has_value(key),
                met_in(
                    1,
                    date_of(
                        read_at(cx, parameter@, key->0.value->Ok_0),
                        "date parameter values"@,
                    ),
                ),
            )
        },
        ScalarExpr::Add(items) => sum_date_met(cx, fuel, items@, items@.len(), id),
        ScalarExpr::Max(items) => extremum_date_met(cx, fuel, items@, items@.len(), true, id),
        ScalarExpr::Min(items) => extremum_date_met(cx, fuel, items@, items@.len(), false, id),
        ScalarExpr::Sub(a, b) => first_met(
            met_in(0, date_met(cx, fuel, *a, id)),
            has_value(number_of(scalar_run(cx, fuel, *a, id, None))),
            met_in(1, date_met(cx, fuel, *b, id)),
        ),
        ScalarExpr::Mul(a, b) => first_met(
            met_in(0, date_met(cx, fuel, *a, id)),
            has_value(number_of(scalar_run(cx, fuel, *a, id, None))),
            met_in(1, date_met(cx, fuel, *b, id)),
        ),
        ScalarExpr::Div(a, b) => first_met(
            met_in(0, date_met(cx, fuel, *b, id)),
            is_nonzero(number_of(scalar_run(cx, fuel, *b, id, None))),
            met_in(1, date_met(cx, fuel, *a, id)),
        ),
        ScalarExpr::Ceil(a) => date_met(cx, fuel, *a, id),
        ScalarExpr::Floor(a) => date_met(cx, fuel, *a, id),
        ScalarExpr::PeriodStart => met_here("period_start / period_end"@),
        ScalarExpr::PeriodEnd => met_here("period_start / period_end"@),
        ScalarExpr::DateAddDays { .. } => met_here("date_add_days"@),
        ScalarExpr::DateAddMonths { .. } => met_here("date_add_months"@),
        ScalarExpr::DateAddYears { .. } => met_here("date_add_years"@),
        ScalarExpr::DaysBetween { .. } => met_here("days_between"@),
        ScalarExpr::CountRelated { .. } => None,
        ScalarExpr::SumRelated { .. } => None,
        ScalarExpr::If { condition, then_expr, else_expr } => {
            let test = judgment_run(cx, fuel, *condition, id, None);
            first_met(
                met_in(0, judgment_date_met(cx, fuel, *condition, id)),
                has_value(test),
                if is_held(test) {
                    met_in(1, date_met(cx, fuel, *then_expr, id))
                } else {
                    met_in(2, date_met(cx, fuel, *else_expr, id))
                },
            )
        },
        ScalarExpr::NoMatch { subject, .. } => date_met(cx, fuel, *subject, id),
        ScalarExpr::OverPeriods { .. } => None,
    }
}

/// The dates that evaluating the first `n` items of a sum meets first.
pub open spec fn sum_date_met(
    cx: Facts,
    fuel: nat,
    items: Seq<ScalarExpr>,
    n: nat,
    id: Seq<char>,
) -> Option<Met>
    decreases 2 * fuel, items, 0int, n,
{
    if n == 0 || n > items.len() {
        None
    } else {
        first_met(
            sum_date_met(cx, fuel, items, (n - 1) as nat, id),
            has_value(sum_run(cx, fuel, items, (n - 1) as nat, id, None)),
            met_in((n - 1) as nat, date_met(cx, fuel, items[n - 1], id)),
        )
    }
}

pub proof fn sum_date_met_stays(
    cx: Facts,
    fuel: nat,
    items: Seq<ScalarExpr>,
    n: nat,
    m: nat,
    id: Seq<char>,
)
    requires
        n <= m <= items.len(),
        sum_date_met(cx, fuel, items, n, id) is Some,
    ensures
        sum_date_met(cx, fuel, items, m, id) == sum_date_met(cx, fuel, items, n, id),
    decreases m,
{
    if n < m {
        sum_date_met_stays(cx, fuel, items, n, (m - 1) as nat, id);
    }
}

/// The dates that evaluating the first `n` items of a `max` or `min` meets first.
pub open spec fn extremum_date_met(
    cx: Facts,
    fuel: nat,
    items: Seq<ScalarExpr>,
    n: nat,
    largest: bool,
    id: Seq<char>,
) -> Option<Met>
    decreases 2 * fuel, items, 0int, n,
{
    if n == 0 || n > items.len() {
        None
    } else {
        first_met(
            extremum_date_met(cx, fuel, items, (n - 1) as nat, largest, id),
            n == 1 || has_value(
                extremum_run(cx, fuel, items, (n - 1) as nat, largest, id, None),
            ),
            met_in((n - 1) as nat, date_met(cx, fuel, items[n - 1], id)),
        )
    }
}

pub proof fn extremum_date_met_stays(
    cx: Facts,
    fuel: nat,
    items: Seq<ScalarExpr>,
    n: nat,
    m: nat,
    largest: bool,
    id: Seq<char>,
)
    requires
        n <= m <= items.len(),
        extremum_date_met(cx, fuel, items, n, largest, id) is Some,
    ensures
        extremum_date_met(cx, fuel, items, m, largest, id) == extremum_date_met(
            cx,
            fuel,
            items,
            n,
            largest,
            id,
        ),
    decreases m,
{
    if n < m {
        extremum_date_met_stays(cx, fuel, items, n, (m - 1) as nat, largest, id);
    }
}

/// The dates that evaluating a judgment for an entity meets first.
#[verifier::opaque]
pub open spec fn judgment_date_met(cx: Facts, fuel: nat, e: JudgmentExpr, id: Seq<char>) -> Option<Met>
    decreases 2 * fuel, e, 3int, 0nat,
{
    judgment_date_met_step(cx, fuel, e, id)
}

pub open spec fn judgment_date_met_step(
    cx: Facts,
    fuel: nat,
    e: JudgmentExpr,
    id: Seq<char>,
) -> Option<Met>
    decreases 2 * fuel, e, 2int, 0nat,
{
    match e {
        JudgmentExpr::Comparison { left, right, .. } => first_met(
            met_in(0, date_met(cx, fuel, left, id)),
            has_value(scalar_run(cx, fuel, left, id, None)),
            met_in(1, date_met(cx, fuel, right, id)),
        ),
        JudgmentExpr::Derived(name) => if fuel > 0 {
            judgment_rule_date_met(cx, (fuel - 1) as nat, name@, id)
        } else {
            None
        },
        JudgmentExpr::RelationMember { .. } => None,
        JudgmentExpr::And(items) => connective_date_met(
            cx,
            fuel,
            items@,
            0,
            JudgmentOutcome::NotHolds,
            id,
        ),
        JudgmentExpr::Or(items) => connective_date_met(
            cx,
            fuel,
            items@,
            0,
            JudgmentOutcome::Holds,
            id,
        ),
        JudgmentExpr::Not(item) => judgment_date_met(cx, fuel, *item, id),
    }
}

/// Whether an item of an `and` or `or` neither fails nor decides.
pub open spec fn is_passed(run: Option<Eval<JudgmentOutcome>>, decisive: JudgmentOutcome) -> bool {
    has_value(run) && run->0.value->Ok_0 != decisive
}

/// The dates that evaluating the items of an `and` or `or` from `from` on meets first.
pub open spec fn connective_date_met(
    cx: Facts,
    fuel: nat,
    items: Seq<JudgmentExpr>,
    from: nat,
    decisive: JudgmentOutcome,
    id: Seq<char>,
) -> Option<Met>
    decreases 2 * fuel, items, 0int, items.len() - from,
{
    if from >= items.len() {
        None
    } else {
        first_met(
            met_in(from, judgment_date_met(cx, fuel, items[from as int], id)),
            is_passed(judgment_run(cx, fuel, items[from as int], id, None), decisive),
            connective_date_met(cx, fuel, items, from + 1, decisive, id),
        )
    }
}

/// The dates that evaluating a scalar rule for an entity meets first.
pub open spec fn rule_date_met(cx: Facts, fuel: nat, name: Seq<char>, id: Seq<char>) -> Option<Met>
    decreases 2 * fuel + 1, name, 0int, 0nat,
{
    match rule_formula(cx, name) {
        Ok((_, DerivedSemantics::Scalar(e))) => date_met(cx, fuel, e, id),
        _ => None,
    }
}

/// The dates that evaluating a judgment rule for an entity meets first.
pub open spec fn judgment_rule_date_met(
    cx: Facts,
    fuel: nat,
    name: Seq<char>,
    id: Seq<char>,
) -> Option<Met>
    decreases 2 * fuel + 1, name, 0int, 0nat,
{
    match rule_formula(cx, name) {
        Ok((_, DerivedSemantics::Judgment(e))) => judgment_date_met(cx, fuel, e, id),
        _ => None,
    }
}

pub proof fn date_met_is_step(cx: Facts, fuel: nat, e: ScalarExpr)
    ensures
        forall|id: Seq<char>| #[trigger]
            date_met(cx, fuel, e, id) == date_met_step(cx, fuel, e, id),
{
    reveal(date_met);
}

pub proof fn judgment_date_met_is_step(cx: Facts, fuel: nat, e: JudgmentExpr)
    ensures
        forall|id: Seq<char>| #[trigger]
            judgment_date_met(cx, fuel, e, id) == judgment_date_met_step(cx, fuel, e, id),
{
    reveal(judgment_date_met);
}

/// The dates that a scalar rule meets first for an entity.
pub open spec fn scalar_dates(cx: Facts, name: Seq<char>, id: Seq<char>) -> Option<Met> {
    rule_date_met(
        cx,
        choose|fuel: nat| #[trigger] rule_scalar(cx, fuel, name, id) is Some,
        name,
        id,
    )
}

/// The dates that a judgment rule meets first for an entity.
pub open spec fn judgment_dates(cx: Facts, name: Seq<char>, id: Seq<char>) -> Option<Met> {
    judgment_rule_date_met(
        cx,
        choose|fuel: nat| #[trigger] rule_judgment(cx, fuel, name, id) is Some,
        name,
        id,
    )
}

/// The dates that a rule meets first for an entity, whatever its kind.
pub open spec fn output_dates(cx: Facts, name: Seq<char>, id: Seq<char>) -> Option<Met> {
    match rule_formula(cx, name) {
        Ok((_, DerivedSemantics::Scalar(_))) => scalar_dates(cx, name, id),
        Ok((_, DerivedSemantics::Judgment(_))) => judgment_dates(cx, name, id),
        Err(_) => None,
    }
}

/// Whether dates come no earlier than those that are first, and are the same where they are met
/// in the same place.
pub open spec fn comes_after(first: Met, met: Option<Met>) -> bool {
    met matches Some(m) ==> !is_before(m.path, first.path) && (m.path == first.path ==> m.what
        == first.what)
}

/// Whether the dates that a row meets come first among those that the rows of a mask meet.
pub open spec fn is_met_first(
    ids: Seq<Seq<char>>,
    mask: RowMask,
    met: spec_fn(Seq<char>) -> Option<Met>,
    row: int,
) -> bool {
    &&& mask.has(row)
    &&& met(ids[row]) is Some
    &&& forall|other: int| #[trigger]
        mask.has(other) ==> comes_after(met(ids[row])->0, met(ids[other]))
}

/// Whether an error names the dates that the rows of a mask meet first, in the order in which
/// the parts of the formula are evaluated, each for all rows that need it.
pub open spec fn met_by(
    ids: Seq<Seq<char>>,
    mask: RowMask,
    error: ErrorView,
    met: spec_fn(Seq<char>) -> Option<Met>,
) -> bool {
    exists|row: int| #[trigger]
        is_met_first(ids, mask, met, row) && error == ErrorView::TypeMismatch(
            unsupported_text(met(ids[row])->0.what),
        )
}

/// Whether no row of a mask meets dates.
pub open spec fn unmet(
    ids: Seq<Seq<char>>,
    mask: RowMask,
    met: spec_fn(Seq<char>) -> Option<Met>,
) -> bool {
    forall|row: int| #[trigger] mask.has(row) ==> met(ids[row]) is None
}

/// Dates that rows meet first in a part of a formula, before any that others meet in a later
/// part, are those that they meet first in the formula.
pub proof fn met_in_part(
    ids: Seq<Seq<char>>,
    some: RowMask,
    mask: RowMask,
    error: ErrorView,
    part: spec_fn(Seq<char>) -> Option<Met>,
    whole: spec_fn(Seq<char>) -> Option<Met>,
    k: nat,
)
    requires
        met_by(ids, some, error, part),
        forall|row: int| #[trigger]
            some.has(row) ==> mask.has(row) && (part(ids[row]) is Some ==> whole(ids[row])
                == met_in(k, part(ids[row]))),
        forall|row: int| #[trigger]
            mask.has(row) && !(some.has(row) && part(ids[row]) is Some) ==> (whole(
                ids[row],
            ) matches Some(m) ==> m.path.len() > 0 && m.path[0] > k),
    ensures
        met_by(ids, mask, error, whole),
{
    let row = choose|row: int| #[trigger]
        is_met_first(ids, some, part, row) && error == ErrorView::TypeMismatch(
            unsupported_text(part(ids[row])->0.what),
        );
    assert(some.has(row));
    let own = part(ids[row])->0.path;
    assert forall|other: int| #[trigger] mask.has(other) implies comes_after(
        whole(ids[row])->0,
        whole(ids[other]),
    ) by {
        if let Some(m) = whole(ids[other]) {
            if some.has(other) && part(ids[other]) is Some {
                let path = part(ids[other])->0.path;
                parts_in_order(k, path, k, own);
                if m.path == seq![k] + own {
                    assert(path =~= m.path.skip(1));
                    assert(own =~= m.path.skip(1));
                }
            } else {
                parts_in_order(m.path[0], m.path.skip(1), k, own);
                assert(m.path =~= seq![m.path[0]] + m.path.skip(1));
                assert((seq![k] + own)[0] == k);
            }
        }
    }
    assert(is_met_first(ids, mask, whole, row));
}

/// Dates that rows meet first are so too where no other row meets any.
pub proof fn met_alike(
    ids: Seq<Seq<char>>,
    some: RowMask,
    mask: RowMask,
    error: ErrorView,
    part: spec_fn(Seq<char>) -> Option<Met>,
    whole: spec_fn(Seq<char>) -> Option<Met>,
)
    requires
        met_by(ids, some, error, part),
        forall|row: int| #[trigger]
            some.has(row) ==> mask.has(row) && whole(ids[row]) == part(ids[row]),
        forall|row: int| #[trigger] mask.has(row) && !some.has(row) ==> whole(ids[row]) is None,
    ensures
        met_by(ids, mask, error, whole),
{
    let row = choose|row: int| #[trigger]
        is_met_first(ids, some, part, row) && error == ErrorView::TypeMismatch(
            unsupported_text(part(ids[row])->0.what),
        );
    assert(some.has(row));
    assert forall|other: int| #[trigger] mask.has(other) implies comes_after(
        whole(ids[row])->0,
        whole(ids[other]),
    ) by {
        if some.has(other) {
            assert(part(ids[other]) == whole(ids[other]));
        }
    }
    assert(is_met_first(ids, mask, whole, row));
}

/// Of two places one comes before the other.
pub proof fn places_are_in_order(a: Seq<nat>, b: Seq<nat>)
    requires
        !is_before(a, b),
        !is_before(b, a),
    ensures
        a == b,
    decreases a.len(),
{
    if a.len() > 0 && b.len() > 0 {
        places_are_in_order(a.skip(1), b.skip(1));
        assert forall|i: int| 0 <= i < a.len() && i < b.len() implies a[i] == b[i] by {
            if i > 0 {
                assert(a[i] == a.skip(1)[i - 1]);
                assert(b[i] == b.skip(1)[i - 1]);
            }
        }
        assert(a.skip(1).len() == b.skip(1).len());
    }
    assert(a =~= b);
}

proof fn not_before_itself(a: Seq<nat>)
    ensures
        !is_before(a, a),
    decreases a.len(),
{
    if a.len() > 0 {
        not_before_itself(a.skip(1));
    }
}

/// Dates that are met in one place are met first by any row that meets them.
pub proof fn met_at_once(
    ids: Seq<Seq<char>>,
    mask: RowMask,
    error: ErrorView,
    met: spec_fn(Seq<char>) -> Option<Met>,
    row: int,
    place: Met,
)
    requires
        mask.has(row),
        met(ids[row]) is Some,
        forall|other: int| #[trigger]
            mask.has(other) ==> (met(ids[other]) matches Some(m) ==> m == place),
        error == ErrorView::TypeMismatch(unsupported_text(place.what)),
    ensures
        met_by(ids, mask, error, met),
{
    not_before_itself(place.path);
    assert(is_met_first(ids, mask, met, row));
}

/// Items that meet dates behind the first `n` items are later parts.
pub proof fn sum_date_met_later(
    cx: Facts,
    fuel: nat,
    items: Seq<ScalarExpr>,
    n: nat,
    m: nat,
    id: Seq<char>,
)
    requires
        n <= m <= items.len(),
        sum_date_met(cx, fuel, items, n, id) is None,
    ensures
        sum_date_met(cx, fuel, items, m, id) matches Some(x) ==> x.path.len() > 0 && x.path[0] >= n,
    decreases m,
{
    if n < m {
        sum_date_met_later(cx, fuel, items, n, (m - 1) as nat, id);
    }
}

pub proof fn extremum_date_met_later(
    cx: Facts,
    fuel: nat,
    items: Seq<ScalarExpr>,
    n: nat,
    m: nat,
    largest: bool,
    id: Seq<char>,
)
    requires
        n <= m <= items.len(),
        extremum_date_met(cx, fuel, items, n, largest, id) is None,
    ensures
        extremum_date_met(cx, fuel, items, m, largest, id) matches Some(x) ==> x.path.len() > 0
            && x.path[0] >= n,
    decreases m,
{
    if n < m {
        extremum_date_met_later(cx, fuel, items, n, (m - 1) as nat, largest, id);
    }
}

pub proof fn connective_date_met_later(
    cx: Facts,
    fuel: nat,
    items: Seq<JudgmentExpr>,
    from: nat,
    decisive: JudgmentOutcome,
    id: Seq<char>,
)
    ensures
        connective_date_met(cx, fuel, items, from, decisive, id) matches Some(x) ==> x.path.len() > 0
            && x.path[0] >= from,
    decreases items.len() - from,
{
    if from < items.len() {
        connective_date_met_later(cx, fuel, items, from + 1, decisive, id);
    }
}

} // verus!
