//! The dates that an evaluation meets do not depend on the bound on its depth, once that is
//! sufficient.
use crate::bounds::{extremum_stable, judgment_stable, scalar_stable, sum_stable};
use crate::date_use::{
    connective_date_met, date_met, date_met_is_step, extremum_date_met, has_value, is_held,
    is_nonzero, is_passed, judgment_date_met, judgment_date_met_is_step, judgment_dates,
    judgment_rule_date_met, rule_date_met, scalar_dates, sum_date_met,
};
use crate::model::{DerivedSemantics, JudgmentExpr, JudgmentOutcome, ScalarExpr};
use crate::semantics::{
    connective_run, extremum_run, judgment_run, judgment_run_is_step, number_of, rule_formula,
    rule_judgment, rule_scalar, scalar_run, scalar_run_is_step, sum_run, Facts,
};
use vstd::prelude::*;

verus! {

proof fn date_met_stable(cx: Facts, f: nat, g: nat, e: ScalarExpr, id: Seq<char>)
    requires
        f <= g,
        scalar_run(cx, f, e, id, None) is Some,
    ensures
        date_met(cx, f, e, id) == date_met(cx, g, e, id),
    decreases 2 * f, e, 1int, 0nat,
{
    date_met_is_step(cx, f, e);
    date_met_is_step(cx, g, e);
    scalar_run_is_step(cx, f, e, id, None);
    match e {
        ScalarExpr::Derived(name) => {
            if cx.program.rule(name@) is Some {
                rule_date_met_stable(cx, (f - 1) as nat, (g - 1) as nat, name@, id);
            }
        },
        ScalarExpr::ParameterLookup { index, .. } => {
            scalar_stable(cx, f, g, *index, id, None);
            date_met_stable(cx, f, g, *index, id);
        },
        ScalarExpr::Add(items) => sum_date_met_stable(cx, f, g, items@, items@.len(), id),
        ScalarExpr::Max(items) => if items@.len() > 0 {
            extremum_date_met_stable(cx, f, g, items@, items@.len(), true, id);
        },
        ScalarExpr::Min(items) => if items@.len() > 0 {
            extremum_date_met_stable(cx, f, g, items@, items@.len(), false, id);
        },
        ScalarExpr::Sub(a, b) => pair_date_met_stable(cx, f, g, *a, *b, id, e),
        ScalarExpr::Mul(a, b) => pair_date_met_stable(cx, f, g, *a, *b, id, e),
        ScalarExpr::Div(a, b) => {
            scalar_stable(cx, f, g, *b, id, None);
            date_met_stable(cx, f, g, *b, id);
            if is_nonzero(number_of(scalar_run(cx, f, *b, id, None))) {
                date_met_stable(cx, f, g, *a, id);
            }
        },
        ScalarExpr::Ceil(a) => date_met_stable(cx, f, g, *a, id),
        ScalarExpr::Floor(a) => date_met_stable(cx, f, g, *a, id),
        ScalarExpr::If { condition, then_expr, else_expr } => {
            judgment_stable(cx, f, g, *condition, id, None);
            judgment_date_met_stable(cx, f, g, *condition, id);
            let test = judgment_run(cx, f, *condition, id, None);
            if is_held(test) {
                date_met_stable(cx, f, g, *then_expr, id);
            } else if has_value(test) {
                date_met_stable(cx, f, g, *else_expr, id);
            }
        },
        ScalarExpr::NoMatch { subject, .. } => date_met_stable(cx, f, g, *subject, id),
        _ => {},
    }
}

proof fn pair_date_met_stable(
    cx: Facts,
    f: nat,
    g: nat,
    a: ScalarExpr,
    b: ScalarExpr,
    id: Seq<char>,
    whole: ScalarExpr,
)
    requires
        f <= g,
        decreases_to!(whole => a),
        decreases_to!(whole => b),
        scalar_run(cx, f, a, id, None) is Some,
        has_value(number_of(scalar_run(cx, f, a, id, None))) ==> scalar_run(
            cx,
            f,
            b,
            id,
            None,
        ) is Some,
    ensures
        date_met(cx, f, a, id) == date_met(cx, g, a, id),
        has_value(number_of(scalar_run(cx, f, a, id, None))) == has_value(
            number_of(scalar_run(cx, g, a, id, None)),
        ),
        has_value(number_of(scalar_run(cx, f, a, id, None))) ==> date_met(cx, f, b, id)
            == date_met(cx, g, b, id),
    decreases 2 * f, whole, 0int, 0nat,
{
    scalar_stable(cx, f, g, a, id, None);
    date_met_stable(cx, f, g, a, id);
    if has_value(number_of(scalar_run(cx, f, a, id, None))) {
        date_met_stable(cx, f, g, b, id);
    }
}

proof fn sum_date_met_stable(
    cx: Facts,
    f: nat,
    g: nat,
    items: Seq<ScalarExpr>,
    n: nat,
    id: Seq<char>,
)
    requires
        f <= g,
        n <= items.len(),
        sum_run(cx, f, items, n, id, None) is Some,
    ensures
        sum_date_met(cx, f, items, n, id) == sum_date_met(cx, g, items, n, id),
    decreases 2 * f, items, 0int, n,
{
    if n > 0 {
        sum_date_met_stable(cx, f, g, items, (n - 1) as nat, id);
        sum_stable(cx, f, g, items, (n - 1) as nat, id, None);
        if has_value(sum_run(cx, f, items, (n - 1) as nat, id, None)) {
            date_met_stable(cx, f, g, items[n - 1], id);
        }
    }
}

proof fn extremum_date_met_stable(
    cx: Facts,
    f: nat,
    g: nat,
    items: Seq<ScalarExpr>,
    n: nat,
    largest: bool,
    id: Seq<char>,
)
    requires
        f <= g,
        0 < n <= items.len(),
        extremum_run(cx, f, items, n, largest, id, None) is Some,
    ensures
        extremum_date_met(cx, f, items, n, largest, id) == extremum_date_met(
            cx,
            g,
            items,
            n,
            largest,
            id,
        ),
    decreases 2 * f, items, 0int, n,
{
    if n > 1 {
        extremum_date_met_stable(cx, f, g, items, (n - 1) as nat, largest, id);
        extremum_stable(cx, f, g, items, (n - 1) as nat, largest, id, None);
        if has_value(extremum_run(cx, f, items, (n - 1) as nat, largest, id, None)) {
            date_met_stable(cx, f, g, items[n - 1], id);
        }
    } else {
        assert(extremum_date_met(cx, f, items, 0, largest, id) is None);
        assert(extremum_date_met(cx, g, items, 0, largest, id) is None);
        date_met_stable(cx, f, g, items[0], id);
    }
}

proof fn judgment_date_met_stable(cx: Facts, f: nat, g: nat, e: JudgmentExpr, id: Seq<char>)
    requires
        f <= g,
        judgment_run(cx, f, e, id, None) is Some,
    ensures
        judgment_date_met(cx, f, e, id) == judgment_date_met(cx, g, e, id),
    decreases 2 * f, e, 1int, 0nat,
{
    judgment_date_met_is_step(cx, f, e);
    judgment_date_met_is_step(cx, g, e);
    judgment_run_is_step(cx, f, e, id, None);
    match e {
        JudgmentExpr::Comparison { left, right, .. } => {
            scalar_stable(cx, f, g, left, id, None);
            date_met_stable(cx, f, g, left, id);
            if has_value(scalar_run(cx, f, left, id, None)) {
                date_met_stable(cx, f, g, right, id);
            }
        },
        JudgmentExpr::Derived(name) => {
            if cx.program.rule(name@) is Some {
                judgment_rule_date_met_stable(cx, (f - 1) as nat, (g - 1) as nat, name@, id);
            }
        },
        JudgmentExpr::And(items) => connective_date_met_stable(
            cx,
            f,
            g,
            items@,
            0,
            JudgmentOutcome::NotHolds,
            false,
            id,
        ),
        JudgmentExpr::Or(items) => connective_date_met_stable(
            cx,
            f,
            g,
            items@,
            0,
            JudgmentOutcome::Holds,
            false,
            id,
        ),
        JudgmentExpr::Not(item) => judgment_date_met_stable(cx, f, g, *item, id),
        _ => {},
    }
}

proof fn connective_date_met_stable(
    cx: Facts,
    f: nat,
    g: nat,
    items: Seq<JudgmentExpr>,
    from: nat,
    decisive: JudgmentOutcome,
    undetermined: bool,
    id: Seq<char>,
)
    requires
        f <= g,
        connective_run(cx, f, items, from, decisive, undetermined, id, None) is Some,
    ensures
        connective_date_met(cx, f, items, from, decisive, id) == connective_date_met(
            cx,
            g,
            items,
            from,
            decisive,
            id,
        ),
    decreases 2 * f, items, 0int, items.len() - from,
{
    if from < items.len() {
        let item = items[from as int];
        judgment_stable(cx, f, g, item, id, None);
        judgment_date_met_stable(cx, f, g, item, id);
        let run = judgment_run(cx, f, item, id, None);
        if is_passed(run, decisive) {
            connective_date_met_stable(
                cx,
                f,
                g,
                items,
                from + 1,
                decisive,
                undetermined || run->0.value->Ok_0 is Undetermined,
                id,
            );
        }
    }
}

proof fn rule_date_met_stable(cx: Facts, f: nat, g: nat, name: Seq<char>, id: Seq<char>)
    requires
        f <= g,
        rule_scalar(cx, f, name, id) is Some,
    ensures
        rule_date_met(cx, f, name, id) == rule_date_met(cx, g, name, id),
    decreases 2 * f + 1, name, 0int, 0nat,
{
    match rule_formula(cx, name) {
        Ok((_, DerivedSemantics::Scalar(e))) => date_met_stable(cx, f, g, e, id),
        _ => {},
    }
}

proof fn judgment_rule_date_met_stable(cx: Facts, f: nat, g: nat, name: Seq<char>, id: Seq<char>)
    requires
        f <= g,
        rule_judgment(cx, f, name, id) is Some,
    ensures
        judgment_rule_date_met(cx, f, name, id) == judgment_rule_date_met(cx, g, name, id),
    decreases 2 * f + 1, name, 0int, 0nat,
{
    match rule_formula(cx, name) {
        Ok((_, DerivedSemantics::Judgment(e))) => judgment_date_met_stable(cx, f, g, e, id),
        _ => {},
    }
}

/// Any sufficient bound gives the dates that a rule meets.
pub proof fn scalar_dates_at(cx: Facts, fuel: nat, name: Seq<char>, id: Seq<char>)
    requires
        rule_scalar(cx, fuel, name, id) is Some,
    ensures
        rule_date_met(cx, fuel, name, id) == scalar_dates(cx, name, id),
{
    let f = choose|f: nat| #[trigger] rule_scalar(cx, f, name, id) is Some;
    if f <= fuel {
        rule_date_met_stable(cx, f, fuel, name, id);
    } else {
        rule_date_met_stable(cx, fuel, f, name, id);
    }
}

/// Any sufficient bound gives the dates that a judgment rule meets.
pub proof fn judgment_dates_at(cx: Facts, fuel: nat, name: Seq<char>, id: Seq<char>)
    requires
        rule_judgment(cx, fuel, name, id) is Some,
    ensures
        judgment_rule_date_met(cx, fuel, name, id) == judgment_dates(cx, name, id),
{
    let f = choose|f: nat| #[trigger] rule_judgment(cx, f, name, id) is Some;
    if f <= fuel {
        judgment_rule_date_met_stable(cx, f, fuel, name, id);
    } else {
        judgment_rule_date_met_stable(cx, fuel, f, name, id);
    }
}

} // verus!
