//! Laws of comparisons and of `and`, `or` and `not`.
use super::place::Place;
use crate::date::Date;
use crate::decimal::{pow10, Decimal};
use crate::error::ErrorView;
use crate::model::{ComparisonOp, JudgmentExpr, JudgmentOutcome, ScalarExpr, ScalarValue};
use crate::semantics::{connective_run, judgment_run, judgment_run_is_step};
use vstd::prelude::*;

verus! {

/// The judgment that compares two formulas.
pub open spec fn compared(left: ScalarExpr, op: ComparisonOp, right: ScalarExpr) -> JudgmentExpr {
    JudgmentExpr::Comparison { left, op, right }
}

/// What the six comparisons of two formulas say is that of an order: one of below, equal and above
/// holds, each is what the comparison the other way round says, and the other three deny them.
pub open spec fn compare_as_ordered(at: Place, left: ScalarExpr, right: ScalarExpr) -> bool {
    let lt = at.holds(compared(left, ComparisonOp::Lt, right));
    let eq = at.holds(compared(left, ComparisonOp::Eq, right));
    let gt = at.holds(compared(left, ComparisonOp::Gt, right));
    &&& lt ==> !eq && !gt
    &&& eq ==> !lt && !gt
    &&& lt || eq || gt
    &&& lt <==> at.holds(compared(right, ComparisonOp::Gt, left))
    &&& gt <==> at.holds(compared(right, ComparisonOp::Lt, left))
    &&& eq <==> at.holds(compared(right, ComparisonOp::Eq, left))
    &&& at.holds(compared(left, ComparisonOp::Lte, right)) <==> !gt
    &&& at.holds(compared(left, ComparisonOp::Gte, right)) <==> !lt
    &&& at.holds(compared(left, ComparisonOp::Ne, right)) <==> !eq
}

/// Whether each comparison of two formulas holds or does not hold.
pub open spec fn compare_decided(at: Place, left: ScalarExpr, right: ScalarExpr) -> bool {
    forall|op: ComparisonOp|
        {
            let e = #[trigger] compared(left, op, right);
            at.holds(e) != at.finds(e, JudgmentOutcome::NotHolds)
        }
}

proof fn comparison_steps(at: Place, left: ScalarExpr, right: ScalarExpr)
    ensures
        forall|op: ComparisonOp|
            judgment_run(
                at.cx,
                at.fuel,
                #[trigger] compared(left, op, right),
                at.ent,
                at.context,
            ) == crate::semantics::judgment_step(
                at.cx,
                at.fuel,
                compared(left, op, right),
                at.ent,
                at.context,
            ),
{
    assert forall|op: ComparisonOp|
        judgment_run(
            at.cx,
            at.fuel,
            #[trigger] compared(left, op, right),
            at.ent,
            at.context,
        ) == crate::semantics::judgment_step(
            at.cx,
            at.fuel,
            compared(left, op, right),
            at.ent,
            at.context,
        ) by {
        judgment_run_is_step(at.cx, at.fuel, compared(left, op, right), at.ent, at.context);
    }
}

/// Two dates compare by the day: an earlier one is below a later one.
pub proof fn dates_compare_by_day(
    at: Place,
    left: ScalarExpr,
    right: ScalarExpr,
    a: Date,
    b: Date,
)
    requires
        at.gives(left, ScalarValue::Date(a)),
        at.gives(right, ScalarValue::Date(b)),
    ensures
        compare_decided(at, left, right),
        compare_as_ordered(at, left, right),
        at.holds(compared(left, ComparisonOp::Lt, right)) <==> a.number() < b.number(),
        at.holds(compared(left, ComparisonOp::Eq, right)) <==> a.number() == b.number(),
        at.holds(compared(left, ComparisonOp::Gt, right)) <==> a.number() > b.number(),
{
    comparison_steps(at, left, right);
    comparison_steps(at, right, left);
    Date::of_number_of(a);
    Date::of_number_of(b);
}

/// Two numbers compare by their values, whether they are written as integers or as decimals and
/// with however many decimal places.
pub proof fn numbers_compare_by_value(
    at: Place,
    left: ScalarExpr,
    right: ScalarExpr,
    a: Decimal,
    b: Decimal,
)
    requires
        at.counts(left, a),
        at.counts(right, b),
    ensures
        compare_decided(at, left, right),
        compare_as_ordered(at, left, right),
        at.holds(compared(left, ComparisonOp::Lt, right)) <==> a.mantissa() * pow10(b.places())
            < b.mantissa() * pow10(a.places()),
        at.holds(compared(left, ComparisonOp::Eq, right)) <==> a.mantissa() * pow10(b.places())
            == b.mantissa() * pow10(a.places()),
{
    comparison_steps(at, left, right);
    comparison_steps(at, right, left);
}

/// Two integers compare as integers.
pub proof fn integers_compare_as_integers(
    at: Place,
    left: ScalarExpr,
    right: ScalarExpr,
    i: i64,
    j: i64,
)
    requires
        at.gives(left, ScalarValue::Integer(i)),
        at.gives(right, ScalarValue::Integer(j)),
    ensures
        compare_as_ordered(at, left, right),
        at.holds(compared(left, ComparisonOp::Lt, right)) <==> i < j,
        at.holds(compared(left, ComparisonOp::Eq, right)) <==> i == j,
{
    numbers_compare_by_value(
        at,
        left,
        right,
        Decimal::of_int(i as int),
        Decimal::of_int(j as int),
    );
    Decimal::parts_of(i < 0, if i < 0 { (-i) as nat } else { i as nat }, 0);
    Decimal::parts_of(j < 0, if j < 0 { (-j) as nat } else { j as nat }, 0);
    assert(pow10(0) == 1);
    assert(Decimal::of_int(i as int).mantissa() == i && Decimal::of_int(j as int).mantissa() == j);
    assert((i as int) * 1 == i && (j as int) * 1 == j) by (nonlinear_arith);
}

/// Texts, and booleans, are equal or not and have no order: the four order comparisons fail.
pub proof fn texts_and_booleans_have_no_order(
    at: Place,
    left: ScalarExpr,
    right: ScalarExpr,
    a: ScalarValue,
    b: ScalarValue,
    op: ComparisonOp,
)
    requires
        at.gives(left, a),
        at.gives(right, b),
        (a is Text && b is Text) || (a is Bool && b is Bool),
    ensures
        ({
            let same = match (a, b) {
                (ScalarValue::Text(x), ScalarValue::Text(y)) => x@ == y@,
                _ => a == b,
            };
            let eq = compared(left, ComparisonOp::Eq, right);
            let ne = compared(left, ComparisonOp::Ne, right);
            &&& at.finds(
                eq,
                if same {
                    JudgmentOutcome::Holds
                } else {
                    JudgmentOutcome::NotHolds
                },
            )
            &&& at.holds(eq) != at.holds(ne)
            &&& at.finds(eq, JudgmentOutcome::NotHolds) != at.finds(ne, JudgmentOutcome::NotHolds)
            &&& !(op is Eq) && !(op is Ne) ==> exists|error: ErrorView| #[trigger]
                at.rejects(compared(left, op, right), error)
        }),
{
    comparison_steps(at, left, right);
    if !(op is Eq) && !(op is Ne) {
        let e = compared(left, op, right);
        let run = judgment_run(at.cx, at.fuel, e, at.ent, at.context)->0;
        assert(at.rejects(e, run.value->Err_0));
    }
}

/// Values of different kinds do not compare, but for integers with decimals: the comparison fails.
pub proof fn unlike_values_do_not_compare(
    at: Place,
    left: ScalarExpr,
    right: ScalarExpr,
    a: ScalarValue,
    b: ScalarValue,
    op: ComparisonOp,
)
    requires
        at.gives(left, a),
        at.gives(right, b),
        match a {
            ScalarValue::Text(_) => !(b is Text),
            ScalarValue::Bool(_) => !(b is Bool),
            ScalarValue::Date(_) => !(b is Date),
            _ => !(b is Integer) && !(b is Decimal),
        },
    ensures
        exists|error: ErrorView| #[trigger] at.rejects(compared(left, op, right), error),
{
    comparison_steps(at, left, right);
    let e = compared(left, op, right);
    let run = judgment_run(at.cx, at.fuel, e, at.ent, at.context)->0;
    assert(at.rejects(e, run.value->Err_0));
}

/// A comparison whose left side fails fails with its error, and so does one whose left side has a
/// value and whose right side fails.
pub proof fn comparisons_pass_errors_on(
    at: Place,
    left: ScalarExpr,
    right: ScalarExpr,
    op: ComparisonOp,
    error: ErrorView,
)
    requires
        at.fails(left, error) || (at.fails(right, error) && exists|a: ScalarValue|
            at.gives(left, a)),
    ensures
        at.rejects(compared(left, op, right), error),
{
    comparison_steps(at, left, right);
}

/// `not` denies, and denies again: it turns holding into not holding and back, and leaves what is
/// undetermined.
pub proof fn not_denies(at: Place, e: JudgmentExpr, outcome: JudgmentOutcome)
    ensures
        ({
            let not = JudgmentExpr::Not(Box::new(e));
            &&& at.holds(not) <==> at.finds(e, JudgmentOutcome::NotHolds)
            &&& at.finds(not, JudgmentOutcome::NotHolds) <==> at.holds(e)
            &&& at.finds(not, JudgmentOutcome::Undetermined) <==> at.finds(
                e,
                JudgmentOutcome::Undetermined,
            )
            &&& at.finds(JudgmentExpr::Not(Box::new(not)), outcome) <==> at.finds(e, outcome)
            &&& forall|error: ErrorView| at.rejects(not, error) <==> #[trigger] at.rejects(e, error)
        }),
{
    let not = JudgmentExpr::Not(Box::new(e));
    judgment_run_is_step(at.cx, at.fuel, not, at.ent, at.context);
    judgment_run_is_step(at.cx, at.fuel, JudgmentExpr::Not(Box::new(not)), at.ent, at.context);
}

/// What the items of a connective from `from` on give where none of them fails.
proof fn connective_meaning(
    at: Place,
    items: Seq<JudgmentExpr>,
    from: nat,
    decisive: JudgmentOutcome,
    undetermined: bool,
)
    requires
        decisive is Holds || decisive is NotHolds,
        from <= items.len(),
        forall|i: int|
            from <= i < items.len() ==> at.finds(#[trigger] items[i], JudgmentOutcome::Holds)
                || at.finds(items[i], JudgmentOutcome::NotHolds) || at.finds(
                items[i],
                JudgmentOutcome::Undetermined,
            ),
    ensures
        connective_run(
            at.cx,
            at.fuel,
            items,
            from,
            decisive,
            undetermined,
            at.ent,
            at.context,
        ) matches Some(run) && run.value == Ok::<JudgmentOutcome, ErrorView>(
            if exists|i: int| from <= i < items.len() && at.finds(#[trigger] items[i], decisive) {
                decisive
            } else if undetermined || exists|i: int|
                from <= i < items.len() && at.finds(
                    #[trigger] items[i],
                    JudgmentOutcome::Undetermined,
                ) {
                JudgmentOutcome::Undetermined
            } else if decisive is Holds {
                JudgmentOutcome::NotHolds
            } else {
                JudgmentOutcome::Holds
            },
        ),
    decreases items.len() - from,
{
    if from < items.len() {
        let first = items[from as int];
        let o = judgment_run(at.cx, at.fuel, first, at.ent, at.context)->0.value->Ok_0;
        assert(at.finds(first, o));
        if o != decisive {
            connective_meaning(
                at,
                items,
                from + 1,
                decisive,
                undetermined || o is Undetermined,
            );
        }
    }
}

/// Where no item fails, `and` holds if and only if every item holds, and does not hold if and only
/// if some item does not; otherwise it is undetermined.
pub proof fn and_needs_all(at: Place, items: Vec<JudgmentExpr>)
    requires
        forall|i: int|
            0 <= i < items@.len() ==> at.finds(#[trigger] items@[i], JudgmentOutcome::Holds)
                || at.finds(items@[i], JudgmentOutcome::NotHolds) || at.finds(
                items@[i],
                JudgmentOutcome::Undetermined,
            ),
    ensures
        at.holds(JudgmentExpr::And(items)) <==> forall|i: int|
            0 <= i < items@.len() ==> at.holds(#[trigger] items@[i]),
        at.finds(JudgmentExpr::And(items), JudgmentOutcome::NotHolds) <==> exists|i: int|
            0 <= i < items@.len() && at.finds(#[trigger] items@[i], JudgmentOutcome::NotHolds),
        exists|o: JudgmentOutcome| at.finds(JudgmentExpr::And(items), o),
{
    let e = JudgmentExpr::And(items);
    judgment_run_is_step(at.cx, at.fuel, e, at.ent, at.context);
    connective_meaning(at, items@, 0, JudgmentOutcome::NotHolds, false);
    let o = judgment_run(at.cx, at.fuel, e, at.ent, at.context)->0.value->Ok_0;
    assert(at.finds(e, o));
}

/// Where no item fails, `or` holds if and only if some item holds, and does not hold if and only if
/// no item does and none is undetermined; otherwise it is undetermined.
pub proof fn or_needs_one(at: Place, items: Vec<JudgmentExpr>)
    requires
        forall|i: int|
            0 <= i < items@.len() ==> at.finds(#[trigger] items@[i], JudgmentOutcome::Holds)
                || at.finds(items@[i], JudgmentOutcome::NotHolds) || at.finds(
                items@[i],
                JudgmentOutcome::Undetermined,
            ),
    ensures
        at.holds(JudgmentExpr::Or(items)) <==> exists|i: int|
            0 <= i < items@.len() && at.holds(#[trigger] items@[i]),
        at.finds(JudgmentExpr::Or(items), JudgmentOutcome::NotHolds) <==> forall|i: int|
            0 <= i < items@.len() ==> at.finds(#[trigger] items@[i], JudgmentOutcome::NotHolds),
        exists|o: JudgmentOutcome| at.finds(JudgmentExpr::Or(items), o),
{
    let e = JudgmentExpr::Or(items);
    judgment_run_is_step(at.cx, at.fuel, e, at.ent, at.context);
    connective_meaning(at, items@, 0, JudgmentOutcome::Holds, false);
    let o = judgment_run(at.cx, at.fuel, e, at.ent, at.context)->0.value->Ok_0;
    assert(at.finds(e, o));
}

/// What a connective gives from `from` on is decided by the items up to the first that decides or
/// fails.
proof fn connective_stops(
    at: Place,
    items: Seq<JudgmentExpr>,
    from: nat,
    k: int,
    decisive: JudgmentOutcome,
    undetermined: bool,
)
    requires
        decisive is Holds || decisive is NotHolds,
        from <= k < items.len(),
        forall|i: int|
            from <= i < k ==> at.goes_on(#[trigger] items[i], decisive),
    ensures
        at.finds(items[k], decisive) ==> (connective_run(
            at.cx,
            at.fuel,
            items,
            from,
            decisive,
            undetermined,
            at.ent,
            at.context,
        ) matches Some(run) && run.value == Ok::<JudgmentOutcome, ErrorView>(decisive)),
        forall|error: ErrorView| #[trigger]
            at.rejects(items[k], error) ==> (connective_run(
                at.cx,
                at.fuel,
                items,
                from,
                decisive,
                undetermined,
                at.ent,
                at.context,
            ) matches Some(run) && run.value == Err::<JudgmentOutcome, ErrorView>(error)),
    decreases k - from,
{
    if from < k {
        assert(at.goes_on(items[from as int], decisive));
        let run = judgment_run(at.cx, at.fuel, items[from as int], at.ent, at.context);
        let o = run->0.value->Ok_0;
        connective_stops(at, items, from + 1, k, decisive, undetermined || o is Undetermined);
    }
}

/// `and` goes from left to right and stops at the first item that does not hold: what stands
/// behind it has no effect, an error among it included; and the error of an item before it is
/// the error of the whole.
pub proof fn and_stops_at_the_first_denial(at: Place, items: Vec<JudgmentExpr>, k: int)
    requires
        0 <= k < items@.len(),
        forall|i: int|
            0 <= i < k ==> at.goes_on(#[trigger] items@[i], JudgmentOutcome::NotHolds),
    ensures
        at.finds(items@[k], JudgmentOutcome::NotHolds) ==> at.finds(
            JudgmentExpr::And(items),
            JudgmentOutcome::NotHolds,
        ),
        forall|error: ErrorView| #[trigger]
            at.rejects(items@[k], error) ==> at.rejects(JudgmentExpr::And(items), error),
{
    judgment_run_is_step(at.cx, at.fuel, JudgmentExpr::And(items), at.ent, at.context);
    connective_stops(at, items@, 0, k, JudgmentOutcome::NotHolds, false);
}

/// `or` goes from left to right and stops at the first item that holds: what stands behind it has
/// no effect, an error among it included; and the error of an item before it is the error of the
/// whole.
pub proof fn or_stops_at_the_first_item_that_holds(at: Place, items: Vec<JudgmentExpr>, k: int)
    requires
        0 <= k < items@.len(),
        forall|i: int|
            0 <= i < k ==> at.goes_on(#[trigger] items@[i], JudgmentOutcome::Holds),
    ensures
        at.holds(items@[k]) ==> at.holds(JudgmentExpr::Or(items)),
        forall|error: ErrorView| #[trigger]
            at.rejects(items@[k], error) ==> at.rejects(JudgmentExpr::Or(items), error),
{
    judgment_run_is_step(at.cx, at.fuel, JudgmentExpr::Or(items), at.ent, at.context);
    connective_stops(at, items@, 0, k, JudgmentOutcome::Holds, false);
}

} // verus!
