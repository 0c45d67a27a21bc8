//! Laws of lifetime requests to compiled programs: which are evaluated, on what, and which failure
//! is reported of those that fail.
use crate::batch::{
    bound_batch, request_failure, requested_failure, requested_rule, DenseBatchSpec, RuleValue,
};
use crate::dense::{BatchView, CompiledJudgmentExpr, CompiledScalarExpr, DenseCompiledProgram};
use crate::error::ErrorView;
use crate::model::Period;
use crate::reductions::{
    any_judgment_reduces, any_reduces, bound_batches, judgment_reduces, lifetime_request,
    lifetime_request_error, periods_fault, rule_reduces, scalar_reduces, unordered_at,
};
use vstd::prelude::*;

verus! {

proof fn first_unordered(periods: Seq<Period>, n: nat)
    requires
        n < periods.len(),
    ensures
        unordered_at(periods, n) is None <==> forall|i: int|
            0 <= i < n ==> (#[trigger] periods[i]).start.number() < periods[i + 1].start.number(),
    decreases n,
{
    if n > 0 {
        first_unordered(periods, (n - 1) as nat);
    }
}

proof fn starts_rise(periods: Seq<Period>, i: int, j: int)
    requires
        0 <= i < j < periods.len(),
        forall|k: int|
            0 <= k < periods.len() - 1 ==> (#[trigger] periods[k]).start.number() < periods[k
                + 1].start.number(),
    ensures
        periods[i].start.number() < periods[j].start.number(),
    decreases j - i,
{
    assert(periods[j - 1].start.number() < periods[j - 1 + 1].start.number());
    if i < j - 1 {
        starts_rise(periods, i, j - 1);
    }
}

/// The periods of a lifetime are admitted exactly where there is one, there are as many batches as
/// periods, and each period starts after all the ones before it.
pub proof fn periods_of_a_lifetime_ascend(periods: Seq<Period>, batches: nat)
    ensures
        periods_fault(periods, batches) is None <==> {
            &&& periods.len() > 0
            &&& periods.len() == batches
            &&& forall|i: int, j: int|
                0 <= i < j < periods.len() ==> (#[trigger] periods[i]).start.number() < (
                #[trigger] periods[j]).start.number()
        },
        periods.len() == 0 ==> periods_fault(periods, batches) == Some(
            ErrorView::LifetimeNoPeriods,
        ),
        periods.len() > 0 && periods.len() != batches ==> (periods_fault(periods, batches) matches Some(
            error,
        ) && error is LifetimePeriodBatchMismatch),
{
    if periods.len() > 0 && periods.len() == batches {
        let n = (periods.len() - 1) as nat;
        first_unordered(periods, n);
        if unordered_at(periods, n) is None {
            assert forall|i: int, j: int| 0 <= i < j < periods.len() implies (
            #[trigger] periods[i]).start.number() < (#[trigger] periods[j]).start.number() by {
                starts_rise(periods, i, j);
            }
        }
    }
}

proof fn batches_bound(p: DenseCompiledProgram, batches: Seq<DenseBatchSpec>, n: nat)
    requires
        n <= batches.len(),
    ensures
        bound_batches(p, batches, n) matches Ok(list) ==> {
            &&& list.len() == n
            &&& forall|i: int|
                0 <= i < n ==> bound_batch(p, #[trigger] batches[i]) == Ok::<BatchView, ErrorView>(
                    list[i],
                ) && batches[i].row_count == batches[0].row_count
        },
        (forall|i: int|
            0 <= i < n ==> bound_batch(p, #[trigger] batches[i]) is Ok && batches[i].row_count
                == batches[0].row_count) ==> bound_batches(p, batches, n) is Ok,
    decreases n,
{
    if n > 0 {
        batches_bound(p, batches, (n - 1) as nat);
    }
}

proof fn outputs_reduce(p: DenseCompiledProgram, outputs: Seq<String>, n: nat)
    requires
        n <= outputs.len(),
    ensures
        lifetime_request_error(p, outputs, n) is None <==> forall|j: int|
            0 <= j < n ==> (requested_rule(p, (#[trigger] outputs[j])@) matches Some(i)
                && rule_reduces(p, i)),
    decreases n,
{
    if n > 0 {
        outputs_reduce(p, outputs, (n - 1) as nat);
    }
}

/// A lifetime request is evaluated exactly where its periods are admitted, every batch is bound and
/// has as many rows as the first, and every output is a rule that holds a reduction over periods. It
/// is evaluated on the periods in their order, each with the dates of the period and the rows of its
/// batch.
pub proof fn a_lifetime_is_evaluated_on_its_periods(
    p: DenseCompiledProgram,
    periods: Seq<Period>,
    batches: Seq<DenseBatchSpec>,
    outputs: Seq<String>,
)
    ensures
        ({
            let facts = lifetime_request(p, periods, batches, outputs);
            &&& facts is Ok <==> {
                &&& periods_fault(periods, batches.len()) is None
                &&& forall|i: int|
                    0 <= i < batches.len() ==> bound_batch(p, #[trigger] batches[i]) is Ok
                        && batches[i].row_count == batches[0].row_count
                &&& forall|j: int|
                    0 <= j < outputs.len() ==> (requested_rule(
                        p,
                        (#[trigger] outputs[j])@,
                    ) matches Some(i) && rule_reduces(p, i))
            }
            &&& facts matches Ok(lx) ==> {
                &&& lx.program == p
                &&& lx.row_count == batches[0].row_count
                &&& lx.periods.len() == periods.len()
                &&& forall|i: int|
                    0 <= i < periods.len() ==> {
                        let dx = #[trigger] lx.periods[i];
                        &&& dx.program == p
                        &&& dx.start == periods[i].start
                        &&& dx.end == periods[i].end
                        &&& bound_batch(p, batches[i]) == Ok::<BatchView, ErrorView>(dx.batch)
                    }
            }
        }),
{
    batches_bound(p, batches, batches.len());
    outputs_reduce(p, outputs, outputs.len());
    let facts = lifetime_request(p, periods, batches, outputs);
    if let Ok(lx) = facts {
        let bound = bound_batches(p, batches, batches.len())->Ok_0;
        assert forall|i: int| 0 <= i < periods.len() implies {
            let dx = #[trigger] lx.periods[i];
            &&& dx.program == p
            &&& dx.start == periods[i].start
            &&& dx.end == periods[i].end
            &&& bound_batch(p, batches[i]) == Ok::<BatchView, ErrorView>(dx.batch)
        } by {
            assert(bound_batch(p, batches[i]) == Ok::<BatchView, ErrorView>(bound[i]));
        }
    } else if periods_fault(periods, batches.len()) is None && bound_batches(
        p,
        batches,
        batches.len(),
    ) is Err {
        assert(!(forall|i: int|
            0 <= i < batches.len() ==> bound_batch(p, #[trigger] batches[i]) is Ok
                && batches[i].row_count == batches[0].row_count));
    }
}

/// A part of a compiled formula.
pub ghost enum CompiledPart {
    Scalar(CompiledScalarExpr),
    Judgment(CompiledJudgmentExpr),
}

/// The compiled formulas that a compiled formula is made of on its own row.
pub open spec fn compiled_parts(q: CompiledPart) -> Seq<CompiledPart> {
    match q {
        CompiledPart::Scalar(e) => match e {
            CompiledScalarExpr::ParameterLookup { index, .. } => seq![CompiledPart::Scalar(*index)],
            CompiledScalarExpr::Add(items) => scalars(items@),
            CompiledScalarExpr::Max(items) => scalars(items@),
            CompiledScalarExpr::Min(items) => scalars(items@),
            CompiledScalarExpr::Sub(a, b) => two(*a, *b),
            CompiledScalarExpr::Mul(a, b) => two(*a, *b),
            CompiledScalarExpr::Div(a, b) => two(*a, *b),
            CompiledScalarExpr::Ceil(a) => seq![CompiledPart::Scalar(*a)],
            CompiledScalarExpr::Floor(a) => seq![CompiledPart::Scalar(*a)],
            CompiledScalarExpr::DateShift { date, count, .. } => two(*date, *count),
            CompiledScalarExpr::DaysBetween { from, to } => two(*from, *to),
            CompiledScalarExpr::If { condition, then_expr, else_expr } => seq![
                CompiledPart::Judgment(*condition),
                CompiledPart::Scalar(*then_expr),
                CompiledPart::Scalar(*else_expr),
            ],
            CompiledScalarExpr::NoMatch { subject, placeholder, .. } => two(*subject, *placeholder),
            _ => Seq::empty(),
        },
        CompiledPart::Judgment(e) => match e {
            CompiledJudgmentExpr::Comparison { left, right, .. } => two(left, right),
            CompiledJudgmentExpr::And(items) => judgments(items@),
            CompiledJudgmentExpr::Or(items) => judgments(items@),
            CompiledJudgmentExpr::Not(item) => seq![CompiledPart::Judgment(*item)],
            _ => Seq::empty(),
        },
    }
}

pub open spec fn two(a: CompiledScalarExpr, b: CompiledScalarExpr) -> Seq<CompiledPart> {
    seq![CompiledPart::Scalar(a), CompiledPart::Scalar(b)]
}

pub open spec fn scalars(items: Seq<CompiledScalarExpr>) -> Seq<CompiledPart> {
    Seq::new(items.len(), |i: int| CompiledPart::Scalar(items[i]))
}

pub open spec fn judgments(items: Seq<CompiledJudgmentExpr>) -> Seq<CompiledPart> {
    Seq::new(items.len(), |i: int| CompiledPart::Judgment(items[i]))
}

/// Whether a compiled formula holds a reduction over periods, itself or through the rules before
/// `bound` that it names.
pub open spec fn reduces(p: DenseCompiledProgram, bound: nat, q: CompiledPart) -> bool {
    match q {
        CompiledPart::Scalar(e) => scalar_reduces(p, bound, e),
        CompiledPart::Judgment(e) => judgment_reduces(p, bound, e),
    }
}

/// Whether a compiled formula is a reduction, or names a rule that holds one.
pub open spec fn reduces_itself(p: DenseCompiledProgram, bound: nat, q: CompiledPart) -> bool {
    match q {
        CompiledPart::Scalar(CompiledScalarExpr::OverPeriods { .. }) => true,
        CompiledPart::Scalar(CompiledScalarExpr::Derived(i)) => i < bound && rule_reduces(
            p,
            i as nat,
        ),
        CompiledPart::Judgment(CompiledJudgmentExpr::Derived(i)) => i < bound && rule_reduces(
            p,
            i as nat,
        ),
        _ => false,
    }
}

proof fn some_reduces(
    p: DenseCompiledProgram,
    bound: nat,
    items: Seq<CompiledScalarExpr>,
    n: nat,
)
    requires
        n <= items.len(),
    ensures
        any_reduces(p, bound, items, n) <==> exists|i: int|
            0 <= i < n && reduces(p, bound, #[trigger] scalars(items)[i]),
    decreases n,
{
    if n > 0 {
        some_reduces(p, bound, items, (n - 1) as nat);
        assert(scalars(items)[n - 1] == CompiledPart::Scalar(items[n - 1]));
    }
}

proof fn some_judgment_reduces(
    p: DenseCompiledProgram,
    bound: nat,
    items: Seq<CompiledJudgmentExpr>,
    n: nat,
)
    requires
        n <= items.len(),
    ensures
        any_judgment_reduces(p, bound, items, n) <==> exists|i: int|
            0 <= i < n && reduces(p, bound, #[trigger] judgments(items)[i]),
    decreases n,
{
    if n > 0 {
        some_judgment_reduces(p, bound, items, (n - 1) as nat);
        assert(judgments(items)[n - 1] == CompiledPart::Judgment(items[n - 1]));
    }
}

/// A compiled formula holds a reduction exactly where it is one, names a rule that holds one, or has
/// a part that holds one.
pub proof fn a_formula_reduces_where_a_part_does(
    p: DenseCompiledProgram,
    bound: nat,
    q: CompiledPart,
)
    ensures
        reduces(p, bound, q) <==> reduces_itself(p, bound, q) || exists|i: int|
            0 <= i < compiled_parts(q).len() && reduces(p, bound, #[trigger] compiled_parts(q)[i]),
{
    let list = compiled_parts(q);
    let any = exists|i: int| 0 <= i < list.len() && reduces(p, bound, #[trigger] list[i]);
    if list.len() == 1 {
        assert(any <==> reduces(p, bound, list[0]));
    } else if list.len() == 2 {
        assert(any <==> reduces(p, bound, list[0]) || reduces(p, bound, list[1]));
    } else if list.len() == 3 {
        assert(any <==> reduces(p, bound, list[0]) || reduces(p, bound, list[1]) || reduces(
            p,
            bound,
            list[2],
        ));
    }
    match q {
        CompiledPart::Scalar(e) => match e {
            CompiledScalarExpr::Add(items)
            | CompiledScalarExpr::Max(items)
            | CompiledScalarExpr::Min(items) => {
                some_reduces(p, bound, items@, items@.len());
            },
            _ => {},
        },
        CompiledPart::Judgment(e) => match e {
            CompiledJudgmentExpr::And(items) | CompiledJudgmentExpr::Or(items) => {
                some_judgment_reduces(p, bound, items@, items@.len());
            },
            _ => {},
        },
    }
}

proof fn first_failing_rule(f: spec_fn(int, int) -> RuleValue, n: nat, row: int)
    ensures
        match requested_failure(f, n, row) {
            Some(error) => exists|j: int|
                {
                    &&& 0 <= j < n
                    &&& (#[trigger] f(j, row)).failure() == Some(error)
                    &&& forall|k: int| 0 <= k < j ==> (#[trigger] f(k, row)).failure() is None
                },
            None => forall|j: int| 0 <= j < n ==> (#[trigger] f(j, row)).failure() is None,
        },
    decreases n,
{
    if n > 0 {
        first_failing_rule(f, (n - 1) as nat, row);
        if requested_failure(f, (n - 1) as nat, row) is None {
            if let Some(error) = f(n - 1, row).failure() {
                assert(f(n - 1, row).failure() == Some(error));
            }
        }
    }
}

/// Whether a requested rule fails for a row, with no requested rule failing for a lower row and none
/// before it for this one.
pub open spec fn fails_first(
    f: spec_fn(int, int) -> RuleValue,
    n: nat,
    j: int,
    row: int,
) -> bool {
    &&& 0 <= j < n
    &&& 0 <= row
    &&& f(j, row).failure() is Some
    &&& forall|k: int| 0 <= k < j ==> (#[trigger] f(k, row)).failure() is None
    &&& forall|k: int, r: int|
        0 <= k < n && 0 <= r < row ==> (#[trigger] f(k, r)).failure() is None
}

/// Of several failures the one of the lowest row is reported, and for that row the one of the rule
/// that is requested first; there is a failure exactly where a requested rule fails for a row.
pub proof fn the_failure_of_the_lowest_row_is_reported(
    f: spec_fn(int, int) -> RuleValue,
    n: nat,
    rows: nat,
)
    ensures
        match request_failure(f, n, rows) {
            Some(error) => exists|j: int, row: int| #[trigger]
                fails_first(f, n, j, row) && row < rows && f(j, row).failure() == Some(error),
            None => forall|j: int, row: int|
                0 <= j < n && 0 <= row < rows ==> (#[trigger] f(j, row)).failure() is None,
        },
    decreases rows,
{
    if rows > 0 {
        let last = rows - 1;
        the_failure_of_the_lowest_row_is_reported(f, n, last as nat);
        first_failing_rule(f, n, last);
        if request_failure(f, n, last as nat) is None {
            if let Some(error) = requested_failure(f, n, last) {
                let j = choose|j: int|
                    {
                        &&& 0 <= j < n
                        &&& (#[trigger] f(j, last)).failure() == Some(error)
                        &&& forall|k: int| 0 <= k < j ==> (#[trigger] f(k, last)).failure() is None
                    };
                assert(fails_first(f, n, j, last));
            }
        } else {
            let error = request_failure(f, n, last as nat)->0;
            let (j, row) = choose|j: int, row: int| #[trigger]
                fails_first(f, n, j, row) && row < last && f(j, row).failure() == Some(error);
            assert(fails_first(f, n, j, row) && row < rows);
        }
    }
}

} // verus!
