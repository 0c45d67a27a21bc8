//! Laws of the related rows that a compiled aggregation keeps: those that pass every filter of its
//! relation and its own test, and the failure that a row has of them.
use crate::dense::{
    filter_error, filter_failure, is_member, kept_count, kept_failure, kept_test, member_error,
    member_failure, related_cell, related_outcome, relation_of, root_cell, root_outcome,
    CompiledScalarExpr, DenseFacts,
};
use crate::error::ErrorView;
use crate::model::JudgmentOutcome;
use vstd::prelude::*;

verus! {

/// Whether a related row is one of the relation that another is derived from.
pub open spec fn is_offered(cx: DenseFacts, rel: nat, k: int) -> bool {
    cx.program.relations@[rel as int].parent_relation matches Some(parent) ==> parent < rel
        && is_member(cx, parent as nat, k)
}

/// What the filter of a relation says of a related row.
pub open spec fn filtered(cx: DenseFacts, rel: nat, k: int) -> Result<JudgmentOutcome, ErrorView> {
    match cx.program.relations@[rel as int].filter {
        Some(filter) => related_outcome(cx, 0, 0, rel, filter, k),
        None => Ok(JudgmentOutcome::Holds),
    }
}

/// A related row belongs to a relation exactly where it belongs to the one that it is derived from
/// and its filter holds; where the filter fails, it counts only of a row that is so offered.
pub proof fn members_are_offered_and_pass_the_filter(cx: DenseFacts, rel: nat, k: int)
    ensures
        is_member(cx, rel, k) <==> is_offered(cx, rel, k) && filtered(cx, rel, k) == Ok::<
            JudgmentOutcome,
            ErrorView,
        >(JudgmentOutcome::Holds),
        match filter_error(cx, rel, k) {
            Some(error) => is_offered(cx, rel, k) && filtered(cx, rel, k) == Err::<
                JudgmentOutcome,
                ErrorView,
            >(error),
            None => is_offered(cx, rel, k) ==> filtered(cx, rel, k) is Ok,
        },
{
    reveal(related_outcome);
    reveal(related_cell);
    reveal(root_cell);
    reveal(root_outcome);
}

/// The failure of a filter on a run of related rows is that of the first of them that has one.
pub proof fn a_filter_fails_for_its_first_failing_row(
    cx: DenseFacts,
    rel: nat,
    lo: int,
    hi: int,
)
    ensures
        match filter_failure(cx, rel, lo, hi) {
            Some(error) => exists|k: int|
                lo <= k < hi && #[trigger] filter_error(cx, rel, k) == Some(error) && forall|j: int|
                    lo <= j < k ==> #[trigger] filter_error(cx, rel, j) is None,
            None => forall|k: int| lo <= k < hi ==> #[trigger] filter_error(cx, rel, k) is None,
        },
    decreases hi - lo,
{
    reveal(related_outcome);
    reveal(related_cell);
    reveal(root_cell);
    reveal(root_outcome);
    if lo < hi {
        a_filter_fails_for_its_first_failing_row(cx, rel, lo, hi - 1);
        assert(filter_error(cx, rel, hi - 1) == filter_error(cx, rel, hi - 1));
    }
}

/// A row fails for the relation that its relation is derived from before it fails for its own.
pub proof fn a_row_fails_for_the_source_first(cx: DenseFacts, rel: nat, row: int)
    ensures
        ({
            let own = filter_failure(cx, rel, cx.first_of(rel, row), cx.end_of(rel, row));
            let source = match cx.program.relations@[rel as int].parent_relation {
                Some(parent) => if parent < rel {
                    member_failure(cx, parent as nat, row)
                } else {
                    None
                },
                None => None,
            };
            &&& source is Some ==> member_failure(cx, rel, row) == source
            &&& source is None ==> member_failure(cx, rel, row) == own
        }),
{
    reveal(related_outcome);
    reveal(related_cell);
    reveal(root_cell);
    reveal(root_outcome);
}

/// The related rows that an aggregation counts add up over runs of rows; one row counts where it
/// belongs to the relation and passes the test.
pub proof fn counts_of_runs_add_up(
    cx: DenseFacts,
    bound: nat,
    level: nat,
    e: CompiledScalarExpr,
    lo: int,
    mid: int,
    hi: int,
)
    requires
        level >= 2,
        lo <= mid <= hi,
    ensures
        kept_count(cx, bound, level, e, lo, hi) == kept_count(cx, bound, level, e, lo, mid)
            + kept_count(cx, bound, level, e, mid, hi),
        kept_count(cx, bound, level, e, lo, lo + 1) == if is_member(cx, relation_of(e), lo)
            && kept_test(cx, bound, level, e, lo) == Ok::<bool, ErrorView>(true) {
            1nat
        } else {
            0nat
        },
    decreases hi - mid,
{
    reveal(related_outcome);
    reveal(related_cell);
    reveal(root_cell);
    reveal(root_outcome);
    reveal_with_fuel(kept_count, 2);
    if mid < hi {
        counts_of_runs_add_up(cx, bound, level, e, lo, mid, hi - 1);
    }
}

/// An aggregation fails on a run of related rows for the first that belongs to the relation and
/// fails.
pub proof fn an_aggregation_fails_for_its_first_failing_member(
    cx: DenseFacts,
    bound: nat,
    level: nat,
    e: CompiledScalarExpr,
    lo: int,
    hi: int,
)
    requires
        level >= 2,
    ensures
        match kept_failure(cx, bound, level, e, lo, hi) {
            Some(error) => exists|k: int|
                lo <= k < hi && is_member(cx, relation_of(e), k) && #[trigger] member_error(
                    cx,
                    bound,
                    level,
                    e,
                    k,
                ) == Some(error) && forall|j: int|
                    lo <= j < k && is_member(cx, relation_of(e), j) ==> #[trigger] member_error(
                        cx,
                        bound,
                        level,
                        e,
                        j,
                    ) is None,
            None => forall|k: int|
                lo <= k < hi && is_member(cx, relation_of(e), k) ==> #[trigger] member_error(
                    cx,
                    bound,
                    level,
                    e,
                    k,
                ) is None,
        },
    decreases hi - lo,
{
    reveal(related_outcome);
    reveal(related_cell);
    reveal(root_cell);
    reveal(root_outcome);
    if lo < hi {
        an_aggregation_fails_for_its_first_failing_member(cx, bound, level, e, lo, hi - 1);
        assert(member_error(cx, bound, level, e, hi - 1) == member_error(
            cx,
            bound,
            level,
            e,
            hi - 1,
        ));
    }
}

} // verus!
