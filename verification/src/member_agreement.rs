//! The members of a relation of a row are the entities that the interpreter finds for its entity.
use crate::compiler::{relation_based, relation_filtered};
use crate::dense::{
    filter_error, filter_failure, is_member, member_failure, related_outcome,
    CompiledRelatedJudgmentExpr,
};
use crate::dense_agreement::{
    is_unstated, members_stated, owner_is, paired, relation_is_own, shares_rows, slots_fit, Pairing,
};
use crate::error::ErrorView;
use crate::model::{RelationDerivation, ScalarExpr};
use crate::related_agreement::related_judgment_matches;
use crate::semantics::{
    count_run, derivation_context, judgment_run, members_run, related_run, stated_related,
    total_run, Facts,
};
use crate::text::{ascending, sorted_texts_meaning, sorted_texts_stay, text_lt};
use vstd::prelude::*;

verus! {

/// The entities of the members of a relation among its related rows from `lo` to `hi`.
pub open spec fn member_ids(s: Pairing, rel: nat, lo: int, hi: int) -> Seq<Seq<char>>
    decreases hi - lo,
{
    if lo >= hi {
        Seq::empty()
    } else if is_member(s.dx, rel, hi - 1) {
        member_ids(s, rel, lo, hi - 1).push(s.members[rel as int][hi - 1])
    } else {
        member_ids(s, rel, lo, hi - 1)
    }
}

/// Whether a related row is a member of the relation that a relation filters.
pub open spec fn is_candidate(s: Pairing, rel: nat, k: int) -> bool {
    match s.dx.program.relations@[rel as int].parent_relation {
        Some(parent) => parent < rel && is_member(s.dx, parent as nat, k),
        None => true,
    }
}

/// The entities of the related rows from `lo` to `hi` that a relation's own filter tests.
pub open spec fn candidate_ids(s: Pairing, rel: nat, lo: int, hi: int) -> Seq<Seq<char>>
    decreases hi - lo,
{
    if lo >= hi {
        Seq::empty()
    } else if is_candidate(s, rel, hi - 1) {
        candidate_ids(s, rel, lo, hi - 1).push(s.members[rel as int][hi - 1])
    } else {
        candidate_ids(s, rel, lo, hi - 1)
    }
}

/// The members of a relation without a parent are tested among all its related rows.
proof fn all_candidates(s: Pairing, rel: nat, lo: int, hi: int)
    requires
        s.dx.program.relations@[rel as int].parent_relation is None,
        0 <= lo <= hi <= s.members[rel as int].len(),
    ensures
        candidate_ids(s, rel, lo, hi) == s.members[rel as int].subrange(lo, hi),
    decreases hi - lo,
{
    let rows = s.members[rel as int];
    if lo < hi {
        all_candidates(s, rel, lo, hi - 1);
        assert(rows.subrange(lo, hi) =~= rows.subrange(lo, hi - 1).push(rows[hi - 1]));
    } else {
        assert(rows.subrange(lo, hi) =~= Seq::empty());
    }
}

proof fn parent_candidates(s: Pairing, rel: nat, parent: nat, lo: int, hi: int)
    requires
        s.dx.program.relations@[rel as int].parent_relation matches Some(p)
            && p == parent
            && p < rel,
        s.members[parent as int] == s.members[rel as int],
    ensures
        candidate_ids(s, rel, lo, hi) == member_ids(s, parent, lo, hi),
    decreases hi - lo,
{
    if lo < hi {
        parent_candidates(s, rel, parent, lo, hi - 1);
    }
}

/// A candidate is one of the candidates.
proof fn candidate_found(s: Pairing, rel: nat, lo: int, k: int, end: int)
    requires
        lo <= k < end,
    ensures
        is_candidate(s, rel, k) ==> candidate_ids(s, rel, lo, end).contains(
            s.members[rel as int][k],
        ),
    decreases end - k,
{
    let ids = candidate_ids(s, rel, lo, end);
    if k < end - 1 {
        candidate_found(s, rel, lo, k, end - 1);
        let before = candidate_ids(s, rel, lo, end - 1);
        if is_candidate(s, rel, k) {
            let i = before.index_of(s.members[rel as int][k]);
            assert(ids[i] == before[i]);
        }
    } else if is_candidate(s, rel, k) {
        assert(ids[ids.len() - 1] == s.members[rel as int][k]);
    }
}

/// Where nothing is filtered every candidate is a member.
proof fn unfiltered_members(s: Pairing, rel: nat, lo: int, hi: int)
    requires
        s.dx.program.relations@[rel as int].filter is None,
    ensures
        member_ids(s, rel, lo, hi) == candidate_ids(s, rel, lo, hi),
        filter_failure(s.dx, rel, lo, hi) is None,
    decreases hi - lo,
{
    if lo < hi {
        unfiltered_members(s, rel, lo, hi - 1);
        assert(filter_error(s.dx, rel, hi - 1) is None);
    }
}

/// Members come in the order of their rows.
proof fn member_ids_ascend(s: Pairing, rel: nat, lo: int, mid: int, hi: int)
    requires
        0 <= lo <= mid <= hi <= s.members[rel as int].len(),
        ascending(s.members[rel as int].subrange(lo, hi)),
    ensures
        ascending(member_ids(s, rel, lo, mid)),
        forall|i: int, j: int|
            0 <= i < member_ids(s, rel, lo, mid).len() && mid <= j < hi ==> text_lt(
                #[trigger] member_ids(s, rel, lo, mid)[i],
                #[trigger] s.members[rel as int][j],
            ),
    decreases mid - lo,
{
    let rows = s.members[rel as int];
    if lo < mid {
        member_ids_ascend(s, rel, lo, mid - 1, hi);
        let before = member_ids(s, rel, lo, mid - 1);
        let ids = member_ids(s, rel, lo, mid);
        assert forall|i: int, j: int| 0 <= i < ids.len() && mid <= j < hi implies text_lt(
            #[trigger] ids[i],
            #[trigger] rows[j],
        ) by {
            if i < before.len() {
                assert(ids[i] == before[i]);
            } else {
                let part = rows.subrange(lo, hi);
                assert(part[mid - 1 - lo] == rows[mid - 1]);
                assert(part[j - lo] == rows[j]);
                assert(text_lt(part[mid - 1 - lo], part[j - lo]));
            }
        }
        assert forall|i: int, j: int| 0 <= i < j < ids.len() implies text_lt(
            #[trigger] ids[i],
            #[trigger] ids[j],
        ) by {
            assert(ids[i] == before[i]);
            if j < before.len() {
                assert(ids[j] == before[j]);
            } else {
                assert(ids[j] == rows[mid - 1]);
            }
        }
    }
}

proof fn members_run_prefix(
    cx: Facts,
    f: nat,
    d: RelationDerivation,
    ent: Seq<char>,
    a: Seq<Seq<char>>,
    b: Seq<Seq<char>>,
    n: nat,
)
    requires
        n <= a.len(),
        n <= b.len(),
        forall|i: int| 0 <= i < n ==> #[trigger] a[i] == b[i],
    ensures
        members_run(cx, f, d, ent, a, n) == members_run(cx, f, d, ent, b, n),
    decreases n,
{
    if n > 0 {
        members_run_prefix(cx, f, d, ent, a, b, (n - 1) as nat);
        assert(a[n - 1] == b[n - 1]);
    }
}

/// Counting the first related entities reads no others.
pub(crate) proof fn count_run_prefix(
    cx: Facts,
    f: nat,
    e: ScalarExpr,
    a: Seq<Seq<char>>,
    b: Seq<Seq<char>>,
    n: nat,
)
    requires
        n <= a.len(),
        n <= b.len(),
        forall|i: int| 0 <= i < n ==> #[trigger] a[i] == b[i],
    ensures
        count_run(cx, f, e, a, n) == count_run(cx, f, e, b, n),
    decreases n,
{
    if n > 0 {
        count_run_prefix(cx, f, e, a, b, (n - 1) as nat);
        assert(a[n - 1] == b[n - 1]);
    }
}

/// Summing over the first related entities reads no others.
pub(crate) proof fn total_run_prefix(
    cx: Facts,
    f: nat,
    e: ScalarExpr,
    a: Seq<Seq<char>>,
    b: Seq<Seq<char>>,
    n: nat,
)
    requires
        n <= a.len(),
        n <= b.len(),
        forall|i: int| 0 <= i < n ==> #[trigger] a[i] == b[i],
    ensures
        total_run(cx, f, e, a, n) == total_run(cx, f, e, b, n),
    decreases n,
{
    if n > 0 {
        total_run_prefix(cx, f, e, a, b, (n - 1) as nat);
        assert(a[n - 1] == b[n - 1]);
    }
}

/// No record states members of a derived relation.
proof fn nothing_is_stated(
    s: Pairing,
    relation: Seq<char>,
    current_slot: nat,
    related_slot: nat,
    ent: Seq<char>,
    n: nat,
)
    requires
        paired(s),
        is_unstated(s.cx, relation),
        n <= s.cx.data.relations.len(),
    ensures
        stated_related(s.cx, relation, current_slot, related_slot, ent, n) == Seq::<
            Seq<char>,
        >::empty(),
    decreases n,
{
    if n > 0 {
        nothing_is_stated(s, relation, current_slot, related_slot, ent, (n - 1) as nat);
        assert(s.cx.data.relations[n - 1].name@ != relation);
    }
}

/// A filter keeps the related rows whose entities the derivation's predicate keeps, and fails
/// where that fails.
proof fn filtered_matches(
    s: Pairing,
    f: nat,
    rel: nat,
    d: RelationDerivation,
    filter: CompiledRelatedJudgmentExpr,
    row: int,
    lo: int,
    hi: int,
    end: int,
)
    requires
        paired(s),
        rel < s.tables.relations.len(),
        0 <= lo <= hi <= s.members[rel as int].len(),
        s.kx.derivation(s.tables.lookups[rel as int].name) == Some(d),
        s.dx.program.relations@[rel as int].filter == Some(filter),
        hi <= end <= s.members[rel as int].len(),
        0 <= row < s.ids.len(),
        lo == s.dx.first_of(rel, row),
        end == s.dx.end_of(rel, row),
        f > 0 && (related_run(
            s.cx,
            (f - 1) as nat,
            d.source_relation@,
            d.current_slot as nat,
            d.related_slot as nat,
            s.ids[row],
        ) matches Some(run) && run.value == Ok::<Seq<Seq<char>>, ErrorView>(
            candidate_ids(s, rel, lo, end),
        )),
    ensures
        ({
            let ids = candidate_ids(s, rel, lo, hi);
            members_run(
                s.cx,
                f,
                d,
                s.ids[row],
                ids,
                ids.len(),
            ) matches Some(run) ==> match run.value {
                Ok(kept) => filter_failure(s.dx, rel, lo, hi) is None && kept == member_ids(
                    s,
                    rel,
                    lo,
                    hi,
                ),
                Err(_) => filter_failure(s.dx, rel, lo, hi) is Some,
            }
        }),
    decreases hi - lo,
{
    if lo < hi {
        let k = hi - 1;
        filtered_matches(s, f, rel, d, filter, row, lo, k, end);
        candidate_found(s, rel, lo, k, end);
        let before = candidate_ids(s, rel, lo, k);
        let ids = candidate_ids(s, rel, lo, hi);
        members_run_prefix(s.cx, f, d, s.ids[row], before, ids, before.len());
        if is_candidate(s, rel, k) {
            let id = s.members[rel as int][k];
            assert(relation_filtered(s.kx, s.tables, rel as int));
            relation_is_own(s, rel);
            owner_is(s.dx, rel, row, k);
            related_judgment_matches(
                Pairing {
                    level: 0,
                    context: Some(derivation_context(d, s.ids[row], id)),
                    source: Some(d),
                    ..s
                },
                f,
                0,
                rel,
                Seq::empty(),
                s.kx.rules(),
                s.kx.rules(),
                filter,
                d.predicate,
                k,
            );
            assert(ids.len() - 1 == before.len());
            assert(ids[ids.len() - 1] == id);
            let test = judgment_run(
                s.cx,
                f,
                d.predicate,
                id,
                Some(derivation_context(d, s.ids[row], id)),
            );
            if test is Some {
                let outcome = related_outcome(s.dx, 0, 0, rel, filter, k);
                assert(filter_error(s.dx, rel, k) is Some <==> outcome is Err);
                assert(is_member(s.dx, rel, k) <==> (outcome matches Ok(o) && o is Holds));
            }
        } else {
            assert(filter_error(s.dx, rel, k) is None);
            assert(!is_member(s.dx, rel, k));
        }
    }
}

/// The members of a relation of a row are those that the interpreter finds, in its order, and
/// finding them fails where the interpreter fails.
pub(crate) proof fn members_match(s: Pairing, f: nat, rel: nat, row: int)
    requires
        paired(s),
        rel < s.tables.relations.len(),
        0 <= row < s.ids.len(),
        slots_fit(
            s.kx,
            s.tables.lookups[rel as int].name,
            s.tables.lookups[rel as int].current_slot,
            s.tables.lookups[rel as int].related_slot,
        ),
    ensures
        ({
            let key = s.tables.lookups[rel as int];
            let (lo, hi) = (s.dx.first_of(rel, row), s.dx.end_of(rel, row));
            &&& 0 <= lo <= hi <= s.members[rel as int].len()
            &&& related_run(
                s.cx,
                f,
                key.name,
                key.current_slot,
                key.related_slot,
                s.ids[row],
            ) matches Some(run) ==> match run.value {
                Ok(ids) => member_failure(s.dx, rel, row) is None && ids == member_ids(
                    s,
                    rel,
                    lo,
                    hi,
                ),
                Err(_) => member_failure(s.dx, rel, row) is Some,
            }
        }),
    decreases rel,
{
    let key = s.tables.lookups[rel as int];
    let (lo, hi) = (s.dx.first_of(rel, row), s.dx.end_of(rel, row));
    let rows = s.members[rel as int];
    let ent = s.ids[row];
    let schema = s.dx.program.relations@[rel as int];
    assert(members_stated(s.dx, s.cx, s.ids, s.members, rel as int, row));
    assert(relation_filtered(s.kx, s.tables, rel as int));
    assert(relation_based(s.kx, s.tables, rel as int));
    assert(shares_rows(s.dx, s.members, rel as int));
    assert(ascending(rows.subrange(lo, hi))) by {
        let below = schema.key@;
        sorted_texts_meaning(
            stated_related(
                s.cx,
                below.name,
                below.current_slot,
                below.related_slot,
                ent,
                s.cx.data.relations.len(),
            ),
        );
    }
    match s.kx.derivation(key.name) {
        None => {
            all_candidates(s, rel, lo, hi);
            unfiltered_members(s, rel, lo, hi);
        },
        Some(d) => {
            let filter = schema.filter->Some_0;
            relation_is_own(s, rel);
            nothing_is_stated(
                s,
                key.name,
                key.current_slot,
                key.related_slot,
                ent,
                s.cx.data.relations.len(),
            );
            member_ids_ascend(s, rel, lo, hi, hi);
            sorted_texts_stay(member_ids(s, rel, lo, hi));
            match schema.parent_relation {
                Some(parent) => {
                    parent_candidates(s, rel, parent as nat, lo, hi);
                    if f > 0 {
                        members_match(s, (f - 1) as nat, parent as nat, row);
                    }
                },
                None => {
                    all_candidates(s, rel, lo, hi);
                },
            }
            if f > 0 {
                if let Some(run) = related_run(
                    s.cx,
                    (f - 1) as nat,
                    d.source_relation@,
                    d.current_slot as nat,
                    d.related_slot as nat,
                    ent,
                ) {
                    if run.value is Ok {
                        filtered_matches(s, f, rel, d, filter, row, lo, hi, hi);
                    }
                }
            }
            let kept = member_ids(s, rel, lo, hi);
            assert(Seq::<Seq<char>>::empty() + kept =~= kept);
        },
    }
}

} // verus!
