//! Laws of judgments that spell out "exactly one of these holds": they say what they are taken for.
use crate::exactly_one::{
    all_excluded, branch_bases, branch_fits, detected, disjunctions, excluded, excluded_pairs,
    expanded, group_members, item_fits, leaves, leaves_of, member_pairs, negated_item, negations,
    pair, place_among, same_judgment, same_judgments,
};
use crate::model::JudgmentExpr;
use vstd::prelude::*;

verus! {

/// Whether a judgment is true in a world that says which comparisons, rules and membership tests
/// are: a conjunction where all its items are, a disjunction where one is, and a negation where its
/// item is not.
pub open spec fn is_true(e: JudgmentExpr, world: spec_fn(JudgmentExpr) -> bool) -> bool
    decreases e, 1int, 0nat,
{
    match e {
        JudgmentExpr::And(items) => all_true(items@, items@.len(), world),
        JudgmentExpr::Or(items) => any_true(items@, items@.len(), world),
        JudgmentExpr::Not(item) => !is_true(*item, world),
        _ => world(e),
    }
}

pub open spec fn all_true(
    items: Seq<JudgmentExpr>,
    n: nat,
    world: spec_fn(JudgmentExpr) -> bool,
) -> bool
    decreases items, 0int, n,
{
    n == 0 || n > items.len() || (all_true(items, (n - 1) as nat, world) && is_true(
        items[n - 1],
        world,
    ))
}

pub open spec fn any_true(
    items: Seq<JudgmentExpr>,
    n: nat,
    world: spec_fn(JudgmentExpr) -> bool,
) -> bool
    decreases items, 0int, n,
{
    !(n == 0 || n > items.len()) && (any_true(items, (n - 1) as nat, world) || is_true(
        items[n - 1],
        world,
    ))
}

/// Whether a world says the same of judgments that are written alike.
pub open spec fn is_consistent(world: spec_fn(JudgmentExpr) -> bool) -> bool {
    forall|a: JudgmentExpr, b: JudgmentExpr| #[trigger] same_judgment(a, b) ==> world(a) == world(b)
}

/// Whether one of the judgments is true, and no other is.
pub open spec fn one_is_true(
    bases: Seq<JudgmentExpr>,
    world: spec_fn(JudgmentExpr) -> bool,
) -> bool {
    exists|i: int|
        0 <= i < bases.len() && is_true(#[trigger] bases[i], world) && forall|j: int|
            0 <= j < bases.len() && j != i ==> !is_true(#[trigger] bases[j], world)
}

proof fn alike(a: JudgmentExpr, b: JudgmentExpr, world: spec_fn(JudgmentExpr) -> bool)
    requires
        is_consistent(world),
        same_judgment(a, b),
    ensures
        is_true(a, world) == is_true(b, world),
    decreases a, 1int, 0nat,
{
    match (a, b) {
        (JudgmentExpr::And(x), JudgmentExpr::And(y)) => {
            alike_items(x@, y@, x@.len(), world);
        },
        (JudgmentExpr::Or(x), JudgmentExpr::Or(y)) => {
            alike_items(x@, y@, x@.len(), world);
        },
        (JudgmentExpr::Not(x), JudgmentExpr::Not(y)) => {
            alike(*x, *y, world);
        },
        _ => {
            assert(world(a) == world(b));
        },
    }
}

proof fn alike_items(
    a: Seq<JudgmentExpr>,
    b: Seq<JudgmentExpr>,
    n: nat,
    world: spec_fn(JudgmentExpr) -> bool,
)
    requires
        is_consistent(world),
        n <= a.len(),
        a.len() == b.len(),
        same_judgments(a, b, n),
    ensures
        all_true(a, n, world) == all_true(b, n, world),
        any_true(a, n, world) == any_true(b, n, world),
    decreases a, 0int, n,
{
    if n > 0 {
        alike_items(a, b, (n - 1) as nat, world);
        alike(a[n - 1], b[n - 1], world);
    }
}

/// Whether the leaves of a chain make it true: one of a disjunction, all of a conjunction.
pub open spec fn leaves_make(
    list: Seq<JudgmentExpr>,
    or: bool,
    world: spec_fn(JudgmentExpr) -> bool,
) -> bool {
    if or {
        exists|i: int| 0 <= i < list.len() && is_true(#[trigger] list[i], world)
    } else {
        forall|i: int| 0 <= i < list.len() ==> is_true(#[trigger] list[i], world)
    }
}

proof fn leaves_joined(
    a: Seq<JudgmentExpr>,
    b: Seq<JudgmentExpr>,
    or: bool,
    world: spec_fn(JudgmentExpr) -> bool,
)
    ensures
        leaves_make(a + b, or, world) == if or {
            leaves_make(a, or, world) || leaves_make(b, or, world)
        } else {
            leaves_make(a, or, world) && leaves_make(b, or, world)
        },
{
    let all = a + b;
    if or {
        if leaves_make(a, or, world) {
            let i = choose|i: int| 0 <= i < a.len() && is_true(#[trigger] a[i], world);
            assert(is_true(all[i], world));
        }
        if leaves_make(b, or, world) {
            let i = choose|i: int| 0 <= i < b.len() && is_true(#[trigger] b[i], world);
            assert(is_true(all[a.len() + i], world));
        }
        if leaves_make(all, or, world) {
            let i = choose|i: int| 0 <= i < all.len() && is_true(#[trigger] all[i], world);
            if i < a.len() {
                assert(is_true(a[i], world));
            } else {
                assert(is_true(b[i - a.len()], world));
            }
        }
    } else {
        if leaves_make(all, or, world) {
            assert forall|i: int| 0 <= i < a.len() implies is_true(#[trigger] a[i], world) by {
                assert(is_true(all[i], world));
            }
            assert forall|i: int| 0 <= i < b.len() implies is_true(#[trigger] b[i], world) by {
                assert(is_true(all[a.len() + i], world));
            }
        }
        if leaves_make(a, or, world) && leaves_make(b, or, world) {
            assert forall|i: int| 0 <= i < all.len() implies is_true(#[trigger] all[i], world) by {
                if i < a.len() {
                    assert(is_true(a[i], world));
                } else {
                    assert(is_true(b[i - a.len()], world));
                }
            }
        }
    }
}

/// A chain of disjunctions is true where one of its leaves is, one of conjunctions where all are.
pub proof fn a_chain_is_true_by_its_leaves(
    e: JudgmentExpr,
    or: bool,
    world: spec_fn(JudgmentExpr) -> bool,
)
    ensures
        is_true(e, world) == leaves_make(leaves(e, or), or, world),
    decreases e, 1int, 0nat,
{
    match e {
        JudgmentExpr::Or(items) => {
            if or {
                items_by_leaves(items@, items@.len(), or, world);
            } else {
                assert(leaves(e, or)[0] == e);
            }
        },
        JudgmentExpr::And(items) => {
            if or {
                assert(leaves(e, or)[0] == e);
            } else {
                items_by_leaves(items@, items@.len(), or, world);
            }
        },
        _ => {
            assert(leaves(e, or)[0] == e);
        },
    }
}

proof fn items_by_leaves(
    items: Seq<JudgmentExpr>,
    n: nat,
    or: bool,
    world: spec_fn(JudgmentExpr) -> bool,
)
    requires
        n <= items.len(),
    ensures
        leaves_make(leaves_of(items, n, or), or, world) == if or {
            any_true(items, n, world)
        } else {
            all_true(items, n, world)
        },
    decreases items, 0int, n,
{
    if n > 0 {
        items_by_leaves(items, (n - 1) as nat, or, world);
        a_chain_is_true_by_its_leaves(items[n - 1], or, world);
        leaves_joined(leaves_of(items, (n - 1) as nat, or), leaves(items[n - 1], or), or, world);
    }
}

proof fn a_branch_is_true(
    branch: JudgmentExpr,
    bases: Seq<JudgmentExpr>,
    own: int,
    world: spec_fn(JudgmentExpr) -> bool,
)
    requires
        is_consistent(world),
        branch_fits(branch, bases, own),
        0 <= own < bases.len(),
    ensures
        is_true(branch, world) <==> is_true(bases[own], world) && forall|j: int|
            0 <= j < bases.len() && j != own ==> !is_true(#[trigger] bases[j], world),
{
    let items = leaves(branch, false);
    a_chain_is_true_by_its_leaves(branch, false, world);
    assert forall|k: int| 0 <= k < bases.len() implies #[trigger] is_true(items[k], world) == (
    is_true(bases[k], world) == (k == own)) by {
        assert(item_fits(items[k], bases[k], k == own));
        if k == own {
            alike(items[k], bases[k], world);
        } else {
            alike(negated_item(items[k])->0, bases[k], world);
        }
    }
    if is_true(branch, world) {
        assert(is_true(items[own], world));
        assert forall|j: int| 0 <= j < bases.len() && j != own implies !is_true(
            #[trigger] bases[j],
            world,
        ) by {
            assert(is_true(items[j], world));
        }
    }
    if is_true(bases[own], world) && forall|j: int|
        0 <= j < bases.len() && j != own ==> !is_true(#[trigger] bases[j], world) {
        assert forall|k: int| 0 <= k < items.len() implies is_true(#[trigger] items[k], world) by {
            assert(is_true(bases[k], world) == (k == own));
        }
    }
}

proof fn bases_are_as_many(items: Seq<JudgmentExpr>, n: nat)
    requires
        n <= items.len(),
    ensures
        branch_bases(items, n) matches Some(bases) ==> bases.len() == n,
    decreases n,
{
    if n > 0 {
        bases_are_as_many(items, (n - 1) as nat);
    }
}

/// A disjunction that is taken for "exactly one of these holds" by its branches is true exactly
/// where one of the judgments is and no other.
pub proof fn branches_say_that_one_is_true(
    e: JudgmentExpr,
    bases: Seq<JudgmentExpr>,
    world: spec_fn(JudgmentExpr) -> bool,
)
    requires
        is_consistent(world),
        expanded(e) == Some(bases),
    ensures
        bases.len() >= 2,
        is_true(e, world) <==> one_is_true(bases, world),
{
    let branches = leaves(e, true);
    a_chain_is_true_by_its_leaves(e, true, world);
    bases_are_as_many(leaves(branches[0], false), branches.len());
    assert forall|i: int| 0 <= i < branches.len() implies (is_true(#[trigger] branches[i], world)
        <==> is_true(bases[i], world) && forall|j: int|
        0 <= j < bases.len() && j != i ==> !is_true(#[trigger] bases[j], world)) by {
        a_branch_is_true(branches[i], bases, i, world);
    }
    if is_true(e, world) {
        let i = choose|i: int| 0 <= i < branches.len() && is_true(#[trigger] branches[i], world);
        assert(is_true(bases[i], world));
    }
    if one_is_true(bases, world) {
        let i = choose|i: int|
            0 <= i < bases.len() && is_true(#[trigger] bases[i], world) && forall|j: int|
                0 <= j < bases.len() && j != i ==> !is_true(#[trigger] bases[j], world);
        assert(is_true(branches[i], world));
    }
}

proof fn place_is(bases: Seq<JudgmentExpr>, e: JudgmentExpr, n: nat)
    requires
        n <= bases.len(),
    ensures
        place_among(bases, e, n) matches Some(i) ==> i < n && same_judgment(bases[i as int], e),
    decreases n,
{
    if n > 0 {
        place_is(bases, e, (n - 1) as nat);
    }
}

proof fn member_pairs_are(
    bases: Seq<JudgmentExpr>,
    left: nat,
    members: Seq<JudgmentExpr>,
    n: nat,
    k: int,
)
    requires
        n <= members.len(),
        member_pairs(bases, left, members, n) is Some,
    ensures
        ({
            let pairs = member_pairs(bases, left, members, n)->0;
            let right = place_among(bases, members[k], bases.len());
            &&& pairs.len() == n
            &&& 0 <= k < n ==> (right matches Some(r) && r != left && pairs[k] == pair(left, r))
        }),
    decreases n,
{
    if n > 0 {
        member_pairs_are(bases, left, members, (n - 1) as nat, k);
    }
}

/// Whether both judgments of a pair of places are true.
pub open spec fn both_true(
    bases: Seq<JudgmentExpr>,
    places: (nat, nat),
    world: spec_fn(JudgmentExpr) -> bool,
) -> bool {
    is_true(bases[places.0 as int], world) && is_true(bases[places.1 as int], world)
}

/// Whether two of the judgments are true.
pub open spec fn two_are_true(
    bases: Seq<JudgmentExpr>,
    world: spec_fn(JudgmentExpr) -> bool,
) -> bool {
    exists|i: int, j: int|
        0 <= i < j < bases.len() && is_true(#[trigger] bases[i], world) && is_true(
            #[trigger] bases[j],
            world,
        )
}

proof fn an_exclusion_excludes(
    bases: Seq<JudgmentExpr>,
    body: JudgmentExpr,
    world: spec_fn(JudgmentExpr) -> bool,
)
    requires
        is_consistent(world),
        excluded_pairs(bases, body) is Some,
    ensures
        ({
            let pairs = excluded_pairs(bases, body)->0;
            &&& !is_true(body, world) ==> forall|k: int|
                0 <= k < pairs.len() ==> !both_true(bases, #[trigger] pairs[k], world)
            &&& is_true(body, world) ==> two_are_true(bases, world)
        }),
{
    let sides = leaves(body, false);
    let (single, group) = if place_among(bases, sides[0], bases.len()) is Some {
        (sides[0], sides[1])
    } else {
        (sides[1], sides[0])
    };
    let left = place_among(bases, single, bases.len())->0;
    let members = group_members(group);
    let pairs = excluded_pairs(bases, body)->0;
    place_is(bases, single, bases.len());
    alike(bases[left as int], single, world);
    a_chain_is_true_by_its_leaves(body, false, world);
    a_chain_is_true_by_its_leaves(group, true, world);
    assert(is_true(body, world) <==> is_true(single, world) && is_true(group, world)) by {
        assert(sides.len() == 2);
        if is_true(single, world) && is_true(group, world) {
            assert forall|i: int| 0 <= i < sides.len() implies is_true(
                #[trigger] sides[i],
                world,
            ) by {}
        }
        if is_true(body, world) {
            assert(is_true(sides[0], world) && is_true(sides[1], world));
        }
    }
    member_pairs_are(bases, left, members, members.len(), 0);
    if !is_true(body, world) {
        assert forall|k: int| 0 <= k < pairs.len() implies !both_true(
            bases,
            #[trigger] pairs[k],
            world,
        ) by {
            member_pairs_are(bases, left, members, members.len(), k);
            place_is(bases, members[k], bases.len());
            let right = place_among(bases, members[k], bases.len())->0;
            alike(bases[right as int], members[k], world);
            if both_true(bases, pairs[k], world) {
                assert(is_true(members[k], world));
            }
        }
    } else {
        let k = choose|k: int| 0 <= k < members.len() && is_true(#[trigger] members[k], world);
        member_pairs_are(bases, left, members, members.len(), k);
        place_is(bases, members[k], bases.len());
        let right = place_among(bases, members[k], bases.len())->0;
        alike(bases[right as int], members[k], world);
        if left < right {
            assert(is_true(bases[left as int], world) && is_true(bases[right as int], world));
        } else {
            assert(is_true(bases[right as int], world) && is_true(bases[left as int], world));
        }
    }
}

proof fn exclusions_exclude(
    bases: Seq<JudgmentExpr>,
    bodies: Seq<JudgmentExpr>,
    n: nat,
    world: spec_fn(JudgmentExpr) -> bool,
)
    requires
        is_consistent(world),
        n <= bodies.len(),
        all_excluded(bases, bodies, n) is Some,
    ensures
        ({
            let pairs = all_excluded(bases, bodies, n)->0;
            &&& (forall|k: int| 0 <= k < n ==> !is_true(#[trigger] bodies[k], world)) ==> forall|
                k: int,
            | 0 <= k < pairs.len() ==> !both_true(bases, #[trigger] pairs[k], world)
            &&& (exists|k: int| 0 <= k < n && is_true(#[trigger] bodies[k], world))
                ==> two_are_true(bases, world)
        }),
    decreases n,
{
    if n > 0 {
        let m = (n - 1) as nat;
        exclusions_exclude(bases, bodies, m, world);
        an_exclusion_excludes(bases, bodies[n - 1], world);
        let before = all_excluded(bases, bodies, m)->0;
        let more = excluded_pairs(bases, bodies[n - 1])->0;
        let pairs = before + more;
        if forall|k: int| 0 <= k < n ==> !is_true(#[trigger] bodies[k], world) {
            assert(!is_true(bodies[n - 1], world));
            assert(forall|k: int| 0 <= k < m ==> !is_true(#[trigger] bodies[k], world));
            assert forall|k: int| 0 <= k < pairs.len() implies !both_true(
                bases,
                #[trigger] pairs[k],
                world,
            ) by {
                if k < before.len() {
                    assert(pairs[k] == before[k]);
                } else {
                    assert(pairs[k] == more[k - before.len()]);
                }
            }
        }
        if exists|k: int| 0 <= k < n && is_true(#[trigger] bodies[k], world) {
            let k = choose|k: int| 0 <= k < n && is_true(#[trigger] bodies[k], world);
            if k < m {
                assert(is_true(bodies[k], world));
            }
        }
    }
}

proof fn parted(items: Seq<JudgmentExpr>, n: nat, world: spec_fn(JudgmentExpr) -> bool)
    requires
        n <= items.len(),
        forall|k: int| 0 <= k < n ==> (#[trigger] items[k]) is Or || items[k] is Not,
    ensures
        (forall|k: int| 0 <= k < n ==> is_true(#[trigger] items[k], world)) <==> (forall|k: int|
            0 <= k < disjunctions(items, n).len() ==> is_true(
                #[trigger] disjunctions(items, n)[k],
                world,
            )) && (forall|k: int|
            0 <= k < negations(items, n).len() ==> !is_true(
                #[trigger] negations(items, n)[k],
                world,
            )),
    decreases n,
{
    if n > 0 {
        let m = (n - 1) as nat;
        parted(items, m, world);
        let (ors, nots) = (disjunctions(items, n), negations(items, n));
        let (a, b) = (disjunctions(items, m), negations(items, m));
        let last = items[n - 1];
        assert((forall|k: int| 0 <= k < n ==> is_true(#[trigger] items[k], world)) <==> (forall|
            k: int,
        | 0 <= k < m ==> is_true(#[trigger] items[k], world)) && is_true(last, world));
        if last is Or {
            assert(ors =~= a.push(last) && nots =~= b);
            assert((forall|k: int| 0 <= k < ors.len() ==> is_true(#[trigger] ors[k], world)) <==> (
            forall|k: int| 0 <= k < a.len() ==> is_true(#[trigger] a[k], world)) && is_true(
                last,
                world,
            )) by {
                assert(ors[a.len() as int] == last);
                assert(forall|k: int| 0 <= k < a.len() ==> #[trigger] a[k] == ors[k]);
                assert(forall|k: int| 0 <= k < a.len() ==> #[trigger] ors[k] == a[k]);
            }
        } else {
            let inner = negated_item(last)->0;
            assert(ors =~= a && nots =~= b.push(inner));
            assert((forall|k: int| 0 <= k < nots.len() ==> !is_true(#[trigger] nots[k], world))
                <==> (forall|k: int| 0 <= k < b.len() ==> !is_true(#[trigger] b[k], world))
                && !is_true(inner, world)) by {
                assert(nots[b.len() as int] == inner);
                assert(forall|k: int| 0 <= k < b.len() ==> #[trigger] b[k] == nots[k]);
                assert(forall|k: int| 0 <= k < b.len() ==> #[trigger] nots[k] == b[k]);
            }
        }
    }
}

/// A conjunction that is taken for "exactly one of these holds" by a disjunction and exclusions is
/// true exactly where one of the judgments is and no other.
pub proof fn exclusions_say_that_one_is_true(
    e: JudgmentExpr,
    bases: Seq<JudgmentExpr>,
    world: spec_fn(JudgmentExpr) -> bool,
)
    requires
        is_consistent(world),
        excluded(e) == Some(bases),
    ensures
        bases.len() >= 2,
        is_true(e, world) <==> one_is_true(bases, world),
{
    let items = leaves(e, false);
    let ors = disjunctions(items, items.len());
    let bodies = negations(items, items.len());
    let pairs = all_excluded(bases, bodies, bodies.len())->0;
    a_chain_is_true_by_its_leaves(e, false, world);
    a_chain_is_true_by_its_leaves(ors[0], true, world);
    parted(items, items.len(), world);
    exclusions_exclude(bases, bodies, bodies.len(), world);
    if is_true(e, world) {
        assert(is_true(ors[0], world));
        let i = choose|i: int| 0 <= i < bases.len() && is_true(#[trigger] bases[i], world);
        assert forall|j: int| 0 <= j < bases.len() && j != i implies !is_true(
            #[trigger] bases[j],
            world,
        ) by {
            let places = if i < j {
                (i as nat, j as nat)
            } else {
                (j as nat, i as nat)
            };
            assert(pairs.contains((places.0, places.1)));
            let k = pairs.index_of(places);
            assert(!both_true(bases, pairs[k], world));
        }
    }
    if one_is_true(bases, world) {
        assert(!two_are_true(bases, world));
        assert(is_true(ors[0], world));
        assert forall|k: int| 0 <= k < ors.len() implies is_true(#[trigger] ors[k], world) by {}
        assert forall|k: int| 0 <= k < bodies.len() implies !is_true(
            #[trigger] bodies[k],
            world,
        ) by {}
    }
}

/// Whatever idiom a judgment is taken for, it is true exactly where one of the judgments that it is
/// about is and no other.
pub proof fn a_detected_idiom_says_that_one_is_true(
    e: JudgmentExpr,
    world: spec_fn(JudgmentExpr) -> bool,
)
    requires
        is_consistent(world),
    ensures
        detected(e) matches Some((idiom, bases)) ==> bases.len() >= 2 && (is_true(e, world)
            <==> one_is_true(bases, world)),
{
    if let Some(bases) = expanded(e) {
        branches_say_that_one_is_true(e, bases, world);
    } else if let Some(bases) = excluded(e) {
        exclusions_say_that_one_is_true(e, bases, world);
    }
}

} // verus!
