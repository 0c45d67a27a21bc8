//! Laws of the relations that the overrides of a migration name, and of the changes that it reports.
use crate::migrate::{
    changes_among, data_relations, ends, override_target, override_targets, step_at, with_suffix,
    ChangeView, MigrationErrorView, RelationOverride, TypingStep,
};
use crate::model::{Program, RelationSchema};
use crate::text::texts;
use vstd::prelude::*;

verus! {

/// Whether a relation is read from data under a name that a module and the short name make up.
pub open spec fn is_short_for(schema: RelationSchema, name: Seq<char>) -> bool {
    schema.derivation is None && exists|module: Seq<char>| #[trigger]
        (module + ("#relation."@ + name)) == schema.name@
}

/// Whether a name is that of a data relation.
pub open spec fn is_data(p: Program, name: Seq<char>) -> bool {
    exists|i: int|
        0 <= i < p.relations@.len() && (#[trigger] p.relations@[i]).derivation is None
            && p.relations@[i].name@ == name
}

/// The data relations that a short name can mean.
pub open spec fn meant(relations: Seq<RelationSchema>, name: Seq<char>) -> Seq<RelationSchema> {
    relations.filter(|schema: RelationSchema| is_short_for(schema, name))
}

proof fn short_is(schema: RelationSchema, name: Seq<char>)
    ensures
        is_short_for(schema, name) <==> schema.derivation is None && ends(
            schema.name@,
            "#relation."@ + name,
        ),
{
    let suffix = "#relation."@ + name;
    let whole = schema.name@;
    if ends(whole, suffix) {
        let module = whole.take(whole.len() - suffix.len());
        assert(module + suffix =~= whole);
    }
    if exists|module: Seq<char>| #[trigger] (module + suffix) == whole {
        let module = choose|module: Seq<char>| #[trigger] (module + suffix) == whole;
        assert(whole.skip(whole.len() - suffix.len()) =~= suffix);
    }
}

proof fn same_suffixes(a: Seq<Seq<char>>, b: Seq<Seq<char>>, suffix: Seq<char>, n: nat)
    requires
        n <= a.len(),
        n <= b.len(),
        forall|i: int| 0 <= i < n ==> a[i] == b[i],
    ensures
        with_suffix(a, suffix, n) == with_suffix(b, suffix, n),
    decreases n,
{
    if n > 0 {
        same_suffixes(a, b, suffix, (n - 1) as nat);
    }
}

proof fn meant_are(relations: Seq<RelationSchema>, name: Seq<char>, n: nat)
    requires
        n <= relations.len(),
    ensures
        ({
            let data = data_relations(relations, n);
            with_suffix(data, "#relation."@ + name, data.len()) == meant(
                relations.take(n as int),
                name,
            ).map_values(|schema: RelationSchema| schema.name@)
        }),
    decreases n,
{
    reveal(Seq::filter);
    let suffix = "#relation."@ + name;
    let data = data_relations(relations, n);
    let label = |schema: RelationSchema| schema.name@;
    let some = relations.take(n as int);
    if n == 0 {
        assert(with_suffix(data, suffix, 0) =~= meant(some, name).map_values(label));
    } else {
        meant_are(relations, name, (n - 1) as nat);
        let last = relations[n - 1];
        let before = data_relations(relations, (n - 1) as nat);
        let earlier = meant(relations.take(n - 1), name);
        assert(some.drop_last() =~= relations.take(n - 1));
        assert(some.last() == last);
        short_is(last, name);
        assert(meant(some, name) == if is_short_for(last, name) {
            earlier.push(last)
        } else {
            earlier
        });
        if last.derivation is None {
            assert(data == before.push(last.name@));
            same_suffixes(data, before, suffix, before.len());
            assert(data[data.len() - 1] == last.name@);
        }
        assert(earlier.push(last).map_values(label) =~= earlier.map_values(label).push(last.name@));
    }
}

proof fn data_are(relations: Seq<RelationSchema>, name: Seq<char>, n: nat)
    requires
        n <= relations.len(),
    ensures
        data_relations(relations, n).contains(name) <==> exists|i: int|
            0 <= i < n && (#[trigger] relations[i]).derivation is None && relations[i].name@ == name,
    decreases n,
{
    if n > 0 {
        data_are(relations, name, (n - 1) as nat);
        let before = data_relations(relations, (n - 1) as nat);
        let all = data_relations(relations, n);
        let last = relations[n - 1];
        if last.derivation is None {
            assert(all == before.push(last.name@));
            assert(all[before.len() as int] == last.name@);
            if before.contains(name) {
                let i = choose|i: int| 0 <= i < before.len() && before[i] == name;
                assert(all[i] == name);
            }
            if all.contains(name) {
                let i = choose|i: int| 0 <= i < all.len() && all[i] == name;
                if i < before.len() {
                    assert(before[i] == name);
                }
            }
        }
    }
}

/// An override means the data relation of its name, or else the only one that its name is short for;
/// where there is none, or more than one, it is refused.
pub proof fn an_override_means_one_data_relation(p: Program, name: Seq<char>)
    ensures
        match override_target(p, name) {
            Ok(target) => if is_data(p, name) {
                target == name
            } else {
                meant(p.relations@, name).len() == 1 && target == meant(p.relations@, name)[0].name@
            },
            Err(error) => {
                &&& !is_data(p, name)
                &&& meant(p.relations@, name).len() != 1
                &&& error matches MigrationErrorView::UnknownRelation { relation, hint } && relation
                    == name && (meant(p.relations@, name).len() == 0 ==> hint.len() == 0)
            },
        },
{
    let relations = p.relations@;
    data_are(relations, name, relations.len());
    meant_are(relations, name, relations.len());
    assert(relations.take(relations.len() as int) =~= relations);
}

/// The overrides of a migration are refused for the first that means no relation, and else each
/// means its own.
pub proof fn overrides_are_refused_for_the_first_that_means_none(
    p: Program,
    overrides: Seq<RelationOverride>,
    n: nat,
)
    requires
        n <= overrides.len(),
    ensures
        match override_targets(p, overrides, n) {
            Ok(targets) => targets.len() == n && forall|i: int|
                0 <= i < n ==> override_target(p, (#[trigger] overrides[i]).relation@) == Ok::<
                    Seq<char>,
                    MigrationErrorView,
                >(targets[i]),
            Err(error) => exists|i: int|
                0 <= i < n && override_target(p, (#[trigger] overrides[i]).relation@) == Err::<
                    Seq<char>,
                    MigrationErrorView,
                >(error) && forall|j: int|
                    0 <= j < i ==> override_target(p, (#[trigger] overrides[j]).relation@) is Ok,
        },
    decreases n,
{
    if n > 0 {
        overrides_are_refused_for_the_first_that_means_none(p, overrides, (n - 1) as nat);
    }
}

/// Whether a change is what a step makes of a relation: its name, the kinds that it had and those
/// that it gets, with where they come from.
pub open spec fn is_change_of(change: ChangeView, schema: RelationSchema, step: TypingStep) -> bool {
    &&& change.relation == schema.name@
    &&& change.previous == texts(schema.slot_entities@)
    &&& step == (TypingStep::Retype { kinds: change.slot_entities, source: change.source })
}

/// Whether changes are those of the first relations that a step retypes: there is one for each of
/// them, and none for another.
pub open spec fn are_changes(
    changes: Seq<ChangeView>,
    relations: Seq<RelationSchema>,
    step: spec_fn(int) -> TypingStep,
    n: int,
) -> bool {
    &&& forall|i: int|
        0 <= i < n && (#[trigger] step(i)) is Retype ==> exists|k: int|
            0 <= k < changes.len() && is_change_of(#[trigger] changes[k], relations[i], step(i))
    &&& forall|k: int|
        0 <= k < changes.len() ==> exists|i: int|
            0 <= i < n && is_change_of(#[trigger] changes[k], relations[i], #[trigger] step(i))
    &&& changes.len() <= n
}

proof fn one_more(
    before: Seq<ChangeView>,
    changes: Seq<ChangeView>,
    relations: Seq<RelationSchema>,
    step: spec_fn(int) -> TypingStep,
    n: int,
)
    requires
        0 < n,
        are_changes(before, relations, step, n - 1),
        if step(n - 1) is Retype {
            changes == before.push(changes.last()) && changes.len() == before.len() + 1
                && is_change_of(changes.last(), relations[n - 1], step(n - 1))
        } else {
            changes == before
        },
    ensures
        are_changes(changes, relations, step, n),
{
    assert forall|i: int| 0 <= i < n && (#[trigger] step(i)) is Retype implies exists|k: int|
        0 <= k < changes.len() && is_change_of(#[trigger] changes[k], relations[i], step(i)) by {
        if i == n - 1 {
            assert(is_change_of(changes[before.len() as int], relations[i], step(i)));
        } else {
            let k = choose|k: int|
                0 <= k < before.len() && is_change_of(#[trigger] before[k], relations[i], step(i));
            assert(changes[k] == before[k]);
        }
    }
    assert forall|k: int| 0 <= k < changes.len() implies exists|i: int|
        0 <= i < n && is_change_of(#[trigger] changes[k], relations[i], #[trigger] step(i)) by {
        if k < before.len() {
            assert(changes[k] == before[k]);
            let i = choose|i: int|
                0 <= i < n - 1 && is_change_of(
                    #[trigger] before[k],
                    relations[i],
                    #[trigger] step(i),
                );
            assert(is_change_of(changes[k], relations[i], step(i)));
        } else {
            assert(is_change_of(changes[k], relations[n - 1], step(n - 1)));
        }
    }
}

/// The changes that a migration reports are those of the relations that it retypes.
pub proof fn changes_are_those_of_the_retyped_relations(
    p: Program,
    overrides: Seq<RelationOverride>,
    targets: Seq<Seq<char>>,
    n: nat,
)
    requires
        n <= p.relations@.len(),
    ensures
        are_changes(
            changes_among(p, overrides, targets, n),
            p.relations@,
            |i: int| step_at(p, overrides, targets, i),
            n as int,
        ),
    decreases n,
{
    let step = |i: int| step_at(p, overrides, targets, i);
    if n > 0 {
        changes_are_those_of_the_retyped_relations(p, overrides, targets, (n - 1) as nat);
        let before = changes_among(p, overrides, targets, (n - 1) as nat);
        let changes = changes_among(p, overrides, targets, n);
        one_more(before, changes, p.relations@, step, n as int);
    }
}

} // verus!
