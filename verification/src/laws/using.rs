//! Laws of the slots that a use of a relation has rows in: the kinds that the use tells, and the one
//! that the declared kinds leave over.
use crate::model::Program;
use crate::text::{opt_text, texts};
use crate::usages::{
    bare_slots, completed, current_kind, left_over, unknown_from, usage_slots,
};
use vstd::prelude::*;

verus! {

/// The rows that a use has on its own entity are of its owner's kind; but where the relation derives
/// that very entity, of the kind that the derivation has in the slot.
pub proof fn a_use_has_rows_of_its_owner(
    p: Program,
    relation: Seq<char>,
    current_slot: nat,
    owner: Option<Seq<char>>,
)
    ensures
        match p.relation(relation) {
            None => current_kind(p, relation, current_slot, owner) is None,
            Some(schema) => {
                &&& (schema.derivation matches Some(d) ==> owner is None || opt_text(d.entity)
                    != owner) ==> current_kind(p, relation, current_slot, owner) == owner
                &&& schema.derivation matches Some(d) ==> (owner is Some && opt_text(d.entity)
                    == owner && current_slot < d.slot_entities@.len() ==> current_kind(
                    p,
                    relation,
                    current_slot,
                    owner,
                ) == Some(d.slot_entities@[current_slot as int]@))
            },
        },
{
}

proof fn unknown_is(slots: Seq<Option<Seq<char>>>, from: nat)
    requires
        from <= slots.len(),
    ensures
        match unknown_from(slots, from) {
            Some(i) => from <= i < slots.len() && slots[i as int] is None && forall|j: int|
                from <= j < i ==> (#[trigger] slots[j]) is Some,
            None => forall|j: int| from <= j < slots.len() ==> (#[trigger] slots[j]) is Some,
        },
    decreases slots.len() - from,
{
    if from < slots.len() && slots[from as int] is Some {
        unknown_is(slots, from + 1);
    }
}

/// How often a kind is declared.
pub open spec fn times(list: Seq<Seq<char>>, kind: Seq<char>) -> nat
    decreases list.len(),
{
    if list.len() == 0 {
        0
    } else {
        times(list.drop_last(), kind) + if list.last() == kind {
            1nat
        } else {
            0nat
        }
    }
}

/// How many of the first slots have rows of a kind.
pub open spec fn slots_of(slots: Seq<Option<Seq<char>>>, kind: Seq<char>, n: nat) -> nat
    decreases n,
{
    if n == 0 {
        0
    } else {
        slots_of(slots, kind, (n - 1) as nat) + if slots[n - 1] == Some(kind) {
            1nat
        } else {
            0nat
        }
    }
}

proof fn one_fewer(list: Seq<Seq<char>>, i: int, kind: Seq<char>)
    requires
        0 <= i < list.len(),
    ensures
        times(list, kind) == times(list.remove(i), kind) + if list[i] == kind {
            1nat
        } else {
            0nat
        },
    decreases list.len(),
{
    let rest = list.remove(i);
    if i == list.len() - 1 {
        assert(rest =~= list.drop_last());
    } else {
        one_fewer(list.drop_last(), i, kind);
        assert(rest.drop_last() =~= list.drop_last().remove(i));
        assert(rest.last() == list.last());
    }
}

proof fn left_over_counts(
    declared: Seq<Seq<char>>,
    slots: Seq<Option<Seq<char>>>,
    n: nat,
    kind: Seq<char>,
)
    requires
        n <= slots.len(),
    ensures
        left_over(declared, slots, n) matches Some(rest) ==> times(declared, kind) == times(rest, kind)
            + slots_of(slots, kind, n),
    decreases n,
{
    if n > 0 {
        left_over_counts(declared, slots, (n - 1) as nat, kind);
        if let Some(rest) = left_over(declared, slots, (n - 1) as nat) {
            if let Some(other) = slots[n - 1] {
                if rest.contains(other) {
                    rest.index_of_first_ensures(other);
                    one_fewer(rest, rest.index_of_first(other)->Some_0, kind);
                }
            }
        }
    }
}

proof fn one_slot_more(slots: Seq<Option<Seq<char>>>, i: int, filled: Seq<char>, kind: Seq<char>, n: nat)
    requires
        0 <= i < slots.len(),
        n <= slots.len(),
        slots[i] is None,
    ensures
        slots_of(slots.update(i, Some(filled)), kind, n) == slots_of(slots, kind, n) + if i < n
            && filled == kind {
            1nat
        } else {
            0nat
        },
    decreases n,
{
    if n > 0 {
        one_slot_more(slots, i, filled, kind, (n - 1) as nat);
    }
}

/// A slot whose kind is known keeps it. A slot whose kind is not known gets one only where it is the
/// only such slot, and the slots then have the declared kinds, each as often as it is declared.
pub proof fn the_kind_that_is_left_over_fills_the_only_open_slot(
    declared: Seq<Seq<char>>,
    slots: Seq<Option<Seq<char>>>,
    kind: Seq<char>,
)
    ensures
        completed(declared, slots).len() == slots.len(),
        forall|i: int|
            0 <= i < slots.len() && (#[trigger] slots[i]) is Some ==> completed(declared, slots)[i]
                == slots[i],
        completed(declared, slots) != slots ==> times(declared, kind) == slots_of(
            completed(declared, slots),
            kind,
            slots.len(),
        ),
        (exists|i: int, j: int|
            0 <= i < j < slots.len() && (#[trigger] slots[i]) is None && (
            #[trigger] slots[j]) is None) ==> completed(declared, slots) == slots,
{
    unknown_is(slots, 0);
    if let Some(i) = unknown_from(slots, 0) {
        unknown_is(slots, i + 1);
        left_over_counts(declared, slots, slots.len(), kind);
        if exists|a: int, b: int|
            0 <= a < b < slots.len() && (#[trigger] slots[a]) is None && (
            #[trigger] slots[b]) is None {
            let (a, b) = choose|a: int, b: int|
                0 <= a < b < slots.len() && (#[trigger] slots[a]) is None && (
                #[trigger] slots[b]) is None;
            assert(i <= a);
            assert(unknown_from(slots, i + 1) is Some);
        }
        if let Some(rest) = left_over(declared, slots, slots.len()) {
            if rest.len() == 1 {
                one_slot_more(slots, i as int, rest[0], kind, slots.len());
                reveal_with_fuel(times, 2);
                assert(rest.drop_last().len() == 0);
                assert(rest.last() == rest[0]);
            }
        }
    }
}

/// A use has rows of its current kind in its current slot and of its related kind in its related one,
/// as far as they are known; no other slot is told.
pub proof fn a_use_has_its_kinds_in_its_slots(
    p: Program,
    relation: Seq<char>,
    current_slot: nat,
    related_slot: nat,
    current: Seq<char>,
    related: Seq<char>,
)
    requires
        p.relation(relation) is Some,
        current_slot < p.relation(relation)->Some_0.arity,
        related_slot < p.relation(relation)->Some_0.arity,
        current_slot != related_slot,
    ensures
        ({
            let arity = p.relation(relation)->Some_0.arity as nat;
            let declared = texts(p.relation(relation)->Some_0.slot_entities@);
            let slots = usage_slots(
                p,
                relation,
                current_slot,
                related_slot,
                Some(current),
                Some(related),
            );
            &&& slots.len() == arity
            &&& slots[current_slot as int] == Some(current)
            &&& slots[related_slot as int] == Some(related)
            &&& forall|i: int|
                0 <= i < arity && i != current_slot && i != related_slot && (
                #[trigger] slots[i]) is Some ==> times(declared, slots[i]->0) == slots_of(
                    slots,
                    slots[i]->0,
                    arity,
                )
        }),
{
    let schema = p.relation(relation)->Some_0;
    let declared = texts(schema.slot_entities@);
    let bare = bare_slots(
        schema.arity as nat,
        current_slot,
        related_slot,
        Some(current),
        Some(related),
    );
    the_kind_that_is_left_over_fills_the_only_open_slot(declared, bare, current);
    assert(bare[current_slot as int] is Some);
    assert(bare[related_slot as int] is Some);
    let slots = completed(declared, bare);
    assert forall|i: int|
        0 <= i < schema.arity && i != current_slot && i != related_slot && (
        #[trigger] slots[i]) is Some implies times(declared, slots[i]->0) == slots_of(
        slots,
        slots[i]->0,
        schema.arity as nat,
    ) by {
        assert(bare[i] is None);
        the_kind_that_is_left_over_fills_the_only_open_slot(declared, bare, slots[i]->0);
    }
}

} // verus!
