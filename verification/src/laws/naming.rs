//! Laws of the names under which requests supply inputs, and of records that state a fact twice.
use super::facts::same_values;
use crate::catalog::{
    catalog_of, char_from, judgment_slots, names_among, offers, owned_pairs, pair_slots,
    parameter_pairs, relation_pairs, request_name, rule_pairs, rule_slots, slot_pairs,
    CatalogEntry,
};
use crate::date::Date;
use crate::inputs::{contradicted_spell, first_spell, same_spell};
use crate::model::{Derived, IndexedParameter, InputRecord, Program, RelationSchema, ScalarValue};
use crate::text::{opt_text, sorted_texts, sorted_texts_meaning, texts};
use vstd::prelude::*;

verus! {

proof fn found_behind(s: Seq<char>, c: char, at: nat, from: nat)
    requires
        from <= at < s.len(),
        s[at as int] == c,
        forall|i: int| from <= i < at ==> s[i] != c,
    ensures
        char_from(s, c, from) == Some(at),
    decreases at - from,
{
    if from < at {
        found_behind(s, c, at, from + 1);
    }
}

proof fn found_nowhere(s: Seq<char>, c: char, from: nat)
    requires
        forall|i: int| from <= i < s.len() ==> s[i] != c,
    ensures
        char_from(s, c, from) is None,
    decreases s.len() - from,
{
    if from < s.len() {
        found_nowhere(s, c, from + 1);
    }
}

/// An input of a rule with a public name, a module and a fragment with a `#` between them, is
/// supplied under the module, `#input.` and its name; an input of another rule under its name.
pub proof fn inputs_are_supplied_under_their_module(
    module: Seq<char>,
    fragment: Seq<char>,
    slot: Seq<char>,
)
    requires
        forall|i: int| 0 <= i < module.len() ==> module[i] != '#',
        fragment.len() > 0,
    ensures
        request_name(Some(module + seq!['#'] + fragment), slot) == module + "#input."@ + slot,
        request_name(Some(module), slot) == slot,
        request_name(Some(module + seq!['#']), slot) == slot,
        request_name(None, slot) == slot,
{
    let id = module + seq!['#'] + fragment;
    found_behind(id, '#', module.len(), 0);
    assert(id.take(module.len() as int) =~= module);
    assert(id.skip(module.len() as int + 1) =~= fragment);
    found_nowhere(module, '#', 0);
    let bare = module + seq!['#'];
    found_behind(bare, '#', module.len(), 0);
    assert(bare.skip(module.len() as int + 1) =~= Seq::<char>::empty());
}

/// Whether a rule reads the slot, and the name is the one for its inputs.
pub open spec fn rule_offers(d: Derived, slot: Seq<char>, name: Seq<char>) -> bool {
    rule_slots(d).contains(slot) && name == request_name(opt_text(d.id), slot)
}

/// Whether the test of a derived relation reads the slot, and the name is the one for its inputs.
pub open spec fn relation_offers(r: RelationSchema, slot: Seq<char>, name: Seq<char>) -> bool {
    r.derivation matches Some(d) && judgment_slots(d.predicate).contains(slot) && name
        == request_name(Some(r.name@), slot)
}

/// Whether a parameter is indexed by the slot, and the name is the one for it.
pub open spec fn parameter_offers(p: IndexedParameter, slot: Seq<char>, name: Seq<char>) -> bool {
    p.indexed_by matches Some(s) && s@ == slot && name == request_name(opt_text(p.id), slot)
}

proof fn either<X>(a: Seq<X>, b: Seq<X>, x: X)
    ensures
        (a + b).contains(x) <==> a.contains(x) || b.contains(x),
{
    if a.contains(x) {
        let i = choose|i: int| 0 <= i < a.len() && a[i] == x;
        assert((a + b)[i] == x);
    }
    if b.contains(x) {
        let i = choose|i: int| 0 <= i < b.len() && b[i] == x;
        assert((a + b)[a.len() + i] == x);
    }
}

proof fn owned_are(
    owner: Option<Seq<char>>,
    slots: Seq<Seq<char>>,
    slot: Seq<char>,
    name: Seq<char>,
)
    ensures
        owned_pairs(owner, slots).contains((slot, name)) <==> slots.contains(slot) && name
            == request_name(owner, slot),
{
    let pairs = owned_pairs(owner, slots);
    if pairs.contains((slot, name)) {
        let i = pairs.index_of((slot, name));
        assert(slots[i] == slot);
    }
    if slots.contains(slot) {
        let i = slots.index_of(slot);
        assert(pairs[i] == (slot, request_name(owner, slot)));
    }
}

proof fn rule_pairs_are(rules: Seq<Derived>, n: nat, slot: Seq<char>, name: Seq<char>)
    requires
        n <= rules.len(),
    ensures
        rule_pairs(rules, n).contains((slot, name)) <==> exists|i: int|
            0 <= i < n && rule_offers(#[trigger] rules[i], slot, name),
    decreases n,
{
    if n > 0 {
        let m = (n - 1) as nat;
        rule_pairs_are(rules, m, slot, name);
        let d = rules[n - 1];
        owned_are(opt_text(d.id), rule_slots(d), slot, name);
        either(rule_pairs(rules, m), owned_pairs(opt_text(d.id), rule_slots(d)), (slot, name));
    }
}

proof fn relation_pairs_are(
    relations: Seq<RelationSchema>,
    n: nat,
    slot: Seq<char>,
    name: Seq<char>,
)
    requires
        n <= relations.len(),
    ensures
        relation_pairs(relations, n).contains((slot, name)) <==> exists|i: int|
            0 <= i < n && relation_offers(#[trigger] relations[i], slot, name),
    decreases n,
{
    if n > 0 {
        let m = (n - 1) as nat;
        relation_pairs_are(relations, m, slot, name);
        let r = relations[n - 1];
        let own = match r.derivation {
            Some(d) => owned_pairs(Some(r.name@), judgment_slots(d.predicate)),
            None => Seq::empty(),
        };
        if let Some(d) = r.derivation {
            owned_are(Some(r.name@), judgment_slots(d.predicate), slot, name);
        }
        either(relation_pairs(relations, m), own, (slot, name));
    }
}

proof fn parameter_pairs_are(
    parameters: Seq<IndexedParameter>,
    n: nat,
    slot: Seq<char>,
    name: Seq<char>,
)
    requires
        n <= parameters.len(),
    ensures
        parameter_pairs(parameters, n).contains((slot, name)) <==> exists|i: int|
            0 <= i < n && parameter_offers(#[trigger] parameters[i], slot, name),
    decreases n,
{
    if n > 0 {
        let m = (n - 1) as nat;
        parameter_pairs_are(parameters, m, slot, name);
        let p = parameters[n - 1];
        let own = match p.indexed_by {
            Some(s) => owned_pairs(opt_text(p.id), seq![s@]),
            None => Seq::empty(),
        };
        if let Some(s) = p.indexed_by {
            owned_are(opt_text(p.id), seq![s@], slot, name);
            assert(seq![s@].contains(slot) <==> s@ == slot) by {
                assert(seq![s@][0] == s@);
            }
        }
        either(parameter_pairs(parameters, m), own, (slot, name));
    }
}

proof fn names_are(pairs: Seq<(Seq<char>, Seq<char>)>, slot: Seq<char>, n: nat, name: Seq<char>)
    requires
        n <= pairs.len(),
    ensures
        names_among(pairs, slot, n).contains(name) <==> exists|i: int|
            0 <= i < n && #[trigger] pairs[i] == (slot, name),
    decreases n,
{
    if n > 0 {
        let m = (n - 1) as nat;
        names_are(pairs, slot, m, name);
        let before = names_among(pairs, slot, m);
        let all = names_among(pairs, slot, n);
        if pairs[n - 1].0 == slot {
            if before.contains(name) {
                let i = before.index_of(name);
                assert(all[i] == name);
            }
            if all.contains(name) {
                let i = all.index_of(name);
                if i < before.len() {
                    assert(before[i] == name);
                }
            }
            if pairs[n - 1].1 == name {
                assert(all.last() == name);
            }
        }
    }
}

/// The catalog of a program offers a name for an input exactly where a rule, a version of a rule or
/// the test of a derived relation reads the input, or a parameter is indexed by it, and the name is
/// the one under which inputs of that rule, relation or parameter are supplied.
pub proof fn the_catalog_offers_the_inputs_that_are_read(
    p: Program,
    catalog: Seq<CatalogEntry>,
    slot: Seq<char>,
    name: Seq<char>,
)
    requires
        catalog_of(catalog, slot_pairs(p)),
    ensures
        offers(catalog, slot, name) <==> {
            ||| exists|i: int|
                0 <= i < p.derived@.len() && rule_offers(#[trigger] p.derived@[i], slot, name)
            ||| exists|i: int|
                0 <= i < p.relations@.len() && relation_offers(
                    #[trigger] p.relations@[i],
                    slot,
                    name,
                )
            ||| exists|i: int|
                0 <= i < p.parameters@.len() && parameter_offers(
                    #[trigger] p.parameters@[i],
                    slot,
                    name,
                )
        },
{
    let pairs = slot_pairs(p);
    let (a, b, c) = (
        rule_pairs(p.derived@, p.derived@.len()),
        relation_pairs(p.relations@, p.relations@.len()),
        parameter_pairs(p.parameters@, p.parameters@.len()),
    );
    rule_pairs_are(p.derived@, p.derived@.len(), slot, name);
    relation_pairs_are(p.relations@, p.relations@.len(), slot, name);
    parameter_pairs_are(p.parameters@, p.parameters@.len(), slot, name);
    either(a, b, (slot, name));
    either(a + b, c, (slot, name));
    let slots = sorted_texts(pair_slots(pairs));
    sorted_texts_meaning(pair_slots(pairs));
    names_are(pairs, slot, pairs.len(), name);
    sorted_texts_meaning(names_among(pairs, slot, pairs.len()));
    if pairs.contains((slot, name)) {
        let i = pairs.index_of((slot, name));
        assert(pairs[i] == (slot, name));
        assert(pair_slots(pairs)[i] == slot);
        assert(pair_slots(pairs).contains(slot));
        assert(slots.contains(slot));
        let k = slots.index_of(slot);
        assert(catalog[k].slot@ == slot);
        assert(names_among(pairs, slot, pairs.len()).contains(name));
        assert(texts(catalog[k].names@).contains(name));
    }
    if offers(catalog, slot, name) {
        let k = choose|k: int|
            0 <= k < catalog.len() && (#[trigger] catalog[k]).slot@ == slot && texts(
                catalog[k].names@,
            ).contains(name);
        assert(slots[k] == slot);
        assert(names_among(pairs, slot, pairs.len()).contains(name));
        let i = choose|i: int| 0 <= i < pairs.len() && #[trigger] pairs[i] == (slot, name);
        assert(pairs.contains((slot, name)));
    }
}

/// Whether two records state the same fact from the same day on.
pub open spec fn state_the_same_fact(a: InputRecord, b: InputRecord) -> bool {
    &&& a.name@ == b.name@
    &&& a.entity_id@ == b.entity_id@
    &&& a.interval.start.number() == b.interval.start.number()
}

proof fn same_fact(a: InputRecord, b: InputRecord)
    ensures
        state_the_same_fact(a, b) <==> same_spell(a, b),
{
    Date::of_number_of(a.interval.start);
    Date::of_number_of(b.interval.start);
}

proof fn same_value(a: ScalarValue, b: ScalarValue)
    ensures
        same_values(a, b) <==> a.equals(b),
{
    if let (ScalarValue::Date(x), ScalarValue::Date(y)) = (a, b) {
        Date::of_number_of(x);
        Date::of_number_of(y);
    }
}

proof fn first_is(inputs: Seq<InputRecord>, record: InputRecord, n: nat)
    requires
        n <= inputs.len(),
    ensures
        match first_spell(inputs, record, n) {
            Some(i) => i < n && state_the_same_fact(inputs[i as int], record) && forall|j: int|
                0 <= j < i ==> !state_the_same_fact(#[trigger] inputs[j], record),
            None => forall|j: int| 0 <= j < n ==> !state_the_same_fact(#[trigger] inputs[j], record),
        },
    decreases n,
{
    if n > 0 {
        first_is(inputs, record, (n - 1) as nat);
        same_fact(inputs[n - 1], record);
    }
}

/// Whether a record states a fact with another value than the first record that states it from the
/// same day on.
pub open spec fn is_contradicted(inputs: Seq<InputRecord>, j: int) -> bool {
    exists|i: int|
        0 <= i < j && state_the_same_fact(#[trigger] inputs[i], inputs[j]) && !same_values(
            inputs[i].value,
            inputs[j].value,
        ) && states_it_first(inputs, i, j)
}

/// Whether no record before a given one states the fact of another.
pub open spec fn states_it_first(inputs: Seq<InputRecord>, i: int, j: int) -> bool {
    forall|k: int| 0 <= k < i ==> !state_the_same_fact(#[trigger] inputs[k], inputs[j])
}

proof fn one_is(inputs: Seq<InputRecord>, j: int)
    requires
        0 <= j < inputs.len(),
    ensures
        is_contradicted(inputs, j) <==> (first_spell(inputs, inputs[j], j as nat) matches Some(i)
            && !inputs[i as int].value.equals(inputs[j].value)),
{
    first_is(inputs, inputs[j], j as nat);
    if let Some(first) = first_spell(inputs, inputs[j], j as nat) {
        let i = first as int;
        same_value(inputs[i].value, inputs[j].value);
        assert(states_it_first(inputs, i, j));
        if is_contradicted(inputs, j) {
            let k = choose|k: int|
                0 <= k < j && state_the_same_fact(#[trigger] inputs[k], inputs[j]) && !same_values(
                    inputs[k].value,
                    inputs[j].value,
                ) && states_it_first(inputs, k, j);
            if i < k {
                assert(!state_the_same_fact(inputs[i], inputs[j]));
            }
            assert(i == k);
        }
    }
}

proof fn contradicted_is(inputs: Seq<InputRecord>, n: nat)
    requires
        n <= inputs.len(),
    ensures
        match contradicted_spell(inputs, n) {
            Some(j) => j < n && is_contradicted(inputs, j as int) && forall|k: int|
                0 <= k < j ==> !#[trigger] is_contradicted(inputs, k),
            None => forall|k: int| 0 <= k < n ==> !#[trigger] is_contradicted(inputs, k),
        },
    decreases n,
{
    if n > 0 {
        contradicted_is(inputs, (n - 1) as nat);
        one_is(inputs, n - 1);
    }
}

/// Facts are refused exactly where a record states a fact with another value than the first record
/// that states it from the same day on; the first record that does so is the one at fault.
pub proof fn records_that_contradict_the_first_are_refused(inputs: Seq<InputRecord>)
    ensures
        match contradicted_spell(inputs, inputs.len()) {
            Some(j) => j < inputs.len() && is_contradicted(inputs, j as int) && forall|k: int|
                0 <= k < j ==> !#[trigger] is_contradicted(inputs, k),
            None => forall|k: int|
                0 <= k < inputs.len() ==> !#[trigger] is_contradicted(inputs, k),
        },
{
    contradicted_is(inputs, inputs.len());
}

} // verus!
