//! Input spells: which of several records states a fact over a period.
use crate::date::Date;
use crate::decimal::{pow10, pow10_positive, Decimal};
use crate::error::{outcome, ErrorView, EvalError};
use crate::model::{DataSet, InputRecord, Period, PeriodView, ScalarValue};
use crate::semantics::{input_choice, input_conflicts, input_covers, input_value, Facts};
use crate::text::same;
use vstd::prelude::*;

verus! {

/// Whether two records state the same fact from the same day on.
pub open spec fn same_spell(a: InputRecord, b: InputRecord) -> bool {
    a.name@ == b.name@ && a.entity_id@ == b.entity_id@ && a.interval.start == b.interval.start
}

/// The first of the first `n` records that states the same fact from the same day on.
pub open spec fn first_spell(inputs: Seq<InputRecord>, record: InputRecord, n: nat) -> Option<nat>
    decreases n,
{
    if n == 0 || n > inputs.len() {
        None
    } else {
        match first_spell(inputs, record, (n - 1) as nat) {
            Some(i) => Some(i),
            None => if same_spell(inputs[n - 1], record) {
                Some((n - 1) as nat)
            } else {
                None
            },
        }
    }
}

/// The first of the first `n` records whose value an earlier one contradicts.
pub open spec fn contradicted_spell(inputs: Seq<InputRecord>, n: nat) -> Option<nat>
    decreases n,
{
    if n == 0 || n > inputs.len() {
        None
    } else {
        match contradicted_spell(inputs, (n - 1) as nat) {
            Some(i) => Some(i),
            None => match first_spell(inputs, inputs[n - 1], (n - 1) as nat) {
                Some(j) => if inputs[j as int].value.equals(inputs[n - 1].value) {
                    None
                } else {
                    Some((n - 1) as nat)
                },
                None => None,
            },
        }
    }
}

/// Whether no two records state a fact differently from the same day on.
pub open spec fn spells_agree(inputs: Seq<InputRecord>) -> bool {
    contradicted_spell(inputs, inputs.len()) is None
}

proof fn contradicted_stays(inputs: Seq<InputRecord>, n: nat, m: nat)
    requires
        n <= m <= inputs.len(),
        contradicted_spell(inputs, n) is Some,
    ensures
        contradicted_spell(inputs, m) == contradicted_spell(inputs, n),
    decreases m,
{
    if n < m {
        contradicted_stays(inputs, n, (m - 1) as nat);
    }
}

proof fn first_spell_stays(inputs: Seq<InputRecord>, record: InputRecord, n: nat, m: nat)
    requires
        n <= m <= inputs.len(),
        first_spell(inputs, record, n) is Some,
    ensures
        first_spell(inputs, record, m) == first_spell(inputs, record, n),
    decreases m,
{
    if n < m {
        first_spell_stays(inputs, record, n, (m - 1) as nat);
    }
}

fn find_first_spell(inputs: &Vec<InputRecord>, record: &InputRecord, n: usize) -> (r: Option<usize>)
    requires
        n <= inputs@.len(),
    ensures
        first_spell(inputs@, *record, n as nat) == match r {
            Some(i) => Some(i as nat),
            None => None,
        },
        r matches Some(i) ==> i < n,
{
    let mut i: usize = 0;
    while i < n
        invariant
            i <= n <= inputs@.len(),
            first_spell(inputs@, *record, i as nat) is None,
        decreases n - i,
    {
        let other = &inputs[i];
        if same(other.name.as_str(), record.name.as_str()) && same(
            other.entity_id.as_str(),
            record.entity_id.as_str(),
        ) && other.interval.start.same_day(&record.interval.start) {
            proof {
                assert(first_spell(inputs@, *record, (i + 1) as nat) == Some(i as nat));
                first_spell_stays(inputs@, *record, (i + 1) as nat, n as nat);
            }
            return Some(i);
        }
        i = i + 1;
    }
    None
}

/// Rejects facts that are stated differently from the same day on. Of records that cover
/// a period the one with the latest start counts, so that for such facts only the order of
/// the records would decide.
pub fn validate_input_spells(data: &DataSet) -> (r: Result<(), EvalError>)
    ensures
        outcome(r) == match contradicted_spell(data.inputs@, data.inputs@.len()) {
            None => Ok(()),
            Some(i) => Err(
                ErrorView::AmbiguousInput {
                    name: data.inputs@[i as int].name@,
                    entity_id: data.inputs@[i as int].entity_id@,
                    effective_from: data.inputs@[i as int].interval.start,
                },
            ),
        },
{
    let inputs = &data.inputs;
    let mut i: usize = 0;
    while i < inputs.len()
        invariant
            i <= inputs@.len(),
            *inputs == data.inputs,
            contradicted_spell(inputs@, i as nat) is None,
        decreases inputs@.len() - i,
    {
        let record = &inputs[i];
        if let Some(j) = find_first_spell(inputs, record, i) {
            if !inputs[j].value.equal_to(&record.value) {
                proof {
                    assert(contradicted_spell(inputs@, (i + 1) as nat) == Some(i as nat));
                    contradicted_stays(inputs@, (i + 1) as nat, inputs@.len());
                }
                return Err(
                    EvalError::AmbiguousInput {
                        name: record.name.clone(),
                        entity_id: record.entity_id.clone(),
                        effective_from: record.interval.start,
                    },
                );
            }
        }
        i = i + 1;
    }
    Ok(())
}

proof fn decimals_agree(a: Decimal, b: Decimal, c: Decimal)
    requires
        a.equals(b),
        a.equals(c),
    ensures
        b.equals(c),
{
    let (x, y, z) = (a.mantissa(), b.mantissa(), c.mantissa());
    let (p, q, s) = (
        pow10(a.places()) as int,
        pow10(b.places()) as int,
        pow10(c.places()) as int,
    );
    pow10_positive(a.places());
    assert(x * q == y * p);
    assert(x * s == z * p);
    assert(p * (y * s) == p * (z * q)) by (nonlinear_arith)
        requires
            x * q == y * p,
            x * s == z * p,
    ;
    assert(y * s == z * q) by (nonlinear_arith)
        requires
            p > 0,
            p * (y * s) == p * (z * q),
    ;
}

proof fn values_agree(a: ScalarValue, b: ScalarValue, c: ScalarValue)
    requires
        a.equals(b),
        a.equals(c),
    ensures
        b.equals(c),
{
    if let (ScalarValue::Decimal(x), ScalarValue::Decimal(y), ScalarValue::Decimal(z)) = (a, b, c) {
        decimals_agree(x, y, z);
    }
}

pub proof fn value_equals_itself(a: ScalarValue)
    ensures
        a.equals(a),
{
}

/// The first record of a spell is one of it, and the spell's own first.
proof fn first_spell_meaning(inputs: Seq<InputRecord>, record: InputRecord, n: nat)
    requires
        n <= inputs.len(),
    ensures
        match first_spell(inputs, record, n) {
            Some(i) => i < n && same_spell(inputs[i as int], record),
            None => forall|j: int| 0 <= j < n ==> !same_spell(#[trigger] inputs[j], record),
        },
    decreases n,
{
    if n > 0 {
        first_spell_meaning(inputs, record, (n - 1) as nat);
    }
}

proof fn first_spell_shared(
    inputs: Seq<InputRecord>,
    a: InputRecord,
    b: InputRecord,
    n: nat,
)
    requires
        n <= inputs.len(),
        same_spell(a, b),
    ensures
        first_spell(inputs, a, n) == first_spell(inputs, b, n),
    decreases n,
{
    if n > 0 {
        first_spell_shared(inputs, a, b, (n - 1) as nat);
    }
}

/// Every record agrees with the first of its spell.
proof fn agrees_with_first(inputs: Seq<InputRecord>, n: nat, i: int)
    requires
        0 <= i < n <= inputs.len(),
        contradicted_spell(inputs, n) is None,
    ensures
        match first_spell(inputs, inputs[i], n) {
            Some(j) => inputs[j as int].value.equals(inputs[i].value),
            None => false,
        },
    decreases n,
{
    first_spell_meaning(inputs, inputs[i], n);
    assert(same_spell(inputs[i], inputs[i]));
    if i == n - 1 {
        first_spell_meaning(inputs, inputs[i], (n - 1) as nat);
        if first_spell(inputs, inputs[i], (n - 1) as nat) is None {
            value_equals_itself(inputs[i].value);
        }
    } else {
        agrees_with_first(inputs, (n - 1) as nat, i);
    }
}

/// Records that agree never leave a fact ambiguous.
pub proof fn agreeing_spells_never_conflict(
    inputs: Seq<InputRecord>,
    name: Seq<char>,
    entity_id: Seq<char>,
    period: PeriodView,
    chosen: nat,
)
    requires
        spells_agree(inputs),
        chosen < inputs.len(),
        input_covers(inputs[chosen as int], name, entity_id, period),
    ensures
        !input_conflicts(inputs, name, entity_id, period, chosen),
{
    let c = inputs[chosen as int];
    assert forall|j: int|
        0 <= j < inputs.len() && input_covers(#[trigger] inputs[j], name, entity_id, period)
            && inputs[j].interval.start == c.interval.start implies inputs[j].value.equals(
        c.value,
    ) by {
        first_spell_shared(inputs, inputs[j], c, inputs.len());
        agrees_with_first(inputs, inputs.len(), j);
        agrees_with_first(inputs, inputs.len(), chosen as int);
        let f = first_spell(inputs, c, inputs.len())->Some_0;
        values_agree(inputs[f as int].value, inputs[j].value, c.value);
    }
}

/// The place of the record of a fact.
pub open spec fn fact_at(records: Seq<InputRecord>, name: Seq<char>, entity_id: Seq<char>, n: nat) -> Option<
    nat,
>
    decreases n,
{
    if n == 0 || n > records.len() {
        None
    } else {
        match fact_at(records, name, entity_id, (n - 1) as nat) {
            Some(i) => Some(i),
            None => if records[n - 1].name@ == name && records[n - 1].entity_id@ == entity_id {
                Some((n - 1) as nat)
            } else {
                None
            },
        }
    }
}

/// The records of the first `n` that state facts over a period: for each fact the first of
/// those with the latest start, in the order in which facts were first stated.
pub open spec fn resolved_inputs(inputs: Seq<InputRecord>, period: PeriodView, n: nat) -> Seq<
    InputRecord,
>
    decreases n,
{
    if n == 0 || n > inputs.len() {
        Seq::empty()
    } else {
        let before = resolved_inputs(inputs, period, (n - 1) as nat);
        let record = inputs[n - 1];
        if !record.interval.covers(period) {
            before
        } else {
            match fact_at(before, record.name@, record.entity_id@, before.len()) {
                Some(k) => if record.interval.start.number()
                    > before[k as int].interval.start.number() {
                    before.update(k as int, record)
                } else {
                    before
                },
                None => before.push(record),
            }
        }
    }
}

proof fn fact_stays(
    records: Seq<InputRecord>,
    name: Seq<char>,
    entity_id: Seq<char>,
    n: nat,
    m: nat,
)
    requires
        n <= m <= records.len(),
        fact_at(records, name, entity_id, n) is Some,
    ensures
        fact_at(records, name, entity_id, m) == fact_at(records, name, entity_id, n),
    decreases m,
{
    if n < m {
        fact_stays(records, name, entity_id, n, (m - 1) as nat);
    }
}

fn find_fact(records: &Vec<InputRecord>, name: &str, entity_id: &str) -> (r: Option<usize>)
    ensures
        fact_at(records@, name@, entity_id@, records@.len()) == match r {
            Some(i) => Some(i as nat),
            None => None,
        },
        r matches Some(i) ==> i < records@.len(),
{
    let mut i: usize = 0;
    while i < records.len()
        invariant
            i <= records@.len(),
            fact_at(records@, name@, entity_id@, i as nat) is None,
        decreases records@.len() - i,
    {
        if same(records[i].name.as_str(), name) && same(records[i].entity_id.as_str(), entity_id) {
            proof {
                assert(fact_at(records@, name@, entity_id@, (i + 1) as nat) == Some(i as nat));
                fact_stays(records@, name@, entity_id@, (i + 1) as nat, records@.len());
            }
            return Some(i);
        }
        i = i + 1;
    }
    None
}

impl InputRecord {
    pub fn duplicate(&self) -> (r: InputRecord)
        ensures
            r == *self,
    {
        InputRecord {
            name: self.name.clone(),
            entity: self.entity.clone(),
            entity_id: self.entity_id.clone(),
            interval: self.interval,
            value: self.value.duplicate(),
        }
    }
}

/// The facts that hold over a period, with one record for each.
pub fn resolve_inputs_for_period(data: DataSet, period: &Period) -> (r: DataSet)
    ensures
        r.inputs@ == resolved_inputs(data.inputs@, period@, data.inputs@.len()),
        r.relations == data.relations,
{
    let mut inputs: Vec<InputRecord> = Vec::new();
    let records = &data.inputs;
    let mut i: usize = 0;
    while i < records.len()
        invariant
            i <= records@.len(),
            *records == data.inputs,
            inputs@ == resolved_inputs(records@, period@, i as nat),
        decreases records@.len() - i,
    {
        let record = &records[i];
        if record.interval.contains_period(period) {
            match find_fact(&inputs, record.name.as_str(), record.entity_id.as_str()) {
                Some(k) => {
                    if inputs[k].interval.start.before(&record.interval.start) {
                        inputs.set(k, record.duplicate());
                    }
                },
                None => {
                    inputs.push(record.duplicate());
                },
            }
        }
        i = i + 1;
    }
    DataSet { inputs, relations: data.relations }
}

proof fn fact_at_meaning(records: Seq<InputRecord>, name: Seq<char>, entity_id: Seq<char>, n: nat)
    requires
        n <= records.len(),
    ensures
        match fact_at(records, name, entity_id, n) {
            Some(i) => i < n && records[i as int].name@ == name && records[i as int].entity_id@
                == entity_id,
            None => forall|j: int|
                0 <= j < n ==> !((#[trigger] records[j]).name@ == name && records[j].entity_id@
                    == entity_id),
        },
    decreases n,
{
    if n > 0 {
        fact_at_meaning(records, name, entity_id, (n - 1) as nat);
    }
}

/// Whether no fact has two records, and all cover the period.
pub open spec fn is_resolved(records: Seq<InputRecord>, period: PeriodView) -> bool {
    &&& forall|i: int, j: int|
        0 <= i < j < records.len() ==> !((#[trigger] records[i]).name@ == (
        #[trigger] records[j]).name@ && records[i].entity_id@ == records[j].entity_id@)
    &&& forall|i: int| 0 <= i < records.len() ==> (#[trigger] records[i]).interval.covers(period)
}

/// The record that is kept for a fact is the one that counts.
proof fn resolved_keeps_choice(
    inputs: Seq<InputRecord>,
    name: Seq<char>,
    entity_id: Seq<char>,
    period: PeriodView,
    n: nat,
)
    requires
        n <= inputs.len(),
    ensures
        is_resolved(resolved_inputs(inputs, period, n), period),
        input_choice(inputs, name, entity_id, period, n) matches Some(i) ==> i < n,
        match input_choice(inputs, name, entity_id, period, n) {
            Some(i) => exists|k: int|
                0 <= k < resolved_inputs(inputs, period, n).len()
                    && #[trigger] resolved_inputs(inputs, period, n)[k] == inputs[i as int]
                    && inputs[i as int].name@ == name && inputs[i as int].entity_id@ == entity_id,
            None => forall|k: int|
                0 <= k < resolved_inputs(inputs, period, n).len() ==> !((
                #[trigger] resolved_inputs(inputs, period, n)[k]).name@ == name && resolved_inputs(
                    inputs,
                    period,
                    n,
                )[k].entity_id@ == entity_id),
        },
    decreases n,
{
    if n > 0 {
        resolved_keeps_choice(inputs, name, entity_id, period, (n - 1) as nat);
        let before = resolved_inputs(inputs, period, (n - 1) as nat);
        let after = resolved_inputs(inputs, period, n);
        let record = inputs[n - 1];
        let earlier = input_choice(inputs, name, entity_id, period, (n - 1) as nat);
        if record.interval.covers(period) {
            fact_at_meaning(before, record.name@, record.entity_id@, before.len());
            let kept = fact_at(before, record.name@, record.entity_id@, before.len());
            let is_fact = record.name@ == name && record.entity_id@ == entity_id;
            if earlier is Some {
                let i = earlier->Some_0;
                let k = choose|k: int|
                    0 <= k < before.len() && #[trigger] before[k] == inputs[i as int]
                        && inputs[i as int].name@ == name && inputs[i as int].entity_id@
                        == entity_id;
                assert(before[k].name@ == name);
                if is_fact {
                    assert(kept is Some);
                    let m = kept->Some_0 as int;
                    assert(m == k);
                    assert(after[k] == before[k] || after[k] == record);
                } else if kept is Some {
                    let m = kept->Some_0 as int;
                    assert(m != k);
                    assert(after[k] == before[k]);
                } else {
                    assert(after[k] == before[k]);
                }
            } else if is_fact {
                assert(kept is None);
                assert(after[before.len() as int] == record);
            }
        }
    }
}

/// With one record per fact, that record counts and nothing contradicts it.
proof fn resolved_choice(
    records: Seq<InputRecord>,
    name: Seq<char>,
    entity_id: Seq<char>,
    period: PeriodView,
    n: nat,
)
    requires
        is_resolved(records, period),
        n <= records.len(),
    ensures
        match input_choice(records, name, entity_id, period, n) {
            Some(i) => i < n && records[i as int].name@ == name && records[i as int].entity_id@
                == entity_id,
            None => forall|j: int|
                0 <= j < n ==> !((#[trigger] records[j]).name@ == name && records[j].entity_id@
                    == entity_id),
        },
    decreases n,
{
    if n > 0 {
        resolved_choice(records, name, entity_id, period, (n - 1) as nat);
        assert(records[n - 1].interval.covers(period));
    }
}

/// Records that are all among agreeing ones agree.
proof fn agreement_is_of_pairs(a: Seq<InputRecord>, b: Seq<InputRecord>, n: nat)
    requires
        n <= b.len(),
        spells_agree(a),
        forall|x: InputRecord| #[trigger] b.contains(x) ==> a.contains(x),
    ensures
        contradicted_spell(b, n) is None,
    decreases n,
{
    if n > 0 {
        agreement_is_of_pairs(a, b, (n - 1) as nat);
        let record = b[n - 1];
        first_spell_meaning(b, record, (n - 1) as nat);
        if let Some(f) = first_spell(b, record, (n - 1) as nat) {
            assert(b.contains(record) && b.contains(b[f as int]));
            let i = choose|i: int| 0 <= i < a.len() && a[i] == record;
            let j = choose|j: int| 0 <= j < a.len() && a[j] == b[f as int];
            first_spell_shared(a, a[i], a[j], a.len());
            agrees_with_first(a, a.len(), i);
            agrees_with_first(a, a.len(), j);
            let g = first_spell(a, a[i], a.len())->Some_0;
            values_agree(a[g as int].value, a[j].value, a[i].value);
            values_agree(a[g as int].value, a[i].value, a[j].value);
        }
    }
}

/// The record that counts covers the period, and none that does starts later.
proof fn choice_is_latest(
    inputs: Seq<InputRecord>,
    name: Seq<char>,
    entity_id: Seq<char>,
    period: PeriodView,
    n: nat,
)
    requires
        n <= inputs.len(),
    ensures
        match input_choice(inputs, name, entity_id, period, n) {
            Some(i) => i < n && is_latest(inputs, name, entity_id, period, inputs[i as int], n),
            None => forall|j: int|
                0 <= j < n ==> !input_covers(#[trigger] inputs[j], name, entity_id, period),
        },
    decreases n,
{
    if n > 0 {
        choice_is_latest(inputs, name, entity_id, period, (n - 1) as nat);
    }
}

/// Whether a record states a fact over a period, and none of the first `n` records that do so
/// starts later.
pub open spec fn is_latest(
    inputs: Seq<InputRecord>,
    name: Seq<char>,
    entity_id: Seq<char>,
    period: PeriodView,
    record: InputRecord,
    n: nat,
) -> bool {
    &&& input_covers(record, name, entity_id, period)
    &&& forall|j: int|
        0 <= j < n && input_covers(#[trigger] inputs[j], name, entity_id, period)
            ==> inputs[j].interval.start.number() <= record.interval.start.number()
}

/// Resolved inputs hold one record for each fact that is stated over the period, and none for
/// any other: one of the records that state it, with the latest start.
pub proof fn resolution_keeps_one_record(
    inputs: Seq<InputRecord>,
    period: PeriodView,
    name: Seq<char>,
    entity_id: Seq<char>,
)
    ensures
        ({
            let records = resolved_inputs(inputs, period, inputs.len());
            if exists|j: int|
                0 <= j < inputs.len() && input_covers(#[trigger] inputs[j], name, entity_id, period) {
                exists|k: int|
                    0 <= k < records.len() && is_latest(
                        inputs,
                        name,
                        entity_id,
                        period,
                        #[trigger] records[k],
                        inputs.len(),
                    ) && inputs.contains(records[k]) && forall|i: int|
                        0 <= i < records.len() && (#[trigger] records[i]).name@ == name
                            && records[i].entity_id@ == entity_id ==> i == k
            } else {
                forall|i: int|
                    0 <= i < records.len() ==> !((#[trigger] records[i]).name@ == name
                        && records[i].entity_id@ == entity_id)
            }
        }),
{
    let records = resolved_inputs(inputs, period, inputs.len());
    resolved_keeps_choice(inputs, name, entity_id, period, inputs.len());
    choice_is_latest(inputs, name, entity_id, period, inputs.len());
    if let Some(c) = input_choice(inputs, name, entity_id, period, inputs.len()) {
        let k = choose|k: int|
            0 <= k < records.len() && #[trigger] records[k] == inputs[c as int];
        assert(inputs.contains(records[k]));
        assert(is_latest(inputs, name, entity_id, period, records[k], inputs.len()));
        assert forall|i: int|
            0 <= i < records.len() && (#[trigger] records[i]).name@ == name
                && records[i].entity_id@ == entity_id implies i == k by {
            assert(records[k].name@ == name);
        }
    }
}

/// Whether two answers are values that are equal, or the same error.
pub open spec fn alike(
    a: Result<ScalarValue, ErrorView>,
    b: Result<ScalarValue, ErrorView>,
) -> bool {
    match (a, b) {
        (Ok(v), Ok(w)) => v.equals(w),
        (Err(e), Err(f)) => e == f,
        _ => false,
    }
}

/// The order of the records changes no value: facts whose records agree have in every order
/// values that are equal, where a number may be written with other zeros at its end.
pub proof fn order_of_records_changes_no_value(
    cx: Facts,
    cy: Facts,
    name: Seq<char>,
    entity_id: Seq<char>,
)
    requires
        spells_agree(cx.data.inputs),
        cx.period == cy.period,
        cx.data.inputs.to_multiset() == cy.data.inputs.to_multiset(),
    ensures
        alike(input_value(cx, name, entity_id), input_value(cy, name, entity_id)),
{
    broadcast use vstd::seq_lib::group_to_multiset_ensures;

    let (a, b, period) = (cx.data.inputs, cy.data.inputs, cx.period);
    assert forall|x: InputRecord| #[trigger] b.contains(x) implies a.contains(x) by {
        assert(b.to_multiset().count(x) > 0);
    }
    agreement_is_of_pairs(a, b, b.len());
    choice_is_latest(a, name, entity_id, period, a.len());
    choice_is_latest(b, name, entity_id, period, b.len());
    let (i, j) = (
        input_choice(a, name, entity_id, period, a.len()),
        input_choice(b, name, entity_id, period, b.len()),
    );
    if let Some(m) = i {
        let record = a[m as int];
        assert(a.contains(record));
        assert(a.to_multiset().count(record) > 0);
        assert(b.contains(record));
        let at = choose|at: int| 0 <= at < b.len() && b[at] == record;
        assert(input_covers(b[at], name, entity_id, period));
        assert(j is Some);
        let other = b[j->0 as int];
        assert(b.contains(other));
        assert(b.to_multiset().count(other) > 0);
        assert(a.contains(other));
        let from = choose|from: int| 0 <= from < a.len() && a[from] == other;
        assert(input_covers(a[from], name, entity_id, period));
        assert(other.interval.start.number() == record.interval.start.number());
        Date::of_number_of(other.interval.start);
        Date::of_number_of(record.interval.start);
        agreeing_spells_never_conflict(a, name, entity_id, period, m);
        agreeing_spells_never_conflict(b, name, entity_id, period, j->0);
        assert(!input_conflicts(b, name, entity_id, period, j->0));
        assert(input_covers(b[at], name, entity_id, period) && b[at].interval.start
            == other.interval.start);
    } else if let Some(m) = j {
        let other = b[m as int];
        assert(b.contains(other));
        assert(b.to_multiset().count(other) > 0);
        assert(a.contains(other));
        let from = choose|from: int| 0 <= from < a.len() && a[from] == other;
        assert(input_covers(a[from], name, entity_id, period));
    }
}

/// Resolution leaves the value of every input as it is, where the records agree.
pub proof fn resolution_keeps_values(
    cx: Facts,
    resolved: Facts,
    name: Seq<char>,
    entity_id: Seq<char>,
)
    requires
        spells_agree(cx.data.inputs),
        resolved.period == cx.period,
        resolved.data.inputs == resolved_inputs(
            cx.data.inputs,
            cx.period,
            cx.data.inputs.len(),
        ),
    ensures
        input_value(resolved, name, entity_id) == input_value(cx, name, entity_id),
{
    let inputs = cx.data.inputs;
    let records = resolved.data.inputs;
    let period = cx.period;
    resolved_keeps_choice(inputs, name, entity_id, period, inputs.len());
    resolved_choice(records, name, entity_id, period, records.len());
    match input_choice(inputs, name, entity_id, period, inputs.len()) {
        Some(i) => {
            let k = choose|k: int|
                0 <= k < records.len() && #[trigger] records[k] == inputs[i as int]
                    && inputs[i as int].name@ == name && inputs[i as int].entity_id@ == entity_id;
            assert(records[k].name@ == name && records[k].entity_id@ == entity_id);
            let c = input_choice(records, name, entity_id, period, records.len())->Some_0;
            assert(c == k);
            assert(records[k].interval.covers(period));
            agreeing_spells_never_conflict(inputs, name, entity_id, period, i);
            value_equals_itself(records[k].value);
            assert forall|j: int|
                0 <= j < records.len() && input_covers(
                    #[trigger] records[j],
                    name,
                    entity_id,
                    period,
                ) implies j == k by {}
        },
        None => {},
    }
}

} // verus!
