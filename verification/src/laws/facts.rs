//! Laws of what the records say: inputs and relations.
use super::place::Place;
use crate::decimal::{decimal_sum, Decimal};
use crate::error::ErrorView;
use crate::model::{
    InputRecord, JudgmentExpr, JudgmentOutcome, PeriodView, RelatedValueRef, RelationDerivation,
    RelationRecord, RelationSchema, ScalarExpr, ScalarValue,
};
use crate::semantics::{
    count_run, input_choice, input_conflicts, input_value, judgment_run_is_step, members_run,
    related_run, rule_scalar, scalar_run_is_step, stated_related, total_run, Facts,
    RelationContext,
};
use crate::text::{ascending, sorted_texts_meaning, text_lt_irreflexive};
use vstd::prelude::*;

verus! {

/// Whether an input record says something of an entity for the whole of a period: it begins no
/// later and ends no earlier.
pub open spec fn speaks_of(
    record: InputRecord,
    name: Seq<char>,
    ent: Seq<char>,
    period: PeriodView,
) -> bool {
    &&& record.name@ == name
    &&& record.entity_id@ == ent
    &&& record.interval.start.number() <= period.start.number()
    &&& period.end.number() <= record.interval.end.number()
}

/// Whether a record that speaks of an entity is one than which none that does begins later.
pub open spec fn speaks_last(cx: Facts, name: Seq<char>, ent: Seq<char>, i: int) -> bool {
    &&& 0 <= i < cx.data.inputs.len()
    &&& speaks_of(cx.data.inputs[i], name, ent, cx.period)
    &&& forall|j: int|
        0 <= j < cx.data.inputs.len() && speaks_of(
            #[trigger] cx.data.inputs[j],
            name,
            ent,
            cx.period,
        ) ==> cx.data.inputs[j].interval.start.number()
            <= cx.data.inputs[i].interval.start.number()
}

proof fn choice_speaks_last(
    inputs: Seq<InputRecord>,
    name: Seq<char>,
    ent: Seq<char>,
    period: PeriodView,
    n: nat,
)
    requires
        n <= inputs.len(),
    ensures
        match input_choice(inputs, name, ent, period, n) {
            Some(i) => {
                &&& i < n
                &&& speaks_of(inputs[i as int], name, ent, period)
                &&& forall|j: int|
                    0 <= j < n && speaks_of(#[trigger] inputs[j], name, ent, period)
                        ==> inputs[j].interval.start.number()
                        <= inputs[i as int].interval.start.number()
            },
            None => forall|j: int|
                0 <= j < n ==> !speaks_of(#[trigger] inputs[j], name, ent, period),
        },
    decreases n,
{
    if n > 0 {
        choice_speaks_last(inputs, name, ent, period, (n - 1) as nat);
    }
}

/// Whether two values are the same: of one kind, and decimals by value.
pub open spec fn same_values(a: ScalarValue, b: ScalarValue) -> bool {
    match (a, b) {
        (ScalarValue::Bool(x), ScalarValue::Bool(y)) => x == y,
        (ScalarValue::Integer(x), ScalarValue::Integer(y)) => x == y,
        (ScalarValue::Text(x), ScalarValue::Text(y)) => x@ == y@,
        (ScalarValue::Date(x), ScalarValue::Date(y)) => x.number() == y.number(),
        (ScalarValue::Decimal(x), ScalarValue::Decimal(y)) => x.mantissa() * crate::decimal::pow10(
            y.places(),
        ) == y.mantissa() * crate::decimal::pow10(x.places()),
        _ => false,
    }
}

/// An input is missing if and only if no record speaks of it for the whole period. Otherwise, where
/// the records that speak last agree, its value is what one of them says, and every record that
/// speaks last says the same; where they do not agree it is ambiguous.
pub proof fn the_record_that_speaks_last_is_read(cx: Facts, name: Seq<char>, ent: Seq<char>)
    ensures
        input_value(cx, name, ent) is Err && input_value(cx, name, ent)->Err_0 is MissingInput
            <==> forall|j: int|
            0 <= j < cx.data.inputs.len() ==> !speaks_of(
                #[trigger] cx.data.inputs[j],
                name,
                ent,
                cx.period,
            ),
        match input_value(cx, name, ent) {
            Ok(value) => {
                &&& exists|i: int| #[trigger]
                    speaks_last(cx, name, ent, i) && cx.data.inputs[i].value == value
                &&& forall|i: int| #[trigger]
                    speaks_last(cx, name, ent, i) ==> same_values(cx.data.inputs[i].value, value)
            },
            Err(ErrorView::MissingInput { name: n, entity_id, period_start, period_end }) => n
                == name && entity_id == ent && period_start == cx.period.start && period_end
                == cx.period.end,
            Err(ErrorView::AmbiguousInput { name: n, entity_id, effective_from }) => {
                &&& n == name && entity_id == ent
                &&& exists|i: int, j: int|
                    #![trigger speaks_last(cx, name, ent, i), speaks_last(cx, name, ent, j)]
                    {
                        &&& speaks_last(cx, name, ent, i)
                        &&& speaks_last(cx, name, ent, j)
                        &&& !same_values(cx.data.inputs[i].value, cx.data.inputs[j].value)
                        &&& cx.data.inputs[i].interval.start == effective_from
                    }
            },
            Err(_) => false,
        },
{
    let inputs = cx.data.inputs;
    choice_speaks_last(inputs, name, ent, cx.period, inputs.len());
    if let Some(i) = input_choice(inputs, name, ent, cx.period, inputs.len()) {
        assert(speaks_last(cx, name, ent, i as int));
        assert forall|j: int| #[trigger] speaks_last(cx, name, ent, j) implies inputs[j].interval.start
            == inputs[i as int].interval.start by {
            assert(speaks_of(inputs[j], name, ent, cx.period));
            crate::date::Date::of_number_of(inputs[j].interval.start);
            crate::date::Date::of_number_of(inputs[i as int].interval.start);
        }
        if input_conflicts(inputs, name, ent, cx.period, i) {
            let j = choose|j: int|
                0 <= j < inputs.len() && crate::semantics::input_covers(
                    #[trigger] inputs[j],
                    name,
                    ent,
                    cx.period,
                ) && inputs[j].interval.start == inputs[i as int].interval.start
                    && !inputs[j].value.equals(inputs[i as int].value);
            assert(speaks_last(cx, name, ent, j));
            dates_by_number(inputs[i as int].value, inputs[j].value);
        } else {
            assert forall|j: int| #[trigger] speaks_last(cx, name, ent, j) implies same_values(
                inputs[j].value,
                inputs[i as int].value,
            ) by {
                assert(speaks_of(inputs[j], name, ent, cx.period));
                dates_by_number(inputs[j].value, inputs[i as int].value);
            }
        }
    }
}

proof fn dates_by_number(a: ScalarValue, b: ScalarValue)
    ensures
        same_values(a, b) <==> a.equals(b),
        same_values(a, b) <==> b.equals(a),
{
    if let (ScalarValue::Date(x), ScalarValue::Date(y)) = (a, b) {
        crate::date::Date::of_number_of(x);
        crate::date::Date::of_number_of(y);
    }
}

/// A formula that names an input has its value for the entity, and with a default has the default
/// if and only if the input is missing.
pub proof fn an_input_is_read_for_the_entity(at: Place, name: String, default: ScalarValue)
    ensures
        forall|v: ScalarValue| #[trigger]
            at.gives(ScalarExpr::Input(name), v) <==> input_value(at.cx, name@, at.ent) == Ok::<
                ScalarValue,
                ErrorView,
            >(v),
        forall|error: ErrorView| #[trigger]
            at.fails(ScalarExpr::Input(name), error) <==> input_value(at.cx, name@, at.ent) == Err::<
                ScalarValue,
                ErrorView,
            >(error),
        ({
            let e = ScalarExpr::InputOrElse { name, default };
            match input_value(at.cx, name@, at.ent) {
                Ok(v) => at.gives(e, v),
                Err(ErrorView::MissingInput { .. }) => at.gives(e, default),
                Err(error) => at.fails(e, error),
            }
        }),
{
    scalar_run_is_step(at.cx, at.fuel, ScalarExpr::Input(name), at.ent, at.context);
    let e = ScalarExpr::InputOrElse { name, default };
    scalar_run_is_step(at.cx, at.fuel, e, at.ent, at.context);
}

/// Whether a record states for the whole of a period that an id is related to an entity, in the
/// slots that are asked for.
pub open spec fn relates(
    record: RelationRecord,
    relation: Seq<char>,
    current_slot: nat,
    related_slot: nat,
    ent: Seq<char>,
    id: Seq<char>,
    period: PeriodView,
) -> bool {
    &&& record.name@ == relation
    &&& current_slot < record.tuple@.len()
    &&& related_slot < record.tuple@.len()
    &&& record.tuple@[current_slot as int]@ == ent
    &&& record.tuple@[related_slot as int]@ == id
    &&& record.interval.start.number() <= period.start.number()
    &&& period.end.number() <= record.interval.end.number()
}

/// Whether some record states so.
pub open spec fn is_related(
    cx: Facts,
    relation: Seq<char>,
    current_slot: nat,
    related_slot: nat,
    ent: Seq<char>,
    id: Seq<char>,
) -> bool {
    exists|i: int|
        0 <= i < cx.data.relations.len() && relates(
            #[trigger] cx.data.relations[i],
            relation,
            current_slot,
            related_slot,
            ent,
            id,
            cx.period,
        )
}

proof fn stated_are_related(
    cx: Facts,
    relation: Seq<char>,
    current_slot: nat,
    related_slot: nat,
    ent: Seq<char>,
    n: nat,
)
    requires
        n <= cx.data.relations.len(),
    ensures
        forall|id: Seq<char>| #[trigger]
            stated_related(cx, relation, current_slot, related_slot, ent, n).contains(id)
                <==> exists|i: int|
                0 <= i < n && relates(
                    #[trigger] cx.data.relations[i],
                    relation,
                    current_slot,
                    related_slot,
                    ent,
                    id,
                    cx.period,
                ),
    decreases n,
{
    if n > 0 {
        let m = (n - 1) as nat;
        stated_are_related(cx, relation, current_slot, related_slot, ent, m);
        let before = stated_related(cx, relation, current_slot, related_slot, ent, m);
        let all = stated_related(cx, relation, current_slot, related_slot, ent, n);
        let last = cx.data.relations[n - 1];
        assert forall|id: Seq<char>| #[trigger] all.contains(id) <==> exists|i: int|
            0 <= i < n && relates(
                #[trigger] cx.data.relations[i],
                relation,
                current_slot,
                related_slot,
                ent,
                id,
                cx.period,
            ) by {
            if all.contains(id) {
                let k = all.index_of(id);
                if k < before.len() {
                    assert(before[k] == id);
                    assert(before.contains(id));
                } else {
                    assert(relates(
                        cx.data.relations[n - 1],
                        relation,
                        current_slot,
                        related_slot,
                        ent,
                        id,
                        cx.period,
                    ));
                }
            }
            if exists|i: int|
                0 <= i < n && relates(
                    #[trigger] cx.data.relations[i],
                    relation,
                    current_slot,
                    related_slot,
                    ent,
                    id,
                    cx.period,
                ) {
                let i = choose|i: int|
                    0 <= i < n && relates(
                        #[trigger] cx.data.relations[i],
                        relation,
                        current_slot,
                        related_slot,
                        ent,
                        id,
                        cx.period,
                    );
                if i < m {
                    assert(before.contains(id));
                    let k = before.index_of(id);
                    assert(all[k] == id);
                } else {
                    assert(all[all.len() - 1] == id);
                }
            }
        }
    }
}

/// The ids that a relation without derivation relates to an entity are those, each once, that some
/// record states with the entity and the id in the two slots for the whole of the period; they come
/// in ascending order. A record that does not cover the period relates nothing.
pub proof fn ids_are_related_by_records_that_cover_the_period(
    cx: Facts,
    fuel: nat,
    relation: Seq<char>,
    current_slot: nat,
    related_slot: nat,
    ent: Seq<char>,
    schema: RelationSchema,
)
    requires
        cx.program.relation(relation) == Some(schema),
        schema.derivation is None,
        current_slot < schema.arity,
        related_slot < schema.arity,
    ensures
        related_run(cx, fuel, relation, current_slot, related_slot, ent) matches Some(run)
            && run.value matches Ok(ids) && {
            &&& forall|id: Seq<char>| #[trigger]
                ids.contains(id) <==> is_related(cx, relation, current_slot, related_slot, ent, id)
            &&& ids.no_duplicates()
            &&& ascending(ids)
        },
{
    let n = cx.data.relations.len();
    stated_are_related(cx, relation, current_slot, related_slot, ent, n);
    let stated = stated_related(cx, relation, current_slot, related_slot, ent, n);
    sorted_texts_meaning(stated);
    let ids = crate::text::sorted_texts(stated);
    assert forall|i: int, j: int| 0 <= i < ids.len() && 0 <= j < ids.len() && i != j implies ids[i]
        != ids[j] by {
        text_lt_irreflexive(ids[i]);
        if i < j {
            assert(crate::text::text_lt(ids[i], ids[j]));
        } else {
            assert(crate::text::text_lt(ids[j], ids[i]));
        }
    }
}

/// A relation that is not declared, and slots beyond its arity, are errors.
pub proof fn relations_are_read_within_their_arity(
    cx: Facts,
    fuel: nat,
    relation: Seq<char>,
    current_slot: nat,
    related_slot: nat,
    ent: Seq<char>,
)
    ensures
        match cx.program.relation(relation) {
            None => related_run(
                cx,
                fuel,
                relation,
                current_slot,
                related_slot,
                ent,
            ) matches Some(run) && run.value == Err::<Seq<Seq<char>>, ErrorView>(
                ErrorView::UnknownRelation(relation),
            ),
            Some(schema) => current_slot >= schema.arity || related_slot >= schema.arity
                ==> (related_run(cx, fuel, relation, current_slot, related_slot, ent) matches Some(
                run,
            ) && run.value is Err && run.value->Err_0 is TypeMismatch),
        },
{
}

/// How many of the first `n` ids a judgment keeps.
proof fn counted_are_kept(
    cx: Facts,
    fuel: nat,
    e: ScalarExpr,
    w: JudgmentExpr,
    ids: Seq<Seq<char>>,
    kept: Set<int>,
    n: nat,
)
    requires
        n <= ids.len(),
        e matches ScalarExpr::CountRelated { where_clause, .. } && (where_clause matches Some(b)
            && *b == w),
        kept == Set::new(
            |i: int|
                0 <= i < n && (Place { cx, fuel, ent: ids[i], context: None }).holds(w),
        ),
        forall|i: int|
            0 <= i < n ==> {
                let at = Place { cx, fuel, ent: #[trigger] ids[i], context: None };
                at.holds(w) || at.goes_on(w, JudgmentOutcome::Holds)
            },
    ensures
        kept.finite(),
        count_run(cx, fuel, e, ids, n) matches Some(run) && run.value == Ok::<nat, ErrorView>(
            kept.len(),
        ),
    decreases n,
{
    if n > 0 {
        let m = (n - 1) as nat;
        let before = Set::new(
            |i: int|
                0 <= i < m && (Place { cx, fuel, ent: ids[i], context: None }).holds(w),
        );
        counted_are_kept(cx, fuel, e, w, ids, before, m);
        let at = Place { cx, fuel, ent: ids[n - 1], context: None };
        if at.holds(w) {
            assert(kept =~= before.insert(n - 1));
            assert(!before.contains(n - 1));
        } else {
            assert(kept =~= before);
        }
    } else {
        assert(kept =~= Set::empty());
    }
}

proof fn counted_are_all(cx: Facts, fuel: nat, e: ScalarExpr, ids: Seq<Seq<char>>, n: nat)
    requires
        n <= ids.len(),
        e matches ScalarExpr::CountRelated { where_clause: None, .. },
    ensures
        count_run(cx, fuel, e, ids, n) matches Some(run) && run.value == Ok::<nat, ErrorView>(n),
    decreases n,
{
    if n > 0 {
        counted_are_all(cx, fuel, e, ids, (n - 1) as nat);
    }
}

/// A count over a relation without a condition is the number of related ids.
pub proof fn a_count_is_the_number_of_related_ids(
    at: Place,
    relation: String,
    current_slot: usize,
    related_slot: usize,
    ids: Seq<Seq<char>>,
)
    requires
        at.fuel > 0,
        related_run(
            at.cx,
            (at.fuel - 1) as nat,
            relation@,
            current_slot as nat,
            related_slot as nat,
            at.ent,
        ) matches Some(run) && run.value == Ok::<Seq<Seq<char>>, ErrorView>(ids),
        ids.len() <= i64::MAX,
    ensures
        at.gives(
            ScalarExpr::CountRelated { relation, current_slot, related_slot, where_clause: None },
            ScalarValue::Integer(ids.len() as i64),
        ),
{
    let e = ScalarExpr::CountRelated { relation, current_slot, related_slot, where_clause: None };
    scalar_run_is_step(at.cx, at.fuel, e, at.ent, at.context);
    counted_are_all(at.cx, at.fuel, e, ids, ids.len());
}

/// A count over a relation with a condition is the number of related ids for which the condition
/// holds; one that is undetermined is not counted.
pub proof fn a_count_with_a_condition_is_the_number_that_meet_it(
    at: Place,
    relation: String,
    current_slot: usize,
    related_slot: usize,
    w: JudgmentExpr,
    ids: Seq<Seq<char>>,
)
    requires
        at.fuel > 0,
        related_run(
            at.cx,
            (at.fuel - 1) as nat,
            relation@,
            current_slot as nat,
            related_slot as nat,
            at.ent,
        ) matches Some(run) && run.value == Ok::<Seq<Seq<char>>, ErrorView>(ids),
        forall|i: int|
            0 <= i < ids.len() ==> {
                let of = Place { cx: at.cx, fuel: at.fuel, ent: #[trigger] ids[i], context: None };
                of.holds(w) || of.goes_on(w, JudgmentOutcome::Holds)
            },
    ensures
        ({
            let e = ScalarExpr::CountRelated {
                relation,
                current_slot,
                related_slot,
                where_clause: Some(Box::new(w)),
            };
            let meet = Set::new(
                |i: int|
                    0 <= i < ids.len() && (Place {
                        cx: at.cx,
                        fuel: at.fuel,
                        ent: ids[i],
                        context: None,
                    }).holds(w),
            );
            &&& meet.finite()
            &&& meet.len() <= i64::MAX ==> at.gives(e, ScalarValue::Integer(meet.len() as i64))
        }),
{
    let e = ScalarExpr::CountRelated {
        relation,
        current_slot,
        related_slot,
        where_clause: Some(Box::new(w)),
    };
    let meet = Set::new(
        |i: int|
            0 <= i < ids.len() && (Place {
                cx: at.cx,
                fuel: at.fuel,
                ent: ids[i],
                context: None,
            }).holds(w),
    );
    scalar_run_is_step(at.cx, at.fuel, e, at.ent, at.context);
    counted_are_kept(at.cx, at.fuel, e, w, ids, meet, ids.len());
}

/// The number that an aggregation reads of a related id.
pub open spec fn reads_number(
    cx: Facts,
    fuel: nat,
    value: RelatedValueRef,
    id: Seq<char>,
    number: Decimal,
) -> bool {
    let read = match value {
        RelatedValueRef::Input(name) => input_value(cx, name@, id),
        RelatedValueRef::Derived(name) => if fuel > 0 {
            match rule_scalar(cx, (fuel - 1) as nat, name@, id) {
                Some(run) => run.value,
                None => Err(ErrorView::UnknownDerived(name@)),
            }
        } else {
            Err(ErrorView::UnknownDerived(name@))
        },
    };
    ||| read == Ok::<ScalarValue, ErrorView>(ScalarValue::Decimal(number))
    ||| exists|i: i64|
        read == Ok::<ScalarValue, ErrorView>(ScalarValue::Integer(i)) && number == #[trigger]
            Decimal::of_int(i as int)
}

/// Whether totals run from zero over the numbers of the ids that are kept, each added to what came
/// before.
pub open spec fn runs_over_kept(
    totals: Seq<Decimal>,
    numbers: Seq<Decimal>,
    kept: spec_fn(int) -> bool,
) -> bool {
    &&& totals.len() == numbers.len() + 1
    &&& totals[0] == Decimal::zero_value()
    &&& forall|i: int|
        0 <= i < numbers.len() ==> if #[trigger] kept(i) {
            decimal_sum(totals[i], numbers[i]) == Some(totals[i + 1])
        } else {
            totals[i + 1] == totals[i]
        }
}

proof fn total_runs(
    cx: Facts,
    fuel: nat,
    e: ScalarExpr,
    ids: Seq<Seq<char>>,
    numbers: Seq<Decimal>,
    totals: Seq<Decimal>,
    kept: spec_fn(int) -> bool,
    n: nat,
)
    requires
        n <= ids.len(),
        numbers.len() == ids.len(),
        e matches ScalarExpr::SumRelated { value, where_clause, .. } && {
            &&& forall|i: int|
                0 <= i < ids.len() && kept(i) ==> reads_number(
                    cx,
                    fuel,
                    value,
                    #[trigger] ids[i],
                    numbers[i],
                )
            &&& match where_clause {
                None => forall|i: int| 0 <= i < ids.len() ==> #[trigger] kept(i),
                Some(w) => forall|i: int|
                    0 <= i < ids.len() ==> {
                        let of = Place { cx, fuel, ent: ids[i], context: None };
                        if #[trigger] kept(i) {
                            of.holds(*w)
                        } else {
                            of.goes_on(*w, JudgmentOutcome::Holds)
                        }
                    },
            }
        },
        runs_over_kept(totals, numbers, kept),
    ensures
        total_run(cx, fuel, e, ids, n) matches Some(run) && run.value == Ok::<Decimal, ErrorView>(
            totals[n as int],
        ),
    decreases n,
{
    if n > 0 {
        total_runs(cx, fuel, e, ids, numbers, totals, kept, (n - 1) as nat);
        let k = n - 1;
        if let ScalarExpr::SumRelated { value, where_clause, .. } = e {
            if kept(k) {
                assert(reads_number(cx, fuel, value, ids[k], numbers[k]));
                assert(decimal_sum(totals[k], numbers[k]) == Some(totals[n as int]));
                if let RelatedValueRef::Derived(name) = value {
                    assert(fuel > 0);
                    assert(rule_scalar(cx, (fuel - 1) as nat, name@, ids[k]) is Some);
                }
            } else {
                assert(totals[n as int] == totals[k]);
            }
            if let Some(w) = where_clause {
                let of = Place { cx, fuel, ent: ids[k], context: None };
                assert(if kept(k) {
                    of.holds(*w)
                } else {
                    of.goes_on(*w, JudgmentOutcome::Holds)
                });
            }
        }
    }
}

/// A sum over a relation is that of the numbers read of the related ids for which its condition
/// holds, of all of them where it has none, added from zero in the order of the ids.
pub proof fn a_sum_is_that_of_the_related_numbers(
    at: Place,
    e: ScalarExpr,
    ids: Seq<Seq<char>>,
    numbers: Seq<Decimal>,
    totals: Seq<Decimal>,
    kept: spec_fn(int) -> bool,
)
    requires
        at.fuel > 0,
        numbers.len() == ids.len(),
        runs_over_kept(totals, numbers, kept),
        e matches ScalarExpr::SumRelated {
            relation,
            current_slot,
            related_slot,
            value,
            where_clause,
        } && {
            &&& related_run(
                at.cx,
                (at.fuel - 1) as nat,
                relation@,
                current_slot as nat,
                related_slot as nat,
                at.ent,
            ) matches Some(run) && run.value == Ok::<Seq<Seq<char>>, ErrorView>(ids)
            &&& forall|i: int|
                0 <= i < ids.len() && kept(i) ==> reads_number(
                    at.cx,
                    at.fuel,
                    value,
                    #[trigger] ids[i],
                    numbers[i],
                )
            &&& match where_clause {
                None => forall|i: int| 0 <= i < ids.len() ==> #[trigger] kept(i),
                Some(w) => forall|i: int|
                    0 <= i < ids.len() ==> {
                        let of = Place { cx: at.cx, fuel: at.fuel, ent: ids[i], context: None };
                        if #[trigger] kept(i) {
                            of.holds(*w)
                        } else {
                            of.goes_on(*w, JudgmentOutcome::Holds)
                        }
                    },
            }
        },
    ensures
        at.gives(e, ScalarValue::Decimal(totals.last())),
{
    scalar_run_is_step(at.cx, at.fuel, e, at.ent, at.context);
    total_runs(at.cx, at.fuel, e, ids, numbers, totals, kept, ids.len());
}

/// Inside the test of a derived relation, membership in a relation holds if and only if the related
/// entity is among those that the relation relates to the current one.
pub proof fn membership_is_being_related(
    at: Place,
    relation: String,
    current_slot: usize,
    related_slot: usize,
    c: RelationContext,
    ids: Seq<Seq<char>>,
)
    requires
        at.fuel > 0,
        at.context == Some(c),
        related_run(
            at.cx,
            (at.fuel - 1) as nat,
            relation@,
            current_slot as nat,
            related_slot as nat,
            c.current_id,
        ) matches Some(run) && run.value == Ok::<Seq<Seq<char>>, ErrorView>(ids),
    ensures
        ({
            let e = JudgmentExpr::RelationMember { relation, current_slot, related_slot };
            &&& at.holds(e) <==> ids.contains(c.related_id)
            &&& at.finds(e, JudgmentOutcome::NotHolds) <==> !ids.contains(c.related_id)
        }),
{
    let e = JudgmentExpr::RelationMember { relation, current_slot, related_slot };
    judgment_run_is_step(at.cx, at.fuel, e, at.ent, at.context);
}

/// The place where the test of a derived relation is read: for the related entity, between it and
/// the current one.
pub open spec fn tested(
    cx: Facts,
    fuel: nat,
    d: RelationDerivation,
    ent: Seq<char>,
    id: Seq<char>,
) -> Place {
    let kind = |slot: int|
        if slot < d.slot_entities@.len() {
            Some(d.slot_entities@[slot]@)
        } else {
            None
        };
    Place {
        cx,
        fuel,
        ent: id,
        context: Some(
            RelationContext {
                current_id: ent,
                related_id: id,
                current_entity: kind(d.current_slot as int),
                related_entity: kind(d.related_slot as int),
            },
        ),
    }
}

proof fn members_pass_the_test(
    cx: Facts,
    fuel: nat,
    d: RelationDerivation,
    ent: Seq<char>,
    ids: Seq<Seq<char>>,
    n: nat,
)
    requires
        n <= ids.len(),
        forall|i: int|
            0 <= i < n ==> {
                let at = tested(cx, fuel, d, ent, #[trigger] ids[i]);
                at.holds(d.predicate) || at.goes_on(d.predicate, JudgmentOutcome::Holds)
            },
    ensures
        members_run(cx, fuel, d, ent, ids, n) matches Some(run) && run.value matches Ok(kept)
            && forall|id: Seq<char>| #[trigger]
            kept.contains(id) <==> exists|i: int|
                0 <= i < n && #[trigger] ids[i] == id && tested(cx, fuel, d, ent, id).holds(
                    d.predicate,
                ),
    decreases n,
{
    if n > 0 {
        let m = (n - 1) as nat;
        members_pass_the_test(cx, fuel, d, ent, ids, m);
        let before = members_run(cx, fuel, d, ent, ids, m)->0.value->Ok_0;
        let last = ids[n - 1];
        let at = tested(cx, fuel, d, ent, last);
        assert(at.context == Some(crate::semantics::derivation_context(d, ent, last)));
        let kept = members_run(cx, fuel, d, ent, ids, n)->0.value->Ok_0;
        assert forall|id: Seq<char>| #[trigger] kept.contains(id) <==> exists|i: int|
            0 <= i < n && #[trigger] ids[i] == id && tested(cx, fuel, d, ent, id).holds(
                d.predicate,
            ) by {
            if kept.contains(id) {
                let k = kept.index_of(id);
                if k < before.len() {
                    assert(before[k] == id);
                    assert(before.contains(id));
                } else {
                    assert(ids[n - 1] == id);
                }
            }
            if exists|i: int|
                0 <= i < n && #[trigger] ids[i] == id && tested(cx, fuel, d, ent, id).holds(
                    d.predicate,
                ) {
                let i = choose|i: int|
                    0 <= i < n && #[trigger] ids[i] == id && tested(cx, fuel, d, ent, id).holds(
                        d.predicate,
                    );
                if i < m {
                    assert(before.contains(id));
                    let k = before.index_of(id);
                    assert(kept[k] == id);
                } else {
                    assert(kept[kept.len() - 1] == id);
                }
            }
        }
    }
}

/// A derived relation relates to an entity the ids that records state of it for the whole period,
/// and those that its source relates to the entity and that pass its test.
pub proof fn a_derived_relation_keeps_what_passes_its_test(
    cx: Facts,
    fuel: nat,
    relation: Seq<char>,
    current_slot: nat,
    related_slot: nat,
    ent: Seq<char>,
    schema: RelationSchema,
    d: RelationDerivation,
    source: Seq<Seq<char>>,
)
    requires
        fuel > 0,
        cx.program.relation(relation) == Some(schema),
        schema.derivation == Some(d),
        current_slot < schema.arity,
        related_slot < schema.arity,
        related_run(
            cx,
            (fuel - 1) as nat,
            d.source_relation@,
            d.current_slot as nat,
            d.related_slot as nat,
            ent,
        ) matches Some(run) && run.value == Ok::<Seq<Seq<char>>, ErrorView>(source),
        forall|i: int|
            0 <= i < source.len() ==> {
                let at = tested(cx, fuel, d, ent, #[trigger] source[i]);
                at.holds(d.predicate) || at.goes_on(d.predicate, JudgmentOutcome::Holds)
            },
    ensures
        related_run(cx, fuel, relation, current_slot, related_slot, ent) matches Some(run)
            && run.value matches Ok(ids) && {
            &&& ascending(ids)
            &&& forall|id: Seq<char>| #[trigger]
                ids.contains(id) <==> is_related(cx, relation, current_slot, related_slot, ent, id)
                    || (source.contains(id) && tested(cx, fuel, d, ent, id).holds(d.predicate))
        },
{
    let n = cx.data.relations.len();
    stated_are_related(cx, relation, current_slot, related_slot, ent, n);
    members_pass_the_test(cx, fuel, d, ent, source, source.len());
    let stated = stated_related(cx, relation, current_slot, related_slot, ent, n);
    let kept = members_run(cx, fuel, d, ent, source, source.len())->0.value->Ok_0;
    let all = stated + kept;
    sorted_texts_meaning(all);
    let ids = crate::text::sorted_texts(all);
    assert forall|id: Seq<char>| #[trigger] ids.contains(id) <==> is_related(
        cx,
        relation,
        current_slot,
        related_slot,
        ent,
        id,
    ) || (source.contains(id) && tested(cx, fuel, d, ent, id).holds(d.predicate)) by {
        if all.contains(id) {
            let k = all.index_of(id);
            if k < stated.len() {
                assert(stated[k] == id);
                assert(stated.contains(id));
            } else {
                assert(kept[k - stated.len()] == id);
                assert(kept.contains(id));
            }
        }
        if stated.contains(id) {
            assert(all[stated.index_of(id)] == id);
        }
        if kept.contains(id) {
            assert(all[stated.len() + kept.index_of(id)] == id);
        }
        if source.contains(id) && tested(cx, fuel, d, ent, id).holds(d.predicate) {
            assert(source[source.index_of(id)] == id);
            assert(kept.contains(id));
        }
    }
}

} // verus!
