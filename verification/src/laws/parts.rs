//! What a formula gives of itself and what its parts give: the rules that it depends on, the
//! relations and inputs that it reads, and what keeps it from the bulk strategy.
use crate::catalog::{
    formula_slots, judgment_slots, judgments_slots, rule_slots, scalar_slots, scalars_slots,
    versions_slots,
};
use crate::dependencies::{
    filter_of, formula_blockers, formula_dependencies, judgment_blockers, judgment_blockerss,
    judgment_dependencies, judgment_dependenciess, rule_dependencies, rules_blockers,
    scalar_blockers, scalar_blockerss, scalar_dependencies, scalar_dependenciess,
    versions_blockers, versions_dependencies,
};
use crate::model::{Derived, JudgmentExpr, Program, RelatedValueRef, ScalarExpr};
use crate::relation_typing::{
    judgment_refs, judgment_refss, judgment_used, judgment_useds, scalar_refs, scalar_refss,
    scalar_used, scalar_useds,
};
use crate::usages::{
    judgment_entities, judgment_entitiess, rule_entity, scalar_entities, scalar_entitiess,
};
use vstd::prelude::*;

verus! {

/// A part of a formula.
pub ghost enum Part {
    Scalar(ScalarExpr),
    Judgment(JudgmentExpr),
}

pub open spec fn scalar_items(items: Seq<ScalarExpr>) -> Seq<Part> {
    Seq::new(items.len(), |i: int| Part::Scalar(items[i]))
}

pub open spec fn judgment_items(items: Seq<JudgmentExpr>) -> Seq<Part> {
    Seq::new(items.len(), |i: int| Part::Judgment(items[i]))
}

pub open spec fn test_part(test: Option<Box<JudgmentExpr>>) -> Seq<Part> {
    match test {
        Some(w) => seq![Part::Judgment(*w)],
        None => Seq::empty(),
    }
}

/// The formulas that a formula is made of, in the order in which they stand in it.
pub open spec fn parts(q: Part) -> Seq<Part> {
    match q {
        Part::Scalar(e) => match e {
            ScalarExpr::ParameterLookup { index, .. } => seq![Part::Scalar(*index)],
            ScalarExpr::Add(items) => scalar_items(items@),
            ScalarExpr::Max(items) => scalar_items(items@),
            ScalarExpr::Min(items) => scalar_items(items@),
            ScalarExpr::Sub(a, b) => seq![Part::Scalar(*a), Part::Scalar(*b)],
            ScalarExpr::Mul(a, b) => seq![Part::Scalar(*a), Part::Scalar(*b)],
            ScalarExpr::Div(a, b) => seq![Part::Scalar(*a), Part::Scalar(*b)],
            ScalarExpr::Ceil(a) => seq![Part::Scalar(*a)],
            ScalarExpr::Floor(a) => seq![Part::Scalar(*a)],
            ScalarExpr::DateAddDays { date, days } => seq![Part::Scalar(*date), Part::Scalar(*days)],
            ScalarExpr::DateAddMonths { date, months } => seq![
                Part::Scalar(*date),
                Part::Scalar(*months),
            ],
            ScalarExpr::DateAddYears { date, years } => seq![
                Part::Scalar(*date),
                Part::Scalar(*years),
            ],
            ScalarExpr::DaysBetween { from, to } => seq![Part::Scalar(*from), Part::Scalar(*to)],
            ScalarExpr::CountRelated { where_clause, .. } => test_part(where_clause),
            ScalarExpr::SumRelated { where_clause, .. } => test_part(where_clause),
            ScalarExpr::If { condition, then_expr, else_expr } => seq![
                Part::Judgment(*condition),
                Part::Scalar(*then_expr),
                Part::Scalar(*else_expr),
            ],
            ScalarExpr::NoMatch { subject, .. } => seq![Part::Scalar(*subject)],
            ScalarExpr::OverPeriods { value, n, .. } => match n {
                Some(n) => seq![Part::Scalar(*value), Part::Scalar(*n)],
                None => seq![Part::Scalar(*value)],
            },
            _ => Seq::empty(),
        },
        Part::Judgment(e) => match e {
            JudgmentExpr::Comparison { left, right, .. } => seq![
                Part::Scalar(left),
                Part::Scalar(right),
            ],
            JudgmentExpr::And(items) => judgment_items(items@),
            JudgmentExpr::Or(items) => judgment_items(items@),
            JudgmentExpr::Not(item) => seq![Part::Judgment(*item)],
            _ => Seq::empty(),
        },
    }
}

/// Whether the formula aggregates over related rows.
pub open spec fn aggregates(q: Part) -> bool {
    match q {
        Part::Scalar(e) => e is CountRelated || e is SumRelated,
        Part::Judgment(_) => false,
    }
}

/// The parts that are evaluated on the row of the formula itself, unlike the test of an
/// aggregation, which is evaluated on the related rows.
pub open spec fn row_parts(q: Part) -> Seq<Part> {
    if aggregates(q) {
        Seq::empty()
    } else {
        parts(q)
    }
}

/// What formulas give, one after the other.
pub open spec fn gathered<X>(list: Seq<Part>, of: spec_fn(Part) -> Seq<X>) -> Seq<X>
    decreases list.len(),
{
    if list.len() == 0 {
        Seq::empty()
    } else {
        gathered(list.drop_last(), of) + of(list.last())
    }
}

pub(crate) proof fn few<X>(list: Seq<Part>, of: spec_fn(Part) -> Seq<X>)
    ensures
        list.len() == 0 ==> gathered(list, of) == Seq::<X>::empty(),
        list.len() == 1 ==> gathered(list, of) == of(list[0]),
        list.len() == 2 ==> gathered(list, of) == of(list[0]) + of(list[1]),
        list.len() == 3 ==> gathered(list, of) == of(list[0]) + of(list[1]) + of(list[2]),
{
    reveal_with_fuel(gathered, 4);
    let rest = list.drop_last();
    if list.len() == 1 {
        assert(gathered(list, of) =~= of(list[0]));
    } else if list.len() == 2 {
        assert(rest.last() == list[0]);
        assert(gathered(rest, of) =~= of(list[0]));
    } else if list.len() == 3 {
        assert(rest.last() == list[1]);
        assert(rest.drop_last().last() == list[0]);
        assert(gathered(rest.drop_last(), of) =~= of(list[0]));
        assert(gathered(rest, of) =~= of(list[0]) + of(list[1]));
    }
}

pub(crate) proof fn many<X>(list: Seq<Part>, of: spec_fn(Part) -> Seq<X>, first: spec_fn(nat) -> Seq<X>, n: nat)
    requires
        n <= list.len(),
        first(0) == Seq::<X>::empty(),
        forall|i: nat| 0 < i <= list.len() ==> #[trigger] first(i) == first((i - 1) as nat) + of(
            list[i - 1],
        ),
    ensures
        gathered(list.take(n as int), of) == first(n),
    decreases n,
{
    let some = list.take(n as int);
    if n > 0 {
        many(list, of, first, (n - 1) as nat);
        assert(some.drop_last() =~= list.take(n - 1));
        assert(some.last() == list[n - 1]);
        assert(first(n) == first((n - 1) as nat) + of(list[n - 1]));
    }
}


/// The rules that a formula depends on.
pub open spec fn depends(q: Part, p: Program, follow: bool) -> Seq<Seq<char>> {
    match q {
        Part::Scalar(e) => scalar_dependencies(e, p, follow),
        Part::Judgment(e) => judgment_dependencies(e, p, follow),
    }
}

/// The rules that a formula depends on beside those of its parts.
pub open spec fn depends_itself(q: Part, p: Program, follow: bool) -> Seq<Seq<char>> {
    match q {
        Part::Scalar(ScalarExpr::Derived(name)) => seq![name@],
        Part::Judgment(JudgmentExpr::Derived(name)) => seq![name@],
        Part::Scalar(ScalarExpr::CountRelated { relation, .. }) => of_filter(p, relation@, follow),
        Part::Scalar(ScalarExpr::SumRelated { relation, value, .. }) => match value {
            RelatedValueRef::Derived(name) => of_filter(p, relation@, follow).push(name@),
            RelatedValueRef::Input(_) => of_filter(p, relation@, follow),
        },
        _ => Seq::empty(),
    }
}

/// The rules of the predicate of a derived relation.
pub open spec fn of_filter(p: Program, relation: Seq<char>, follow: bool) -> Seq<Seq<char>> {
    match filter_of(p, relation) {
        Some(predicate) if follow => judgment_dependencies(predicate, p, false),
        _ => Seq::empty(),
    }
}
/// A formula depends on the rule that it names, on the rules of its parts, in their order, and,
/// where it aggregates over a derived relation, on the rules of that relation's predicate.
pub proof fn a_formula_depends_on_what_its_parts_do(q: Part, p: Program, follow: bool)
    ensures
        depends(q, p, follow) == depends_itself(q, p, follow) + gathered(
            parts(q),
            |x: Part| depends(x, p, follow),
        ),
{
    let of = |x: Part| depends(x, p, follow);
    let list = parts(q);
    few(list, of);
    match q {
        Part::Scalar(e) => match e {
            ScalarExpr::Add(items) | ScalarExpr::Max(items) | ScalarExpr::Min(items) => {
                many(list, of, |n: nat| scalar_dependenciess(items@, n, p, follow), list.len());
                assert(list.take(list.len() as int) =~= list);
            },
            _ => {},
        },
        Part::Judgment(e) => match e {
            JudgmentExpr::And(items) | JudgmentExpr::Or(items) => {
                many(list, of, |n: nat| judgment_dependenciess(items@, n, p, follow), list.len());
                assert(list.take(list.len() as int) =~= list);
            },
            _ => {},
        },
    }
    assert(depends(q, p, follow) =~= depends_itself(q, p, follow) + gathered(list, of));
}

/// The relations that a formula reads.
pub open spec fn relations_read(q: Part) -> Seq<Seq<char>> {
    match q {
        Part::Scalar(e) => scalar_used(e),
        Part::Judgment(e) => judgment_used(e),
    }
}

/// The relation that a formula itself reads.
pub open spec fn relations_read_itself(q: Part) -> Seq<Seq<char>> {
    match q {
        Part::Scalar(ScalarExpr::CountRelated { relation, .. }) => seq![relation@],
        Part::Scalar(ScalarExpr::SumRelated { relation, .. }) => seq![relation@],
        Part::Judgment(JudgmentExpr::RelationMember { relation, .. }) => seq![relation@],
        _ => Seq::empty(),
    }
}
/// A formula reads the relation that it counts, sums or tests membership in, and those of its
/// parts, in their order.
pub proof fn a_formula_reads_the_relations_of_its_parts(q: Part)
    ensures
        relations_read(q) == relations_read_itself(q) + gathered(
            parts(q),
            |x: Part| relations_read(x),
        ),
{
    let of = |x: Part| relations_read(x);
    let list = parts(q);
    few(list, of);
    match q {
        Part::Scalar(e) => match e {
            ScalarExpr::Add(items) | ScalarExpr::Max(items) | ScalarExpr::Min(items) => {
                many(list, of, |n: nat| scalar_useds(items@, n), list.len());
                assert(list.take(list.len() as int) =~= list);
            },
            _ => {},
        },
        Part::Judgment(e) => match e {
            JudgmentExpr::And(items) | JudgmentExpr::Or(items) => {
                many(list, of, |n: nat| judgment_useds(items@, n), list.len());
                assert(list.take(list.len() as int) =~= list);
            },
            _ => {},
        },
    }
    assert(relations_read(q) =~= relations_read_itself(q) + gathered(list, of));
}

/// The rules that a formula reads on its own row.
pub open spec fn row_rules(q: Part) -> Seq<Seq<char>> {
    match q {
        Part::Scalar(e) => scalar_refs(e),
        Part::Judgment(e) => judgment_refs(e),
    }
}

/// The rule that a formula itself names.
pub open spec fn row_rules_itself(q: Part) -> Seq<Seq<char>> {
    match q {
        Part::Scalar(ScalarExpr::Derived(name)) => seq![name@],
        Part::Judgment(JudgmentExpr::Derived(name)) => seq![name@],
        _ => Seq::empty(),
    }
}
/// A formula reads on its own row the rule that it names, and the rules of the parts that are
/// evaluated there.
pub proof fn a_formula_reads_the_rules_of_its_row(q: Part)
    ensures
        row_rules(q) == row_rules_itself(q) + gathered(
            row_parts(q),
            |x: Part| row_rules(x),
        ),
{
    let of = |x: Part| row_rules(x);
    let list = row_parts(q);
    few(list, of);
    match q {
        Part::Scalar(e) => match e {
            ScalarExpr::Add(items) | ScalarExpr::Max(items) | ScalarExpr::Min(items) => {
                many(list, of, |n: nat| scalar_refss(items@, n), list.len());
                assert(list.take(list.len() as int) =~= list);
            },
            _ => {},
        },
        Part::Judgment(e) => match e {
            JudgmentExpr::And(items) | JudgmentExpr::Or(items) => {
                many(list, of, |n: nat| judgment_refss(items@, n), list.len());
                assert(list.take(list.len() as int) =~= list);
            },
            _ => {},
        },
    }
    assert(row_rules(q) =~= row_rules_itself(q) + gathered(list, of));
}

/// The entities of the rules that a formula reads on its own row.
pub open spec fn row_entities(q: Part, p: Program) -> Seq<Seq<char>> {
    match q {
        Part::Scalar(e) => scalar_entities(e, p),
        Part::Judgment(e) => judgment_entities(e, p),
    }
}

/// The entity of the rule that a formula itself names.
pub open spec fn row_entities_itself(q: Part, p: Program) -> Seq<Seq<char>> {
    match q {
        Part::Scalar(ScalarExpr::Derived(name)) => rule_entity(p, name@),
        Part::Judgment(JudgmentExpr::Derived(name)) => rule_entity(p, name@),
        _ => Seq::empty(),
    }
}
/// A formula tells the entity of its row by the rule that it names, and by the parts that are
/// evaluated there.
pub proof fn a_formula_has_the_entities_of_its_row(q: Part, p: Program)
    ensures
        row_entities(q, p) == row_entities_itself(q, p) + gathered(
            row_parts(q),
            |x: Part| row_entities(x, p),
        ),
{
    let of = |x: Part| row_entities(x, p);
    let list = row_parts(q);
    few(list, of);
    match q {
        Part::Scalar(e) => match e {
            ScalarExpr::Add(items) | ScalarExpr::Max(items) | ScalarExpr::Min(items) => {
                many(list, of, |n: nat| scalar_entitiess(items@, n, p), list.len());
                assert(list.take(list.len() as int) =~= list);
            },
            _ => {},
        },
        Part::Judgment(e) => match e {
            JudgmentExpr::And(items) | JudgmentExpr::Or(items) => {
                many(list, of, |n: nat| judgment_entitiess(items@, n, p), list.len());
                assert(list.take(list.len() as int) =~= list);
            },
            _ => {},
        },
    }
    assert(row_entities(q, p) =~= row_entities_itself(q, p) + gathered(list, of));
}

/// The inputs that a formula reads.
pub open spec fn inputs_read(q: Part) -> Seq<Seq<char>> {
    match q {
        Part::Scalar(e) => scalar_slots(e),
        Part::Judgment(e) => judgment_slots(e),
    }
}

/// The input that a formula itself reads.
pub open spec fn inputs_read_itself(q: Part) -> Seq<Seq<char>> {
    match q {
        Part::Scalar(ScalarExpr::Input(name)) => seq![name@],
        Part::Scalar(ScalarExpr::InputOrElse { name, .. }) => seq![name@],
        Part::Scalar(ScalarExpr::SumRelated { value: RelatedValueRef::Input(name), .. }) => seq![
            name@,
        ],
        _ => Seq::empty(),
    }
}
/// A formula reads the input that it names, on its row or on related ones, and the inputs of its
/// parts, in their order.
pub proof fn a_formula_reads_the_inputs_of_its_parts(q: Part)
    ensures
        inputs_read(q) == inputs_read_itself(q) + gathered(
            parts(q),
            |x: Part| inputs_read(x),
        ),
{
    let of = |x: Part| inputs_read(x);
    let list = parts(q);
    few(list, of);
    match q {
        Part::Scalar(e) => match e {
            ScalarExpr::Add(items) | ScalarExpr::Max(items) | ScalarExpr::Min(items) => {
                many(list, of, |n: nat| scalars_slots(items@, n), list.len());
                assert(list.take(list.len() as int) =~= list);
            },
            _ => {},
        },
        Part::Judgment(e) => match e {
            JudgmentExpr::And(items) | JudgmentExpr::Or(items) => {
                many(list, of, |n: nat| judgments_slots(items@, n), list.len());
                assert(list.take(list.len() as int) =~= list);
            },
            _ => {},
        },
    }
    assert(inputs_read(q) =~= inputs_read_itself(q) + gathered(list, of));
}

/// What keeps a formula from the bulk strategy.
pub open spec fn blocked(q: Part, rule: Seq<char>) -> Seq<Seq<char>> {
    match q {
        Part::Scalar(e) => scalar_blockers(e, rule),
        Part::Judgment(e) => judgment_blockers(e, rule),
    }
}

/// Whether the formula itself is one that the bulk strategy does not support: the bounds of the
/// period, arithmetic of dates, reductions over periods, and sums of a rule over related rows.
pub open spec fn unsupported_itself(q: Part) -> bool {
    match q {
        Part::Scalar(e) => match e {
            ScalarExpr::PeriodStart | ScalarExpr::PeriodEnd => true,
            ScalarExpr::DateAddDays { .. } | ScalarExpr::DateAddMonths { .. } => true,
            ScalarExpr::DateAddYears { .. } | ScalarExpr::DaysBetween { .. } => true,
            ScalarExpr::OverPeriods { .. } => true,
            ScalarExpr::SumRelated { value: RelatedValueRef::Derived(_), .. } => true,
            _ => false,
        },
        Part::Judgment(_) => false,
    }
}

/// A formula has one blocker of its own where the bulk strategy does not support it, none
/// otherwise, and then those of the parts that are evaluated on its row.
pub proof fn a_formula_is_blocked_by_its_parts(q: Part, rule: Seq<char>)
    ensures
        ({
            let inner = gathered(row_parts(q), |x: Part| blocked(x, rule));
            let own: int = if unsupported_itself(q) {
                1
            } else {
                0
            };
            &&& blocked(q, rule).len() == own + inner.len()
            &&& blocked(q, rule).skip(own) == inner
            &&& own == 1 ==> rule.is_prefix_of(blocked(q, rule)[0])
        }),
{
    let of = |x: Part| blocked(x, rule);
    let list = row_parts(q);
    few(list, of);
    match q {
        Part::Scalar(e) => match e {
            ScalarExpr::Add(items) | ScalarExpr::Max(items) | ScalarExpr::Min(items) => {
                many(list, of, |n: nat| scalar_blockerss(items@, n, rule), list.len());
                assert(list.take(list.len() as int) =~= list);
            },
            _ => {},
        },
        Part::Judgment(e) => match e {
            JudgmentExpr::And(items) | JudgmentExpr::Or(items) => {
                many(list, of, |n: nat| judgment_blockerss(items@, n, rule), list.len());
                assert(list.take(list.len() as int) =~= list);
            },
            _ => {},
        },
    }
    let own: int = if unsupported_itself(q) {
        1
    } else {
        0
    };
    assert(blocked(q, rule).skip(own) =~= gathered(list, of));
    if own == 1 {
        let text = blocked(q, rule)[0];
        assert(text.subrange(0, rule.len() as int) =~= rule);
    }
}


proof fn either<X>(a: Seq<X>, b: Seq<X>, x: X)
    ensures
        (a + b).contains(x) <==> a.contains(x) || b.contains(x),
{
    if a.contains(x) {
        let i = choose|i: int| 0 <= i < a.len() && a[i] == x;
        assert((a + b)[i] == x);
    }
    if b.contains(x) {
        let i = choose|i: int| 0 <= i < b.len() && b[i] == x;
        assert((a + b)[a.len() + i] == x);
    }
}

proof fn versions_dependencies_holds(d: Derived, n: nat, p: Program, x: Seq<char>)
    requires
        n <= d.versions@.len(),
    ensures
        versions_dependencies(d.versions@, n, p).contains(x) <==> exists|i: int|
            0 <= i < n && #[trigger] formula_dependencies(d.versions@[i].semantics, p).contains(x),
    decreases n,
{
    if n > 0 {
        let m = (n - 1) as nat;
        versions_dependencies_holds(d, m, p, x);
        either(versions_dependencies(d.versions@, m, p), formula_dependencies(d.versions@[n - 1].semantics, p), x);
        if versions_dependencies(d.versions@, n, p).contains(x) {
            if formula_dependencies(d.versions@[n - 1].semantics, p).contains(x) {
            } else {
                let i = choose|i: int|
                    0 <= i < m && #[trigger] formula_dependencies(d.versions@[i].semantics, p).contains(x);
                assert(0 <= i < n && formula_dependencies(d.versions@[i].semantics, p).contains(x));
            }
        }
    }
}

/// A rule depends on what its formula depends on, and on what those of its versions do.
pub proof fn a_rule_depends_on_what_its_formulas_do(d: Derived, p: Program, x: Seq<char>)
    ensures
        rule_dependencies(d, p).contains(x) <==> formula_dependencies(d.semantics, p).contains(x) || exists|i: int|
            0 <= i < d.versions@.len() && #[trigger] formula_dependencies(d.versions@[i].semantics, p).contains(x),
{
    versions_dependencies_holds(d, d.versions@.len(), p, x);
    either(formula_dependencies(d.semantics, p), versions_dependencies(d.versions@, d.versions@.len(), p), x);
}

proof fn versions_slots_holds(d: Derived, n: nat, x: Seq<char>)
    requires
        n <= d.versions@.len(),
    ensures
        versions_slots(d.versions@, n).contains(x) <==> exists|i: int|
            0 <= i < n && #[trigger] formula_slots(d.versions@[i].semantics).contains(x),
    decreases n,
{
    if n > 0 {
        let m = (n - 1) as nat;
        versions_slots_holds(d, m, x);
        either(versions_slots(d.versions@, m), formula_slots(d.versions@[n - 1].semantics), x);
        if versions_slots(d.versions@, n).contains(x) {
            if formula_slots(d.versions@[n - 1].semantics).contains(x) {
            } else {
                let i = choose|i: int|
                    0 <= i < m && #[trigger] formula_slots(d.versions@[i].semantics).contains(x);
                assert(0 <= i < n && formula_slots(d.versions@[i].semantics).contains(x));
            }
        }
    }
}

/// A rule reads the inputs of its formula, and those of its versions.
pub proof fn a_rule_reads_the_inputs_of_its_formulas(d: Derived, x: Seq<char>)
    ensures
        rule_slots(d).contains(x) <==> formula_slots(d.semantics).contains(x) || exists|i: int|
            0 <= i < d.versions@.len() && #[trigger] formula_slots(d.versions@[i].semantics).contains(x),
{
    versions_slots_holds(d, d.versions@.len(), x);
    either(formula_slots(d.semantics), versions_slots(d.versions@, d.versions@.len()), x);
}

proof fn versions_blocked(d: Derived, n: nat)
    requires
        n <= d.versions@.len(),
    ensures
        versions_blockers(d.versions@, n, d.name@).len() == 0 <==> forall|i: int|
            0 <= i < n ==> #[trigger] formula_blockers(d.versions@[i].semantics, d.name@).len() == 0,
    decreases n,
{
    if n > 0 {
        versions_blocked(d, (n - 1) as nat);
        assert(formula_blockers(d.versions@[n - 1].semantics, d.name@).len() == 0 || versions_blockers(
            d.versions@,
            n,
            d.name@,
        ).len() > 0);
    }
}

/// Whether nothing in a rule, its formula or its versions, keeps it from the bulk strategy.
pub open spec fn is_bulk(d: Derived) -> bool {
    &&& formula_blockers(d.semantics, d.name@).len() == 0
    &&& forall|i: int|
        0 <= i < d.versions@.len() ==> #[trigger] formula_blockers(
            d.versions@[i].semantics,
            d.name@,
        ).len() == 0
}

proof fn rules_blocked(rules: Seq<Derived>, n: nat)
    requires
        n <= rules.len(),
    ensures
        rules_blockers(rules, n).len() == 0 <==> forall|i: int|
            0 <= i < n ==> is_bulk(#[trigger] rules[i]),
    decreases n,
{
    if n > 0 {
        rules_blocked(rules, (n - 1) as nat);
        let d = rules[n - 1];
        versions_blocked(d, d.versions@.len());
        assert(rules_blockers(rules, n).len() == rules_blockers(rules, (n - 1) as nat).len()
            + formula_blockers(d.semantics, d.name@).len() + versions_blockers(
            d.versions@,
            d.versions@.len(),
            d.name@,
        ).len());
    }
}

/// A program goes the bulk way exactly where nothing in any of its rules keeps it from there.
pub proof fn a_program_is_bulk_where_all_its_rules_are(p: Program)
    ensures
        rules_blockers(p.derived@, p.derived@.len()).len() == 0 <==> forall|i: int|
            0 <= i < p.derived@.len() ==> is_bulk(#[trigger] p.derived@[i]),
{
    rules_blocked(p.derived@, p.derived@.len());
}

} // verus!
