//! Laws of the direction in which aggregations read relations.
use crate::model::{item_named, DerivedSemantics, JudgmentExpr, Program, ScalarExpr};
use crate::relation_direction::{
    directed, formula_resolved, judgment_resolved, judgments_resolved, program_resolved,
    relation_resolved, rule_resolved, scalar_resolved, scalars_resolved, text_or_empty,
    version_resolved,
};
use crate::relation_typing::{derivation_of, effective_kinds, kind_at};
use crate::text::texts;
use vstd::prelude::*;

verus! {

/// Whether a data relation declares the kinds of its two slots.
pub open spec fn declares(p: Program, relation: Seq<char>, first: Seq<char>, second: Seq<char>) -> bool {
    item_named(p.relations@, relation) matches Some(schema) && {
        &&& schema.derivation is None
        &&& schema.slot_entities@.len() == 2
        &&& schema.slot_entities@[0]@ == first
        &&& schema.slot_entities@[1]@ == second
    }
}

/// Whether the slots of an aggregation for an entity face it: over a data relation of two kinds,
/// one of which is the entity's, the current slot is that of the entity's kind and the related one
/// the other; both are not of the entity's kind; and over a derived relation the slots are those
/// of its derivation.
pub open spec fn slots_face(
    p: Program,
    relation: Seq<char>,
    current_slot: usize,
    related_slot: usize,
    entity: Seq<char>,
) -> bool {
    &&& forall|first: Seq<char>, second: Seq<char>| #[trigger]
        declares(p, relation, first, second) ==> {
            &&& !(first == entity && second == entity)
            &&& first == entity ==> current_slot == 0 && related_slot == 1
            &&& second == entity ==> current_slot == 1 && related_slot == 0
        }
    &&& item_named(p.relations@, relation) matches Some(schema) ==> (schema.derivation matches Some(
        d,
    ) ==> current_slot == d.current_slot && related_slot == d.related_slot)
}

/// The kind of the rows that an aggregation reads, where it is known: of a data relation of two
/// kinds, that of the related slot.
pub open spec fn related_kind(p: Program, relation: Seq<char>, related_slot: usize) -> Seq<char> {
    match item_named(p.relations@, relation) {
        Some(schema) => match schema.derivation {
            Some(_) => match effective_kinds(p, relation) {
                Some(kinds) if related_slot < kinds.len() => kinds[related_slot as int],
                _ => Seq::empty(),
            },
            None => if schema.slot_entities@.len() == 2 && related_slot < 2 {
                schema.slot_entities@[related_slot as int]@
            } else {
                Seq::empty()
            },
        },
        None => Seq::empty(),
    }
}

/// Whether every aggregation in a formula of an entity faces the entity that it stands for: the
/// formula's own, or in a condition that of the rows that it tests.
pub open spec fn scalar_faces(e: ScalarExpr, p: Program, entity: Seq<char>) -> bool
    decreases e, 1int, 0nat,
{
    match e {
        ScalarExpr::ParameterLookup { index, .. } => scalar_faces(*index, p, entity),
        ScalarExpr::Add(items) => scalars_face(items@, items@.len(), p, entity),
        ScalarExpr::Max(items) => scalars_face(items@, items@.len(), p, entity),
        ScalarExpr::Min(items) => scalars_face(items@, items@.len(), p, entity),
        ScalarExpr::Sub(a, b) => scalar_faces(*a, p, entity) && scalar_faces(*b, p, entity),
        ScalarExpr::Mul(a, b) => scalar_faces(*a, p, entity) && scalar_faces(*b, p, entity),
        ScalarExpr::Div(a, b) => scalar_faces(*a, p, entity) && scalar_faces(*b, p, entity),
        ScalarExpr::Ceil(a) => scalar_faces(*a, p, entity),
        ScalarExpr::Floor(a) => scalar_faces(*a, p, entity),
        ScalarExpr::DateAddDays { date, days } => scalar_faces(*date, p, entity) && scalar_faces(
            *days,
            p,
            entity,
        ),
        ScalarExpr::DateAddMonths { date, months } => scalar_faces(*date, p, entity)
            && scalar_faces(*months, p, entity),
        ScalarExpr::DateAddYears { date, years } => scalar_faces(*date, p, entity) && scalar_faces(
            *years,
            p,
            entity,
        ),
        ScalarExpr::DaysBetween { from, to } => scalar_faces(*from, p, entity) && scalar_faces(
            *to,
            p,
            entity,
        ),
        ScalarExpr::CountRelated { relation, current_slot, related_slot, where_clause } => {
            &&& slots_face(p, relation@, current_slot, related_slot, entity)
            &&& where_clause matches Some(w) ==> judgment_faces(
                *w,
                p,
                related_kind(p, relation@, related_slot),
            )
        },
        ScalarExpr::SumRelated { relation, current_slot, related_slot, where_clause, .. } => {
            &&& slots_face(p, relation@, current_slot, related_slot, entity)
            &&& where_clause matches Some(w) ==> judgment_faces(
                *w,
                p,
                related_kind(p, relation@, related_slot),
            )
        },
        ScalarExpr::If { condition, then_expr, else_expr } => judgment_faces(*condition, p, entity)
            && scalar_faces(*then_expr, p, entity) && scalar_faces(*else_expr, p, entity),
        ScalarExpr::NoMatch { subject, .. } => scalar_faces(*subject, p, entity),
        ScalarExpr::OverPeriods { value, n, .. } => scalar_faces(*value, p, entity) && (n matches
            Some(n) ==> scalar_faces(*n, p, entity)),
        _ => true,
    }
}

/// Whether the aggregations in the first `n` formulas face the entity.
pub open spec fn scalars_face(items: Seq<ScalarExpr>, n: nat, p: Program, entity: Seq<char>) -> bool
    decreases items, 0int, n,
{
    n == 0 || n > items.len() || (scalars_face(items, (n - 1) as nat, p, entity) && scalar_faces(
        items[n - 1],
        p,
        entity,
    ))
}

/// Whether the aggregations in a judgment face the entity.
pub open spec fn judgment_faces(e: JudgmentExpr, p: Program, entity: Seq<char>) -> bool
    decreases e, 1int, 0nat,
{
    match e {
        JudgmentExpr::Comparison { left, right, .. } => scalar_faces(left, p, entity)
            && scalar_faces(right, p, entity),
        JudgmentExpr::And(items) => judgments_face(items@, items@.len(), p, entity),
        JudgmentExpr::Or(items) => judgments_face(items@, items@.len(), p, entity),
        JudgmentExpr::Not(item) => judgment_faces(*item, p, entity),
        _ => true,
    }
}

/// Whether the aggregations in the first `n` judgments face the entity.
pub open spec fn judgments_face(
    items: Seq<JudgmentExpr>,
    n: nat,
    p: Program,
    entity: Seq<char>,
) -> bool
    decreases items, 0int, n,
{
    n == 0 || n > items.len() || (judgments_face(items, (n - 1) as nat, p, entity)
        && judgment_faces(items[n - 1], p, entity))
}

/// Slots that are directed face the entity.
proof fn directed_slots_face(
    p: Program,
    relation: Seq<char>,
    current_slot: usize,
    related_slot: usize,
    entity: Seq<char>,
    citing: Seq<char>,
)
    ensures
        directed(p, relation, current_slot, related_slot, entity, citing) matches Ok((c, r, kind))
            ==> slots_face(p, relation, c, r, entity) && kind == related_kind(p, relation, r),
{
    if let Some(schema) = item_named(p.relations@, relation) {
        if schema.derivation is None && schema.slot_entities@.len() == 2 {
            let kinds = texts(schema.slot_entities@);
            assert(kinds[0] == schema.slot_entities@[0]@);
            assert(kinds[1] == schema.slot_entities@[1]@);
        }
    }
}

proof fn resolved_scalar_faces(a: ScalarExpr, b: ScalarExpr, p: Program, entity: Seq<char>)
    requires
        scalar_resolved(a, b, p, entity),
    ensures
        scalar_faces(b, p, entity),
    decreases a, 1int, 0nat,
{
    match (a, b) {
        (
            ScalarExpr::ParameterLookup { index: i, .. },
            ScalarExpr::ParameterLookup { index: j, .. },
        ) => {
            resolved_scalar_faces(*i, *j, p, entity);
        },
        (ScalarExpr::Add(x), ScalarExpr::Add(y)) => {
            resolved_scalars_face(x@, y@, x@.len(), p, entity);
        },
        (ScalarExpr::Max(x), ScalarExpr::Max(y)) => {
            resolved_scalars_face(x@, y@, x@.len(), p, entity);
        },
        (ScalarExpr::Min(x), ScalarExpr::Min(y)) => {
            resolved_scalars_face(x@, y@, x@.len(), p, entity);
        },
        (ScalarExpr::Sub(x, v), ScalarExpr::Sub(y, w)) => {
            resolved_scalar_faces(*x, *y, p, entity);
            resolved_scalar_faces(*v, *w, p, entity);
        },
        (ScalarExpr::Mul(x, v), ScalarExpr::Mul(y, w)) => {
            resolved_scalar_faces(*x, *y, p, entity);
            resolved_scalar_faces(*v, *w, p, entity);
        },
        (ScalarExpr::Div(x, v), ScalarExpr::Div(y, w)) => {
            resolved_scalar_faces(*x, *y, p, entity);
            resolved_scalar_faces(*v, *w, p, entity);
        },
        (ScalarExpr::Ceil(x), ScalarExpr::Ceil(y)) => {
            resolved_scalar_faces(*x, *y, p, entity);
        },
        (ScalarExpr::Floor(x), ScalarExpr::Floor(y)) => {
            resolved_scalar_faces(*x, *y, p, entity);
        },
        (
            ScalarExpr::DateAddDays { date: x, days: v },
            ScalarExpr::DateAddDays { date: y, days: w },
        ) => {
            resolved_scalar_faces(*x, *y, p, entity);
            resolved_scalar_faces(*v, *w, p, entity);
        },
        (
            ScalarExpr::DateAddMonths { date: x, months: v },
            ScalarExpr::DateAddMonths { date: y, months: w },
        ) => {
            resolved_scalar_faces(*x, *y, p, entity);
            resolved_scalar_faces(*v, *w, p, entity);
        },
        (
            ScalarExpr::DateAddYears { date: x, years: v },
            ScalarExpr::DateAddYears { date: y, years: w },
        ) => {
            resolved_scalar_faces(*x, *y, p, entity);
            resolved_scalar_faces(*v, *w, p, entity);
        },
        (ScalarExpr::DaysBetween { from: x, to: v }, ScalarExpr::DaysBetween { from: y, to: w }) => {
            resolved_scalar_faces(*x, *y, p, entity);
            resolved_scalar_faces(*v, *w, p, entity);
        },
        (
            ScalarExpr::CountRelated { relation, current_slot, related_slot, where_clause: x },
            ScalarExpr::CountRelated { related_slot: t, where_clause: y, .. },
        ) => {
            directed_slots_face(p, relation@, current_slot, related_slot, entity, Seq::empty());
            if let (Some(x), Some(y)) = (x, y) {
                resolved_judgment_faces(*x, *y, p, related_kind(p, relation@, t), None);
            }
        },
        (
            ScalarExpr::SumRelated { relation, current_slot, related_slot, where_clause: x, .. },
            ScalarExpr::SumRelated { related_slot: t, where_clause: y, .. },
        ) => {
            directed_slots_face(p, relation@, current_slot, related_slot, entity, Seq::empty());
            if let (Some(x), Some(y)) = (x, y) {
                resolved_judgment_faces(*x, *y, p, related_kind(p, relation@, t), None);
            }
        },
        (
            ScalarExpr::If { condition: c, then_expr: x, else_expr: v },
            ScalarExpr::If { condition: d, then_expr: y, else_expr: w },
        ) => {
            resolved_judgment_faces(*c, *d, p, entity, None);
            resolved_scalar_faces(*x, *y, p, entity);
            resolved_scalar_faces(*v, *w, p, entity);
        },
        (ScalarExpr::NoMatch { subject: x, .. }, ScalarExpr::NoMatch { subject: y, .. }) => {
            resolved_scalar_faces(*x, *y, p, entity);
        },
        (
            ScalarExpr::OverPeriods { value: x, n: v, .. },
            ScalarExpr::OverPeriods { value: y, n: w, .. },
        ) => {
            resolved_scalar_faces(*x, *y, p, entity);
            if let (Some(v), Some(w)) = (v, w) {
                resolved_scalar_faces(*v, *w, p, entity);
            }
        },
        _ => {},
    }
}

proof fn resolved_scalars_face(
    a: Seq<ScalarExpr>,
    b: Seq<ScalarExpr>,
    n: nat,
    p: Program,
    entity: Seq<char>,
)
    requires
        n <= a.len() == b.len(),
        scalars_resolved(a, b, n, p, entity),
    ensures
        scalars_face(b, n, p, entity),
    decreases a, 0int, n,
{
    if n > 0 {
        resolved_scalars_face(a, b, (n - 1) as nat, p, entity);
        resolved_scalar_faces(a[n - 1], b[n - 1], p, entity);
    }
}

proof fn resolved_judgment_faces(
    a: JudgmentExpr,
    b: JudgmentExpr,
    p: Program,
    entity: Seq<char>,
    membership: Option<(Option<Seq<char>>, Option<Seq<char>>)>,
)
    requires
        judgment_resolved(a, b, p, entity, membership),
    ensures
        judgment_faces(b, p, entity),
    decreases a, 1int, 0nat,
{
    match (a, b) {
        (
            JudgmentExpr::Comparison { left: x, right: v, .. },
            JudgmentExpr::Comparison { left: y, right: w, .. },
        ) => {
            resolved_scalar_faces(x, y, p, entity);
            resolved_scalar_faces(v, w, p, entity);
        },
        (JudgmentExpr::And(x), JudgmentExpr::And(y)) => {
            resolved_judgments_face(x@, y@, x@.len(), p, entity, membership);
        },
        (JudgmentExpr::Or(x), JudgmentExpr::Or(y)) => {
            resolved_judgments_face(x@, y@, x@.len(), p, entity, membership);
        },
        (JudgmentExpr::Not(x), JudgmentExpr::Not(y)) => {
            resolved_judgment_faces(*x, *y, p, entity, membership);
        },
        _ => {},
    }
}

proof fn resolved_judgments_face(
    a: Seq<JudgmentExpr>,
    b: Seq<JudgmentExpr>,
    n: nat,
    p: Program,
    entity: Seq<char>,
    membership: Option<(Option<Seq<char>>, Option<Seq<char>>)>,
)
    requires
        n <= a.len() == b.len(),
        judgments_resolved(a, b, n, p, entity, membership),
    ensures
        judgments_face(b, n, p, entity),
    decreases a, 0int, n,
{
    if n > 0 {
        resolved_judgments_face(a, b, (n - 1) as nat, p, entity, membership);
        resolved_judgment_faces(a[n - 1], b[n - 1], p, entity, membership);
    }
}

/// Whether every aggregation in a formula faces the entity.
pub open spec fn formula_faces(s: DerivedSemantics, p: Program, entity: Seq<char>) -> bool {
    match s {
        DerivedSemantics::Scalar(e) => scalar_faces(e, p, entity),
        DerivedSemantics::Judgment(e) => judgment_faces(e, p, entity),
    }
}

/// In a program whose directions were resolved every aggregation, in every rule and version, faces
/// the entity that it stands for, whatever slots it had before.
pub proof fn resolved_aggregations_face_their_entity(before: Program, after: Program, i: int)
    requires
        program_resolved(before, after),
        0 <= i < after.derived@.len(),
    ensures
        ({
            let (a, b) = (before.derived@[i], after.derived@[i]);
            &&& b.name == a.name && b.entity == a.entity && b.rounding == a.rounding && b.unit
                == a.unit
            &&& formula_faces(b.semantics, before, b.entity@)
            &&& b.versions@.len() == a.versions@.len()
            &&& forall|j: int|
                0 <= j < b.versions@.len() ==> {
                    &&& formula_faces((#[trigger] b.versions@[j]).semantics, before, b.entity@)
                    &&& b.versions@[j].effective_from == a.versions@[j].effective_from
                    &&& b.versions@[j].effective_to == a.versions@[j].effective_to
                }
        }),
{
    let (a, b) = (before.derived@[i], after.derived@[i]);
    assert(rule_resolved(a, b, before));
    resolved_formula_faces(a.semantics, b.semantics, before, a.entity@);
    assert forall|j: int| 0 <= j < b.versions@.len() implies formula_faces(
        (#[trigger] b.versions@[j]).semantics,
        before,
        b.entity@,
    ) && b.versions@[j].effective_from == a.versions@[j].effective_from
        && b.versions@[j].effective_to == a.versions@[j].effective_to by {
        assert(version_resolved(a.versions@[j], b.versions@[j], before, a.entity@));
        resolved_formula_faces(
            a.versions@[j].semantics,
            b.versions@[j].semantics,
            before,
            a.entity@,
        );
    }
}

proof fn resolved_formula_faces(
    a: DerivedSemantics,
    b: DerivedSemantics,
    p: Program,
    entity: Seq<char>,
)
    requires
        formula_resolved(a, b, p, entity),
    ensures
        formula_faces(b, p, entity),
{
    match (a, b) {
        (DerivedSemantics::Scalar(x), DerivedSemantics::Scalar(y)) => {
            resolved_scalar_faces(x, y, p, entity);
        },
        (DerivedSemantics::Judgment(x), DerivedSemantics::Judgment(y)) => {
            resolved_judgment_faces(x, y, p, entity, None);
        },
        _ => {},
    }
}

/// A membership test between a current and a related entity of two kinds, over a data relation that
/// declares both, reads the current one in the slot of its kind and the related one in the slot of
/// its.
pub open spec fn member_faces(
    p: Program,
    relation: Seq<char>,
    current_slot: usize,
    related_slot: usize,
    current: Seq<char>,
    related: Seq<char>,
) -> bool {
    current != related ==> {
        &&& declares(p, relation, current, related) ==> current_slot == 0 && related_slot == 1
        &&& declares(p, relation, related, current) ==> current_slot == 1 && related_slot == 0
    }
}

/// Whether the membership tests of a judgment face the two entities.
pub open spec fn members_face(
    e: JudgmentExpr,
    p: Program,
    current: Seq<char>,
    related: Seq<char>,
) -> bool
    decreases e, 1int, 0nat,
{
    match e {
        JudgmentExpr::RelationMember { relation, current_slot, related_slot } => member_faces(
            p,
            relation@,
            current_slot,
            related_slot,
            current,
            related,
        ),
        JudgmentExpr::And(items) => all_members_face(items@, items@.len(), p, current, related),
        JudgmentExpr::Or(items) => all_members_face(items@, items@.len(), p, current, related),
        JudgmentExpr::Not(item) => members_face(*item, p, current, related),
        _ => true,
    }
}

pub open spec fn all_members_face(
    items: Seq<JudgmentExpr>,
    n: nat,
    p: Program,
    current: Seq<char>,
    related: Seq<char>,
) -> bool
    decreases items, 0int, n,
{
    n == 0 || n > items.len() || (all_members_face(items, (n - 1) as nat, p, current, related)
        && members_face(items[n - 1], p, current, related))
}

proof fn resolved_members_face(
    a: JudgmentExpr,
    b: JudgmentExpr,
    p: Program,
    entity: Seq<char>,
    current: Seq<char>,
    related: Seq<char>,
)
    requires
        judgment_resolved(a, b, p, entity, Some((Some(current), Some(related)))),
    ensures
        members_face(b, p, current, related),
    decreases a, 1int, 0nat,
{
    match (a, b) {
        (
            JudgmentExpr::RelationMember { relation, .. },
            JudgmentExpr::RelationMember { .. },
        ) => {
            if let Some(schema) = item_named(p.relations@, relation@) {
                if schema.derivation is None && schema.slot_entities@.len() == 2 {
                    let kinds = texts(schema.slot_entities@);
                    assert(kinds[0] == schema.slot_entities@[0]@);
                    assert(kinds[1] == schema.slot_entities@[1]@);
                }
            }
        },
        (JudgmentExpr::And(x), JudgmentExpr::And(y)) => {
            all_resolved_members_face(x@, y@, x@.len(), p, entity, current, related);
        },
        (JudgmentExpr::Or(x), JudgmentExpr::Or(y)) => {
            all_resolved_members_face(x@, y@, x@.len(), p, entity, current, related);
        },
        (JudgmentExpr::Not(x), JudgmentExpr::Not(y)) => {
            resolved_members_face(*x, *y, p, entity, current, related);
        },
        _ => {},
    }
}

proof fn all_resolved_members_face(
    a: Seq<JudgmentExpr>,
    b: Seq<JudgmentExpr>,
    n: nat,
    p: Program,
    entity: Seq<char>,
    current: Seq<char>,
    related: Seq<char>,
)
    requires
        n <= a.len() == b.len(),
        judgments_resolved(a, b, n, p, entity, Some((Some(current), Some(related)))),
    ensures
        all_members_face(b, n, p, current, related),
    decreases a, 0int, n,
{
    if n > 0 {
        all_resolved_members_face(a, b, (n - 1) as nat, p, entity, current, related);
        resolved_members_face(a[n - 1], b[n - 1], p, entity, current, related);
    }
}

/// In a program whose directions were resolved, the test of every derived relation whose kinds are
/// known faces the rows that it tests: its aggregations the related row, and its membership tests
/// both rows; and nothing else of the relation changes.
pub proof fn resolved_tests_face_their_rows(before: Program, after: Program, i: int)
    requires
        program_resolved(before, after),
        0 <= i < after.relations@.len(),
    ensures
        ({
            let (a, b) = (before.relations@[i], after.relations@[i]);
            &&& b.name == a.name && b.arity == a.arity && b.slot_entities == a.slot_entities
            &&& a.derivation is None ==> b == a
            &&& a.derivation matches Some(x) ==> (b.derivation matches Some(y) && {
                &&& y.source_relation == x.source_relation
                &&& y.current_slot == x.current_slot && y.related_slot == x.related_slot
                &&& derivation_of(before, a.name@) matches Some(d) ==> {
                    let kinds = effective_kinds(before, a.name@);
                    let current = kind_at(kinds, d.current_slot);
                    let related = kind_at(kinds, d.related_slot);
                    &&& judgment_faces(y.predicate, before, text_or_empty(related))
                    &&& current is Some && related is Some ==> members_face(
                        y.predicate,
                        before,
                        current->0,
                        related->0,
                    )
                }
            })
        }),
{
    let (a, b) = (before.relations@[i], after.relations@[i]);
    assert(relation_resolved(a, b, before));
    if let (Some(x), Some(y)) = (a.derivation, b.derivation) {
        if let Some(d) = derivation_of(before, a.name@) {
            let kinds = effective_kinds(before, a.name@);
            let current = kind_at(kinds, d.current_slot);
            let related = kind_at(kinds, d.related_slot);
            resolved_judgment_faces(
                x.predicate,
                y.predicate,
                before,
                text_or_empty(related),
                Some((current, related)),
            );
            if current is Some && related is Some {
                resolved_members_face(
                    x.predicate,
                    y.predicate,
                    before,
                    text_or_empty(related),
                    current->0,
                    related->0,
                );
            }
        }
    }
}

/// An aggregation of an entity over a data relation that has the entity's kind in both slots is
/// refused, whatever slots it has, and refused only then: the error names the relation, the entity
/// and the two kinds, which are the entity's.
pub proof fn a_direction_is_refused_where_both_slots_hold_the_entity(
    p: Program,
    relation: Seq<char>,
    current_slot: usize,
    related_slot: usize,
    entity: Seq<char>,
    citing: Seq<char>,
)
    ensures
        ({
            let r = directed(p, relation, current_slot, related_slot, entity, citing);
            &&& r is Err <==> declares(p, relation, entity, entity)
            &&& r matches Err(error) ==> {
                &&& error.relation == relation && error.entity == entity && error.citing == citing
                &&& error.slot_entities == seq![entity, entity]
            }
        }),
{
    if let Some(schema) = item_named(p.relations@, relation) {
        if schema.slot_entities@.len() == 2 {
            let kinds = texts(schema.slot_entities@);
            assert(kinds[0] == schema.slot_entities@[0]@);
            assert(kinds[1] == schema.slot_entities@[1]@);
            if kinds[0] == entity && kinds[1] == entity {
                assert(kinds =~= seq![entity, entity]);
            }
        }
    }
}

} // verus!
