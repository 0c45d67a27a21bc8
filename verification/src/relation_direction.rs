//! The direction of aggregations, from the entity kinds that relations declare.
//!
//! A formula that is read without its context has its aggregations in a fixed direction.
//! Once the context is known, an aggregation over a relation of two kinds keys on the slot
//! that holds the enclosing entity, one over a derived relation uses the derivation's
//! slots, and a membership test in a derived relation's predicate keys both ids on the
//! slots of their kinds. Where both slots hold the entity, the direction is ambiguous.
use crate::column::copied_texts;
use crate::model::{
    item_named, position_of, Derived, DerivedSemantics, DerivedVersion, JudgmentExpr, Named,
    Program, RelationDerivation, RelationSchema, ScalarExpr,
};
use crate::relation_typing::{
    derivation_of, effective_kinds, effective_slot_entities, kind_at, texts_of,
};
use crate::text::{owned, same, texts};
use crate::usages::context_of;
use vstd::prelude::*;
use vstd::string::*;

verus! {

/// A relation of one kind on both slots, read from an entity of that kind.
#[derive(Debug)]
pub struct AmbiguousRelationDirection {
    pub relation: String,
    pub citing: String,
    pub entity: String,
    pub slot_entities: Vec<String>,
}

/// The model of an [`AmbiguousRelationDirection`].
pub ghost struct AmbiguousView {
    pub relation: Seq<char>,
    pub citing: Seq<char>,
    pub entity: Seq<char>,
    pub slot_entities: Seq<Seq<char>>,
}

impl AmbiguousRelationDirection {
    pub open spec fn view(&self) -> AmbiguousView {
        AmbiguousView {
            relation: self.relation@,
            citing: self.citing@,
            entity: self.entity@,
            slot_entities: texts(self.slot_entities@),
        }
    }
}

/// The kinds of a data relation that declares two.
pub open spec fn two_kinds(p: Program, relation: Seq<char>) -> Option<Seq<Seq<char>>> {
    match item_named(p.relations@, relation) {
        Some(schema) => if schema.derivation is None && schema.slot_entities@.len() == 2 {
            Some(texts(schema.slot_entities@))
        } else {
            None
        },
        None => None,
    }
}

pub open spec fn text_or_empty(text: Option<Seq<char>>) -> Seq<char> {
    match text {
        Some(t) => t,
        None => Seq::empty(),
    }
}

/// The slots that an aggregation gets, and the kind of its related rows.
pub open spec fn directed(
    p: Program,
    relation: Seq<char>,
    current_slot: usize,
    related_slot: usize,
    entity: Seq<char>,
    citing: Seq<char>,
) -> Result<(usize, usize, Seq<char>), AmbiguousView> {
    match derivation_of(p, relation) {
        Some(d) => Ok(
            (
                d.current_slot,
                d.related_slot,
                text_or_empty(kind_at(effective_kinds(p, relation), d.related_slot)),
            ),
        ),
        None => match two_kinds(p, relation) {
            None => Ok((current_slot, related_slot, Seq::empty())),
            Some(kinds) => if kinds[0] == entity && kinds[1] == entity {
                Err(AmbiguousView { relation, citing, entity, slot_entities: kinds })
            } else {
                let (current, related) = if kinds[0] == entity {
                    (0usize, 1usize)
                } else if kinds[1] == entity {
                    (1usize, 0usize)
                } else {
                    (current_slot, related_slot)
                };
                Ok((current, related, text_or_empty(kind_at(Some(kinds), related))))
            },
        },
    }
}

/// The slots that a membership test gets between rows of two kinds.
pub open spec fn member_directed(
    p: Program,
    relation: Seq<char>,
    current_slot: usize,
    related_slot: usize,
    membership: Option<(Option<Seq<char>>, Option<Seq<char>>)>,
    citing: Seq<char>,
) -> Result<(usize, usize), AmbiguousView> {
    match (membership, two_kinds(p, relation)) {
        (Some((Some(current), Some(related))), Some(kinds)) => if current == related {
            if kinds[0] == current && kinds[1] == current {
                Err(AmbiguousView { relation, citing, entity: current, slot_entities: kinds })
            } else {
                Ok((current_slot, related_slot))
            }
        } else if kinds[0] == current && kinds[1] == related {
            Ok((0usize, 1usize))
        } else if kinds[0] == related && kinds[1] == current {
            Ok((1usize, 0usize))
        } else {
            Ok((current_slot, related_slot))
        },
        _ => Ok((current_slot, related_slot)),
    }
}

/// The first of two errors.
pub open spec fn either(
    a: Option<AmbiguousView>,
    b: Option<AmbiguousView>,
) -> Option<AmbiguousView> {
    match a {
        Some(_) => a,
        None => b,
    }
}

/// The first ambiguous direction in a formula.
pub open spec fn scalar_ambiguity(e: ScalarExpr, p: Program, entity: Seq<char>, citing: Seq<char>) -> Option<
    AmbiguousView,
>
    decreases e, 1int, 0nat,
{
    match e {
        ScalarExpr::ParameterLookup { index, .. } => scalar_ambiguity(*index, p, entity, citing),
        ScalarExpr::Add(items) => scalars_ambiguity(items@, items@.len(), p, entity, citing),
        ScalarExpr::Max(items) => scalars_ambiguity(items@, items@.len(), p, entity, citing),
        ScalarExpr::Min(items) => scalars_ambiguity(items@, items@.len(), p, entity, citing),
        ScalarExpr::Sub(a, b) => either(
            scalar_ambiguity(*a, p, entity, citing),
            scalar_ambiguity(*b, p, entity, citing),
        ),
        ScalarExpr::Mul(a, b) => either(
            scalar_ambiguity(*a, p, entity, citing),
            scalar_ambiguity(*b, p, entity, citing),
        ),
        ScalarExpr::Div(a, b) => either(
            scalar_ambiguity(*a, p, entity, citing),
            scalar_ambiguity(*b, p, entity, citing),
        ),
        ScalarExpr::Ceil(a) => scalar_ambiguity(*a, p, entity, citing),
        ScalarExpr::Floor(a) => scalar_ambiguity(*a, p, entity, citing),
        ScalarExpr::DateAddDays { date, days } => either(
            scalar_ambiguity(*date, p, entity, citing),
            scalar_ambiguity(*days, p, entity, citing),
        ),
        ScalarExpr::DateAddMonths { date, months } => either(
            scalar_ambiguity(*date, p, entity, citing),
            scalar_ambiguity(*months, p, entity, citing),
        ),
        ScalarExpr::DateAddYears { date, years } => either(
            scalar_ambiguity(*date, p, entity, citing),
            scalar_ambiguity(*years, p, entity, citing),
        ),
        ScalarExpr::DaysBetween { from, to } => either(
            scalar_ambiguity(*from, p, entity, citing),
            scalar_ambiguity(*to, p, entity, citing),
        ),
        ScalarExpr::CountRelated { relation, current_slot, related_slot, where_clause, .. } => match directed(
            p,
            relation@,
            current_slot,
            related_slot,
            entity,
            citing,
        ) {
            Err(error) => Some(error),
            Ok((_, _, related)) => match where_clause {
                Some(w) => judgment_ambiguity(*w, p, related, None, citing),
                None => None,
            },
        },
        ScalarExpr::SumRelated { relation, current_slot, related_slot, where_clause, .. } => match directed(
            p,
            relation@,
            current_slot,
            related_slot,
            entity,
            citing,
        ) {
            Err(error) => Some(error),
            Ok((_, _, related)) => match where_clause {
                Some(w) => judgment_ambiguity(*w, p, related, None, citing),
                None => None,
            },
        },
        ScalarExpr::If { condition, then_expr, else_expr } => either(
            judgment_ambiguity(*condition, p, entity, None, citing),
            either(
                scalar_ambiguity(*then_expr, p, entity, citing),
                scalar_ambiguity(*else_expr, p, entity, citing),
            ),
        ),
        ScalarExpr::NoMatch { subject, .. } => scalar_ambiguity(*subject, p, entity, citing),
        ScalarExpr::OverPeriods { value, n, .. } => either(
            scalar_ambiguity(*value, p, entity, citing),
            match n {
                Some(n) => scalar_ambiguity(*n, p, entity, citing),
                None => None,
            },
        ),
        _ => None,
    }
}

pub open spec fn scalars_ambiguity(
    items: Seq<ScalarExpr>,
    n: nat,
    p: Program,
    entity: Seq<char>,
    citing: Seq<char>,
) -> Option<AmbiguousView>
    decreases items, 0int, n,
{
    if n == 0 || n > items.len() {
        None
    } else {
        either(
            scalars_ambiguity(items, (n - 1) as nat, p, entity, citing),
            scalar_ambiguity(items[n - 1], p, entity, citing),
        )
    }
}

/// The first ambiguous direction in a judgment.
pub open spec fn judgment_ambiguity(
    e: JudgmentExpr,
    p: Program,
    entity: Seq<char>,
    membership: Option<(Option<Seq<char>>, Option<Seq<char>>)>,
    citing: Seq<char>,
) -> Option<AmbiguousView>
    decreases e, 1int, 0nat,
{
    match e {
        JudgmentExpr::Comparison { left, right, .. } => either(
            scalar_ambiguity(left, p, entity, citing),
            scalar_ambiguity(right, p, entity, citing),
        ),
        JudgmentExpr::Derived(_) => None,
        JudgmentExpr::RelationMember { relation, current_slot, related_slot } => {
            match member_directed(p, relation@, current_slot, related_slot, membership, citing) {
                Err(error) => Some(error),
                Ok(_) => None,
            }
        },
        JudgmentExpr::And(items) => judgments_ambiguity(
            items@,
            items@.len(),
            p,
            entity,
            membership,
            citing,
        ),
        JudgmentExpr::Or(items) => judgments_ambiguity(
            items@,
            items@.len(),
            p,
            entity,
            membership,
            citing,
        ),
        JudgmentExpr::Not(item) => judgment_ambiguity(*item, p, entity, membership, citing),
    }
}

pub open spec fn judgments_ambiguity(
    items: Seq<JudgmentExpr>,
    n: nat,
    p: Program,
    entity: Seq<char>,
    membership: Option<(Option<Seq<char>>, Option<Seq<char>>)>,
    citing: Seq<char>,
) -> Option<AmbiguousView>
    decreases items, 0int, n,
{
    if n == 0 || n > items.len() {
        None
    } else {
        either(
            judgments_ambiguity(items, (n - 1) as nat, p, entity, membership, citing),
            judgment_ambiguity(items[n - 1], p, entity, membership, citing),
        )
    }
}

/// Whether a formula is another one with the directions of its aggregations resolved.
pub open spec fn scalar_resolved(a: ScalarExpr, b: ScalarExpr, p: Program, entity: Seq<char>) -> bool
    decreases a, 1int, 0nat,
{
    match (a, b) {
        (
            ScalarExpr::ParameterLookup { parameter: x, index: i },
            ScalarExpr::ParameterLookup { parameter: y, index: j },
        ) => x == y && scalar_resolved(*i, *j, p, entity),
        (ScalarExpr::Add(x), ScalarExpr::Add(y)) => x@.len() == y@.len() && scalars_resolved(
            x@,
            y@,
            x@.len(),
            p,
            entity,
        ),
        (ScalarExpr::Max(x), ScalarExpr::Max(y)) => x@.len() == y@.len() && scalars_resolved(
            x@,
            y@,
            x@.len(),
            p,
            entity,
        ),
        (ScalarExpr::Min(x), ScalarExpr::Min(y)) => x@.len() == y@.len() && scalars_resolved(
            x@,
            y@,
            x@.len(),
            p,
            entity,
        ),
        (ScalarExpr::Sub(x, v), ScalarExpr::Sub(y, w)) => scalar_resolved(*x, *y, p, entity)
            && scalar_resolved(*v, *w, p, entity),
        (ScalarExpr::Mul(x, v), ScalarExpr::Mul(y, w)) => scalar_resolved(*x, *y, p, entity)
            && scalar_resolved(*v, *w, p, entity),
        (ScalarExpr::Div(x, v), ScalarExpr::Div(y, w)) => scalar_resolved(*x, *y, p, entity)
            && scalar_resolved(*v, *w, p, entity),
        (ScalarExpr::Ceil(x), ScalarExpr::Ceil(y)) => scalar_resolved(*x, *y, p, entity),
        (ScalarExpr::Floor(x), ScalarExpr::Floor(y)) => scalar_resolved(*x, *y, p, entity),
        (
            ScalarExpr::DateAddDays { date: x, days: v },
            ScalarExpr::DateAddDays { date: y, days: w },
        ) => scalar_resolved(*x, *y, p, entity) && scalar_resolved(*v, *w, p, entity),
        (
            ScalarExpr::DateAddMonths { date: x, months: v },
            ScalarExpr::DateAddMonths { date: y, months: w },
        ) => scalar_resolved(*x, *y, p, entity) && scalar_resolved(*v, *w, p, entity),
        (
            ScalarExpr::DateAddYears { date: x, years: v },
            ScalarExpr::DateAddYears { date: y, years: w },
        ) => scalar_resolved(*x, *y, p, entity) && scalar_resolved(*v, *w, p, entity),
        (
            ScalarExpr::DaysBetween { from: x, to: v },
            ScalarExpr::DaysBetween { from: y, to: w },
        ) => scalar_resolved(*x, *y, p, entity) && scalar_resolved(*v, *w, p, entity),
        (
            ScalarExpr::CountRelated { relation: r, current_slot: c, related_slot: s, where_clause: x },
            ScalarExpr::CountRelated { relation: q, current_slot: d, related_slot: t, where_clause: y },
        ) => r == q && match directed(p, r@, c, s, entity, Seq::empty()) {
            Err(_) => false,
            Ok((current, related, kind)) => d == current && t == related && match (x, y) {
                (Some(x), Some(y)) => judgment_resolved(*x, *y, p, kind, None),
                (None, None) => true,
                _ => false,
            },
        },
        (
            ScalarExpr::SumRelated { relation: r, current_slot: c, related_slot: s, value: v, where_clause: x },
            ScalarExpr::SumRelated { relation: q, current_slot: d, related_slot: t, value: w, where_clause: y },
        ) => r == q && v == w && match directed(p, r@, c, s, entity, Seq::empty()) {
            Err(_) => false,
            Ok((current, related, kind)) => d == current && t == related && match (x, y) {
                (Some(x), Some(y)) => judgment_resolved(*x, *y, p, kind, None),
                (None, None) => true,
                _ => false,
            },
        },
        (
            ScalarExpr::If { condition: c, then_expr: x, else_expr: v },
            ScalarExpr::If { condition: d, then_expr: y, else_expr: w },
        ) => judgment_resolved(*c, *d, p, entity, None) && scalar_resolved(*x, *y, p, entity)
            && scalar_resolved(*v, *w, p, entity),
        (
            ScalarExpr::NoMatch { subject: x, patterns: v },
            ScalarExpr::NoMatch { subject: y, patterns: w },
        ) => scalar_resolved(*x, *y, p, entity) && v == w,
        (
            ScalarExpr::OverPeriods { kind: k, value: x, n: v },
            ScalarExpr::OverPeriods { kind: l, value: y, n: w },
        ) => k == l && scalar_resolved(*x, *y, p, entity) && match (v, w) {
            (Some(v), Some(w)) => scalar_resolved(*v, *w, p, entity),
            (None, None) => true,
            _ => false,
        },
        _ => a == b,
    }
}

pub open spec fn scalars_resolved(
    a: Seq<ScalarExpr>,
    b: Seq<ScalarExpr>,
    n: nat,
    p: Program,
    entity: Seq<char>,
) -> bool
    decreases a, 0int, n,
{
    n == 0 || n > a.len() || (scalars_resolved(a, b, (n - 1) as nat, p, entity) && scalar_resolved(
        a[n - 1],
        b[n - 1],
        p,
        entity,
    ))
}

/// Whether a judgment is another one with the directions of its aggregations resolved.
pub open spec fn judgment_resolved(
    a: JudgmentExpr,
    b: JudgmentExpr,
    p: Program,
    entity: Seq<char>,
    membership: Option<(Option<Seq<char>>, Option<Seq<char>>)>,
) -> bool
    decreases a, 1int, 0nat,
{
    match (a, b) {
        (
            JudgmentExpr::Comparison { left: x, op: o, right: v },
            JudgmentExpr::Comparison { left: y, op: q, right: w },
        ) => o == q && scalar_resolved(x, y, p, entity) && scalar_resolved(v, w, p, entity),
        (
            JudgmentExpr::RelationMember { relation: r, current_slot: c, related_slot: s },
            JudgmentExpr::RelationMember { relation: q, current_slot: d, related_slot: t },
        ) => r == q && member_directed(p, r@, c, s, membership, Seq::empty()) == Ok::<
            (usize, usize),
            AmbiguousView,
        >((d, t)),
        (JudgmentExpr::And(x), JudgmentExpr::And(y)) => x@.len() == y@.len() && judgments_resolved(
            x@,
            y@,
            x@.len(),
            p,
            entity,
            membership,
        ),
        (JudgmentExpr::Or(x), JudgmentExpr::Or(y)) => x@.len() == y@.len() && judgments_resolved(
            x@,
            y@,
            x@.len(),
            p,
            entity,
            membership,
        ),
        (JudgmentExpr::Not(x), JudgmentExpr::Not(y)) => judgment_resolved(
            *x,
            *y,
            p,
            entity,
            membership,
        ),
        _ => a == b,
    }
}

pub open spec fn judgments_resolved(
    a: Seq<JudgmentExpr>,
    b: Seq<JudgmentExpr>,
    n: nat,
    p: Program,
    entity: Seq<char>,
    membership: Option<(Option<Seq<char>>, Option<Seq<char>>)>,
) -> bool
    decreases a, 0int, n,
{
    n == 0 || n > a.len() || (judgments_resolved(a, b, (n - 1) as nat, p, entity, membership)
        && judgment_resolved(a[n - 1], b[n - 1], p, entity, membership))
}

/// What is known of a relation: its two kinds, or the slots of its derivation.
#[derive(Debug)]
pub struct RelationFacts {
    pub name: String,
    pub two_kinds: Option<Vec<String>>,
    pub derived: Option<DerivedSlots>,
}

/// The slots of a derivation, and the kinds of all its slots.
#[derive(Debug)]
pub struct DerivedSlots {
    pub current_slot: usize,
    pub related_slot: usize,
    pub kinds: Option<Vec<String>>,
}

impl Named for RelationFacts {
    open spec fn label_of(&self) -> Seq<char> {
        self.name@
    }

    fn name_of(&self) -> (r: &str) {
        self.name.as_str()
    }
}

/// Whether what is known of a relation is what the program says.
spec fn facts_fit(facts: RelationFacts, p: Program) -> bool {
    &&& texts_of(facts.two_kinds) == two_kinds(p, facts.name@)
    &&& match (facts.derived, derivation_of(p, facts.name@)) {
        (Some(slots), Some(d)) => slots.current_slot == d.current_slot && slots.related_slot
            == d.related_slot && texts_of(slots.kinds) == effective_kinds(p, facts.name@),
        (None, None) => true,
        _ => false,
    }
}

/// Whether the table knows the relations of the program.
spec fn knows(table: Seq<RelationFacts>, p: Program) -> bool {
    &&& forall|i: int| 0 <= i < table.len() ==> facts_fit(#[trigger] table[i], p)
    &&& forall|name: Seq<char>| #[trigger]
        item_named(p.relations@, name) is Some ==> position_of(table, name) is Some
}

fn known_relations(program: &Program) -> (r: Vec<RelationFacts>)
    ensures
        knows(r@, *program),
{
    let mut table: Vec<RelationFacts> = Vec::new();
    let mut i: usize = 0;
    while i < program.relations.len()
        invariant
            i <= program.relations@.len(),
            table@.len() == i,
            forall|k: int| 0 <= k < i ==> facts_fit(#[trigger] table@[k], *program),
            forall|k: int| 0 <= k < i ==> (#[trigger] table@[k]).name@ == program.relations@[k].name@,
        decreases program.relations@.len() - i,
    {
        let name = program.relations[i].name.as_str();
        let facts = match crate::model::find_named(&program.relations, name) {
            Some(schema) => match &schema.derivation {
                Some(d) => RelationFacts {
                    name: owned(name),
                    two_kinds: None,
                    derived: Some(
                        DerivedSlots {
                            current_slot: d.current_slot,
                            related_slot: d.related_slot,
                            kinds: effective_slot_entities(program, name),
                        },
                    ),
                },
                None => {
                    let kinds = if schema.slot_entities.len() == 2 {
                        Some(copied_texts(&schema.slot_entities))
                    } else {
                        None
                    };
                    RelationFacts { name: owned(name), two_kinds: kinds, derived: None }
                },
            },
            None => RelationFacts { name: owned(name), two_kinds: None, derived: None },
        };
        assert(facts_fit(facts, *program));
        table.push(facts);
        i = i + 1;
    }
    proof {
        assert forall|name: Seq<char>| #[trigger]
            item_named(program.relations@, name) is Some implies position_of(
            table@,
            name,
        ) is Some by {
            crate::model::position_from_meaning(program.relations@, name, 0);
            crate::model::position_from_meaning(table@, name, 0);
            let k = position_of(program.relations@, name)->Some_0;
            assert(table@[k as int].name@ == program.relations@[k as int].name@);
            assert(table@[k as int].label_of() == name);
        }
    }
    table
}

pub open spec fn direction_of(r: Result<(usize, usize, String), AmbiguousRelationDirection>) -> Result<
    (usize, usize, Seq<char>),
    AmbiguousView,
> {
    match r {
        Ok((current, related, kind)) => Ok((current, related, kind@)),
        Err(error) => Err(error@),
    }
}

fn kind_or_empty(kinds: &Option<Vec<String>>, slot: usize) -> (r: String)
    ensures
        r@ == text_or_empty(kind_at(texts_of(*kinds), slot)),
{
    match kinds {
        Some(list) if slot < list.len() => list[slot].clone(),
        _ => {
            let empty = String::new();
            assert(empty@ =~= Seq::<char>::empty());
            empty
        },
    }
}

/// The slots that an aggregation gets, and the kind of its related rows.
fn aggregate(
    table: &Vec<RelationFacts>,
    relation: &str,
    current_slot: usize,
    related_slot: usize,
    entity: &str,
    citing: &str,
    Ghost(p): Ghost<Program>,
) -> (r: Result<(usize, usize, String), AmbiguousRelationDirection>)
    requires
        knows(table@, p),
    ensures
        direction_of(r) == directed(p, relation@, current_slot, related_slot, entity@, citing@),
{
    let empty = String::new();
    assert(empty@ =~= Seq::<char>::empty());
    let facts = match crate::model::find_named(table, relation) {
        Some(facts) => facts,
        None => {
            return Ok((current_slot, related_slot, empty));
        },
    };
    proof {
        crate::model::position_from_meaning(table@, relation@, 0);
        let k = position_of(table@, relation@)->Some_0;
        assert(facts_fit(table@[k as int], p));
    }
    if let Some(slots) = &facts.derived {
        return Ok(
            (
                slots.current_slot,
                slots.related_slot,
                kind_or_empty(&slots.kinds, slots.related_slot),
            ),
        );
    }
    let kinds = match &facts.two_kinds {
        Some(kinds) => kinds,
        None => {
            return Ok((current_slot, related_slot, empty));
        },
    };
    assert(texts(kinds@).len() == kinds@.len());
    assert(texts(kinds@)[0] == kinds@[0]@);
    assert(texts(kinds@)[1] == kinds@[1]@);
    let first = same(kinds[0].as_str(), entity);
    let second = same(kinds[1].as_str(), entity);
    if first && second {
        return Err(
            AmbiguousRelationDirection {
                relation: owned(relation),
                citing: owned(citing),
                entity: owned(entity),
                slot_entities: copied_texts(kinds),
            },
        );
    }
    let (current, related) = if first {
        (0usize, 1usize)
    } else if second {
        (1usize, 0usize)
    } else {
        (current_slot, related_slot)
    };
    Ok((current, related, kind_or_empty(&facts.two_kinds, related)))
}

pub open spec fn slots_of(r: Result<(usize, usize), AmbiguousRelationDirection>) -> Result<
    (usize, usize),
    AmbiguousView,
> {
    match r {
        Ok(slots) => Ok(slots),
        Err(error) => Err(error@),
    }
}

fn direct_member(
    table: &Vec<RelationFacts>,
    relation: &str,
    current_slot: usize,
    related_slot: usize,
    membership: Option<(Option<&str>, Option<&str>)>,
    citing: &str,
    Ghost(p): Ghost<Program>,
) -> (r: Result<(usize, usize), AmbiguousRelationDirection>)
    requires
        knows(table@, p),
    ensures
        slots_of(r) == member_directed(
            p,
            relation@,
            current_slot,
            related_slot,
            context_of(membership),
            citing@,
        ),
{
    let (current, related) = match membership {
        Some((Some(current), Some(related))) => (current, related),
        _ => {
            return Ok((current_slot, related_slot));
        },
    };
    let facts = match crate::model::find_named(table, relation) {
        Some(facts) => facts,
        None => {
            return Ok((current_slot, related_slot));
        },
    };
    proof {
        crate::model::position_from_meaning(table@, relation@, 0);
        let k = position_of(table@, relation@)->Some_0;
        assert(facts_fit(table@[k as int], p));
    }
    let kinds = match &facts.two_kinds {
        Some(kinds) => kinds,
        None => {
            return Ok((current_slot, related_slot));
        },
    };
    assert(texts(kinds@).len() == kinds@.len());
    assert(texts(kinds@)[0] == kinds@[0]@);
    assert(texts(kinds@)[1] == kinds@[1]@);
    let (a, b) = (kinds[0].as_str(), kinds[1].as_str());
    if same(current, related) {
        if same(a, current) && same(b, current) {
            return Err(
                AmbiguousRelationDirection {
                    relation: owned(relation),
                    citing: owned(citing),
                    entity: owned(current),
                    slot_entities: copied_texts(kinds),
                },
            );
        }
        return Ok((current_slot, related_slot));
    }
    if same(a, current) && same(b, related) {
        Ok((0, 1))
    } else if same(a, related) && same(b, current) {
        Ok((1, 0))
    } else {
        Ok((current_slot, related_slot))
    }
}

proof fn ambiguity_found(
    items: Seq<ScalarExpr>,
    n: nat,
    m: nat,
    p: Program,
    entity: Seq<char>,
    citing: Seq<char>,
)
    requires
        n <= m <= items.len(),
        scalars_ambiguity(items, n, p, entity, citing) is Some,
    ensures
        scalars_ambiguity(items, m, p, entity, citing) == scalars_ambiguity(
            items,
            n,
            p,
            entity,
            citing,
        ),
    decreases m,
{
    if n < m {
        ambiguity_found(items, n, (m - 1) as nat, p, entity, citing);
    }
}

proof fn judgment_ambiguity_found(
    items: Seq<JudgmentExpr>,
    n: nat,
    m: nat,
    p: Program,
    entity: Seq<char>,
    membership: Option<(Option<Seq<char>>, Option<Seq<char>>)>,
    citing: Seq<char>,
)
    requires
        n <= m <= items.len(),
        judgments_ambiguity(items, n, p, entity, membership, citing) is Some,
    ensures
        judgments_ambiguity(items, m, p, entity, membership, citing) == judgments_ambiguity(
            items,
            n,
            p,
            entity,
            membership,
            citing,
        ),
    decreases m,
{
    if n < m {
        judgment_ambiguity_found(items, n, (m - 1) as nat, p, entity, membership, citing);
    }
}

proof fn scalars_resolved_kept(
    a: Seq<ScalarExpr>,
    b: Seq<ScalarExpr>,
    c: Seq<ScalarExpr>,
    n: nat,
    p: Program,
    entity: Seq<char>,
)
    requires
        n <= a.len(),
        n <= b.len(),
        n <= c.len(),
        forall|i: int| 0 <= i < n ==> #[trigger] b[i] == c[i],
        scalars_resolved(a, b, n, p, entity),
    ensures
        scalars_resolved(a, c, n, p, entity),
    decreases n,
{
    if n > 0 {
        scalars_resolved_kept(a, b, c, (n - 1) as nat, p, entity);
        assert(b[n - 1] == c[n - 1]);
    }
}

proof fn judgments_resolved_kept(
    a: Seq<JudgmentExpr>,
    b: Seq<JudgmentExpr>,
    c: Seq<JudgmentExpr>,
    n: nat,
    p: Program,
    entity: Seq<char>,
    membership: Option<(Option<Seq<char>>, Option<Seq<char>>)>,
)
    requires
        n <= a.len(),
        n <= b.len(),
        n <= c.len(),
        forall|i: int| 0 <= i < n ==> #[trigger] b[i] == c[i],
        judgments_resolved(a, b, n, p, entity, membership),
    ensures
        judgments_resolved(a, c, n, p, entity, membership),
    decreases n,
{
    if n > 0 {
        judgments_resolved_kept(a, b, c, (n - 1) as nat, p, entity, membership);
        assert(b[n - 1] == c[n - 1]);
    }
}

pub open spec fn scalar_outcome(
    e: ScalarExpr,
    r: Result<ScalarExpr, AmbiguousRelationDirection>,
    p: Program,
    entity: Seq<char>,
    citing: Seq<char>,
) -> bool {
    match scalar_ambiguity(e, p, entity, citing) {
        Some(error) => match r {
            Err(e) => e@ == error,
            Ok(_) => false,
        },
        None => match r {
            Ok(after) => scalar_resolved(e, after, p, entity),
            Err(_) => false,
        },
    }
}

pub open spec fn judgment_outcome(
    e: JudgmentExpr,
    r: Result<JudgmentExpr, AmbiguousRelationDirection>,
    p: Program,
    entity: Seq<char>,
    membership: Option<(Option<Seq<char>>, Option<Seq<char>>)>,
    citing: Seq<char>,
) -> bool {
    match judgment_ambiguity(e, p, entity, membership, citing) {
        Some(error) => match r {
            Err(e) => e@ == error,
            Ok(_) => false,
        },
        None => match r {
            Ok(after) => judgment_resolved(e, after, p, entity, membership),
            Err(_) => false,
        },
    }
}

fn resolve_scalars(
    items: Vec<ScalarExpr>,
    table: &Vec<RelationFacts>,
    entity: &str,
    citing: &str,
    Ghost(p): Ghost<Program>,
) -> (r: Result<Vec<ScalarExpr>, AmbiguousRelationDirection>)
    requires
        knows(table@, p),
    ensures
        match scalars_ambiguity(items@, items@.len(), p, entity@, citing@) {
            Some(error) => match r {
                Err(e) => e@ == error,
                Ok(_) => false,
            },
            None => match r {
                Ok(after) => after@.len() == items@.len() && scalars_resolved(
                    items@,
                    after@,
                    items@.len(),
                    p,
                    entity@,
                ),
                Err(_) => false,
            },
        },
    decreases items@, 0int,
{
    let ghost whole = items@;
    let mut list = items;
    let mut out: Vec<ScalarExpr> = Vec::new();
    let mut i: usize = 0;
    while i < list.len()
        invariant
            i <= whole.len(),
            whole == items@,
            list@.len() == whole.len(),
            forall|k: int| i <= k < whole.len() ==> #[trigger] list@[k] == whole[k],
            knows(table@, p),
            out@.len() == i,
            scalars_ambiguity(whole, i as nat, p, entity@, citing@) is None,
            scalars_resolved(whole, out@, i as nat, p, entity@),
        decreases whole.len() - i,
    {
        let mut item = ScalarExpr::PeriodStart;
        list.set_and_swap(i, &mut item);
        assert(item == whole[i as int]);
        match resolve_scalar(item, table, entity, citing, Ghost(p)) {
            Ok(after) => {
                let ghost before = out@;
                out.push(after);
                proof {
                    scalars_resolved_kept(whole, before, out@, i as nat, p, entity@);
                }
            },
            Err(error) => {
                proof {
                    assert(scalars_ambiguity(whole, (i + 1) as nat, p, entity@, citing@) == Some(
                        error@,
                    ));
                    ambiguity_found(whole, (i + 1) as nat, whole.len(), p, entity@, citing@);
                }
                return Err(error);
            },
        }
        i = i + 1;
    }
    Ok(out)
}

fn resolve_judgments(
    items: Vec<JudgmentExpr>,
    table: &Vec<RelationFacts>,
    entity: &str,
    membership: Option<(Option<&str>, Option<&str>)>,
    citing: &str,
    Ghost(p): Ghost<Program>,
) -> (r: Result<Vec<JudgmentExpr>, AmbiguousRelationDirection>)
    requires
        knows(table@, p),
    ensures
        match judgments_ambiguity(
            items@,
            items@.len(),
            p,
            entity@,
            context_of(membership),
            citing@,
        ) {
            Some(error) => match r {
                Err(e) => e@ == error,
                Ok(_) => false,
            },
            None => match r {
                Ok(after) => after@.len() == items@.len() && judgments_resolved(
                    items@,
                    after@,
                    items@.len(),
                    p,
                    entity@,
                    context_of(membership),
                ),
                Err(_) => false,
            },
        },
    decreases items@, 0int,
{
    let ghost whole = items@;
    let ghost m = context_of(membership);
    let mut list = items;
    let mut out: Vec<JudgmentExpr> = Vec::new();
    let mut i: usize = 0;
    while i < list.len()
        invariant
            i <= whole.len(),
            whole == items@,
            m == context_of(membership),
            list@.len() == whole.len(),
            forall|k: int| i <= k < whole.len() ==> #[trigger] list@[k] == whole[k],
            knows(table@, p),
            out@.len() == i,
            judgments_ambiguity(whole, i as nat, p, entity@, m, citing@) is None,
            judgments_resolved(whole, out@, i as nat, p, entity@, m),
        decreases whole.len() - i,
    {
        let mut item = JudgmentExpr::And(Vec::new());
        list.set_and_swap(i, &mut item);
        assert(item == whole[i as int]);
        match resolve_judgment(item, table, entity, membership, citing, Ghost(p)) {
            Ok(after) => {
                let ghost before = out@;
                out.push(after);
                proof {
                    judgments_resolved_kept(whole, before, out@, i as nat, p, entity@, m);
                }
            },
            Err(error) => {
                proof {
                    assert(judgments_ambiguity(
                        whole,
                        (i + 1) as nat,
                        p,
                        entity@,
                        m,
                        citing@,
                    ) == Some(error@));
                    judgment_ambiguity_found(
                        whole,
                        (i + 1) as nat,
                        whole.len(),
                        p,
                        entity@,
                        m,
                        citing@,
                    );
                }
                return Err(error);
            },
        }
        i = i + 1;
    }
    Ok(out)
}

fn resolve_two(
    a: ScalarExpr,
    b: ScalarExpr,
    table: &Vec<RelationFacts>,
    entity: &str,
    citing: &str,
    Ghost(p): Ghost<Program>,
    Ghost(whole): Ghost<ScalarExpr>,
) -> (r: Result<(Box<ScalarExpr>, Box<ScalarExpr>), AmbiguousRelationDirection>)
    requires
        knows(table@, p),
        decreases_to!(whole => a),
        decreases_to!(whole => b),
    ensures
        match either(
            scalar_ambiguity(a, p, entity@, citing@),
            scalar_ambiguity(b, p, entity@, citing@),
        ) {
            Some(error) => match r {
                Err(e) => e@ == error,
                Ok(_) => false,
            },
            None => match r {
                Ok((x, y)) => scalar_resolved(a, *x, p, entity@) && scalar_resolved(
                    b,
                    *y,
                    p,
                    entity@,
                ),
                Err(_) => false,
            },
        },
    decreases whole, 0int,
{
    let x = match resolve_scalar(a, table, entity, citing, Ghost(p)) {
        Ok(x) => x,
        Err(error) => {
            return Err(error);
        },
    };
    match resolve_scalar(b, table, entity, citing, Ghost(p)) {
        Ok(y) => Ok((Box::new(x), Box::new(y))),
        Err(error) => Err(error),
    }
}

/// The direction does not depend on who asks, but for the error.
proof fn citing_is_named_only(
    p: Program,
    relation: Seq<char>,
    current_slot: usize,
    related_slot: usize,
    entity: Seq<char>,
    citing: Seq<char>,
)
    ensures
        directed(p, relation, current_slot, related_slot, entity, citing) matches Ok(d)
            ==> directed(p, relation, current_slot, related_slot, entity, Seq::empty()) == Ok::<
            (usize, usize, Seq<char>),
            AmbiguousView,
        >(d),
{
}

fn resolve_filter(
    filter: Option<Box<JudgmentExpr>>,
    table: &Vec<RelationFacts>,
    entity: &str,
    citing: &str,
    Ghost(p): Ghost<Program>,
    Ghost(whole): Ghost<ScalarExpr>,
) -> (r: Result<Option<Box<JudgmentExpr>>, AmbiguousRelationDirection>)
    requires
        knows(table@, p),
        filter matches Some(w) ==> decreases_to!(whole => *w),
    ensures
        match filter {
            None => r == Ok::<Option<Box<JudgmentExpr>>, AmbiguousRelationDirection>(None),
            Some(w) => match judgment_ambiguity(*w, p, entity@, None, citing@) {
                Some(error) => match r {
                    Err(e) => e@ == error,
                    Ok(_) => false,
                },
                None => match r {
                    Ok(Some(x)) => judgment_resolved(*w, *x, p, entity@, None),
                    _ => false,
                },
            },
        },
    decreases whole, 0int,
{
    match filter {
        None => Ok(None),
        Some(w) => match resolve_judgment(*w, table, entity, None, citing, Ghost(p)) {
            Ok(x) => Ok(Some(Box::new(x))),
            Err(error) => Err(error),
        },
    }
}

/// Resolves the directions of the aggregations in a formula.
fn resolve_scalar(
    expr: ScalarExpr,
    table: &Vec<RelationFacts>,
    entity: &str,
    citing: &str,
    Ghost(p): Ghost<Program>,
) -> (r: Result<ScalarExpr, AmbiguousRelationDirection>)
    requires
        knows(table@, p),
    ensures
        scalar_outcome(expr, r, p, entity@, citing@),
    decreases expr, 1int,
{
    let ghost whole = expr;
    match expr {
        ScalarExpr::ParameterLookup { parameter, index } => {
            match resolve_scalar(*index, table, entity, citing, Ghost(p)) {
                Ok(x) => Ok(ScalarExpr::ParameterLookup { parameter, index: Box::new(x) }),
                Err(error) => Err(error),
            }
        },
        ScalarExpr::Add(items) => match resolve_scalars(items, table, entity, citing, Ghost(p)) {
            Ok(list) => Ok(ScalarExpr::Add(list)),
            Err(error) => Err(error),
        },
        ScalarExpr::Max(items) => match resolve_scalars(items, table, entity, citing, Ghost(p)) {
            Ok(list) => Ok(ScalarExpr::Max(list)),
            Err(error) => Err(error),
        },
        ScalarExpr::Min(items) => match resolve_scalars(items, table, entity, citing, Ghost(p)) {
            Ok(list) => Ok(ScalarExpr::Min(list)),
            Err(error) => Err(error),
        },
        ScalarExpr::Sub(a, b) => {
            match resolve_two(*a, *b, table, entity, citing, Ghost(p), Ghost(whole)) {
                Ok((x, y)) => Ok(ScalarExpr::Sub(x, y)),
                Err(error) => Err(error),
            }
        },
        ScalarExpr::Mul(a, b) => {
            match resolve_two(*a, *b, table, entity, citing, Ghost(p), Ghost(whole)) {
                Ok((x, y)) => Ok(ScalarExpr::Mul(x, y)),
                Err(error) => Err(error),
            }
        },
        ScalarExpr::Div(a, b) => {
            match resolve_two(*a, *b, table, entity, citing, Ghost(p), Ghost(whole)) {
                Ok((x, y)) => Ok(ScalarExpr::Div(x, y)),
                Err(error) => Err(error),
            }
        },
        ScalarExpr::Ceil(a) => match resolve_scalar(*a, table, entity, citing, Ghost(p)) {
            Ok(x) => Ok(ScalarExpr::Ceil(Box::new(x))),
            Err(error) => Err(error),
        },
        ScalarExpr::Floor(a) => match resolve_scalar(*a, table, entity, citing, Ghost(p)) {
            Ok(x) => Ok(ScalarExpr::Floor(Box::new(x))),
            Err(error) => Err(error),
        },
        ScalarExpr::DateAddDays { date, days } => {
            match resolve_two(*date, *days, table, entity, citing, Ghost(p), Ghost(whole)) {
                Ok((x, y)) => Ok(ScalarExpr::DateAddDays { date: x, days: y }),
                Err(error) => Err(error),
            }
        },
        ScalarExpr::DateAddMonths { date, months } => {
            match resolve_two(*date, *months, table, entity, citing, Ghost(p), Ghost(whole)) {
                Ok((x, y)) => Ok(ScalarExpr::DateAddMonths { date: x, months: y }),
                Err(error) => Err(error),
            }
        },
        ScalarExpr::DateAddYears { date, years } => {
            match resolve_two(*date, *years, table, entity, citing, Ghost(p), Ghost(whole)) {
                Ok((x, y)) => Ok(ScalarExpr::DateAddYears { date: x, years: y }),
                Err(error) => Err(error),
            }
        },
        ScalarExpr::DaysBetween { from, to } => {
            match resolve_two(*from, *to, table, entity, citing, Ghost(p), Ghost(whole)) {
                Ok((x, y)) => Ok(ScalarExpr::DaysBetween { from: x, to: y }),
                Err(error) => Err(error),
            }
        },
        ScalarExpr::CountRelated { relation, current_slot, related_slot, where_clause } => {
            match aggregate(
                table,
                relation.as_str(),
                current_slot,
                related_slot,
                entity,
                citing,
                Ghost(p),
            ) {
                Err(error) => Err(error),
                Ok((current, related, kind)) => {
                    proof {
                        citing_is_named_only(
                            p,
                            relation@,
                            current_slot,
                            related_slot,
                            entity@,
                            citing@,
                        );
                    }
                    match resolve_filter(
                        where_clause,
                        table,
                        kind.as_str(),
                        citing,
                        Ghost(p),
                        Ghost(whole),
                    ) {
                        Err(error) => Err(error),
                        Ok(filter) => Ok(
                            ScalarExpr::CountRelated {
                                relation,
                                current_slot: current,
                                related_slot: related,
                                where_clause: filter,
                            },
                        ),
                    }
                },
            }
        },
        ScalarExpr::SumRelated { relation, current_slot, related_slot, value, where_clause } => {
            match aggregate(
                table,
                relation.as_str(),
                current_slot,
                related_slot,
                entity,
                citing,
                Ghost(p),
            ) {
                Err(error) => Err(error),
                Ok((current, related, kind)) => {
                    proof {
                        citing_is_named_only(
                            p,
                            relation@,
                            current_slot,
                            related_slot,
                            entity@,
                            citing@,
                        );
                    }
                    match resolve_filter(
                        where_clause,
                        table,
                        kind.as_str(),
                        citing,
                        Ghost(p),
                        Ghost(whole),
                    ) {
                        Err(error) => Err(error),
                        Ok(filter) => Ok(
                            ScalarExpr::SumRelated {
                                relation,
                                current_slot: current,
                                related_slot: related,
                                value, where_clause: filter,
                            },
                        ),
                    }
                },
            }
        },
        ScalarExpr::If { condition, then_expr, else_expr } => {
            match resolve_judgment(*condition, table, entity, None, citing, Ghost(p)) {
                Err(error) => Err(error),
                Ok(c) => match resolve_two(
                    *then_expr,
                    *else_expr,
                    table,
                    entity,
                    citing,
                    Ghost(p),
                    Ghost(whole),
                ) {
                    Ok((x, y)) => Ok(
                        ScalarExpr::If { condition: Box::new(c), then_expr: x, else_expr: y },
                    ),
                    Err(error) => Err(error),
                },
            }
        },
        ScalarExpr::NoMatch { subject, patterns } => {
            match resolve_scalar(*subject, table, entity, citing, Ghost(p)) {
                Ok(x) => Ok(ScalarExpr::NoMatch { subject: Box::new(x), patterns }),
                Err(error) => Err(error),
            }
        },
        ScalarExpr::OverPeriods { kind, value, n } => {
            match resolve_scalar(*value, table, entity, citing, Ghost(p)) {
                Err(error) => Err(error),
                Ok(x) => match n {
                    None => Ok(ScalarExpr::OverPeriods { kind, value: Box::new(x), n: None }),
                    Some(n) => match resolve_scalar(*n, table, entity, citing, Ghost(p)) {
                        Ok(y) => Ok(
                            ScalarExpr::OverPeriods {
                                kind,
                                value: Box::new(x),
                                n: Some(Box::new(y)),
                            },
                        ),
                        Err(error) => Err(error),
                    },
                },
            }
        },
        other => Ok(other),
    }
}

/// Resolves the directions of the aggregations in a judgment.
fn resolve_judgment(
    expr: JudgmentExpr,
    table: &Vec<RelationFacts>,
    entity: &str,
    membership: Option<(Option<&str>, Option<&str>)>,
    citing: &str,
    Ghost(p): Ghost<Program>,
) -> (r: Result<JudgmentExpr, AmbiguousRelationDirection>)
    requires
        knows(table@, p),
    ensures
        judgment_outcome(expr, r, p, entity@, context_of(membership), citing@),
    decreases expr, 1int,
{
    match expr {
        JudgmentExpr::Comparison { left, op, right } => {
            match resolve_scalar(left, table, entity, citing, Ghost(p)) {
                Err(error) => Err(error),
                Ok(x) => match resolve_scalar(right, table, entity, citing, Ghost(p)) {
                    Ok(y) => Ok(JudgmentExpr::Comparison { left: x, op, right: y }),
                    Err(error) => Err(error),
                },
            }
        },
        JudgmentExpr::RelationMember { relation, current_slot, related_slot } => {
            match direct_member(
                table,
                relation.as_str(),
                current_slot,
                related_slot,
                membership,
                citing,
                Ghost(p),
            ) {
                Ok((current, related)) => Ok(
                    JudgmentExpr::RelationMember {
                        relation,
                        current_slot: current,
                        related_slot: related,
                    },
                ),
                Err(error) => Err(error),
            }
        },
        JudgmentExpr::And(items) => {
            match resolve_judgments(items, table, entity, membership, citing, Ghost(p)) {
                Ok(list) => Ok(JudgmentExpr::And(list)),
                Err(error) => Err(error),
            }
        },
        JudgmentExpr::Or(items) => {
            match resolve_judgments(items, table, entity, membership, citing, Ghost(p)) {
                Ok(list) => Ok(JudgmentExpr::Or(list)),
                Err(error) => Err(error),
            }
        },
        JudgmentExpr::Not(item) => {
            match resolve_judgment(*item, table, entity, membership, citing, Ghost(p)) {
                Ok(x) => Ok(JudgmentExpr::Not(Box::new(x))),
                Err(error) => Err(error),
            }
        },
        other => Ok(other),
    }
}

/// The first ambiguous direction in a rule's formula.
pub open spec fn formula_ambiguity(
    s: DerivedSemantics,
    p: Program,
    entity: Seq<char>,
    citing: Seq<char>,
) -> Option<AmbiguousView> {
    match s {
        DerivedSemantics::Scalar(e) => scalar_ambiguity(e, p, entity, citing),
        DerivedSemantics::Judgment(e) => judgment_ambiguity(e, p, entity, None, citing),
    }
}

pub open spec fn formula_resolved(
    a: DerivedSemantics,
    b: DerivedSemantics,
    p: Program,
    entity: Seq<char>,
) -> bool {
    match (a, b) {
        (DerivedSemantics::Scalar(x), DerivedSemantics::Scalar(y)) => scalar_resolved(
            x,
            y,
            p,
            entity,
        ),
        (DerivedSemantics::Judgment(x), DerivedSemantics::Judgment(y)) => judgment_resolved(
            x,
            y,
            p,
            entity,
            None,
        ),
        _ => false,
    }
}

pub open spec fn versions_ambiguity(
    versions: Seq<DerivedVersion>,
    n: nat,
    p: Program,
    entity: Seq<char>,
    citing: Seq<char>,
) -> Option<AmbiguousView>
    decreases n,
{
    if n == 0 || n > versions.len() {
        None
    } else {
        either(
            versions_ambiguity(versions, (n - 1) as nat, p, entity, citing),
            formula_ambiguity(versions[n - 1].semantics, p, entity, citing),
        )
    }
}

/// The first ambiguous direction in a rule.
pub open spec fn rule_ambiguity(d: Derived, p: Program) -> Option<AmbiguousView> {
    either(
        formula_ambiguity(d.semantics, p, d.entity@, d.label()),
        versions_ambiguity(d.versions@, d.versions@.len(), p, d.entity@, d.label()),
    )
}

/// Whether a rule is another one with its directions resolved.
pub open spec fn rule_resolved(a: Derived, b: Derived, p: Program) -> bool {
    &&& b == (Derived { semantics: b.semantics, versions: b.versions, ..a })
    &&& formula_resolved(a.semantics, b.semantics, p, a.entity@)
    &&& b.versions@.len() == a.versions@.len()
    &&& forall|i: int|
        0 <= i < a.versions@.len() ==> version_resolved(
            a.versions@[i],
            #[trigger] b.versions@[i],
            p,
            a.entity@,
        )
}

pub open spec fn version_resolved(
    a: DerivedVersion,
    b: DerivedVersion,
    p: Program,
    entity: Seq<char>,
) -> bool {
    b == (DerivedVersion { semantics: b.semantics, ..a }) && formula_resolved(
        a.semantics,
        b.semantics,
        p,
        entity,
    )
}

/// The kinds of the two rows that a derived relation's predicate is evaluated on.
pub open spec fn member_kinds(p: Program, name: Seq<char>, d: RelationDerivation) -> (
    Option<Seq<char>>,
    Option<Seq<char>>,
) {
    let kinds = effective_kinds(p, name);
    (kind_at(kinds, d.current_slot), kind_at(kinds, d.related_slot))
}

/// The first ambiguous direction in a relation's predicate.
pub open spec fn relation_ambiguity(schema: RelationSchema, p: Program) -> Option<AmbiguousView> {
    match schema.derivation {
        Some(d) => match derivation_of(p, schema.name@) {
            Some(first) => {
                let (current, related) = member_kinds(p, schema.name@, first);
                judgment_ambiguity(
                    d.predicate,
                    p,
                    text_or_empty(related),
                    Some((current, related)),
                    schema.name@,
                )
            },
            None => None,
        },
        None => None,
    }
}

/// Whether a relation is another one with the directions in its predicate resolved.
pub open spec fn relation_resolved(a: RelationSchema, b: RelationSchema, p: Program) -> bool {
    match (a.derivation, b.derivation) {
        (Some(x), Some(y)) => {
            &&& b == (RelationSchema { derivation: b.derivation, ..a })
            &&& y == (RelationDerivation { predicate: y.predicate, ..x })
            &&& match derivation_of(p, a.name@) {
                Some(first) => {
                    let (current, related) = member_kinds(p, a.name@, first);
                    judgment_resolved(
                        x.predicate,
                        y.predicate,
                        p,
                        text_or_empty(related),
                        Some((current, related)),
                    )
                },
                None => y.predicate == x.predicate,
            }
        },
        (None, None) => b == a,
        _ => false,
    }
}

pub open spec fn rules_ambiguity(p: Program, n: nat) -> Option<AmbiguousView>
    decreases n,
{
    if n == 0 || n > p.derived@.len() {
        None
    } else {
        either(rules_ambiguity(p, (n - 1) as nat), rule_ambiguity(p.derived@[n - 1], p))
    }
}

pub open spec fn relations_ambiguity(p: Program, n: nat) -> Option<AmbiguousView>
    decreases n,
{
    if n == 0 || n > p.relations@.len() {
        None
    } else {
        either(relations_ambiguity(p, (n - 1) as nat), relation_ambiguity(p.relations@[n - 1], p))
    }
}

/// The first ambiguous direction in a program: in its rules, then in its relations.
pub open spec fn program_ambiguity(p: Program) -> Option<AmbiguousView> {
    either(rules_ambiguity(p, p.derived@.len()), relations_ambiguity(p, p.relations@.len()))
}

/// Whether a program is another one with its directions resolved.
pub open spec fn program_resolved(a: Program, b: Program) -> bool {
    &&& b == (Program { derived: b.derived, relations: b.relations, ..a })
    &&& b.derived@.len() == a.derived@.len()
    &&& forall|i: int|
        0 <= i < a.derived@.len() ==> rule_resolved(a.derived@[i], #[trigger] b.derived@[i], a)
    &&& b.relations@.len() == a.relations@.len()
    &&& forall|i: int|
        0 <= i < a.relations@.len() ==> relation_resolved(
            a.relations@[i],
            #[trigger] b.relations@[i],
            a,
        )
}

fn resolve_formula(
    semantics: &mut DerivedSemantics,
    table: &Vec<RelationFacts>,
    entity: &str,
    citing: &str,
    Ghost(p): Ghost<Program>,
) -> (r: Result<(), AmbiguousRelationDirection>)
    requires
        knows(table@, p),
    ensures
        match formula_ambiguity(*old(semantics), p, entity@, citing@) {
            Some(error) => match r {
                Err(e) => e@ == error,
                Ok(_) => false,
            },
            None => r is Ok && formula_resolved(*old(semantics), *final(semantics), p, entity@),
        },
{
    let mut taken = DerivedSemantics::Scalar(ScalarExpr::PeriodStart);
    core::mem::swap(semantics, &mut taken);
    match taken {
        DerivedSemantics::Scalar(e) => match resolve_scalar(e, table, entity, citing, Ghost(p)) {
            Ok(x) => {
                *semantics = DerivedSemantics::Scalar(x);
                Ok(())
            },
            Err(error) => Err(error),
        },
        DerivedSemantics::Judgment(e) => match resolve_judgment(
            e,
            table,
            entity,
            None,
            citing,
            Ghost(p),
        ) {
            Ok(x) => {
                *semantics = DerivedSemantics::Judgment(x);
                Ok(())
            },
            Err(error) => Err(error),
        },
    }
}

proof fn versions_ambiguity_found(
    versions: Seq<DerivedVersion>,
    n: nat,
    m: nat,
    p: Program,
    entity: Seq<char>,
    citing: Seq<char>,
)
    requires
        n <= m <= versions.len(),
        versions_ambiguity(versions, n, p, entity, citing) is Some,
    ensures
        versions_ambiguity(versions, m, p, entity, citing) == versions_ambiguity(
            versions,
            n,
            p,
            entity,
            citing,
        ),
    decreases m,
{
    if n < m {
        versions_ambiguity_found(versions, n, (m - 1) as nat, p, entity, citing);
    }
}

proof fn rules_ambiguity_found(p: Program, n: nat, m: nat)
    requires
        n <= m <= p.derived@.len(),
        rules_ambiguity(p, n) is Some,
    ensures
        rules_ambiguity(p, m) == rules_ambiguity(p, n),
    decreases m,
{
    if n < m {
        rules_ambiguity_found(p, n, (m - 1) as nat);
    }
}

proof fn relations_ambiguity_found(p: Program, n: nat, m: nat)
    requires
        n <= m <= p.relations@.len(),
        relations_ambiguity(p, n) is Some,
    ensures
        relations_ambiguity(p, m) == relations_ambiguity(p, n),
    decreases m,
{
    if n < m {
        relations_ambiguity_found(p, n, (m - 1) as nat);
    }
}

impl DerivedVersion {
    fn resolve_direction(
        &mut self,
        table: &Vec<RelationFacts>,
        entity: &str,
        citing: &str,
        Ghost(p): Ghost<Program>,
    ) -> (r: Result<(), AmbiguousRelationDirection>)
        requires
            knows(table@, p),
        ensures
            match formula_ambiguity(old(self).semantics, p, entity@, citing@) {
                Some(error) => match r {
                    Err(e) => e@ == error,
                    Ok(_) => false,
                },
                None => r is Ok && version_resolved(*old(self), *final(self), p, entity@),
            },
    {
        resolve_formula(&mut self.semantics, table, entity, citing, Ghost(p))
    }
}

impl Derived {
    fn resolve_direction(&mut self, table: &Vec<RelationFacts>, Ghost(p): Ghost<Program>) -> (r:
        Result<(), AmbiguousRelationDirection>)
        requires
            knows(table@, p),
        ensures
            match rule_ambiguity(*old(self), p) {
                Some(error) => match r {
                    Err(e) => e@ == error,
                    Ok(_) => false,
                },
                None => r is Ok && rule_resolved(*old(self), *final(self), p),
            },
    {
        let ghost before = *self;
        let citing = match &self.id {
            Some(id) => id.clone(),
            None => self.name.clone(),
        };
        let entity = self.entity.clone();
        match resolve_formula(
            &mut self.semantics,
            table,
            entity.as_str(),
            citing.as_str(),
            Ghost(p),
        ) {
            Ok(()) => {},
            Err(error) => {
                return Err(error);
            },
        }
        let mut i: usize = 0;
        while i < self.versions.len()
            invariant
                i <= self.versions@.len(),
                knows(table@, p),
                before == *old(self),
                entity@ == before.entity@,
                citing@ == before.label(),
                *self == (Derived { semantics: self.semantics, versions: self.versions, ..before }),
                formula_ambiguity(before.semantics, p, entity@, citing@) is None,
                formula_resolved(before.semantics, self.semantics, p, entity@),
                self.versions@.len() == before.versions@.len(),
                versions_ambiguity(before.versions@, i as nat, p, entity@, citing@) is None,
                forall|k: int|
                    i <= k < before.versions@.len() ==> #[trigger] self.versions@[k]
                        == before.versions@[k],
                forall|k: int|
                    0 <= k < i ==> version_resolved(
                        before.versions@[k],
                        #[trigger] self.versions@[k],
                        p,
                        entity@,
                    ),
            decreases self.versions@.len() - i,
        {
            assert(self.versions@[i as int] == before.versions@[i as int]);
            match self.versions[i].resolve_direction(
                table,
                entity.as_str(),
                citing.as_str(),
                Ghost(p),
            ) {
                Ok(()) => {},
                Err(error) => {
                    proof {
                        assert(versions_ambiguity(
                            before.versions@,
                            (i + 1) as nat,
                            p,
                            entity@,
                            citing@,
                        ) == Some(error@));
                        versions_ambiguity_found(
                            before.versions@,
                            (i + 1) as nat,
                            before.versions@.len(),
                            p,
                            entity@,
                            citing@,
                        );
                    }
                    return Err(error);
                },
            }
            i = i + 1;
        }
        Ok(())
    }
}

impl RelationSchema {
    fn resolve_direction(&mut self, table: &Vec<RelationFacts>, Ghost(p): Ghost<Program>) -> (r:
        Result<(), AmbiguousRelationDirection>)
        requires
            knows(table@, p),
            item_named(p.relations@, old(self).name@) is Some,
        ensures
            match relation_ambiguity(*old(self), p) {
                Some(error) => match r {
                    Err(e) => e@ == error,
                    Ok(_) => false,
                },
                None => r is Ok && relation_resolved(*old(self), *final(self), p),
            },
    {
        let name = self.name.clone();
        let facts = match crate::model::find_named(table, name.as_str()) {
            Some(facts) => facts,
            None => {
                assert(position_of(table@, name@) is Some);
                assert(false);
                return Ok(());
            },
        };
        proof {
            crate::model::position_from_meaning(table@, name@, 0);
            let k = position_of(table@, name@)->Some_0;
            assert(facts_fit(table@[k as int], p));
        }
        let slots = match &facts.derived {
            Some(slots) => slots,
            None => {
                return Ok(());
            },
        };
        let mut taken: Option<RelationDerivation> = None;
        core::mem::swap(&mut self.derivation, &mut taken);
        let derivation = match taken {
            Some(derivation) => derivation,
            None => {
                return Ok(());
            },
        };
        let current = crate::relation_typing::kind_str(&slots.kinds, slots.current_slot);
        let related = crate::relation_typing::kind_str(&slots.kinds, slots.related_slot);
        let entity = match related {
            Some(kind) => owned(kind),
            None => {
                let empty = String::new();
                assert(empty@ =~= Seq::<char>::empty());
                empty
            },
        };
        match resolve_judgment(
            derivation.predicate,
            table,
            entity.as_str(),
            Some((current, related)),
            name.as_str(),
            Ghost(p),
        ) {
            Ok(predicate) => {
                self.derivation = Some(
                    RelationDerivation {
                        source_relation: derivation.source_relation,
                        current_slot: derivation.current_slot,
                        related_slot: derivation.related_slot,
                        entity: derivation.entity,
                        member_relation: derivation.member_relation,
                        slot_entities: derivation.slot_entities,
                        predicate,
                    },
                );
                Ok(())
            },
            Err(error) => Err(error),
        }
    }
}

/// Resolves the directions of a program's aggregations and membership tests. An ambiguous
/// direction is an error: to guess would be to aggregate the wrong side.
pub fn resolve(program: Program) -> (r: Result<Program, AmbiguousRelationDirection>)
    ensures
        match program_ambiguity(program) {
            Some(error) => match r {
                Err(e) => e@ == error,
                Ok(_) => false,
            },
            None => match r {
                Ok(after) => program_resolved(program, after),
                Err(_) => false,
            },
        },
{
    let table = known_relations(&program);
    let ghost p = program;
    let mut out = program;
    let mut i: usize = 0;
    while i < out.derived.len()
        invariant
            i <= out.derived@.len(),
            p == program,
            knows(table@, p),
            out == (Program { derived: out.derived, ..p }),
            out.derived@.len() == p.derived@.len(),
            rules_ambiguity(p, i as nat) is None,
            forall|k: int|
                i <= k < p.derived@.len() ==> #[trigger] out.derived@[k] == p.derived@[k],
            forall|k: int|
                0 <= k < i ==> rule_resolved(p.derived@[k], #[trigger] out.derived@[k], p),
        decreases out.derived@.len() - i,
    {
        assert(out.derived@[i as int] == p.derived@[i as int]);
        match out.derived[i].resolve_direction(&table, Ghost(p)) {
            Ok(()) => {},
            Err(error) => {
                proof {
                    assert(rules_ambiguity(p, (i + 1) as nat) == Some(error@));
                    rules_ambiguity_found(p, (i + 1) as nat, p.derived@.len());
                }
                return Err(error);
            },
        }
        i = i + 1;
    }
    let mut i: usize = 0;
    while i < out.relations.len()
        invariant
            i <= out.relations@.len(),
            p == program,
            knows(table@, p),
            out == (Program { derived: out.derived, relations: out.relations, ..p }),
            out.derived@.len() == p.derived@.len(),
            rules_ambiguity(p, p.derived@.len()) is None,
            forall|k: int|
                0 <= k < p.derived@.len() ==> rule_resolved(
                    p.derived@[k],
                    #[trigger] out.derived@[k],
                    p,
                ),
            out.relations@.len() == p.relations@.len(),
            relations_ambiguity(p, i as nat) is None,
            forall|k: int|
                i <= k < p.relations@.len() ==> #[trigger] out.relations@[k] == p.relations@[k],
            forall|k: int|
                0 <= k < i ==> relation_resolved(
                    p.relations@[k],
                    #[trigger] out.relations@[k],
                    p,
                ),
        decreases out.relations@.len() - i,
    {
        assert(out.relations@[i as int] == p.relations@[i as int]);
        proof {
            let name = p.relations@[i as int].name@;
            crate::model::position_from_meaning(p.relations@, name, 0);
            assert(p.relations@[i as int].label_of() == name);
        }
        match out.relations[i].resolve_direction(&table, Ghost(p)) {
            Ok(()) => {},
            Err(error) => {
                proof {
                    assert(relations_ambiguity(p, (i + 1) as nat) == Some(error@));
                    relations_ambiguity_found(p, (i + 1) as nat, p.relations@.len());
                }
                return Err(error);
            },
        }
        i = i + 1;
    }
    Ok(out)
}

} // verus!
