//! Laws of programs whose directions cannot be resolved: an aggregation or a membership test whose
//! relation has rows of the same kind in both slots.
use super::directions::declares;
use crate::laws::parts::{row_parts, Part};
use crate::model::{Derived, DerivedSemantics, JudgmentExpr, Program, ScalarExpr};
use crate::relation_direction::{
    directed, judgment_ambiguity, judgments_ambiguity, program_ambiguity, relation_ambiguity,
    relations_ambiguity, rule_ambiguity, rules_ambiguity, scalar_ambiguity, scalars_ambiguity,
    versions_ambiguity,
};
use crate::text::texts;
use vstd::prelude::*;

verus! {

/// The row that a formula is evaluated on, and for the test of a derived relation the kinds of the
/// two rows that it is evaluated on.
pub ghost struct Row {
    pub entity: Seq<char>,
    pub rows: Option<(Option<Seq<char>>, Option<Seq<char>>)>,
    pub citing: Seq<char>,
}

/// Whether a direction in a formula is refused.
pub open spec fn is_refused(q: Part, p: Program, row: Row) -> bool {
    match q {
        Part::Scalar(e) => scalar_ambiguity(e, p, row.entity, row.citing) is Some,
        Part::Judgment(e) => judgment_ambiguity(e, p, row.entity, row.rows, row.citing) is Some,
    }
}

/// Whether the test of an aggregation is refused, on rows of the related kind.
pub open spec fn test_is_refused(
    test: Option<Box<JudgmentExpr>>,
    p: Program,
    related: Seq<char>,
    citing: Seq<char>,
) -> bool {
    test matches Some(w) && is_refused(
        Part::Judgment(*w),
        p,
        Row { entity: related, rows: None, citing },
    )
}

/// Whether a formula is refused as an aggregation over a relation that has rows of its entity in both
/// slots, or for the test of one; or as a membership test between two rows of one kind, in a relation
/// that has rows of that kind in both slots.
pub open spec fn is_refused_itself(q: Part, p: Program, row: Row) -> bool {
    match q {
        Part::Scalar(
            ScalarExpr::CountRelated { relation, current_slot, related_slot, where_clause },
        ) => declares(p, relation@, row.entity, row.entity) || (directed(
            p,
            relation@,
            current_slot,
            related_slot,
            row.entity,
            row.citing,
        ) matches Ok((_, _, related)) && test_is_refused(where_clause, p, related, row.citing)),
        Part::Scalar(
            ScalarExpr::SumRelated { relation, current_slot, related_slot, where_clause, .. },
        ) => declares(p, relation@, row.entity, row.entity) || (directed(
            p,
            relation@,
            current_slot,
            related_slot,
            row.entity,
            row.citing,
        ) matches Ok((_, _, related)) && test_is_refused(where_clause, p, related, row.citing)),
        Part::Judgment(JudgmentExpr::RelationMember { relation, .. }) => row.rows matches Some(
            (Some(a), Some(b)),
        ) && a == b && declares(p, relation@, a, a),
        _ => false,
    }
}

proof fn items_refused(
    items: Seq<ScalarExpr>,
    n: nat,
    p: Program,
    entity: Seq<char>,
    citing: Seq<char>,
)
    requires
        n <= items.len(),
    ensures
        scalars_ambiguity(items, n, p, entity, citing) is Some <==> exists|i: int|
            0 <= i < n && scalar_ambiguity(#[trigger] items[i], p, entity, citing) is Some,
    decreases n,
{
    if n > 0 {
        items_refused(items, (n - 1) as nat, p, entity, citing);
    }
}

proof fn judgment_items_refused(
    items: Seq<JudgmentExpr>,
    n: nat,
    p: Program,
    row: Row,
)
    requires
        n <= items.len(),
    ensures
        judgments_ambiguity(items, n, p, row.entity, row.rows, row.citing) is Some <==> exists|i: int|
            0 <= i < n && judgment_ambiguity(
                #[trigger] items[i],
                p,
                row.entity,
                row.rows,
                row.citing,
            ) is Some,
    decreases n,
{
    if n > 0 {
        judgment_items_refused(items, (n - 1) as nat, p, row);
    }
}

proof fn both_kinds(p: Program, relation: Seq<char>, kind: Seq<char>)
    ensures
        declares(p, relation, kind, kind) <==> (crate::relation_direction::two_kinds(
            p,
            relation,
        ) matches Some(kinds) && kinds[0] == kind && kinds[1] == kind),
{
    if let Some(schema) = crate::model::item_named(p.relations@, relation) {
        if schema.slot_entities@.len() == 2 {
            assert(texts(schema.slot_entities@)[0] == schema.slot_entities@[0]@);
            assert(texts(schema.slot_entities@)[1] == schema.slot_entities@[1]@);
        }
    }
}

/// A direction in a formula is refused exactly where one is refused of the formula itself, or in a
/// part that is evaluated on the same row.
pub proof fn a_formula_is_refused_where_a_part_is(q: Part, p: Program, row: Row)
    ensures
        ({
            let inner = if q is Scalar {
                Row { rows: None, ..row }
            } else {
                row
            };
            is_refused(q, p, row) <==> is_refused_itself(q, p, row) || exists|i: int|
                0 <= i < row_parts(q).len() && is_refused(#[trigger] row_parts(q)[i], p, inner)
        }),
{
    let inner = if q is Scalar {
        Row { rows: None, ..row }
    } else {
        row
    };
    let list = row_parts(q);
    let any = exists|i: int| 0 <= i < list.len() && is_refused(#[trigger] list[i], p, inner);
    if list.len() == 1 {
        assert(any <==> is_refused(list[0], p, inner));
    } else if list.len() == 2 {
        assert(any <==> is_refused(list[0], p, inner) || is_refused(list[1], p, inner));
    } else if list.len() == 3 {
        assert(any <==> is_refused(list[0], p, inner) || is_refused(list[1], p, inner)
            || is_refused(list[2], p, inner));
    }
    match q {
        Part::Scalar(e) => match e {
            ScalarExpr::Add(items) | ScalarExpr::Max(items) | ScalarExpr::Min(items) => {
                items_refused(items@, items@.len(), p, row.entity, row.citing);
                if any {
                    let i = choose|i: int|
                        0 <= i < list.len() && is_refused(#[trigger] list[i], p, inner);
                    assert(scalar_ambiguity(items@[i], p, row.entity, row.citing) is Some);
                }
                if exists|i: int|
                    0 <= i < items@.len() && scalar_ambiguity(
                        #[trigger] items@[i],
                        p,
                        row.entity,
                        row.citing,
                    ) is Some {
                    let i = choose|i: int|
                        0 <= i < items@.len() && scalar_ambiguity(
                            #[trigger] items@[i],
                            p,
                            row.entity,
                            row.citing,
                        ) is Some;
                    assert(is_refused(list[i], p, inner));
                }
            },
            ScalarExpr::CountRelated { relation, .. } => {
                both_kinds(p, relation@, row.entity);
            },
            ScalarExpr::SumRelated { relation, .. } => {
                both_kinds(p, relation@, row.entity);
            },
            _ => {},
        },
        Part::Judgment(e) => match e {
            JudgmentExpr::And(items) | JudgmentExpr::Or(items) => {
                judgment_items_refused(items@, items@.len(), p, row);
                if any {
                    let i = choose|i: int|
                        0 <= i < list.len() && is_refused(#[trigger] list[i], p, inner);
                    assert(judgment_ambiguity(
                        items@[i],
                        p,
                        row.entity,
                        row.rows,
                        row.citing,
                    ) is Some);
                }
                if exists|i: int|
                    0 <= i < items@.len() && judgment_ambiguity(
                        #[trigger] items@[i],
                        p,
                        row.entity,
                        row.rows,
                        row.citing,
                    ) is Some {
                    let i = choose|i: int|
                        0 <= i < items@.len() && judgment_ambiguity(
                            #[trigger] items@[i],
                            p,
                            row.entity,
                            row.rows,
                            row.citing,
                        ) is Some;
                    assert(is_refused(list[i], p, inner));
                }
            },
            JudgmentExpr::RelationMember { relation, .. } => {
                if let Some((Some(a), Some(b))) = row.rows {
                    both_kinds(p, relation@, a);
                }
            },
            _ => {},
        },
    }
}

/// A formula as a part.
pub open spec fn part_of(s: DerivedSemantics) -> Part {
    match s {
        DerivedSemantics::Scalar(e) => Part::Scalar(e),
        DerivedSemantics::Judgment(e) => Part::Judgment(e),
    }
}

proof fn versions_refused(d: Derived, n: nat, p: Program)
    requires
        n <= d.versions@.len(),
    ensures
        versions_ambiguity(d.versions@, n, p, d.entity@, d.label()) is Some <==> exists|i: int|
            0 <= i < n && is_refused(
                part_of((#[trigger] d.versions@[i]).semantics),
                p,
                Row { entity: d.entity@, rows: None, citing: d.label() },
            ),
    decreases n,
{
    if n > 0 {
        versions_refused(d, (n - 1) as nat, p);
    }
}

/// Whether a rule is refused: its formula is, or that of a version, on a row of its entity.
pub open spec fn rule_is_refused(d: Derived, p: Program) -> bool {
    let row = Row { entity: d.entity@, rows: None, citing: d.label() };
    is_refused(part_of(d.semantics), p, row) || exists|i: int|
        0 <= i < d.versions@.len() && is_refused(
            part_of((#[trigger] d.versions@[i]).semantics),
            p,
            row,
        )
}

proof fn rules_refused(p: Program, n: nat)
    requires
        n <= p.derived@.len(),
    ensures
        rules_ambiguity(p, n) is Some <==> exists|i: int|
            0 <= i < n && rule_is_refused(#[trigger] p.derived@[i], p),
    decreases n,
{
    if n > 0 {
        rules_refused(p, (n - 1) as nat);
        let d = p.derived@[n - 1];
        versions_refused(d, d.versions@.len(), p);
        assert(rule_ambiguity(d, p) is Some <==> rule_is_refused(d, p));
    }
}

proof fn relations_refused(p: Program, n: nat)
    requires
        n <= p.relations@.len(),
    ensures
        relations_ambiguity(p, n) is Some <==> exists|i: int|
            0 <= i < n && relation_ambiguity(#[trigger] p.relations@[i], p) is Some,
    decreases n,
{
    if n > 0 {
        relations_refused(p, (n - 1) as nat);
    }
}

/// The directions of a program are refused exactly where those of a rule are, in its formula or in a
/// version, or those of the test of a derived relation.
pub proof fn a_program_is_refused_where_a_rule_or_a_test_is(p: Program)
    ensures
        program_ambiguity(p) is Some <==> (exists|i: int|
            0 <= i < p.derived@.len() && rule_is_refused(#[trigger] p.derived@[i], p)) || exists|
            i: int,
        | 0 <= i < p.relations@.len() && relation_ambiguity(#[trigger] p.relations@[i], p) is Some,
{
    rules_refused(p, p.derived@.len());
    relations_refused(p, p.relations@.len());
}

} // verus!
