//! Laws of compiling what a relation's test and aggregations read: on the related rows, and on the
//! row that they are related to.
use super::lowered::lowered_parts;
use crate::dense::RelationKeyView;
use crate::laws::parts::Part;
use crate::lowering::{
    base_key, current_fault, current_judgment_fault, current_judgment_rule_fault,
    current_judgments_fault, current_rule_fault, currents_fault, related_fault,
    related_judgment_fault, related_judgment_rule_fault, related_judgments_fault,
    related_rule_fault, relateds_fault, relation_info, CompileFacts, DenseErrorView, RelationInfo,
};
use crate::model::{
    position_from_meaning, Derived, DerivedSemantics, JudgmentExpr, ScalarExpr, SCALAR_ENTITY,
};
use vstd::prelude::*;

verus! {

/// The rows that a formula is compiled for: those that a relation relates, or the row that they are
/// related to, for a rule of an entity.
pub ghost enum Side {
    Related(RelationInfo),
    Current { rule: Seq<char>, entity: Seq<char> },
}

/// Whether a formula is compiled for its rows, following rules to a depth.
pub open spec fn is_lowered(cx: CompileFacts, side: Side, depth: nat, q: Part) -> bool {
    match (side, q) {
        (Side::Related(info), Part::Scalar(e)) => related_fault(cx, info, depth, e) is None,
        (Side::Related(info), Part::Judgment(e)) => related_judgment_fault(
            cx,
            info,
            depth,
            e,
        ) is None,
        (Side::Current { rule, entity }, Part::Scalar(e)) => current_fault(
            cx,
            rule,
            entity,
            depth,
            e,
        ) is None,
        (Side::Current { rule, entity }, Part::Judgment(e)) => current_judgment_fault(
            cx,
            rule,
            entity,
            depth,
            e,
        ) is None,
    }
}

/// Whether a rule that a formula names is compiled for its rows.
pub open spec fn names_a_compiled_rule(
    cx: CompileFacts,
    side: Side,
    depth: nat,
    name: Seq<char>,
    judges: bool,
) -> bool {
    match side {
        Side::Related(info) => if judges {
            related_judgment_rule_fault(cx, info, depth, name) is None
        } else {
            related_rule_fault(cx, info, depth, name) is None
        },
        Side::Current { rule, entity } => if judges {
            current_judgment_rule_fault(cx, rule, entity, depth, name) is None
        } else {
            current_rule_fault(cx, rule, entity, depth, name) is None
        },
    }
}

/// Whether nothing but its parts keeps a formula from being compiled: it aggregates and reduces
/// nothing, and tests a membership on related rows only.
pub open spec fn is_lowered_itself(cx: CompileFacts, side: Side, depth: nat, q: Part) -> bool {
    match q {
        Part::Scalar(e) => match e {
            ScalarExpr::Derived(name) => names_a_compiled_rule(cx, side, depth, name@, false),
            ScalarExpr::ParameterLookup { parameter, .. } => cx.program.parameter(
                parameter@,
            ) is Some,
            ScalarExpr::CountRelated { .. } => false,
            ScalarExpr::SumRelated { .. } => false,
            ScalarExpr::NoMatch { .. } => false,
            ScalarExpr::OverPeriods { .. } => false,
            _ => true,
        },
        Part::Judgment(e) => match e {
            JudgmentExpr::Derived(name) => names_a_compiled_rule(cx, side, depth, name@, true),
            JudgmentExpr::RelationMember { .. } => side is Related,
            _ => true,
        },
    }
}

proof fn numbers_lowered(
    cx: CompileFacts,
    side: Side,
    depth: nat,
    items: Seq<ScalarExpr>,
    n: nat,
)
    requires
        n <= items.len(),
    ensures
        (match side {
            Side::Related(info) => relateds_fault(cx, info, depth, items, n) is None,
            Side::Current { rule, entity } => currents_fault(
                cx,
                rule,
                entity,
                depth,
                items,
                n,
            ) is None,
        }) <==> forall|i: int|
            0 <= i < n ==> is_lowered(cx, side, depth, Part::Scalar(#[trigger] items[i])),
    decreases n,
{
    if n > 0 {
        numbers_lowered(cx, side, depth, items, (n - 1) as nat);
    }
}

proof fn judgments_lowered(
    cx: CompileFacts,
    side: Side,
    depth: nat,
    items: Seq<JudgmentExpr>,
    n: nat,
)
    requires
        n <= items.len(),
    ensures
        (match side {
            Side::Related(info) => related_judgments_fault(cx, info, depth, items, n) is None,
            Side::Current { rule, entity } => current_judgments_fault(
                cx,
                rule,
                entity,
                depth,
                items,
                n,
            ) is None,
        }) <==> forall|i: int|
            0 <= i < n ==> is_lowered(cx, side, depth, Part::Judgment(#[trigger] items[i])),
    decreases n,
{
    if n > 0 {
        judgments_lowered(cx, side, depth, items, (n - 1) as nat);
    }
}

/// A formula that a relation reads is compiled for its rows exactly where its parts are, and nothing
/// else keeps it from being so.
pub proof fn what_a_relation_reads_is_compiled_where_its_parts_are(
    cx: CompileFacts,
    side: Side,
    depth: nat,
    q: Part,
)
    ensures
        is_lowered(cx, side, depth, q) <==> is_lowered_itself(cx, side, depth, q) && forall|i: int|
            0 <= i < lowered_parts(q).len() ==> is_lowered(
                cx,
                side,
                depth,
                #[trigger] lowered_parts(q)[i],
            ),
{
    let list = lowered_parts(q);
    let every = forall|i: int|
        0 <= i < list.len() ==> is_lowered(cx, side, depth, #[trigger] list[i]);
    if list.len() == 1 {
        assert(every <==> is_lowered(cx, side, depth, list[0]));
    } else if list.len() == 2 {
        assert(every <==> is_lowered(cx, side, depth, list[0]) && is_lowered(
            cx,
            side,
            depth,
            list[1],
        ));
    } else if list.len() == 3 {
        assert(every <==> is_lowered(cx, side, depth, list[0]) && is_lowered(
            cx,
            side,
            depth,
            list[1],
        ) && is_lowered(cx, side, depth, list[2]));
    }
    match q {
        Part::Scalar(e) => match e {
            ScalarExpr::Add(items) | ScalarExpr::Max(items) | ScalarExpr::Min(items) => {
                numbers_lowered(cx, side, depth, items@, items@.len());
                assert forall|i: int| 0 <= i < list.len() implies #[trigger] list[i]
                    == Part::Scalar(items@[i]) by {}
                if every {
                    assert forall|i: int| 0 <= i < items@.len() implies is_lowered(
                        cx,
                        side,
                        depth,
                        Part::Scalar(#[trigger] items@[i]),
                    ) by {
                        assert(is_lowered(cx, side, depth, list[i]));
                    }
                }
            },
            _ => {},
        },
        Part::Judgment(e) => match e {
            JudgmentExpr::And(items) | JudgmentExpr::Or(items) => {
                judgments_lowered(cx, side, depth, items@, items@.len());
                assert forall|i: int| 0 <= i < list.len() implies #[trigger] list[i]
                    == Part::Judgment(items@[i]) by {}
                if every {
                    assert forall|i: int| 0 <= i < items@.len() implies is_lowered(
                        cx,
                        side,
                        depth,
                        Part::Judgment(#[trigger] items@[i]),
                    ) by {
                        assert(is_lowered(cx, side, depth, list[i]));
                    }
                }
            },
            _ => {},
        },
    }
}

/// A formula as a part.
pub open spec fn formula_part(d: Derived) -> Part {
    match d.semantics {
        DerivedSemantics::Scalar(e) => Part::Scalar(e),
        DerivedSemantics::Judgment(e) => Part::Judgment(e),
    }
}

/// A rule that is named on related rows is compiled for the row that they are related to where it is
/// of that row's entity or of the root's, and a number of no entity too; else for the related rows,
/// where their entity is not known or is the rule's. It has numbers where a number is read, and
/// judges where a judgment is.
pub proof fn a_rule_is_read_on_the_row_of_its_entity(
    cx: CompileFacts,
    info: RelationInfo,
    depth: nat,
    name: Seq<char>,
    judges: bool,
)
    ensures
        names_a_compiled_rule(cx, Side::Related(info), depth, name, judges) <==> {
            &&& cx.program.rule(name) matches Some(d)
            &&& d.semantics is Judgment == judges
            &&& depth > 0
            &&& if Some(d.entity@) == info.current || d.entity@ == cx.root || (!judges && d.entity@
                == SCALAR_ENTITY@) {
                is_lowered(
                    cx,
                    Side::Current { rule: name, entity: d.entity@ },
                    (depth - 1) as nat,
                    formula_part(d),
                )
            } else {
                (info.related is None || info.related == Some(d.entity@)) && is_lowered(
                    cx,
                    Side::Related(info),
                    (depth - 1) as nat,
                    formula_part(d),
                )
            }
        },
{
    position_from_meaning(cx.program.derived@, name, 0);
}

/// A rule that is named on the row that others are related to is compiled where it is of the same
/// entity, of the root's or of none; otherwise the rule that names it crosses into its entity.
pub proof fn a_rule_crosses_into_no_other_entity(
    cx: CompileFacts,
    rule: Seq<char>,
    entity: Seq<char>,
    depth: nat,
    name: Seq<char>,
    judges: bool,
)
    ensures
        names_a_compiled_rule(cx, Side::Current { rule, entity }, depth, name, judges) <==> {
            &&& cx.program.rule(name) matches Some(d)
            &&& d.semantics is Judgment == judges
            &&& depth > 0
            &&& d.entity@ == entity || d.entity@ == cx.root || d.entity@ == SCALAR_ENTITY@
            &&& is_lowered(
                cx,
                Side::Current { rule: name, entity: d.entity@ },
                (depth - 1) as nat,
                formula_part(d),
            )
        },
        cx.program.rule(name) matches Some(d) ==> (d.entity@ != entity && d.entity@ != cx.root
            && d.entity@ != SCALAR_ENTITY@ ==> current_rule_fault(cx, rule, entity, depth, name)
            == Some(
            DenseErrorView::CrossEntityDependency {
                derived: rule,
                dependency: name,
                entity: d.entity@,
            },
        )),
{
    position_from_meaning(cx.program.derived@, name, 0);
}

/// A derived relation is read through its source, in the slots of its derivation, and so on to the
/// relation that supplies the rows; the entities of its rows are those that it declares there.
pub proof fn a_derived_relation_is_read_through_its_source(
    cx: CompileFacts,
    k: nat,
    key: RelationKeyView,
)
    ensures
        cx.derivation(key.name) is None ==> base_key(cx, k, key) == key,
        cx.derivation(key.name) matches Some(d) ==> {
            let source = RelationKeyView {
                name: d.source_relation@,
                current_slot: d.current_slot as nat,
                related_slot: d.related_slot as nat,
            };
            &&& base_key(cx, k, key) == if k == 0 {
                source
            } else {
                base_key(cx, (k - 1) as nat, source)
            }
            &&& d.current_slot < d.slot_entities@.len() ==> relation_info(cx, key).current == Some(
                d.slot_entities@[d.current_slot as int]@,
            )
            &&& d.related_slot < d.slot_entities@.len() ==> relation_info(cx, key).related == Some(
                d.slot_entities@[d.related_slot as int]@,
            )
        },
{
}

} // verus!
