//! Laws of compilation for one root entity: which entity that is, and which rules and formulas are
//! compiled for it.
use crate::compiler::{compile_fault, first_entity, one_entity, root_choice};
use crate::laws::parts::{aggregates, parts, row_parts, Part};
use crate::lowering::{
    judgment_fault, judgments_fault, lookup_key, related_judgment_fault, related_rule_fault,
    relation_fault, relation_info, rule_fault, scalar_fault, scalars_fault, source_judgment_nested,
    source_judgments_nested, source_nested, sources_nested, CompileFacts, DenseErrorView,
};
use crate::model::{
    item_named, Derived, DerivedSemantics, JudgmentExpr, Program, RelatedValueRef, ScalarExpr,
    SCALAR_ENTITY,
};
use vstd::prelude::*;

verus! {

proof fn first_entity_is(rules: Seq<Derived>, n: nat)
    requires
        n <= rules.len(),
    ensures
        match first_entity(rules, n) {
            Some(entity) => entity != SCALAR_ENTITY@ && exists|i: int|
                0 <= i < n && (#[trigger] rules[i]).entity@ == entity,
            None => forall|i: int| 0 <= i < n ==> (#[trigger] rules[i]).entity@ == SCALAR_ENTITY@,
        },
    decreases n,
{
    if n > 0 {
        first_entity_is(rules, (n - 1) as nat);
    }
}

/// The root entity of a compilation is the one that is asked for. Where none is, it is the entity that
/// all rules have that have one; there is none where two rules have different ones, and where no
/// rule has one it is that of scalar rules.
pub proof fn the_root_is_asked_for_or_the_only_entity(p: Program, entity: Seq<char>)
    ensures
        root_choice(p, Some(entity)) == Ok::<Seq<char>, DenseErrorView>(entity),
        match root_choice(p, None) {
            Ok(root) => {
                &&& forall|i: int|
                    0 <= i < p.derived@.len() ==> (#[trigger] p.derived@[i]).entity@ == root
                        || p.derived@[i].entity@ == SCALAR_ENTITY@
                &&& root != SCALAR_ENTITY@ ==> exists|i: int|
                    0 <= i < p.derived@.len() && (#[trigger] p.derived@[i]).entity@ == root
            },
            Err(error) => error is AmbiguousRootEntity && exists|i: int, j: int|
                {
                    &&& 0 <= i < p.derived@.len()
                    &&& 0 <= j < p.derived@.len()
                    &&& (#[trigger] p.derived@[i]).entity@ != SCALAR_ENTITY@
                    &&& (#[trigger] p.derived@[j]).entity@ != SCALAR_ENTITY@
                    &&& p.derived@[i].entity@ != p.derived@[j].entity@
                },
        },
{
    first_entity_is(p.derived@, p.derived@.len());
    if let Some(first) = first_entity(p.derived@, p.derived@.len()) {
        if !one_entity(p.derived@, first) {
            let i = choose|i: int|
                0 <= i < p.derived@.len() && (#[trigger] p.derived@[i]).entity@ == first;
            let j = choose|j: int|
                #![trigger p.derived@[j]]
                0 <= j < p.derived@.len() && !(p.derived@[j].entity@ == first
                    || p.derived@[j].entity@ == SCALAR_ENTITY@);
            assert(p.derived@[i].entity@ != p.derived@[j].entity@);
        }
    }
}

/// Whether a formula of a rule is compiled, reached over the rules of `stack`.
pub open spec fn is_compiled(cx: CompileFacts, stack: Seq<nat>, rule: Seq<char>, q: Part) -> bool {
    match q {
        Part::Scalar(e) => scalar_fault(cx, stack, rule, e) is None,
        Part::Judgment(e) => judgment_fault(cx, stack, rule, e) is None,
    }
}

/// Whether the rule with the name is compiled: there is one, of the root entity or of none, without
/// a fault of its own.
pub open spec fn names_compiled(cx: CompileFacts, stack: Seq<nat>, name: Seq<char>) -> bool {
    cx.position(name) matches Some(p) && {
        let d = cx.program.derived@[p as int];
        &&& d.entity@ == cx.root || d.entity@ == SCALAR_ENTITY@
        &&& rule_fault(cx, stack, p) is None
    }
}

/// The parts that are compiled with a formula on its row: of a conditional that ends in a `match`
/// fallback, the subject of the fallback in place of the fallback.
pub open spec fn lowered_parts(q: Part) -> Seq<Part> {
    match q {
        Part::Scalar(ScalarExpr::If { condition, then_expr, else_expr }) => seq![
            Part::Judgment(*condition),
            Part::Scalar(*then_expr),
            match *else_expr {
                ScalarExpr::NoMatch { subject, .. } => Part::Scalar(*subject),
                _ => Part::Scalar(*else_expr),
            },
        ],
        _ => row_parts(q),
    }
}

/// Whether a formula holds a reduction over periods.
pub open spec fn holds_reduction(q: Part) -> bool {
    match q {
        Part::Scalar(e) => source_nested(e) is Some,
        Part::Judgment(e) => source_judgment_nested(e) is Some,
    }
}

/// Whether nothing but its parts keeps a formula from being compiled: the rule that it names is
/// compiled, the parameter that it reads is declared, its relation and what it reads of related rows
/// are in order, it is no membership test and no fallback of its own, and no reduction holds another.
pub open spec fn is_compiled_itself(cx: CompileFacts, stack: Seq<nat>, q: Part) -> bool {
    match q {
        Part::Scalar(e) => match e {
            ScalarExpr::Derived(name) => names_compiled(cx, stack, name@),
            ScalarExpr::ParameterLookup { parameter, .. } => item_named(
                cx.program.parameters@,
                parameter@,
            ) is Some,
            ScalarExpr::CountRelated { relation, current_slot, related_slot, where_clause } => {
                let key = lookup_key(relation@, current_slot as nat, related_slot as nat);
                &&& relation_fault(cx, key) is None
                &&& where_clause matches Some(w) ==> related_judgment_fault(
                    cx,
                    relation_info(cx, key),
                    cx.rules(),
                    *w,
                ) is None
            },
            ScalarExpr::SumRelated { relation, current_slot, related_slot, value, where_clause } => {
                let key = lookup_key(relation@, current_slot as nat, related_slot as nat);
                let info = relation_info(cx, key);
                &&& relation_fault(cx, key) is None
                &&& value matches RelatedValueRef::Derived(name) ==> related_rule_fault(
                    cx,
                    info,
                    cx.rules(),
                    name@,
                ) is None
                &&& where_clause matches Some(w) ==> related_judgment_fault(
                    cx,
                    info,
                    cx.rules(),
                    *w,
                ) is None
            },
            ScalarExpr::NoMatch { .. } => false,
            ScalarExpr::OverPeriods { .. } => forall|i: int|
                0 <= i < parts(q).len() ==> !holds_reduction(#[trigger] parts(q)[i]),
            _ => true,
        },
        Part::Judgment(e) => match e {
            JudgmentExpr::Derived(name) => names_compiled(cx, stack, name@),
            JudgmentExpr::RelationMember { .. } => false,
            _ => true,
        },
    }
}

proof fn items_compiled(
    cx: CompileFacts,
    stack: Seq<nat>,
    rule: Seq<char>,
    items: Seq<ScalarExpr>,
    n: nat,
)
    requires
        n <= items.len(),
    ensures
        scalars_fault(cx, stack, rule, items, n) is None <==> forall|i: int|
            0 <= i < n ==> scalar_fault(cx, stack, rule, #[trigger] items[i]) is None,
    decreases n,
{
    if n > 0 {
        items_compiled(cx, stack, rule, items, (n - 1) as nat);
    }
}

proof fn judgment_items_compiled(
    cx: CompileFacts,
    stack: Seq<nat>,
    rule: Seq<char>,
    items: Seq<JudgmentExpr>,
    n: nat,
)
    requires
        n <= items.len(),
    ensures
        judgments_fault(cx, stack, rule, items, n) is None <==> forall|i: int|
            0 <= i < n ==> judgment_fault(cx, stack, rule, #[trigger] items[i]) is None,
    decreases n,
{
    if n > 0 {
        judgment_items_compiled(cx, stack, rule, items, (n - 1) as nat);
    }
}

/// A formula is compiled exactly where its parts are, and nothing else keeps it from being so.
pub proof fn a_formula_is_compiled_where_its_parts_are(
    cx: CompileFacts,
    stack: Seq<nat>,
    rule: Seq<char>,
    q: Part,
)
    ensures
        is_compiled(cx, stack, rule, q) <==> is_compiled_itself(cx, stack, q) && forall|i: int|
            0 <= i < lowered_parts(q).len() ==> is_compiled(
                cx,
                stack,
                rule,
                #[trigger] lowered_parts(q)[i],
            ),
{
    let list = lowered_parts(q);
    let all = forall|i: int|
        0 <= i < list.len() ==> is_compiled(cx, stack, rule, #[trigger] list[i]);
    if list.len() == 1 {
        assert(all <==> is_compiled(cx, stack, rule, list[0]));
    } else if list.len() == 2 {
        assert(all <==> is_compiled(cx, stack, rule, list[0]) && is_compiled(
            cx,
            stack,
            rule,
            list[1],
        ));
    } else if list.len() == 3 {
        assert(all <==> is_compiled(cx, stack, rule, list[0]) && is_compiled(
            cx,
            stack,
            rule,
            list[1],
        ) && is_compiled(cx, stack, rule, list[2]));
    }
    match q {
        Part::Scalar(e) => match e {
            ScalarExpr::Add(items) | ScalarExpr::Max(items) | ScalarExpr::Min(items) => {
                items_compiled(cx, stack, rule, items@, items@.len());
                assert forall|i: int| 0 <= i < list.len() implies is_compiled(
                    cx,
                    stack,
                    rule,
                    #[trigger] list[i],
                ) == (scalar_fault(cx, stack, rule, items@[i]) is None) by {}
                if all {
                    assert forall|i: int| 0 <= i < items@.len() implies scalar_fault(
                        cx,
                        stack,
                        rule,
                        #[trigger] items@[i],
                    ) is None by {
                        assert(is_compiled(cx, stack, rule, list[i]));
                    }
                }
            },
            ScalarExpr::OverPeriods { value, n, .. } => {
                let own = parts(q);
                assert(own[0] == Part::Scalar(*value));
                if let Some(m) = n {
                    assert(own[1] == Part::Scalar(*m));
                }
            },
            _ => {},
        },
        Part::Judgment(e) => match e {
            JudgmentExpr::And(items) | JudgmentExpr::Or(items) => {
                judgment_items_compiled(cx, stack, rule, items@, items@.len());
                assert forall|i: int| 0 <= i < list.len() implies is_compiled(
                    cx,
                    stack,
                    rule,
                    #[trigger] list[i],
                ) == (judgment_fault(cx, stack, rule, items@[i]) is None) by {}
                if all {
                    assert forall|i: int| 0 <= i < items@.len() implies judgment_fault(
                        cx,
                        stack,
                        rule,
                        #[trigger] items@[i],
                    ) is None by {
                        assert(is_compiled(cx, stack, rule, list[i]));
                    }
                }
            },
            _ => {},
        },
    }
}

/// A rule is compiled exactly where it is not reached from itself, it is of the root entity or of
/// none, it has no version or one without an end, and the formula of that version, or its own, is
/// compiled.
pub proof fn a_rule_is_compiled_in_its_only_version(cx: CompileFacts, stack: Seq<nat>, p: nat)
    requires
        p < cx.rules(),
    ensures
        ({
            let d = cx.program.derived@[p as int];
            let formula = if d.versions@.len() == 0 {
                d.semantics
            } else {
                d.versions@[0].semantics
            };
            rule_fault(cx, stack, p) is None <==> {
                &&& !stack.contains(p)
                &&& stack.len() < cx.program.derived@.len()
                &&& d.entity@ == cx.root || d.entity@ == SCALAR_ENTITY@
                &&& d.versions@.len() <= 1
                &&& d.versions@.len() == 1 ==> d.versions@[0].effective_to is None
                &&& is_compiled(
                    cx,
                    stack.push(p),
                    d.name@,
                    match formula {
                        DerivedSemantics::Scalar(e) => Part::Scalar(e),
                        DerivedSemantics::Judgment(e) => Part::Judgment(e),
                    },
                )
            }
        }),
{
}

proof fn rules_compiled(cx: CompileFacts, n: nat)
    requires
        n <= cx.rules(),
    ensures
        compile_fault(cx, n) is None <==> forall|i: int|
            0 <= i < n && (#[trigger] cx.program.derived@[i]).entity@ == cx.root ==> rule_fault(
                cx,
                Seq::empty(),
                cx.position(cx.program.derived@[i].name@)->Some_0,
            ) is None,
    decreases n,
{
    if n > 0 {
        rules_compiled(cx, (n - 1) as nat);
    }
}

/// The rules of an entity are compiled exactly where each of them is.
pub proof fn an_entity_is_compiled_where_all_its_rules_are(cx: CompileFacts)
    ensures
        compile_fault(cx, cx.rules()) is None <==> forall|i: int|
            0 <= i < cx.program.derived@.len() && (#[trigger] cx.program.derived@[i]).entity@
                == cx.root ==> rule_fault(
                cx,
                Seq::empty(),
                cx.position(cx.program.derived@[i].name@)->Some_0,
            ) is None,
{
    rules_compiled(cx, cx.rules());
}

/// The parts in which a reduction is looked for. A fallback stands for its subject where it ends a
/// conditional, and for nothing elsewhere.
pub open spec fn searched_parts(q: Part) -> Seq<Part> {
    match q {
        Part::Scalar(ScalarExpr::NoMatch { .. }) => Seq::empty(),
        _ => if aggregates(q) {
            parts(q)
        } else {
            lowered_parts(q)
        },
    }
}

proof fn items_searched(items: Seq<ScalarExpr>, n: nat)
    requires
        n <= items.len(),
    ensures
        sources_nested(items, n) is Some <==> exists|i: int|
            0 <= i < n && source_nested(#[trigger] items[i]) is Some,
    decreases n,
{
    if n > 0 {
        items_searched(items, (n - 1) as nat);
    }
}

proof fn judgment_items_searched(items: Seq<JudgmentExpr>, n: nat)
    requires
        n <= items.len(),
    ensures
        source_judgments_nested(items, n) is Some <==> exists|i: int|
            0 <= i < n && source_judgment_nested(#[trigger] items[i]) is Some,
    decreases n,
{
    if n > 0 {
        judgment_items_searched(items, (n - 1) as nat);
    }
}

/// A formula holds a reduction exactly where it is one or a part of it holds one.
pub proof fn a_reduction_is_found_in_the_parts(q: Part)
    ensures
        holds_reduction(q) <==> (q matches Part::Scalar(e) && e is OverPeriods) || exists|i: int|
            0 <= i < searched_parts(q).len() && holds_reduction(#[trigger] searched_parts(q)[i]),
{
    let list = searched_parts(q);
    let any = exists|i: int| 0 <= i < list.len() && holds_reduction(#[trigger] list[i]);
    if list.len() == 1 {
        assert(any <==> holds_reduction(list[0]));
    } else if list.len() == 2 {
        assert(any <==> holds_reduction(list[0]) || holds_reduction(list[1]));
    } else if list.len() == 3 {
        assert(any <==> holds_reduction(list[0]) || holds_reduction(list[1]) || holds_reduction(
            list[2],
        ));
    }
    match q {
        Part::Scalar(e) => match e {
            ScalarExpr::Add(items) | ScalarExpr::Max(items) | ScalarExpr::Min(items) => {
                items_searched(items@, items@.len());
                if any {
                    let i = choose|i: int|
                        0 <= i < list.len() && holds_reduction(#[trigger] list[i]);
                    assert(source_nested(items@[i]) is Some);
                }
                if exists|i: int|
                    0 <= i < items@.len() && source_nested(#[trigger] items@[i]) is Some {
                    let i = choose|i: int|
                        0 <= i < items@.len() && source_nested(#[trigger] items@[i]) is Some;
                    assert(holds_reduction(list[i]));
                }
            },
            _ => {},
        },
        Part::Judgment(e) => match e {
            JudgmentExpr::And(items) | JudgmentExpr::Or(items) => {
                judgment_items_searched(items@, items@.len());
                if any {
                    let i = choose|i: int|
                        0 <= i < list.len() && holds_reduction(#[trigger] list[i]);
                    assert(source_judgment_nested(items@[i]) is Some);
                }
                if exists|i: int|
                    0 <= i < items@.len() && source_judgment_nested(#[trigger] items@[i]) is Some {
                    let i = choose|i: int|
                        0 <= i < items@.len() && source_judgment_nested(
                            #[trigger] items@[i],
                        ) is Some;
                    assert(holds_reduction(list[i]));
                }
            },
            _ => {},
        },
    }
}

} // verus!
