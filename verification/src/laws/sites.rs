//! Laws of the places where a formula says by hand that exactly one judgment holds, and of the plans
//! for them.
use crate::exactly_one::{
    base_height, detected, fact_name, fact_names, formula_plans, formula_sites, judgment_height,
    judgment_sites, judgments_sites, leaf_height, leaves, picked, place_plan, rule_plans,
    rules_plans, scalar_height, scalar_item_height, scalar_sites, scalars_height, scalars_sites,
    FoundView, PlanView,
};
use crate::laws::parts::{few, gathered, judgment_items, many, parts, scalar_items, Part};
use crate::lines::joined_by;
use crate::model::{
    ComparisonOp, Derived, DerivedSemantics, JudgmentExpr, ScalarExpr, ScalarValue,
};
use vstd::prelude::*;

verus! {

/// Whether a judgment asks whether a fact holds, by name: a rule that judges, or a rule or an input
/// that is compared with truth.
pub open spec fn asks_for(e: JudgmentExpr, name: Seq<char>) -> bool {
    ||| e matches JudgmentExpr::Derived(n) && n@ == name
    ||| e matches JudgmentExpr::Comparison { left, op, right } && {
        &&& op == ComparisonOp::Eq
        &&& right == ScalarExpr::Literal(ScalarValue::Bool(true))
        &&& (left matches ScalarExpr::Input(n) && n@ == name) || (left matches ScalarExpr::Derived(
            n,
        ) && n@ == name)
    }
}

/// Whether a judgment asks for no fact by name.
pub open spec fn asks_for_none(e: JudgmentExpr) -> bool {
    forall|name: Seq<char>| !#[trigger] asks_for(e, name)
}

proof fn name_is(e: JudgmentExpr, name: Seq<char>)
    ensures
        fact_name(e) == Some(name) <==> asks_for(e, name),
{
}

proof fn names_are(bases: Seq<JudgmentExpr>, n: nat)
    requires
        n <= bases.len(),
    ensures
        match fact_names(bases, n) {
            Some(names) => names.len() == n && forall|i: int|
                0 <= i < n ==> asks_for(bases[i], #[trigger] names[i]),
            None => exists|i: int| 0 <= i < n && asks_for_none(#[trigger] bases[i]),
        },
    decreases n,
{
    if n > 0 {
        names_are(bases, (n - 1) as nat);
        let last = bases[n - 1];
        match fact_names(bases, (n - 1) as nat) {
            Some(before) => {
                if let Some(name) = fact_name(last) {
                    name_is(last, name);
                } else {
                    assert forall|name: Seq<char>| !#[trigger] asks_for(last, name) by {
                        name_is(last, name);
                    }
                    assert(asks_for_none(bases[n - 1]));
                }
            },
            None => {},
        }
    }
}

/// A place is rewritten exactly where each of its judgments asks for a fact by name; it is then
/// rewritten to name those facts, in their order.
pub proof fn places_are_rewritten_to_name_their_facts(
    found: FoundView,
    rule: Seq<char>,
    site: Seq<char>,
    version: Option<usize>,
)
    ensures
        match place_plan(found, rule, site, version) {
            PlanView::Rewrite { rule: r, version: v, site: s, arity, idiom, bases, replacement } => {
                &&& r == rule && s == site && v == version && idiom == found.idiom
                &&& arity == found.bases.len() && bases.len() == found.bases.len()
                &&& forall|i: int|
                    0 <= i < found.bases.len() ==> asks_for(found.bases[i], #[trigger] bases[i])
                &&& replacement == "exactly_one("@ + joined_by(bases, bases.len(), ", "@) + ")"@
            },
            PlanView::Manual { rule: r, site: s, arity, idiom, .. } => {
                &&& r == rule && s == site && idiom == found.idiom && arity == found.bases.len()
                &&& exists|i: int|
                    0 <= i < found.bases.len() && asks_for_none(#[trigger] found.bases[i])
            },
        },
{
    names_are(found.bases, found.bases.len());
}

/// The plans of one sort, in their order, are those of the sort among all of them; those of the two
/// sorts are all of them.
pub proof fn plans_are_rewrites_or_left_to_hand(plans: Seq<PlanView>)
    ensures
        picked(plans, true) == plans.filter(|p: PlanView| p is Rewrite),
        picked(plans, false) == plans.filter(|p: PlanView| p is Manual),
        picked(plans, true).len() + picked(plans, false).len() == plans.len(),
    decreases plans.len(),
{
    reveal(Seq::filter);
    if plans.len() > 0 {
        plans_are_rewrites_or_left_to_hand(plans.drop_last());
    }
}

proof fn plans_of_rules_add(a: Seq<Derived>, b: Seq<Derived>, n: nat)
    requires
        n <= b.len(),
    ensures
        rules_plans(a + b, (a.len() + n) as nat) == rules_plans(a, a.len()) + rules_plans(b, n),
    decreases n,
{
    if n > 0 {
        plans_of_rules_add(a, b, (n - 1) as nat);
        assert((a + b)[a.len() + n - 1] == b[n - 1]);
        assert(rules_plans(a + b, (a.len() + n) as nat) =~= rules_plans(a, a.len()) + rules_plans(
            b,
            n,
        ));
    } else {
        same_first(a, a + b, a.len());
        assert(rules_plans(a, a.len()) + rules_plans(b, 0) =~= rules_plans(a, a.len()));
    }
}

proof fn same_first(a: Seq<Derived>, b: Seq<Derived>, n: nat)
    requires
        n <= a.len() <= b.len(),
        forall|i: int| 0 <= i < n ==> a[i] == b[i],
    ensures
        rules_plans(b, n) == rules_plans(a, n),
    decreases n,
{
    if n > 0 {
        same_first(a, b, (n - 1) as nat);
    }
}

/// The plans of rules are those of each rule, in their order. A rule without versions has those of
/// its formula, under the site of its expression.
pub proof fn plans_are_those_of_each_rule(a: Seq<Derived>, b: Seq<Derived>, d: Derived)
    ensures
        rules_plans(a + b, (a + b).len()) == rules_plans(a, a.len()) + rules_plans(b, b.len()),
        rules_plans(seq![d], 1) == rule_plans(d),
        d.versions@.len() == 0 ==> rule_plans(d) == formula_plans(d.semantics, d.name@, "expr"@, None),
{
    plans_of_rules_add(a, b, b.len());
    reveal_with_fuel(rules_plans, 2);
    assert(rules_plans(seq![d], 1) =~= rule_plans(d));
}

/// The plans of a formula are those of its places, one for each in their order; only a place that
/// the whole formula is carries the version to rewrite.
pub proof fn a_formula_has_a_plan_for_each_place(
    s: DerivedSemantics,
    rule: Seq<char>,
    site: Seq<char>,
    version: Option<usize>,
    k: int,
)
    requires
        0 <= k < formula_sites(s).len(),
    ensures
        formula_plans(s, rule, site, version).len() == formula_sites(s).len(),
        formula_plans(s, rule, site, version)[k] == place_plan(
            formula_sites(s)[k],
            rule,
            site,
            if k == 0 && s is Judgment && detected(s->Judgment_0) is Some {
                version
            } else {
                None
            },
        ),
{
}

/// The places of a formula.
pub open spec fn places(q: Part) -> Seq<FoundView> {
    match q {
        Part::Scalar(e) => scalar_sites(e),
        Part::Judgment(e) => judgment_sites(e),
    }
}

/// The formulas that the places of a formula are looked for in: those that it is made of, a chain
/// taken whole; where it says by hand that one of its bases holds, the bases. A choice is looked
/// through with its alternative first, and a match with its patterns first.
pub open spec fn looked_through(q: Part) -> Seq<Part> {
    match q {
        Part::Scalar(ScalarExpr::If { condition, then_expr, else_expr }) => seq![
            Part::Judgment(*condition),
            Part::Scalar(*else_expr),
            Part::Scalar(*then_expr),
        ],
        Part::Scalar(ScalarExpr::NoMatch { subject, patterns }) => scalar_items(patterns@).push(
            Part::Scalar(*subject),
        ),
        Part::Scalar(ScalarExpr::OverPeriods { value, n, .. }) => match n {
            Some(n) => seq![Part::Scalar(*n), Part::Scalar(*value)],
            None => seq![Part::Scalar(*value)],
        },
        Part::Scalar(_) => parts(q),
        Part::Judgment(e) => match detected(e) {
            Some((_, bases)) => judgment_items(bases),
            None => match e {
                JudgmentExpr::Or(_) => judgment_items(leaves(e, true)),
                JudgmentExpr::And(_) => judgment_items(leaves(e, false)),
                _ => parts(q),
            },
        },
    }
}

/// The place that a formula itself is.
pub open spec fn place_itself(q: Part) -> Seq<FoundView> {
    match q {
        Part::Judgment(e) => match detected(e) {
            Some((idiom, bases)) => seq![FoundView { idiom, bases }],
            None => Seq::empty(),
        },
        _ => Seq::empty(),
    }
}

proof fn places_of_numbers(items: Seq<ScalarExpr>, limit: nat)
    requires
        scalars_height(items, items.len()) < limit,
    ensures
        scalars_sites(items, items.len(), limit) == gathered(
            scalar_items(items),
            |x: Part| places(x),
        ),
{
    let list = scalar_items(items);
    let of = |x: Part| places(x);
    let first = |n: nat| scalars_sites(items, n, limit);
    assert forall|i: nat| 0 < i <= list.len() implies #[trigger] first(i) == first((i - 1) as nat)
        + of(list[i - 1]) by {
        scalar_item_height(items, items.len(), i - 1);
    }
    many(list, of, first, list.len());
    assert(list.take(list.len() as int) =~= list);
}

proof fn places_of_judgments(items: Seq<JudgmentExpr>, limit: nat)
    requires
        forall|i: int| 0 <= i < items.len() ==> judgment_height(#[trigger] items[i]) < limit,
    ensures
        judgments_sites(items, items.len(), limit) == gathered(
            judgment_items(items),
            |x: Part| places(x),
        ),
{
    let list = judgment_items(items);
    let of = |x: Part| places(x);
    let first = |n: nat| judgments_sites(items, n, limit);
    assert forall|i: nat| 0 < i <= list.len() implies #[trigger] first(i) == first((i - 1) as nat)
        + of(list[i - 1]) by {
        assert(judgment_height(items[i - 1]) < limit);
    }
    many(list, of, first, list.len());
    assert(list.take(list.len() as int) =~= list);
}

/// The places of a formula are the one that it is itself, and those of the formulas that it is looked
/// through for, in their order.
pub proof fn places_are_the_formula_and_those_of_its_parts(q: Part)
    ensures
        places(q) == place_itself(q) + gathered(looked_through(q), |x: Part| places(x)),
{
    let of = |x: Part| places(x);
    let list = looked_through(q);
    few(list, of);
    match q {
        Part::Scalar(e) => match e {
            ScalarExpr::Add(items) | ScalarExpr::Max(items) | ScalarExpr::Min(items) => {
                places_of_numbers(items@, scalar_height(e));
            },
            ScalarExpr::NoMatch { subject, patterns } => {
                places_of_numbers(patterns@, scalar_height(e));
                assert(list.drop_last() =~= scalar_items(patterns@));
                assert(list.last() == Part::Scalar(*subject));
            },
            _ => {},
        },
        Part::Judgment(e) => match detected(e) {
            Some((_, bases)) => {
                assert forall|i: int| 0 <= i < bases.len() implies judgment_height(
                    #[trigger] bases[i],
                ) < judgment_height(e) by {
                    base_height(e, i);
                }
                places_of_judgments(bases, judgment_height(e));
            },
            None => match e {
                JudgmentExpr::Or(_) => {
                    assert forall|i: int| 0 <= i < leaves(e, true).len() implies judgment_height(
                        #[trigger] leaves(e, true)[i],
                    ) < judgment_height(e) by {
                        leaf_height(e, true, i);
                    }
                    places_of_judgments(leaves(e, true), judgment_height(e));
                },
                JudgmentExpr::And(_) => {
                    assert forall|i: int| 0 <= i < leaves(e, false).len() implies judgment_height(
                        #[trigger] leaves(e, false)[i],
                    ) < judgment_height(e) by {
                        leaf_height(e, false, i);
                    }
                    places_of_judgments(leaves(e, false), judgment_height(e));
                },
                _ => {},
            },
        },
    }
    assert(places(q) =~= place_itself(q) + gathered(list, of));
}

} // verus!
