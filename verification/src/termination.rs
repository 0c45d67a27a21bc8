//! References that end.
//!
//! Rules refer to rules and relations, and derived relations to relations and, by their
//! predicates, to rules. Where these references do not run in a circle, every rule has a
//! value or an error for every entity, period and set of facts.
use crate::date::Date;
use crate::engine::{judgment_terminates, scalar_terminates};
use crate::model::{
    derived_version_at, find_index, item_named, position_from_meaning, position_of, Derived, DerivedSemantics,
    DerivedVersion, JudgmentExpr, JudgmentOutcome, Program, RelatedValueRef, RelationDerivation,
    RelationSchema, ScalarExpr,
};
use crate::relation_typing::push_text;
use crate::schedule::{
    covers, first_left, holds_text, is_open, is_schedule, is_stuck, needs_come_first, schedule,
    schedule_is_unique, text_lists,
};
use crate::semantics::{
    connective_run, count_run, derivation_context, entity_for, extremum_run, judgment_run,
    judgment_run_is_step, members_run, related_run, rule_formula, rule_judgment, rule_scalar,
    rule_unrounded, scalar_run, scalar_run_is_step, sum_run, total_run, Facts, RelationContext,
};
use crate::text::{owned, texts};
use vstd::prelude::*;
use vstd::string::*;

verus! {

/// The node of a rule.
pub open spec fn rule_node(name: Seq<char>) -> Seq<char> {
    "rule "@ + name
}

/// The node of a relation.
pub open spec fn relation_node(name: Seq<char>) -> Seq<char> {
    "relation "@ + name
}

proof fn nodes_differ(a: Seq<char>, b: Seq<char>)
    ensures
        rule_node(a) == rule_node(b) ==> a == b,
        relation_node(a) == relation_node(b) ==> a == b,
        rule_node(a) != relation_node(b),
{
    reveal_strlit("rule ");
    reveal_strlit("relation ");
    assert(rule_node(a).skip(5) =~= a);
    assert(rule_node(b).skip(5) =~= b);
    assert(relation_node(a).skip(9) =~= a);
    assert(relation_node(b).skip(9) =~= b);
    assert(rule_node(a)[1] == 'u');
    assert(relation_node(b)[1] == 'e');
}

fn push_rule_node(name: &str, out: &mut Vec<String>)
    ensures
        texts(final(out)@) == texts(old(out)@) + seq![rule_node(name@)],
{
    let mut node = owned("rule ");
    node.append(name);
    push_text(node.as_str(), out);
}

fn push_relation_node(name: &str, out: &mut Vec<String>)
    ensures
        texts(final(out)@) == texts(old(out)@) + seq![relation_node(name@)],
{
    let mut node = owned("relation ");
    node.append(name);
    push_text(node.as_str(), out);
}

/// The rules and relations that a formula refers to.
pub open spec fn scalar_needs(e: ScalarExpr) -> Seq<Seq<char>>
    decreases e, 1int, 0nat,
{
    match e {
        ScalarExpr::Literal(_) => Seq::empty(),
        ScalarExpr::PeriodStart => Seq::empty(),
        ScalarExpr::PeriodEnd => Seq::empty(),
        ScalarExpr::Input(_) => Seq::empty(),
        ScalarExpr::InputOrElse { .. } => Seq::empty(),
        ScalarExpr::Derived(name) => seq![rule_node(name@)],
        ScalarExpr::ParameterLookup { index, .. } => scalar_needs(*index),
        ScalarExpr::Add(items) => scalar_needss(items@, items@.len()),
        ScalarExpr::Max(items) => scalar_needss(items@, items@.len()),
        ScalarExpr::Min(items) => scalar_needss(items@, items@.len()),
        ScalarExpr::Sub(a, b) => scalar_needs(*a) + scalar_needs(*b),
        ScalarExpr::Mul(a, b) => scalar_needs(*a) + scalar_needs(*b),
        ScalarExpr::Div(a, b) => scalar_needs(*a) + scalar_needs(*b),
        ScalarExpr::Ceil(a) => scalar_needs(*a),
        ScalarExpr::Floor(a) => scalar_needs(*a),
        ScalarExpr::DateAddDays { date, days } => scalar_needs(*date) + scalar_needs(*days),
        ScalarExpr::DateAddMonths { date, months } => scalar_needs(*date) + scalar_needs(*months),
        ScalarExpr::DateAddYears { date, years } => scalar_needs(*date) + scalar_needs(*years),
        ScalarExpr::DaysBetween { from, to } => scalar_needs(*from) + scalar_needs(*to),
        ScalarExpr::CountRelated { relation, where_clause, .. } => seq![relation_node(relation@)] + (match where_clause {
            Some(w) => judgment_needs(*w),
            None => Seq::empty(),
        }),
        ScalarExpr::SumRelated { relation, value, where_clause, .. } => seq![relation_node(relation@)] + ((match value {
            RelatedValueRef::Derived(name) => seq![rule_node(name@)],
            _ => Seq::empty(),
        }) + match where_clause {
            Some(w) => judgment_needs(*w),
            None => Seq::empty(),
        }),
        ScalarExpr::If { condition, then_expr, else_expr } => judgment_needs(*condition) + scalar_needs(
            *then_expr) + scalar_needs(*else_expr),
        ScalarExpr::NoMatch { subject, .. } => scalar_needs(*subject),
        ScalarExpr::OverPeriods { value, n, .. } => scalar_needs(*value) + match n {
            Some(n) => scalar_needs(*n),
            None => Seq::empty(),
        },
    }
}

pub open spec fn scalar_needss(items: Seq<ScalarExpr>, n: nat) -> Seq<Seq<char>>
    decreases items, 0int, n,
{
    if n == 0 || n > items.len() {
        Seq::empty()
    } else {
        scalar_needss(items, (n - 1) as nat) + scalar_needs(items[n - 1])
    }
}

/// The rules and relations that a judgment refers to.
pub open spec fn judgment_needs(e: JudgmentExpr) -> Seq<Seq<char>>
    decreases e, 1int, 0nat,
{
    match e {
        JudgmentExpr::Comparison { left, right, .. } => scalar_needs(left) + scalar_needs(right),
        JudgmentExpr::Derived(name) => seq![rule_node(name@)],
        JudgmentExpr::RelationMember { relation, .. } => seq![relation_node(relation@)],
        JudgmentExpr::And(items) => judgment_needss(items@, items@.len()),
        JudgmentExpr::Or(items) => judgment_needss(items@, items@.len()),
        JudgmentExpr::Not(item) => judgment_needs(*item),
    }
}

pub open spec fn judgment_needss(items: Seq<JudgmentExpr>, n: nat) -> Seq<Seq<char>>
    decreases items, 0int, n,
{
    if n == 0 || n > items.len() {
        Seq::empty()
    } else {
        judgment_needss(items, (n - 1) as nat) + judgment_needs(items[n - 1])
    }
}

fn collect_scalar_needs_two(
    a: &ScalarExpr,
    b: &ScalarExpr,
    out: &mut Vec<String>,
    Ghost(whole): Ghost<ScalarExpr>,
)
    requires
        decreases_to!(whole => *a),
        decreases_to!(whole => *b),
    ensures
        texts(final(out)@) == texts(old(out)@) + (scalar_needs(*a) + scalar_needs(*b)),
    decreases whole, 0int,
{
    let ghost before = texts(out@);
    collect_scalar_needs(a, out);
    collect_scalar_needs(b, out);
    assert(texts(out@) =~= before + (scalar_needs(*a) + scalar_needs(*b)));
}

fn collect_scalar_needs_items(items: &Vec<ScalarExpr>,
    out: &mut Vec<String>,
)
    ensures
        texts(final(out)@) == texts(old(out)@) + scalar_needss(items@, items@.len()),
    decreases items@, 0int,
{
    let ghost before = texts(out@);
    let mut i: usize = 0;
    assert(texts(out@) =~= before + scalar_needss(items@, 0));
    while i < items.len()
        invariant
            i <= items@.len(),
            texts(out@) == before + scalar_needss(items@, i as nat),
        decreases items@.len() - i,
    {
        collect_scalar_needs(&items[i], out);
        assert(texts(out@) =~= before + scalar_needss(items@, (i + 1) as nat));
        i = i + 1;
    }
}

/// Adds the rules and relations that a formula refers to.
fn collect_scalar_needs(expr: &ScalarExpr,
    out: &mut Vec<String>,
)
    ensures
        texts(final(out)@) == texts(old(out)@) + scalar_needs(*expr),
    decreases *expr, 1int,
{
    let ghost before = texts(out@);
    match expr {
        ScalarExpr::Literal(_) | ScalarExpr::PeriodStart | ScalarExpr::PeriodEnd => {
            assert(before + Seq::<Seq<char>>::empty() =~= before);
        },
        ScalarExpr::Input(_) => {
            assert(before + Seq::<Seq<char>>::empty() =~= before);
        },
        ScalarExpr::InputOrElse { .. } => {
            assert(before + Seq::<Seq<char>>::empty() =~= before);
        },
        ScalarExpr::Derived(name) => {
            push_rule_node(name.as_str(), out);
        },
        ScalarExpr::ParameterLookup { index, .. } => collect_scalar_needs(index, out),
        ScalarExpr::Add(items) => collect_scalar_needs_items(items, out),
        ScalarExpr::Max(items) => collect_scalar_needs_items(items, out),
        ScalarExpr::Min(items) => collect_scalar_needs_items(items, out),
        ScalarExpr::Sub(a, b) => collect_scalar_needs_two(a, b, out, Ghost(*expr)),
        ScalarExpr::Mul(a, b) => collect_scalar_needs_two(a, b, out, Ghost(*expr)),
        ScalarExpr::Div(a, b) => collect_scalar_needs_two(a, b, out, Ghost(*expr)),
        ScalarExpr::Ceil(a) => collect_scalar_needs(a, out),
        ScalarExpr::Floor(a) => collect_scalar_needs(a, out),
        ScalarExpr::DateAddDays { date, days } => collect_scalar_needs_two(date, days, out, Ghost(*expr)),
        ScalarExpr::DateAddMonths { date, months } => collect_scalar_needs_two(
            date,
            months,
            out,
            Ghost(*expr),
        ),
        ScalarExpr::DateAddYears { date, years } => collect_scalar_needs_two(
            date,
            years,
            out,
            Ghost(*expr),
        ),
        ScalarExpr::DaysBetween { from, to } => collect_scalar_needs_two(from, to, out, Ghost(*expr)),
        ScalarExpr::CountRelated { relation, where_clause, .. } => {
            push_relation_node(relation.as_str(), out);
            if let Some(w) = where_clause {
                collect_judgment_needs(w, out);
            }
            assert(texts(out@) =~= before + scalar_needs(*expr));
        },
        ScalarExpr::SumRelated { relation, value, where_clause, .. } => {
            push_relation_node(relation.as_str(), out);
            if let RelatedValueRef::Derived(name) = value {
                push_rule_node(name.as_str(), out);
            }
            if let Some(w) = where_clause {
                collect_judgment_needs(w, out);
            }
            assert(texts(out@) =~= before + scalar_needs(*expr));
        },
        ScalarExpr::If { condition, then_expr, else_expr } => {
            collect_judgment_needs(condition, out);
            collect_scalar_needs(then_expr, out);
            collect_scalar_needs(else_expr, out);
            assert(texts(out@) =~= before + scalar_needs(*expr));
        },
        ScalarExpr::NoMatch { subject, .. } => collect_scalar_needs(subject, out),
        ScalarExpr::OverPeriods { value, n, .. } => {
            collect_scalar_needs(value, out);
            if let Some(n) = n {
                collect_scalar_needs(n, out);
            }
            assert(texts(out@) =~= before + scalar_needs(*expr));
        },
    }
}

fn collect_judgment_needs_items(items: &Vec<JudgmentExpr>,
    out: &mut Vec<String>,
)
    ensures
        texts(final(out)@) == texts(old(out)@) + judgment_needss(items@, items@.len()),
    decreases items@, 0int,
{
    let ghost before = texts(out@);
    let mut i: usize = 0;
    assert(texts(out@) =~= before + judgment_needss(items@, 0));
    while i < items.len()
        invariant
            i <= items@.len(),
            texts(out@) == before + judgment_needss(items@, i as nat),
        decreases items@.len() - i,
    {
        collect_judgment_needs(&items[i], out);
        assert(texts(out@) =~= before + judgment_needss(items@, (i + 1) as nat));
        i = i + 1;
    }
}

/// Adds the rules and relations that a judgment refers to.
fn collect_judgment_needs(expr: &JudgmentExpr,
    out: &mut Vec<String>,
)
    ensures
        texts(final(out)@) == texts(old(out)@) + judgment_needs(*expr),
    decreases *expr, 1int,
{
    let ghost before = texts(out@);
    match expr {
        JudgmentExpr::Comparison { left, right, .. } => {
            collect_scalar_needs(left, out);
            collect_scalar_needs(right, out);
            assert(texts(out@) =~= before + judgment_needs(*expr));
        },
        JudgmentExpr::Derived(name) => push_rule_node(name.as_str(), out),
        JudgmentExpr::RelationMember { relation, .. } => push_relation_node(relation.as_str(), out),
        JudgmentExpr::And(items) => collect_judgment_needs_items(items, out),
        JudgmentExpr::Or(items) => collect_judgment_needs_items(items, out),
        JudgmentExpr::Not(item) => collect_judgment_needs(item, out),
    }
}

pub open spec fn formula_needs(s: DerivedSemantics) -> Seq<Seq<char>> {
    match s {
        DerivedSemantics::Scalar(e) => scalar_needs(e),
        DerivedSemantics::Judgment(e) => judgment_needs(e),
    }
}

pub open spec fn versions_needs(versions: Seq<DerivedVersion>, n: nat) -> Seq<Seq<char>>
    decreases n,
{
    if n == 0 || n > versions.len() {
        Seq::empty()
    } else {
        versions_needs(versions, (n - 1) as nat) + formula_needs(versions[n - 1].semantics)
    }
}

/// The rules and relations that a rule refers to.
pub open spec fn rule_needs(d: Derived) -> Seq<Seq<char>> {
    formula_needs(d.semantics) + versions_needs(d.versions@, d.versions@.len())
}

/// The rules and relations that a relation refers to.
pub open spec fn relation_needs(schema: RelationSchema) -> Seq<Seq<char>> {
    match schema.derivation {
        Some(d) => seq![relation_node(d.source_relation@)] + judgment_needs(d.predicate),
        None => Seq::empty(),
    }
}

/// The nodes of the first `n` rules.
pub open spec fn rule_nodes(rules: Seq<Derived>, n: nat) -> Seq<Seq<char>>
    decreases n,
{
    if n == 0 || n > rules.len() {
        Seq::empty()
    } else if position_of(rules, rules[n - 1].name@) == Some((n - 1) as nat) {
        rule_nodes(rules, (n - 1) as nat).push(rule_node(rules[n - 1].name@))
    } else {
        rule_nodes(rules, (n - 1) as nat)
    }
}

pub open spec fn rule_node_needs(rules: Seq<Derived>, n: nat) -> Seq<Seq<Seq<char>>>
    decreases n,
{
    if n == 0 || n > rules.len() {
        Seq::empty()
    } else if position_of(rules, rules[n - 1].name@) == Some((n - 1) as nat) {
        rule_node_needs(rules, (n - 1) as nat).push(rule_needs(rules[n - 1]))
    } else {
        rule_node_needs(rules, (n - 1) as nat)
    }
}

/// The nodes of the first `n` relations.
pub open spec fn relation_nodes(relations: Seq<RelationSchema>, n: nat) -> Seq<Seq<char>>
    decreases n,
{
    if n == 0 || n > relations.len() {
        Seq::empty()
    } else if position_of(relations, relations[n - 1].name@) == Some((n - 1) as nat) {
        relation_nodes(relations, (n - 1) as nat).push(relation_node(relations[n - 1].name@))
    } else {
        relation_nodes(relations, (n - 1) as nat)
    }
}

pub open spec fn relation_node_needs(relations: Seq<RelationSchema>, n: nat) -> Seq<Seq<Seq<char>>>
    decreases n,
{
    if n == 0 || n > relations.len() {
        Seq::empty()
    } else if position_of(relations, relations[n - 1].name@) == Some((n - 1) as nat) {
        relation_node_needs(relations, (n - 1) as nat).push(relation_needs(relations[n - 1]))
    } else {
        relation_node_needs(relations, (n - 1) as nat)
    }
}

/// The rules and relations of a program.
pub open spec fn program_nodes(p: Program) -> Seq<Seq<char>> {
    rule_nodes(p.derived@, p.derived@.len()) + relation_nodes(p.relations@, p.relations@.len())
}

/// What each rule and relation refers to.
pub open spec fn program_needs(p: Program) -> Seq<Seq<Seq<char>>> {
    rule_node_needs(p.derived@, p.derived@.len()) + relation_node_needs(
        p.relations@,
        p.relations@.len(),
    )
}

/// Whether the references of a program do not run in a circle: its rules and relations can
/// be scheduled, each after those that it refers to.
pub open spec fn references_end(p: Program) -> bool {
    exists|order: Seq<Seq<char>>| #[trigger]
        is_schedule(program_nodes(p), program_needs(p), order) && covers(program_nodes(p), order)
}

/// Whether the references of a rule do not run in a circle: where there is such a rule, it can
/// be scheduled after the rules and relations that it refers to.
pub open spec fn rule_references_end(p: Program, name: Seq<char>) -> bool {
    exists|order: Seq<Seq<char>>| #[trigger]
        is_schedule(program_nodes(p), program_needs(p), order) && is_stuck(
            program_nodes(p),
            program_needs(p),
            order,
        ) && (item_named(p.derived@, name) is Some ==> order.contains(rule_node(name)))
}

/// Nodes, and those of them that are scheduled.
ghost struct Ranking {
    placed: Seq<Seq<char>>,
    nodes: Seq<Seq<char>>,
}

/// The place of a node, from one on: beyond all places for one that is not scheduled, zero for
/// what is no node.
spec fn rank(order: Ranking, node: Seq<char>) -> nat {
    if order.placed.contains(node) {
        (order.placed.index_of(node) + 1) as nat
    } else if order.nodes.contains(node) {
        (order.placed.len() + 1) as nat
    } else {
        0
    }
}

spec fn all_below(order: Ranking, needs: Seq<Seq<char>>, bound: nat) -> bool {
    forall|k: int| 0 <= k < needs.len() ==> rank(order, #[trigger] needs[k]) < bound
}

proof fn below_splits(order: Ranking, a: Seq<Seq<char>>, b: Seq<Seq<char>>, bound: nat)
    requires
        all_below(order, a + b, bound),
    ensures
        all_below(order, a, bound),
        all_below(order, b, bound),
{
    assert forall|k: int| 0 <= k < a.len() implies rank(order, #[trigger] a[k]) < bound by {
        assert((a + b)[k] == a[k]);
    }
    assert forall|k: int| 0 <= k < b.len() implies rank(order, #[trigger] b[k]) < bound by {
        assert((a + b)[a.len() + k] == b[k]);
    }
}

/// Whether each scheduled rule and relation comes after all that it refers to.
spec fn is_ranked(p: Program, order: Ranking) -> bool {
    &&& forall|name: Seq<char>| #[trigger]
        item_named(p.derived@, name) matches Some(d) ==> rank(order, rule_node(name)) > 0 && (rank(
            order,
            rule_node(name),
        ) <= order.placed.len() ==> all_below(order, rule_needs(d), rank(order, rule_node(name))))
    &&& forall|name: Seq<char>| #[trigger]
        item_named(p.relations@, name) matches Some(schema) ==> rank(order, relation_node(name)) > 0
            && (rank(order, relation_node(name)) <= order.placed.len() ==> all_below(
            order,
            relation_needs(schema),
            rank(order, relation_node(name)),
        ))
}

proof fn version_below(
    order: Ranking,
    versions: Seq<DerivedVersion>,
    n: nat,
    bound: nat,
    i: int,
)
    requires
        0 <= i < n <= versions.len(),
        all_below(order, versions_needs(versions, n), bound),
    ensures
        all_below(order, formula_needs(versions[i].semantics), bound),
    decreases n,
{
    below_splits(
        order,
        versions_needs(versions, (n - 1) as nat),
        formula_needs(versions[n - 1].semantics),
        bound,
    );
    if i < n - 1 {
        version_below(order, versions, (n - 1) as nat, bound, i);
    }
}

proof fn version_at_bound(versions: Seq<DerivedVersion>, date: Date, n: nat)
    ensures
        derived_version_at(versions, date, n) matches Some(i) ==> i < n,
    decreases n,
{
    if n > 0 {
        version_at_bound(versions, date, (n - 1) as nat);
    }
}

proof fn formula_below(cx: Facts, order: Ranking, name: Seq<char>)
    requires
        is_ranked(cx.program, order),
        rank(order, rule_node(name)) <= order.placed.len(),
    ensures
        rule_formula(cx, name) matches Ok((d, formula)) ==> all_below(
            order,
            formula_needs(formula),
            rank(order, rule_node(name)),
        ),
{
    if let Ok((d, formula)) = rule_formula(cx, name) {
        let bound = rank(order, rule_node(name));
        assert(item_named(cx.program.derived@, name) == Some(d));
        below_splits(
            order,
            formula_needs(d.semantics),
            versions_needs(d.versions@, d.versions@.len()),
            bound,
        );
        if d.versions@.len() > 0 {
            version_at_bound(d.versions@, cx.period.start, d.versions@.len());
            let i = derived_version_at(
                d.versions@,
                cx.period.start,
                d.versions@.len(),
            )->Some_0;
            version_below(order, d.versions@, d.versions@.len(), bound, i as int);
        }
    }
}

proof fn rule_ends(cx: Facts, order: Ranking, f: nat, name: Seq<char>, ent: Seq<char>)
    requires
        is_ranked(cx.program, order),
        f <= order.placed.len(),
        rank(order, rule_node(name)) <= f,
    ensures
        rule_unrounded(cx, f, name, ent) is Some,
        rule_scalar(cx, f, name, ent) is Some,
        rule_judgment(cx, f, name, ent) is Some,
    decreases 2 * f + 1, cx, 1int, 0int,
{
    formula_below(cx, order, name);
    match rule_formula(cx, name) {
        Ok((d, DerivedSemantics::Scalar(e))) => {
            weaker(order, scalar_needs(e), rank(order, rule_node(name)), f);
            scalar_ends(cx, order, f, e, ent, None);
        },
        Ok((d, DerivedSemantics::Judgment(e))) => {
            weaker(order, judgment_needs(e), rank(order, rule_node(name)), f);
            judgment_ends(cx, order, f, e, ent, None);
        },
        Err(_) => {},
    }
}

proof fn weaker(order: Ranking, needs: Seq<Seq<char>>, low: nat, high: nat)
    requires
        all_below(order, needs, low),
        low <= high,
    ensures
        all_below(order, needs, high),
{
}

proof fn two_end(
    cx: Facts,
    order: Ranking,
    f: nat,
    a: ScalarExpr,
    b: ScalarExpr,
    ent: Seq<char>,
    context: Option<RelationContext>,
    whole: ScalarExpr,
)
    requires
        is_ranked(cx.program, order),
        f <= order.placed.len(),
        all_below(order, scalar_needs(a) + scalar_needs(b), f),
        decreases_to!(whole => a),
        decreases_to!(whole => b),
    ensures
        scalar_run(cx, f, a, ent, context) is Some,
        scalar_run(cx, f, b, ent, context) is Some,
    decreases 2 * f, whole, 0int, 0int,
{
    below_splits(order, scalar_needs(a), scalar_needs(b), f);
    scalar_ends(cx, order, f, a, ent, context);
    scalar_ends(cx, order, f, b, ent, context);
}

proof fn scalar_ends(
    cx: Facts,
    order: Ranking,
    f: nat,
    e: ScalarExpr,
    ent: Seq<char>,
    context: Option<RelationContext>,
)
    requires
        is_ranked(cx.program, order),
        f <= order.placed.len(),
        all_below(order, scalar_needs(e), f),
    ensures
        scalar_run(cx, f, e, ent, context) is Some,
    decreases 2 * f, e, 1int, 0int,
{
    scalar_run_is_step(cx, f, e, ent, context);
    match e {
        ScalarExpr::Derived(name) => {
            assert(rank(order, scalar_needs(e)[0]) < f);
            if let Some(d) = cx.program.rule(name@) {
                let target = entity_for(context, d.entity@, ent);
                rule_ends(cx, order, (f - 1) as nat, name@, target);
            }
        },
        ScalarExpr::ParameterLookup { index, .. } => scalar_ends(
            cx,
            order,
            f,
            *index,
            ent,
            context,
        ),
        ScalarExpr::Add(items) => sum_ends(cx, order, f, items@, items@.len(), ent, context),
        ScalarExpr::Sub(a, b) => two_end(cx, order, f, *a, *b, ent, context, e),
        ScalarExpr::Mul(a, b) => two_end(cx, order, f, *a, *b, ent, context, e),
        ScalarExpr::Div(a, b) => two_end(cx, order, f, *a, *b, ent, context, e),
        ScalarExpr::Max(items) => {
            if items@.len() > 0 {
                extremum_ends(cx, order, f, items@, items@.len(), true, ent, context);
            }
        },
        ScalarExpr::Min(items) => {
            if items@.len() > 0 {
                extremum_ends(cx, order, f, items@, items@.len(), false, ent, context);
            }
        },
        ScalarExpr::Ceil(a) => scalar_ends(cx, order, f, *a, ent, context),
        ScalarExpr::Floor(a) => scalar_ends(cx, order, f, *a, ent, context),
        ScalarExpr::DateAddDays { date, days } => two_end(
            cx,
            order,
            f,
            *date,
            *days,
            ent,
            context,
            e,
        ),
        ScalarExpr::DateAddMonths { date, months } => two_end(
            cx,
            order,
            f,
            *date,
            *months,
            ent,
            context,
            e,
        ),
        ScalarExpr::DateAddYears { date, years } => two_end(
            cx,
            order,
            f,
            *date,
            *years,
            ent,
            context,
            e,
        ),
        ScalarExpr::DaysBetween { from, to } => two_end(cx, order, f, *from, *to, ent, context, e),
        ScalarExpr::CountRelated { relation, current_slot, related_slot, where_clause } => {
            assert(scalar_needs(e)[0] == relation_node(relation@));
            assert(rank(order, scalar_needs(e)[0]) < f);
            let (cs, rs) = (current_slot as nat, related_slot as nat);
            related_ends(cx, order, (f - 1) as nat, relation@, cs, rs, ent);
            if let Some(run) = related_run(cx, (f - 1) as nat, relation@, cs, rs, ent) {
                if let Ok(ids) = run.value {
                    count_ends(cx, order, f, e, ids, ids.len());
                }
            }
        },
        ScalarExpr::SumRelated { relation, current_slot, related_slot, .. } => {
            assert(scalar_needs(e)[0] == relation_node(relation@));
            assert(rank(order, scalar_needs(e)[0]) < f);
            let (cs, rs) = (current_slot as nat, related_slot as nat);
            related_ends(cx, order, (f - 1) as nat, relation@, cs, rs, ent);
            if let Some(run) = related_run(cx, (f - 1) as nat, relation@, cs, rs, ent) {
                if let Ok(ids) = run.value {
                    total_ends(cx, order, f, e, ids, ids.len());
                }
            }
        },
        ScalarExpr::If { condition, then_expr, else_expr } => {
            let (c, t, o) = (
                judgment_needs(*condition),
                scalar_needs(*then_expr),
                scalar_needs(*else_expr),
            );
            below_splits(order, c + t, o, f);
            below_splits(order, c, t, f);
            judgment_ends(cx, order, f, *condition, ent, context);
            scalar_ends(cx, order, f, *then_expr, ent, context);
            scalar_ends(cx, order, f, *else_expr, ent, context);
        },
        ScalarExpr::NoMatch { subject, .. } => scalar_ends(cx, order, f, *subject, ent, context),
        _ => {},
    }
}

proof fn sum_ends(
    cx: Facts,
    order: Ranking,
    f: nat,
    items: Seq<ScalarExpr>,
    n: nat,
    ent: Seq<char>,
    context: Option<RelationContext>,
)
    requires
        is_ranked(cx.program, order),
        f <= order.placed.len(),
        n <= items.len(),
        all_below(order, scalar_needss(items, n), f),
    ensures
        sum_run(cx, f, items, n, ent, context) is Some,
    decreases 2 * f, items, 0int, n,
{
    if n > 0 {
        below_splits(
            order,
            scalar_needss(items, (n - 1) as nat),
            scalar_needs(items[n - 1]),
            f,
        );
        sum_ends(cx, order, f, items, (n - 1) as nat, ent, context);
        scalar_ends(cx, order, f, items[n - 1], ent, context);
    }
}

proof fn extremum_ends(
    cx: Facts,
    order: Ranking,
    f: nat,
    items: Seq<ScalarExpr>,
    n: nat,
    largest: bool,
    ent: Seq<char>,
    context: Option<RelationContext>,
)
    requires
        is_ranked(cx.program, order),
        f <= order.placed.len(),
        0 < n <= items.len(),
        all_below(order, scalar_needss(items, n), f),
    ensures
        extremum_run(cx, f, items, n, largest, ent, context) is Some,
    decreases 2 * f, items, 0int, n,
{
    below_splits(order, scalar_needss(items, (n - 1) as nat), scalar_needs(items[n - 1]), f);
    scalar_ends(cx, order, f, items[n - 1], ent, context);
    if n > 1 {
        extremum_ends(cx, order, f, items, (n - 1) as nat, largest, ent, context);
    }
}

proof fn count_ends(
    cx: Facts,
    order: Ranking,
    f: nat,
    e: ScalarExpr,
    ids: Seq<Seq<char>>,
    n: nat,
)
    requires
        is_ranked(cx.program, order),
        f <= order.placed.len(),
        e is CountRelated,
        all_below(order, scalar_needs(e), f),
    ensures
        count_run(cx, f, e, ids, n) is Some,
    decreases 2 * f, e, 0int, n,
{
    if 0 < n <= ids.len() {
        count_ends(cx, order, f, e, ids, (n - 1) as nat);
        if let ScalarExpr::CountRelated { relation, where_clause: Some(w), .. } = e {
            below_splits(order, seq![relation_node(relation@)], judgment_needs(*w), f);
            judgment_ends(cx, order, f, *w, ids[n - 1], None);
        }
    }
}

proof fn total_ends(
    cx: Facts,
    order: Ranking,
    f: nat,
    e: ScalarExpr,
    ids: Seq<Seq<char>>,
    n: nat,
)
    requires
        is_ranked(cx.program, order),
        f <= order.placed.len(),
        e is SumRelated,
        all_below(order, scalar_needs(e), f),
    ensures
        total_run(cx, f, e, ids, n) is Some,
    decreases 2 * f, e, 0int, n,
{
    if 0 < n <= ids.len() {
        total_ends(cx, order, f, e, ids, (n - 1) as nat);
        if let ScalarExpr::SumRelated { relation, value, where_clause, .. } = e {
            let v = match value {
                RelatedValueRef::Derived(name) => seq![rule_node(name@)],
                _ => Seq::empty(),
            };
            let w = match where_clause {
                Some(w) => judgment_needs(*w),
                None => Seq::empty(),
            };
            below_splits(order, seq![relation_node(relation@)], v + w, f);
            below_splits(order, v, w, f);
            if let RelatedValueRef::Derived(name) = value {
                assert(rank(order, v[0]) < f);
                rule_ends(cx, order, (f - 1) as nat, name@, ids[n - 1]);
            }
            if let Some(w) = where_clause {
                judgment_ends(cx, order, f, *w, ids[n - 1], None);
            }
        }
    }
}

proof fn judgment_ends(
    cx: Facts,
    order: Ranking,
    f: nat,
    e: JudgmentExpr,
    ent: Seq<char>,
    context: Option<RelationContext>,
)
    requires
        is_ranked(cx.program, order),
        f <= order.placed.len(),
        all_below(order, judgment_needs(e), f),
    ensures
        judgment_run(cx, f, e, ent, context) is Some,
    decreases 2 * f, e, 1int, 0int,
{
    judgment_run_is_step(cx, f, e, ent, context);
    match e {
        JudgmentExpr::Comparison { left, op, right } => {
            below_splits(order, scalar_needs(left), scalar_needs(right), f);
            scalar_ends(cx, order, f, left, ent, context);
            scalar_ends(cx, order, f, right, ent, context);
        },
        JudgmentExpr::Derived(name) => {
            assert(rank(order, judgment_needs(e)[0]) < f);
            if let Some(d) = cx.program.rule(name@) {
                let target = entity_for(context, d.entity@, ent);
                rule_ends(cx, order, (f - 1) as nat, name@, target);
            }
        },
        JudgmentExpr::RelationMember { relation, current_slot, related_slot } => {
            assert(rank(order, judgment_needs(e)[0]) < f);
            if let Some(c) = context {
                related_ends(
                    cx,
                    order,
                    (f - 1) as nat,
                    relation@,
                    current_slot as nat,
                    related_slot as nat,
                    c.current_id,
                );
            }
        },
        JudgmentExpr::And(items) => connective_ends(
            cx,
            order,
            f,
            items@,
            0,
            JudgmentOutcome::NotHolds,
            false,
            ent,
            context,
        ),
        JudgmentExpr::Or(items) => connective_ends(
            cx,
            order,
            f,
            items@,
            0,
            JudgmentOutcome::Holds,
            false,
            ent,
            context,
        ),
        JudgmentExpr::Not(item) => judgment_ends(cx, order, f, *item, ent, context),
    }
}

proof fn item_below(
    order: Ranking,
    items: Seq<JudgmentExpr>,
    n: nat,
    bound: nat,
    i: int,
)
    requires
        0 <= i < n <= items.len(),
        all_below(order, judgment_needss(items, n), bound),
    ensures
        all_below(order, judgment_needs(items[i]), bound),
    decreases n,
{
    below_splits(
        order,
        judgment_needss(items, (n - 1) as nat),
        judgment_needs(items[n - 1]),
        bound,
    );
    if i < n - 1 {
        item_below(order, items, (n - 1) as nat, bound, i);
    }
}

proof fn connective_ends(
    cx: Facts,
    order: Ranking,
    f: nat,
    items: Seq<JudgmentExpr>,
    from: nat,
    decisive: JudgmentOutcome,
    undetermined: bool,
    ent: Seq<char>,
    context: Option<RelationContext>,
)
    requires
        is_ranked(cx.program, order),
        f <= order.placed.len(),
        all_below(order, judgment_needss(items, items.len()), f),
    ensures
        connective_run(cx, f, items, from, decisive, undetermined, ent, context) is Some,
    decreases 2 * f, items, 0int, items.len() - from,
{
    if from < items.len() {
        item_below(order, items, items.len(), f, from as int);
        judgment_ends(cx, order, f, items[from as int], ent, context);
        connective_ends(cx, order, f, items, from + 1, decisive, true, ent, context);
        connective_ends(cx, order, f, items, from + 1, decisive, undetermined, ent, context);
    }
}

proof fn members_end(
    cx: Facts,
    order: Ranking,
    f: nat,
    d: RelationDerivation,
    ent: Seq<char>,
    ids: Seq<Seq<char>>,
    n: nat,
)
    requires
        is_ranked(cx.program, order),
        f <= order.placed.len(),
        all_below(order, judgment_needs(d.predicate), f),
    ensures
        members_run(cx, f, d, ent, ids, n) is Some,
    decreases 2 * f + 1, cx, 0int, n,
{
    if 0 < n <= ids.len() {
        members_end(cx, order, f, d, ent, ids, (n - 1) as nat);
        judgment_ends(
            cx,
            order,
            f,
            d.predicate,
            ids[n - 1],
            Some(derivation_context(d, ent, ids[n - 1])),
        );
    }
}

proof fn related_ends(
    cx: Facts,
    order: Ranking,
    f: nat,
    relation: Seq<char>,
    current_slot: nat,
    related_slot: nat,
    ent: Seq<char>,
)
    requires
        is_ranked(cx.program, order),
        f <= order.placed.len(),
        rank(order, relation_node(relation)) <= f,
    ensures
        related_run(cx, f, relation, current_slot, related_slot, ent) is Some,
    decreases 2 * f + 1, cx, 1int, 0int,
{
    if let Some(schema) = cx.program.relation(relation) {
        assert(item_named(cx.program.relations@, relation) == Some(schema));
        if let Some(d) = schema.derivation {
            let (cs, rs) = (d.current_slot as nat, d.related_slot as nat);
            let source = d.source_relation@;
            let low = rank(order, relation_node(relation));
            let first = seq![relation_node(source)];
            below_splits(order, first, judgment_needs(d.predicate), low);
            assert(rank(order, first[0]) < low);
            weaker(order, judgment_needs(d.predicate), low, f);
            related_ends(cx, order, (f - 1) as nat, source, cs, rs, ent);
            if let Some(run) = related_run(cx, (f - 1) as nat, source, cs, rs, ent) {
                if let Ok(ids) = run.value {
                    members_end(cx, order, f, d, ent, ids, ids.len());
                }
            }
        }
    }
}

proof fn rule_nodes_meaning(rules: Seq<Derived>, n: nat)
    requires
        n <= rules.len(),
    ensures
        rule_nodes(rules, n).len() == rule_node_needs(rules, n).len(),
        rule_nodes(rules, n).no_duplicates(),
        forall|k: int| #![trigger rule_nodes(rules, n)[k]]
            0 <= k < rule_nodes(rules, n).len() ==> exists|i: int|
                0 <= i < n && rule_nodes(rules, n)[k] == rule_node((#[trigger] rules[i]).name@)
                    && position_of(rules, rules[i].name@) == Some(i as nat)
                    && rule_node_needs(rules, n)[k] == rule_needs(rules[i]),
        forall|i: int|
            0 <= i < n && position_of(rules, (#[trigger] rules[i]).name@) == Some(i as nat)
                ==> rule_nodes(rules, n).contains(rule_node(rules[i].name@)),
    decreases n,
{
    if n > 0 {
        rule_nodes_meaning(rules, (n - 1) as nat);
        let before = rule_nodes(rules, (n - 1) as nat);
        let after = rule_nodes(rules, n);
        let name = rules[n - 1].name@;
        if position_of(rules, name) == Some((n - 1) as nat) {
            assert(after == before.push(rule_node(name)));
            assert(!before.contains(rule_node(name))) by {
                if before.contains(rule_node(name)) {
                    let k = before.index_of(rule_node(name));
                    let i = choose|i: int|
                        0 <= i < n - 1 && before[k] == rule_node((#[trigger] rules[i]).name@)
                            && position_of(rules, rules[i].name@) == Some(i as nat)
                            && rule_node_needs(rules, (n - 1) as nat)[k] == rule_needs(rules[i]);
                    nodes_differ(rules[i].name@, name);
                }
            }
            assert forall|a: int, b: int| 0 <= a < after.len() && 0 <= b < after.len() && a
                != b implies after[a] != after[b] by {
                if a < before.len() {
                    assert(before.contains(before[a]));
                }
                if b < before.len() {
                    assert(before.contains(before[b]));
                }
            }
            assert forall|k: int| #![trigger after[k]] 0 <= k < after.len() implies exists|i: int|
                0 <= i < n && after[k] == rule_node((#[trigger] rules[i]).name@) && position_of(
                    rules,
                    rules[i].name@,
                ) == Some(i as nat) && rule_node_needs(rules, n)[k] == rule_needs(rules[i]) by {
                if k < before.len() {
                    assert(after[k] == before[k]);
                } else {
                    assert(after[k] == rule_node(rules[n - 1].name@));
                }
            }
        }
        assert forall|i: int|
            0 <= i < n && position_of(rules, (#[trigger] rules[i]).name@) == Some(
                i as nat,
            ) implies after.contains(rule_node(rules[i].name@)) by {
            if i < n - 1 {
                let k = before.index_of(rule_node(rules[i].name@));
                assert(after[k] == before[k]);
            } else {
                assert(after[before.len() as int] == rule_node(name));
            }
        }
    }
}

proof fn relation_nodes_meaning(relations: Seq<RelationSchema>, n: nat)
    requires
        n <= relations.len(),
    ensures
        relation_nodes(relations, n).len() == relation_node_needs(relations, n).len(),
        relation_nodes(relations, n).no_duplicates(),
        forall|k: int| #![trigger relation_nodes(relations, n)[k]]
            0 <= k < relation_nodes(relations, n).len() ==> exists|i: int|
                0 <= i < n
                    && relation_nodes(relations, n)[k] == relation_node(
                        (#[trigger] relations[i]).name@,
                    )
                    && position_of(relations, relations[i].name@) == Some(i as nat)
                    && relation_node_needs(relations, n)[k] == relation_needs(relations[i]),
        forall|i: int|
            0 <= i < n && position_of(relations, (#[trigger] relations[i]).name@) == Some(i as nat)
                ==> relation_nodes(relations, n).contains(relation_node(relations[i].name@)),
    decreases n,
{
    if n > 0 {
        relation_nodes_meaning(relations, (n - 1) as nat);
        let before = relation_nodes(relations, (n - 1) as nat);
        let after = relation_nodes(relations, n);
        let name = relations[n - 1].name@;
        if position_of(relations, name) == Some((n - 1) as nat) {
            assert(after == before.push(relation_node(name)));
            assert(!before.contains(relation_node(name))) by {
                if before.contains(relation_node(name)) {
                    let k = before.index_of(relation_node(name));
                    let i = choose|i: int|
                        0 <= i < n - 1
                            && before[k] == relation_node((#[trigger] relations[i]).name@)
                            && position_of(relations, relations[i].name@) == Some(i as nat)
                            && relation_node_needs(relations, (n - 1) as nat)[k] == relation_needs(relations[i]);
                    nodes_differ(relations[i].name@, name);
                }
            }
            assert forall|a: int, b: int| 0 <= a < after.len() && 0 <= b < after.len() && a
                != b implies after[a] != after[b] by {
                if a < before.len() {
                    assert(before.contains(before[a]));
                }
                if b < before.len() {
                    assert(before.contains(before[b]));
                }
            }
            assert forall|k: int| #![trigger after[k]] 0 <= k < after.len() implies exists|i: int|
                0 <= i < n
                    && after[k] == relation_node((#[trigger] relations[i]).name@)
                    && position_of(
                    relations,
                    relations[i].name@,
                ) == Some(i as nat)
                    && relation_node_needs(relations, n)[k] == relation_needs(relations[i]) by {
                if k < before.len() {
                    assert(after[k] == before[k]);
                } else {
                    assert(after[k] == relation_node(relations[n - 1].name@));
                }
            }
        }
        assert forall|i: int|
            0 <= i < n && position_of(relations, (#[trigger] relations[i]).name@) == Some(
                i as nat,
            ) implies after.contains(relation_node(relations[i].name@)) by {
            if i < n - 1 {
                let k = before.index_of(relation_node(relations[i].name@));
                assert(after[k] == before[k]);
            } else {
                assert(after[before.len() as int] == relation_node(name));
            }
        }
    }
}

/// A schedule ranks every rule and relation in it above what that refers to.
proof fn schedule_ranks(p: Program, order: Seq<Seq<char>>)
    requires
        is_schedule(program_nodes(p), program_needs(p), order),
    ensures
        is_ranked(p, Ranking { placed: order, nodes: program_nodes(p) }),
{
    let nodes = program_nodes(p);
    let edges = program_needs(p);
    let ranking = Ranking { placed: order, nodes };
    let (rules, relations) = (p.derived@, p.relations@);
    rule_nodes_meaning(rules, rules.len());
    relation_nodes_meaning(relations, relations.len());
    needs_come_first(nodes, edges, order);
    nodes_distinct(p);
    let (a, b) = (rule_nodes(rules, rules.len()), relation_nodes(relations, relations.len()));
    assert forall|name: Seq<char>| #[trigger]
        item_named(rules, name) matches Some(d) implies rank(ranking, rule_node(name)) > 0
        && (rank(ranking, rule_node(name)) <= order.len() ==> all_below(
        ranking,
        rule_needs(item_named(rules, name)->Some_0),
        rank(ranking, rule_node(name)),
    )) by {
        position_from_meaning(rules, name, 0);
        let i = position_of(rules, name)->Some_0 as int;
        assert(rules[i].name@ == name);
        let k = a.index_of(rule_node(name));
        assert(a.contains(rule_node(name)));
        assert(a[k] == rule_node(name));
        let j = choose|j: int|
            0 <= j < rules.len() && a[k] == rule_node((#[trigger] rules[j]).name@) && position_of(
                rules,
                rules[j].name@,
            ) == Some(j as nat) && rule_node_needs(rules, rules.len())[k] == rule_needs(rules[j]);
        nodes_differ(rules[j].name@, name);
        assert(nodes[k] == rule_node(name));
        assert(edges[k] == rule_needs(rules[i]));
        node_above(nodes, edges, order, k);
    }
    assert forall|name: Seq<char>| #[trigger]
        item_named(relations, name) matches Some(d) implies rank(ranking, relation_node(name)) > 0
        && (rank(ranking, relation_node(name)) <= order.len() ==> all_below(
        ranking,
        relation_needs(item_named(relations, name)->Some_0),
        rank(ranking, relation_node(name)),
    )) by {
        position_from_meaning(relations, name, 0);
        let i = position_of(relations, name)->Some_0 as int;
        assert(relations[i].name@ == name);
        let k = b.index_of(relation_node(name));
        assert(b.contains(relation_node(name)));
        assert(b[k] == relation_node(name));
        let j = choose|j: int|
            0 <= j < relations.len() && b[k] == relation_node((#[trigger] relations[j]).name@)
                && position_of(relations, relations[j].name@) == Some(j as nat)
                && relation_node_needs(relations, relations.len())[k] == relation_needs(
                relations[j],
            );
        nodes_differ(relations[j].name@, name);
        let at = a.len() + k;
        assert(nodes[at] == relation_node(name));
        assert(edges[at] == relation_needs(relations[i]));
        node_above(nodes, edges, order, at);
    }
}

proof fn node_above(
    nodes: Seq<Seq<char>>,
    edges: Seq<Seq<Seq<char>>>,
    order: Seq<Seq<char>>,
    k: int,
)
    requires
        nodes.no_duplicates(),
        is_schedule(nodes, edges, order),
        0 <= k < nodes.len(),
    ensures
        ({
            let ranking = Ranking { placed: order, nodes };
            &&& rank(ranking, nodes[k]) > 0
            &&& rank(ranking, nodes[k]) <= order.len() ==> all_below(
                ranking,
                edges[k],
                rank(ranking, nodes[k]),
            )
        }),
{
    let ranking = Ranking { placed: order, nodes };
    assert(nodes.contains(nodes[k]));
    if rank(ranking, nodes[k]) <= order.len() {
        assert forall|x: int| 0 <= x < edges[k].len() implies rank(
            ranking,
            #[trigger] edges[k][x],
        ) < rank(ranking, nodes[k]) by {
            let need = edges[k][x];
            assert(edges[k].contains(need));
            if nodes.contains(need) {
                crate::schedule::earlier(nodes, edges, order, k, need);
            } else {
                crate::schedule::scheduled_are_nodes(nodes, edges, order);
                assert(!order.contains(need));
            }
        }
    }
}

proof fn nodes_distinct(p: Program)
    ensures
        program_nodes(p).no_duplicates(),
        program_nodes(p).len() == program_needs(p).len(),
{
    let (rules, relations) = (p.derived@, p.relations@);
    rule_nodes_meaning(rules, rules.len());
    relation_nodes_meaning(relations, relations.len());
    let (a, b) = (rule_nodes(rules, rules.len()), relation_nodes(relations, relations.len()));
    let nodes = program_nodes(p);
    assert forall|x: int, y: int| 0 <= x < a.len() && 0 <= y < b.len() implies #[trigger] a[x]
        != #[trigger] b[y] by {
        let i = choose|i: int|
            0 <= i < rules.len() && a[x] == rule_node((#[trigger] rules[i]).name@) && position_of(
                rules,
                rules[i].name@,
            ) == Some(i as nat) && rule_node_needs(rules, rules.len())[x] == rule_needs(rules[i]);
        let j = choose|j: int|
            0 <= j < relations.len() && b[y] == relation_node((#[trigger] relations[j]).name@)
                && position_of(relations, relations[j].name@) == Some(j as nat)
                && relation_node_needs(relations, relations.len())[y] == relation_needs(
                relations[j],
            );
        nodes_differ(rules[i].name@, relations[j].name@);
    }
    assert forall|x: int, y: int| 0 <= x < nodes.len()
        && 0 <= y < nodes.len()
        && x != y implies nodes[x]
        != nodes[y] by {
        if x < a.len() && y < a.len() {
            assert(a[x] != a[y]);
        } else if x >= a.len() && y >= a.len() {
            assert(b[x - a.len()] != b[y - a.len()]);
        } else if x < a.len() {
            assert(a[x] != b[y - a.len()]);
        } else {
            assert(a[y] != b[x - a.len()]);
        }
    }
}

/// Where references end, every rule has a value or an error, and so has every judgment:
/// for every entity, period and set of facts.
pub proof fn ending_references_give_values(cx: Facts, name: Seq<char>, ent: Seq<char>)
    requires
        references_end(cx.program),
    ensures
        scalar_terminates(cx, name, ent),
        judgment_terminates(cx, name, ent),
{
    let p = cx.program;
    let order = choose|order: Seq<Seq<char>>| #[trigger]
        is_schedule(program_nodes(p), program_needs(p), order) && covers(program_nodes(p), order);
    assert(is_stuck(program_nodes(p), program_needs(p), order));
    if item_named(p.derived@, name) is Some {
        rule_is_node(p, name);
    }
    ending_rule_gives_values(cx, name, ent);
}

/// A rule has a node.
proof fn rule_is_node(p: Program, name: Seq<char>)
    requires
        item_named(p.derived@, name) is Some,
    ensures
        program_nodes(p).contains(rule_node(name)),
{
    let rules = p.derived@;
    rule_nodes_meaning(rules, rules.len());
    position_from_meaning(rules, name, 0);
    let a = rule_nodes(rules, rules.len());
    let k = a.index_of(rule_node(name));
    assert(rules[position_of(rules, name)->Some_0 as int].name@ == name);
    assert(a.contains(rule_node(name)));
    assert(program_nodes(p)[k] == rule_node(name));
}

/// A rule whose references end has a value or fails, for every entity, period and set of facts,
/// whatever circles other rules run in.
pub proof fn ending_rule_gives_values(cx: Facts, name: Seq<char>, ent: Seq<char>)
    requires
        rule_references_end(cx.program, name),
    ensures
        scalar_terminates(cx, name, ent),
        judgment_terminates(cx, name, ent),
{
    let p = cx.program;
    let order = choose|order: Seq<Seq<char>>| #[trigger]
        is_schedule(program_nodes(p), program_needs(p), order) && is_stuck(
            program_nodes(p),
            program_needs(p),
            order,
        ) && (item_named(p.derived@, name) is Some ==> order.contains(rule_node(name)));
    schedule_ranks(p, order);
    let ranking = Ranking { placed: order, nodes: program_nodes(p) };
    if item_named(p.derived@, name) is Some {
        let f = rank(ranking, rule_node(name));
        rule_ends(cx, ranking, f, name, ent);
        assert(rule_scalar(cx, f, name, ent) is Some);
        assert(rule_judgment(cx, f, name, ent) is Some);
    } else {
        assert(rule_scalar(cx, 0, name, ent) is Some);
        assert(rule_judgment(cx, 0, name, ent) is Some);
    }
}

fn collect_formula_needs(semantics: &DerivedSemantics, out: &mut Vec<String>)
    ensures
        texts(final(out)@) == texts(old(out)@) + formula_needs(*semantics),
{
    match semantics {
        DerivedSemantics::Scalar(e) => collect_scalar_needs(e, out),
        DerivedSemantics::Judgment(e) => collect_judgment_needs(e, out),
    }
}

fn needs_of_rule(derived: &Derived) -> (r: Vec<String>)
    ensures
        texts(r@) == rule_needs(*derived),
{
    let mut out: Vec<String> = Vec::new();
    assert(texts(out@) =~= Seq::empty());
    collect_formula_needs(&derived.semantics, &mut out);
    let ghost first = formula_needs(derived.semantics);
    let versions = &derived.versions;
    let mut i: usize = 0;
    assert(texts(out@) =~= first + versions_needs(versions@, 0));
    while i < versions.len()
        invariant
            i <= versions@.len(),
            texts(out@) == first + versions_needs(versions@, i as nat),
        decreases versions@.len() - i,
    {
        collect_formula_needs(&versions[i].semantics, &mut out);
        assert(texts(out@) =~= first + versions_needs(versions@, (i + 1) as nat));
        i = i + 1;
    }
    out
}

fn needs_of_relation(schema: &RelationSchema) -> (r: Vec<String>)
    ensures
        texts(r@) == relation_needs(*schema),
{
    let mut out: Vec<String> = Vec::new();
    assert(texts(out@) =~= Seq::empty());
    if let Some(d) = &schema.derivation {
        push_relation_node(d.source_relation.as_str(), &mut out);
        collect_judgment_needs(&d.predicate, &mut out);
        assert(texts(out@) =~= relation_needs(*schema));
    }
    out
}

/// The rules and relations of a program, and those of them whose references end, each after
/// those that it refers to.
fn scheduled(program: &Program) -> (r: (Vec<String>, Vec<String>))
    ensures
        texts(r.0@) == program_nodes(*program),
        is_schedule(program_nodes(*program), program_needs(*program), texts(r.1@)),
        is_stuck(program_nodes(*program), program_needs(*program), texts(r.1@)),
{
    let mut nodes: Vec<String> = Vec::new();
    let mut edges: Vec<Vec<String>> = Vec::new();
    let rules = &program.derived;
    let relations = &program.relations;
    let mut i: usize = 0;
    proof {
        assert(texts(nodes@) =~= rule_nodes(rules@, 0));
        assert(text_lists(edges@) =~= rule_node_needs(rules@, 0));
    }
    while i < rules.len()
        invariant
            i <= rules@.len(),
            texts(nodes@) == rule_nodes(rules@, i as nat),
            text_lists(edges@) == rule_node_needs(rules@, i as nat),
        decreases rules@.len() - i,
    {
        if let Some(at) = find_index(rules, rules[i].name.as_str()) {
            if at == i {
                let ghost (before, needs) = (texts(nodes@), text_lists(edges@));
                push_rule_node(rules[i].name.as_str(), &mut nodes);
                edges.push(needs_of_rule(&rules[i]));
                assert(texts(nodes@) =~= before.push(rule_node(rules@[i as int].name@)));
                assert(text_lists(edges@) =~= needs.push(rule_needs(rules@[i as int])));
            }
        }
        i = i + 1;
    }
    let ghost (first, first_needs) = (texts(nodes@), text_lists(edges@));
    let mut i: usize = 0;
    proof {
        assert(first =~= first + relation_nodes(relations@, 0));
        assert(first_needs =~= first_needs + relation_node_needs(relations@, 0));
    }
    while i < relations.len()
        invariant
            i <= relations@.len(),
            texts(nodes@) == first + relation_nodes(relations@, i as nat),
            text_lists(edges@) == first_needs + relation_node_needs(relations@, i as nat),
        decreases relations@.len() - i,
    {
        if let Some(at) = find_index(relations, relations[i].name.as_str()) {
            if at == i {
                let ghost (before, needs) = (texts(nodes@), text_lists(edges@));
                push_relation_node(relations[i].name.as_str(), &mut nodes);
                edges.push(needs_of_relation(&relations[i]));
                proof {
                    assert(texts(nodes@) =~= before.push(
                        relation_node(relations@[i as int].name@),
                    ));
                    assert(text_lists(edges@) =~= needs.push(
                        relation_needs(relations@[i as int]),
                    ));
                    assert(texts(nodes@) =~= first + relation_nodes(
                        relations@,
                        (i + 1) as nat,
                    ));
                    assert(text_lists(edges@) =~= first_needs + relation_node_needs(
                        relations@,
                        (i + 1) as nat,
                    ));
                }
            }
        }
        i = i + 1;
    }
    proof {
        nodes_distinct(*program);
        assert(nodes@.len() == texts(nodes@).len());
        assert(edges@.len() == text_lists(edges@).len());
    }
    let order = schedule(&nodes, &edges);
    (nodes, order)
}

/// Whether the references of a program do not run in a circle.
pub fn check_references_end(program: &Program) -> (r: bool)
    ensures
        r == references_end(*program),
{
    let (nodes, order) = scheduled(program);
    let ghost (ns, es) = (program_nodes(*program), program_needs(*program));
    match first_left(&nodes, &order) {
        None => true,
        Some(left) => {
            proof {
                if references_end(*program) {
                    let other = choose|other: Seq<Seq<char>>| #[trigger]
                        is_schedule(ns, es, other) && covers(ns, other);
                    assert forall|i: int| !#[trigger] is_open(ns, es, other, i) by {}
                    schedule_is_unique(ns, es, other, texts(order@));
                    assert(texts(nodes@)[left as int] == nodes@[left as int]@);
                }
            }
            false
        },
    }
}

/// Whether the references of the named rules do not run in a circle.
pub fn check_rules_end(program: &Program, names: &Vec<String>) -> (r: bool)
    ensures
        r == forall|i: int|
            0 <= i < names@.len() ==> rule_references_end(*program, #[trigger] texts(names@)[i]),
{
    let (_, order) = scheduled(program);
    let ghost (ns, es) = (program_nodes(*program), program_needs(*program));
    let mut i: usize = 0;
    while i < names.len()
        invariant
            i <= names@.len(),
            ns == program_nodes(*program),
            es == program_needs(*program),
            is_schedule(ns, es, texts(order@)),
            is_stuck(ns, es, texts(order@)),
            forall|j: int|
                0 <= j < i ==> rule_references_end(*program, #[trigger] texts(names@)[j]),
        decreases names@.len() - i,
    {
        let mut node: Vec<String> = Vec::new();
        push_rule_node(names[i].as_str(), &mut node);
        assert(texts(node@)[0] == node@[0]@);
        assert(texts(names@)[i as int] == names@[i as int]@);
        if find_index(&program.derived, names[i].as_str()).is_some() && !holds_text(
            &order,
            node[0].as_str(),
        ) {
            proof {
                let name = texts(names@)[i as int];
                if rule_references_end(*program, name) {
                    let other = choose|other: Seq<Seq<char>>| #[trigger]
                        is_schedule(ns, es, other) && is_stuck(ns, es, other) && (item_named(
                            program.derived@,
                            name,
                        ) is Some ==> other.contains(rule_node(name)));
                    schedule_is_unique(ns, es, other, texts(order@));
                }
            }
            return false;
        }
        i = i + 1;
    }
    true
}

} // verus!
