//! What rules depend on, and what keeps them from the bulk strategy.
use crate::model::{
    find_named, item_named, Derived, DerivedSemantics, DerivedVersion, JudgmentExpr, Program,
    RelatedValueRef, ScalarExpr,
};
use crate::relation_typing::push_text;
use crate::text::{owned, texts};
use vstd::prelude::*;
use vstd::string::*;

verus! {

/// One where predicates of derived relations are entered, which happens without another
/// level.
pub open spec fn weight(follow: bool) -> nat {
    if follow {
        1
    } else {
        0
    }
}

/// The predicate of a derived relation.
pub open spec fn filter_of(p: Program, relation: Seq<char>) -> Option<JudgmentExpr> {
    match item_named(p.relations@, relation) {
        Some(schema) => match schema.derivation {
            Some(d) => Some(d.predicate),
            None => None,
        },
        None => None,
    }
}

fn find_filter<'a>(program: &'a Program, relation: &str) -> (r: Option<&'a JudgmentExpr>)
    ensures
        filter_of(*program, relation@) == match r {
            Some(predicate) => Some(*predicate),
            None => None,
        },
{
    match find_named(&program.relations, relation) {
        Some(schema) => match &schema.derivation {
            Some(d) => Some(&d.predicate),
            None => None,
        },
        None => None,
    }
}

/// The rules that a formula depends on. With `follow`, an aggregation over a derived
/// relation also depends on the rules of that relation's predicate.
pub open spec fn scalar_dependencies(e: ScalarExpr, p: Program, follow: bool) -> Seq<Seq<char>>
    decreases weight(follow), e, 1int, 0nat,
{
    match e {
        ScalarExpr::Literal(_) => Seq::empty(),
        ScalarExpr::PeriodStart => Seq::empty(),
        ScalarExpr::PeriodEnd => Seq::empty(),
        ScalarExpr::Input(_) => Seq::empty(),
        ScalarExpr::InputOrElse { .. } => Seq::empty(),
        ScalarExpr::Derived(name) => seq![name@],
        ScalarExpr::ParameterLookup { index, .. } => scalar_dependencies(*index, p, follow),
        ScalarExpr::Add(items) => scalar_dependenciess(items@, items@.len(), p, follow),
        ScalarExpr::Max(items) => scalar_dependenciess(items@, items@.len(), p, follow),
        ScalarExpr::Min(items) => scalar_dependenciess(items@, items@.len(), p, follow),
        ScalarExpr::Sub(a, b) => scalar_dependencies(*a, p, follow) + scalar_dependencies(*b, p, follow),
        ScalarExpr::Mul(a, b) => scalar_dependencies(*a, p, follow) + scalar_dependencies(*b, p, follow),
        ScalarExpr::Div(a, b) => scalar_dependencies(*a, p, follow) + scalar_dependencies(*b, p, follow),
        ScalarExpr::Ceil(a) => scalar_dependencies(*a, p, follow),
        ScalarExpr::Floor(a) => scalar_dependencies(*a, p, follow),
        ScalarExpr::DateAddDays { date, days } => scalar_dependencies(*date, p, follow) + scalar_dependencies(*days, p, follow),
        ScalarExpr::DateAddMonths { date, months } => scalar_dependencies(*date, p, follow) + scalar_dependencies(*months, p, follow),
        ScalarExpr::DateAddYears { date, years } => scalar_dependencies(*date, p, follow) + scalar_dependencies(*years, p, follow),
        ScalarExpr::DaysBetween { from, to } => scalar_dependencies(*from, p, follow) + scalar_dependencies(*to, p, follow),
        ScalarExpr::CountRelated { relation, where_clause, .. } => (if follow {
            match filter_of(p, relation@) {
                Some(predicate) => judgment_dependencies(predicate, p, false),
                None => Seq::empty(),
            }
        } else {
            Seq::empty()
        }) + (match where_clause {
            Some(w) => judgment_dependencies(*w, p, follow),
            None => Seq::empty(),
        }),
        ScalarExpr::SumRelated { relation, value, where_clause, .. } => (if follow {
            match filter_of(p, relation@) {
                Some(predicate) => judgment_dependencies(predicate, p, false),
                None => Seq::empty(),
            }
        } else {
            Seq::empty()
        }) + ((match value {
            RelatedValueRef::Derived(name) => seq![name@],
            _ => Seq::empty(),
        }) + match where_clause {
            Some(w) => judgment_dependencies(*w, p, follow),
            None => Seq::empty(),
        }),
        ScalarExpr::If { condition, then_expr, else_expr } => judgment_dependencies(*condition, p, follow) + scalar_dependencies(
            *then_expr, p, follow) + scalar_dependencies(*else_expr, p, follow),
        ScalarExpr::NoMatch { subject, .. } => scalar_dependencies(*subject, p, follow),
        ScalarExpr::OverPeriods { value, n, .. } => scalar_dependencies(*value, p, follow) + match n {
            Some(n) => scalar_dependencies(*n, p, follow),
            None => Seq::empty(),
        },
    }
}

pub open spec fn scalar_dependenciess(items: Seq<ScalarExpr>, n: nat, p: Program, follow: bool) -> Seq<Seq<char>>
    decreases weight(follow), items, 0int, n,
{
    if n == 0 || n > items.len() {
        Seq::empty()
    } else {
        scalar_dependenciess(items, (n - 1) as nat, p, follow) + scalar_dependencies(items[n - 1], p, follow)
    }
}

/// The rules that a judgment depends on.
pub open spec fn judgment_dependencies(e: JudgmentExpr, p: Program, follow: bool) -> Seq<Seq<char>>
    decreases weight(follow), e, 1int, 0nat,
{
    match e {
        JudgmentExpr::Comparison { left, right, .. } => scalar_dependencies(left, p, follow) + scalar_dependencies(right, p, follow),
        JudgmentExpr::Derived(name) => seq![name@],
        JudgmentExpr::RelationMember { .. } => Seq::empty(),
        JudgmentExpr::And(items) => judgment_dependenciess(items@, items@.len(), p, follow),
        JudgmentExpr::Or(items) => judgment_dependenciess(items@, items@.len(), p, follow),
        JudgmentExpr::Not(item) => judgment_dependencies(*item, p, follow),
    }
}

pub open spec fn judgment_dependenciess(items: Seq<JudgmentExpr>, n: nat, p: Program, follow: bool) -> Seq<Seq<char>>
    decreases weight(follow), items, 0int, n,
{
    if n == 0 || n > items.len() {
        Seq::empty()
    } else {
        judgment_dependenciess(items, (n - 1) as nat, p, follow) + judgment_dependencies(items[n - 1], p, follow)
    }
}

fn collect_scalar_dependencies_two(
    a: &ScalarExpr,
    b: &ScalarExpr,
    program: &Program,
    follow: bool,
    out: &mut Vec<String>,
    Ghost(whole): Ghost<ScalarExpr>,
)
    requires
        decreases_to!(whole => *a),
        decreases_to!(whole => *b),
    ensures
        texts(final(out)@) == texts(old(out)@) + (scalar_dependencies(*a, *program, follow) + scalar_dependencies(*b, *program, follow)),
    decreases weight(follow), whole, 0int,
{
    let ghost before = texts(out@);
    collect_scalar_dependencies(a, program, follow, out);
    collect_scalar_dependencies(b, program, follow, out);
    assert(texts(out@) =~= before + (scalar_dependencies(*a, *program, follow) + scalar_dependencies(*b, *program, follow)));
}

fn collect_scalar_dependencies_items(items: &Vec<ScalarExpr>,
    program: &Program,
    follow: bool,
    out: &mut Vec<String>,
)
    ensures
        texts(final(out)@) == texts(old(out)@) + scalar_dependenciess(items@, items@.len(), *program, follow),
    decreases weight(follow), items@, 0int,
{
    let ghost before = texts(out@);
    let mut i: usize = 0;
    assert(texts(out@) =~= before + scalar_dependenciess(items@, 0, *program, follow));
    while i < items.len()
        invariant
            i <= items@.len(),
            texts(out@) == before + scalar_dependenciess(items@, i as nat, *program, follow),
        decreases items@.len() - i,
    {
        collect_scalar_dependencies(&items[i], program, follow, out);
        assert(texts(out@) =~= before + scalar_dependenciess(items@, (i + 1) as nat, *program, follow));
        i = i + 1;
    }
}

/// Adds the rules that a formula depends on.
pub(crate) fn collect_scalar_dependencies(expr: &ScalarExpr,
    program: &Program,
    follow: bool,
    out: &mut Vec<String>,
)
    ensures
        texts(final(out)@) == texts(old(out)@) + scalar_dependencies(*expr, *program, follow),
    decreases weight(follow), *expr, 1int,
{
    let ghost before = texts(out@);
    match expr {
        ScalarExpr::Literal(_) | ScalarExpr::PeriodStart | ScalarExpr::PeriodEnd => {
            assert(before + Seq::<Seq<char>>::empty() =~= before);
        },
        ScalarExpr::Input(_) => {
            assert(before + Seq::<Seq<char>>::empty() =~= before);
        },
        ScalarExpr::InputOrElse { .. } => {
            assert(before + Seq::<Seq<char>>::empty() =~= before);
        },
        ScalarExpr::Derived(name) => {
            push_text(name.as_str(), out);
        },
        ScalarExpr::ParameterLookup { index, .. } => collect_scalar_dependencies(index, program, follow, out),
        ScalarExpr::Add(items) => collect_scalar_dependencies_items(items, program, follow, out),
        ScalarExpr::Max(items) => collect_scalar_dependencies_items(items, program, follow, out),
        ScalarExpr::Min(items) => collect_scalar_dependencies_items(items, program, follow, out),
        ScalarExpr::Sub(a, b) => collect_scalar_dependencies_two(a, b, program, follow, out, Ghost(*expr)),
        ScalarExpr::Mul(a, b) => collect_scalar_dependencies_two(a, b, program, follow, out, Ghost(*expr)),
        ScalarExpr::Div(a, b) => collect_scalar_dependencies_two(a, b, program, follow, out, Ghost(*expr)),
        ScalarExpr::Ceil(a) => collect_scalar_dependencies(a, program, follow, out),
        ScalarExpr::Floor(a) => collect_scalar_dependencies(a, program, follow, out),
        ScalarExpr::DateAddDays { date, days } => collect_scalar_dependencies_two(date, days, program, follow, out, Ghost(*expr)),
        ScalarExpr::DateAddMonths { date, months } => collect_scalar_dependencies_two(date, months, program, follow, out, Ghost(*expr)),
        ScalarExpr::DateAddYears { date, years } => collect_scalar_dependencies_two(date, years, program, follow, out, Ghost(*expr)),
        ScalarExpr::DaysBetween { from, to } => collect_scalar_dependencies_two(from, to, program, follow, out, Ghost(*expr)),
        ScalarExpr::CountRelated { relation, where_clause, .. } => {
            if follow {
                if let Some(predicate) = find_filter(program, relation.as_str()) {
                    collect_judgment_dependencies(predicate, program, false, out);
                }
            }
            if let Some(w) = where_clause {
                collect_judgment_dependencies(w, program, follow, out);
            }
            assert(texts(out@) =~= before + scalar_dependencies(*expr, *program, follow));
        },
        ScalarExpr::SumRelated { relation, value, where_clause, .. } => {
            if follow {
                if let Some(predicate) = find_filter(program, relation.as_str()) {
                    collect_judgment_dependencies(predicate, program, false, out);
                }
            }
            if let RelatedValueRef::Derived(name) = value {
                push_text(name.as_str(), out);
            }
            if let Some(w) = where_clause {
                collect_judgment_dependencies(w, program, follow, out);
            }
            assert(texts(out@) =~= before + scalar_dependencies(*expr, *program, follow));
        },
        ScalarExpr::If { condition, then_expr, else_expr } => {
            collect_judgment_dependencies(condition, program, follow, out);
            collect_scalar_dependencies(then_expr, program, follow, out);
            collect_scalar_dependencies(else_expr, program, follow, out);
            assert(texts(out@) =~= before + scalar_dependencies(*expr, *program, follow));
        },
        ScalarExpr::NoMatch { subject, .. } => collect_scalar_dependencies(subject, program, follow, out),
        ScalarExpr::OverPeriods { value, n, .. } => {
            collect_scalar_dependencies(value, program, follow, out);
            if let Some(n) = n {
                collect_scalar_dependencies(n, program, follow, out);
            }
            assert(texts(out@) =~= before + scalar_dependencies(*expr, *program, follow));
        },
    }
}

fn collect_judgment_dependencies_items(items: &Vec<JudgmentExpr>,
    program: &Program,
    follow: bool,
    out: &mut Vec<String>,
)
    ensures
        texts(final(out)@) == texts(old(out)@) + judgment_dependenciess(items@, items@.len(), *program, follow),
    decreases weight(follow), items@, 0int,
{
    let ghost before = texts(out@);
    let mut i: usize = 0;
    assert(texts(out@) =~= before + judgment_dependenciess(items@, 0, *program, follow));
    while i < items.len()
        invariant
            i <= items@.len(),
            texts(out@) == before + judgment_dependenciess(items@, i as nat, *program, follow),
        decreases items@.len() - i,
    {
        collect_judgment_dependencies(&items[i], program, follow, out);
        assert(texts(out@) =~= before + judgment_dependenciess(items@, (i + 1) as nat, *program, follow));
        i = i + 1;
    }
}

/// Adds the rules that a judgment depends on.
pub(crate) fn collect_judgment_dependencies(expr: &JudgmentExpr,
    program: &Program,
    follow: bool,
    out: &mut Vec<String>,
)
    ensures
        texts(final(out)@) == texts(old(out)@) + judgment_dependencies(*expr, *program, follow),
    decreases weight(follow), *expr, 1int,
{
    let ghost before = texts(out@);
    match expr {
        JudgmentExpr::Comparison { left, right, .. } => {
            collect_scalar_dependencies(left, program, follow, out);
            collect_scalar_dependencies(right, program, follow, out);
            assert(texts(out@) =~= before + judgment_dependencies(*expr, *program, follow));
        },
        JudgmentExpr::Derived(name) => push_text(name.as_str(), out),
        JudgmentExpr::RelationMember { .. } => {
            assert(before + Seq::<Seq<char>>::empty() =~= before);
        },
        JudgmentExpr::And(items) => collect_judgment_dependencies_items(items, program, follow, out),
        JudgmentExpr::Or(items) => collect_judgment_dependencies_items(items, program, follow, out),
        JudgmentExpr::Not(item) => collect_judgment_dependencies(item, program, follow, out),
    }
}

/// The rules that a formula depends on.
pub open spec fn formula_dependencies(s: DerivedSemantics, p: Program) -> Seq<Seq<char>> {
    match s {
        DerivedSemantics::Scalar(e) => scalar_dependencies(e, p, true),
        DerivedSemantics::Judgment(e) => judgment_dependencies(e, p, true),
    }
}

pub open spec fn versions_dependencies(versions: Seq<DerivedVersion>, n: nat, p: Program) -> Seq<Seq<char>>
    decreases n,
{
    if n == 0 || n > versions.len() {
        Seq::empty()
    } else {
        versions_dependencies(versions, (n - 1) as nat, p) + formula_dependencies(
            versions[n - 1].semantics,
            p,
        )
    }
}

fn collect_formula_dependencies(semantics: &DerivedSemantics, program: &Program, out: &mut Vec<String>)
    ensures
        texts(final(out)@) == texts(old(out)@) + formula_dependencies(*semantics, *program),
{
    match semantics {
        DerivedSemantics::Scalar(e) => collect_scalar_dependencies(e, program, true, out),
        DerivedSemantics::Judgment(e) => collect_judgment_dependencies(e, program, true, out),
    }
}

fn collect_versions_dependencies(versions: &Vec<DerivedVersion>, program: &Program, out: &mut Vec<String>)
    ensures
        texts(final(out)@) == texts(old(out)@) + versions_dependencies(versions@, versions@.len(), *program),
{
    let ghost before = texts(out@);
    let mut i: usize = 0;
    assert(texts(out@) =~= before + versions_dependencies(versions@, 0, *program));
    while i < versions.len()
        invariant
            i <= versions@.len(),
            texts(out@) == before + versions_dependencies(versions@, i as nat, *program),
        decreases versions@.len() - i,
    {
        collect_formula_dependencies(&versions[i].semantics, program, out);
        assert(texts(out@) =~= before + versions_dependencies(versions@, (i + 1) as nat, *program));
        i = i + 1;
    }
}

/// The rules that a rule depends on: by its own formula, and by those of its versions.
pub open spec fn rule_dependencies(d: Derived, p: Program) -> Seq<Seq<char>> {
    formula_dependencies(d.semantics, p) + versions_dependencies(d.versions@, d.versions@.len(), p)
}

/// The rules that a rule depends on.
pub fn derived_dependencies(derived: &Derived, program: &Program) -> (r: Vec<String>)
    ensures
        texts(r@) == rule_dependencies(*derived, *program),
{
    let mut out: Vec<String> = Vec::new();
    assert(texts(out@) =~= Seq::empty());
    collect_formula_dependencies(&derived.semantics, program, &mut out);
    let ghost first = formula_dependencies(derived.semantics, *program);
    assert(texts(out@) =~= first);
    collect_versions_dependencies(&derived.versions, program, &mut out);
    assert(texts(out@) =~= rule_dependencies(*derived, *program));
    out
}

/// The text of a blocker: what of a rule the bulk strategy does not support.
pub open spec fn unsupported(rule: Seq<char>, what: Seq<char>) -> Seq<char> {
    rule + ": bulk fast mode does not yet support "@ + what
        + "; explain mode and the generic dense path do"@
}

fn push_unsupported(rule: &str, what: &str, out: &mut Vec<String>)
    ensures
        texts(final(out)@) == texts(old(out)@) + seq![unsupported(rule@, what@)],
{
    let mut text = owned(rule);
    text.append(": bulk fast mode does not yet support ");
    text.append(what);
    text.append("; explain mode and the generic dense path do");
    push_text(text.as_str(), out);
}

/// What keeps a formula from the bulk strategy.
pub open spec fn scalar_blockers(e: ScalarExpr, rule: Seq<char>) -> Seq<Seq<char>>
    decreases e, 1int, 0nat,
{
    match e {
        ScalarExpr::Literal(_) => Seq::empty(),
        ScalarExpr::PeriodStart => seq![unsupported(rule, "period_start / period_end"@)],
        ScalarExpr::PeriodEnd => seq![unsupported(rule, "period_start / period_end"@)],
        ScalarExpr::Input(_) => Seq::empty(),
        ScalarExpr::InputOrElse { .. } => Seq::empty(),
        ScalarExpr::Derived(_) => Seq::empty(),
        ScalarExpr::ParameterLookup { index, .. } => scalar_blockers(*index, rule),
        ScalarExpr::Add(items) => scalar_blockerss(items@, items@.len(), rule),
        ScalarExpr::Max(items) => scalar_blockerss(items@, items@.len(), rule),
        ScalarExpr::Min(items) => scalar_blockerss(items@, items@.len(), rule),
        ScalarExpr::Sub(a, b) => scalar_blockers(*a, rule) + scalar_blockers(*b, rule),
        ScalarExpr::Mul(a, b) => scalar_blockers(*a, rule) + scalar_blockers(*b, rule),
        ScalarExpr::Div(a, b) => scalar_blockers(*a, rule) + scalar_blockers(*b, rule),
        ScalarExpr::Ceil(a) => scalar_blockers(*a, rule),
        ScalarExpr::Floor(a) => scalar_blockers(*a, rule),
        ScalarExpr::DateAddDays { date, days } => seq![unsupported(rule, "date_add_days"@)] + (scalar_blockers(
            *date,
            rule,
        ) + scalar_blockers(*days, rule)),
        ScalarExpr::DateAddMonths { date, months } => seq![unsupported(rule, "date_add_months"@)] + (scalar_blockers(
            *date,
            rule,
        ) + scalar_blockers(*months, rule)),
        ScalarExpr::DateAddYears { date, years } => seq![unsupported(rule, "date_add_years"@)] + (scalar_blockers(
            *date,
            rule,
        ) + scalar_blockers(*years, rule)),
        ScalarExpr::DaysBetween { from, to } => seq![unsupported(rule, "days_between"@)] + (scalar_blockers(
            *from,
            rule,
        ) + scalar_blockers(*to, rule)),
        ScalarExpr::CountRelated { .. } => Seq::empty(),
        ScalarExpr::SumRelated { value, .. } => match value {
            RelatedValueRef::Derived(_) => seq![
                rule
                    + ": fast mode does not yet support sum_related over related derived values"@,
            ],
            _ => Seq::empty(),
        },
        ScalarExpr::If { condition, then_expr, else_expr } => judgment_blockers(*condition, rule) + scalar_blockers(
            *then_expr, rule) + scalar_blockers(*else_expr, rule),
        ScalarExpr::NoMatch { subject, .. } => scalar_blockers(*subject, rule),
        ScalarExpr::OverPeriods { value, n, .. } => seq![
            rule
                + ": bulk fast mode does not support over-periods reductions; use the dense lifetime execution surface"@,
        ] + scalar_blockers(*value, rule) + match n {
            Some(n) => scalar_blockers(*n, rule),
            None => Seq::empty(),
        },
    }
}

pub open spec fn scalar_blockerss(items: Seq<ScalarExpr>, n: nat, rule: Seq<char>) -> Seq<Seq<char>>
    decreases items, 0int, n,
{
    if n == 0 || n > items.len() {
        Seq::empty()
    } else {
        scalar_blockerss(items, (n - 1) as nat, rule) + scalar_blockers(items[n - 1], rule)
    }
}

/// What keeps a judgment from the bulk strategy.
pub open spec fn judgment_blockers(e: JudgmentExpr, rule: Seq<char>) -> Seq<Seq<char>>
    decreases e, 1int, 0nat,
{
    match e {
        JudgmentExpr::Comparison { left, right, .. } => scalar_blockers(left, rule) + scalar_blockers(right, rule),
        JudgmentExpr::Derived(_) => Seq::empty(),
        JudgmentExpr::RelationMember { .. } => Seq::empty(),
        JudgmentExpr::And(items) => judgment_blockerss(items@, items@.len(), rule),
        JudgmentExpr::Or(items) => judgment_blockerss(items@, items@.len(), rule),
        JudgmentExpr::Not(item) => judgment_blockers(*item, rule),
    }
}

pub open spec fn judgment_blockerss(items: Seq<JudgmentExpr>, n: nat, rule: Seq<char>) -> Seq<Seq<char>>
    decreases items, 0int, n,
{
    if n == 0 || n > items.len() {
        Seq::empty()
    } else {
        judgment_blockerss(items, (n - 1) as nat, rule) + judgment_blockers(items[n - 1], rule)
    }
}

fn collect_fast_blockers_from_scalar_expr_two(
    a: &ScalarExpr,
    b: &ScalarExpr,
    derived_name: &str,
    out: &mut Vec<String>,
    Ghost(whole): Ghost<ScalarExpr>,
)
    requires
        decreases_to!(whole => *a),
        decreases_to!(whole => *b),
    ensures
        texts(final(out)@) == texts(old(out)@) + (scalar_blockers(*a, derived_name@) + scalar_blockers(*b, derived_name@)),
    decreases whole, 0int,
{
    let ghost before = texts(out@);
    collect_fast_blockers_from_scalar_expr(a, derived_name, out);
    collect_fast_blockers_from_scalar_expr(b, derived_name, out);
    assert(texts(out@) =~= before + (scalar_blockers(*a, derived_name@) + scalar_blockers(*b, derived_name@)));
}

fn collect_fast_blockers_from_scalar_expr_items(items: &Vec<ScalarExpr>,
    derived_name: &str,
    out: &mut Vec<String>,
)
    ensures
        texts(final(out)@) == texts(old(out)@) + scalar_blockerss(items@, items@.len(), derived_name@),
    decreases items@, 0int,
{
    let ghost before = texts(out@);
    let mut i: usize = 0;
    assert(texts(out@) =~= before + scalar_blockerss(items@, 0, derived_name@));
    while i < items.len()
        invariant
            i <= items@.len(),
            texts(out@) == before + scalar_blockerss(items@, i as nat, derived_name@),
        decreases items@.len() - i,
    {
        collect_fast_blockers_from_scalar_expr(&items[i], derived_name, out);
        assert(texts(out@) =~= before + scalar_blockerss(items@, (i + 1) as nat, derived_name@));
        i = i + 1;
    }
}

/// Adds what keeps a formula from the bulk strategy.
fn collect_fast_blockers_from_scalar_expr(expr: &ScalarExpr,
    derived_name: &str,
    out: &mut Vec<String>,
)
    ensures
        texts(final(out)@) == texts(old(out)@) + scalar_blockers(*expr, derived_name@),
    decreases *expr, 1int,
{
    let ghost before = texts(out@);
    match expr {
        ScalarExpr::PeriodStart | ScalarExpr::PeriodEnd => push_unsupported(
            derived_name,
            "period_start / period_end",
            out,
        ),
        ScalarExpr::Literal(_) => {
            assert(before + Seq::<Seq<char>>::empty() =~= before);
        },
        ScalarExpr::Input(_) => {
            assert(before + Seq::<Seq<char>>::empty() =~= before);
        },
        ScalarExpr::InputOrElse { .. } => {
            assert(before + Seq::<Seq<char>>::empty() =~= before);
        },
        ScalarExpr::Derived(_) => {
            assert(before + Seq::<Seq<char>>::empty() =~= before);
        },
        ScalarExpr::ParameterLookup { index, .. } => collect_fast_blockers_from_scalar_expr(index, derived_name, out),
        ScalarExpr::Add(items) => collect_fast_blockers_from_scalar_expr_items(items, derived_name, out),
        ScalarExpr::Max(items) => collect_fast_blockers_from_scalar_expr_items(items, derived_name, out),
        ScalarExpr::Min(items) => collect_fast_blockers_from_scalar_expr_items(items, derived_name, out),
        ScalarExpr::Sub(a, b) => collect_fast_blockers_from_scalar_expr_two(a, b, derived_name, out, Ghost(*expr)),
        ScalarExpr::Mul(a, b) => collect_fast_blockers_from_scalar_expr_two(a, b, derived_name, out, Ghost(*expr)),
        ScalarExpr::Div(a, b) => collect_fast_blockers_from_scalar_expr_two(a, b, derived_name, out, Ghost(*expr)),
        ScalarExpr::Ceil(a) => collect_fast_blockers_from_scalar_expr(a, derived_name, out),
        ScalarExpr::Floor(a) => collect_fast_blockers_from_scalar_expr(a, derived_name, out),
        ScalarExpr::DateAddDays { date, days } => {
            push_unsupported(derived_name, "date_add_days", out);
            collect_fast_blockers_from_scalar_expr_two(date, days, derived_name, out, Ghost(*expr));
            assert(texts(out@) =~= before + scalar_blockers(*expr, derived_name@));
        },
        ScalarExpr::DateAddMonths { date, months } => {
            push_unsupported(derived_name, "date_add_months", out);
            collect_fast_blockers_from_scalar_expr_two(date, months, derived_name, out, Ghost(*expr));
            assert(texts(out@) =~= before + scalar_blockers(*expr, derived_name@));
        },
        ScalarExpr::DateAddYears { date, years } => {
            push_unsupported(derived_name, "date_add_years", out);
            collect_fast_blockers_from_scalar_expr_two(date, years, derived_name, out, Ghost(*expr));
            assert(texts(out@) =~= before + scalar_blockers(*expr, derived_name@));
        },
        ScalarExpr::DaysBetween { from, to } => {
            push_unsupported(derived_name, "days_between", out);
            collect_fast_blockers_from_scalar_expr_two(from, to, derived_name, out, Ghost(*expr));
            assert(texts(out@) =~= before + scalar_blockers(*expr, derived_name@));
        },
        ScalarExpr::CountRelated { .. } => {
            assert(before + Seq::<Seq<char>>::empty() =~= before);
        },
        ScalarExpr::SumRelated { value, .. } => {
            assert(before + Seq::<Seq<char>>::empty() =~= before);
            if let RelatedValueRef::Derived(_) = value {
                let mut text = owned(derived_name);
                text.append(
                    ": fast mode does not yet support sum_related over related derived values",
                );
                push_text(text.as_str(), out);
            }
        },
        ScalarExpr::If { condition, then_expr, else_expr } => {
            collect_fast_blockers_from_judgment_expr(condition, derived_name, out);
            collect_fast_blockers_from_scalar_expr(then_expr, derived_name, out);
            collect_fast_blockers_from_scalar_expr(else_expr, derived_name, out);
            assert(texts(out@) =~= before + scalar_blockers(*expr, derived_name@));
        },
        ScalarExpr::NoMatch { subject, .. } => collect_fast_blockers_from_scalar_expr(subject, derived_name, out),
        ScalarExpr::OverPeriods { value, n, .. } => {
            let mut text = owned(derived_name);
            text.append(
                ": bulk fast mode does not support over-periods reductions; use the dense lifetime execution surface",
            );
            push_text(text.as_str(), out);
            collect_fast_blockers_from_scalar_expr(value, derived_name, out);
            if let Some(n) = n {
                collect_fast_blockers_from_scalar_expr(n, derived_name, out);
            }
            assert(texts(out@) =~= before + scalar_blockers(*expr, derived_name@));
        },
    }
}

fn collect_fast_blockers_from_judgment_expr_items(items: &Vec<JudgmentExpr>,
    derived_name: &str,
    out: &mut Vec<String>,
)
    ensures
        texts(final(out)@) == texts(old(out)@) + judgment_blockerss(items@, items@.len(), derived_name@),
    decreases items@, 0int,
{
    let ghost before = texts(out@);
    let mut i: usize = 0;
    assert(texts(out@) =~= before + judgment_blockerss(items@, 0, derived_name@));
    while i < items.len()
        invariant
            i <= items@.len(),
            texts(out@) == before + judgment_blockerss(items@, i as nat, derived_name@),
        decreases items@.len() - i,
    {
        collect_fast_blockers_from_judgment_expr(&items[i], derived_name, out);
        assert(texts(out@) =~= before + judgment_blockerss(items@, (i + 1) as nat, derived_name@));
        i = i + 1;
    }
}

/// Adds what keeps a judgment from the bulk strategy.
fn collect_fast_blockers_from_judgment_expr(expr: &JudgmentExpr,
    derived_name: &str,
    out: &mut Vec<String>,
)
    ensures
        texts(final(out)@) == texts(old(out)@) + judgment_blockers(*expr, derived_name@),
    decreases *expr, 1int,
{
    let ghost before = texts(out@);
    match expr {
        JudgmentExpr::Comparison { left, right, .. } => {
            collect_fast_blockers_from_scalar_expr(left, derived_name, out);
            collect_fast_blockers_from_scalar_expr(right, derived_name, out);
            assert(texts(out@) =~= before + judgment_blockers(*expr, derived_name@));
        },
        JudgmentExpr::Derived(_) => {
            assert(before + Seq::<Seq<char>>::empty() =~= before);
        },
        JudgmentExpr::RelationMember { .. } => {
            assert(before + Seq::<Seq<char>>::empty() =~= before);
        },
        JudgmentExpr::And(items) => collect_fast_blockers_from_judgment_expr_items(items, derived_name, out),
        JudgmentExpr::Or(items) => collect_fast_blockers_from_judgment_expr_items(items, derived_name, out),
        JudgmentExpr::Not(item) => collect_fast_blockers_from_judgment_expr(item, derived_name, out),
    }
}

/// What keeps a formula from the bulk strategy.
pub open spec fn formula_blockers(s: DerivedSemantics, rule: Seq<char>) -> Seq<Seq<char>> {
    match s {
        DerivedSemantics::Scalar(e) => scalar_blockers(e, rule),
        DerivedSemantics::Judgment(e) => judgment_blockers(e, rule),
    }
}

pub open spec fn versions_blockers(versions: Seq<DerivedVersion>, n: nat, rule: Seq<char>) -> Seq<Seq<char>>
    decreases n,
{
    if n == 0 || n > versions.len() {
        Seq::empty()
    } else {
        versions_blockers(versions, (n - 1) as nat, rule) + formula_blockers(
            versions[n - 1].semantics, rule,
        )
    }
}

fn collect_formula_blockers(semantics: &DerivedSemantics, derived_name: &str, out: &mut Vec<String>)
    ensures
        texts(final(out)@) == texts(old(out)@) + formula_blockers(*semantics, derived_name@),
{
    match semantics {
        DerivedSemantics::Scalar(e) => collect_fast_blockers_from_scalar_expr(e, derived_name, out),
        DerivedSemantics::Judgment(e) => collect_fast_blockers_from_judgment_expr(e, derived_name, out),
    }
}

fn collect_versions_blockers(versions: &Vec<DerivedVersion>, derived_name: &str, out: &mut Vec<String>)
    ensures
        texts(final(out)@) == texts(old(out)@) + versions_blockers(versions@, versions@.len(), derived_name@),
{
    let ghost before = texts(out@);
    let mut i: usize = 0;
    assert(texts(out@) =~= before + versions_blockers(versions@, 0, derived_name@));
    while i < versions.len()
        invariant
            i <= versions@.len(),
            texts(out@) == before + versions_blockers(versions@, i as nat, derived_name@),
        decreases versions@.len() - i,
    {
        collect_formula_blockers(&versions[i].semantics, derived_name, out);
        assert(texts(out@) =~= before + versions_blockers(versions@, (i + 1) as nat, derived_name@));
        i = i + 1;
    }
}

/// What keeps the first `n` rules from the bulk strategy.
pub open spec fn rules_blockers(rules: Seq<Derived>, n: nat) -> Seq<Seq<char>>
    decreases n,
{
    if n == 0 || n > rules.len() {
        Seq::empty()
    } else {
        let d = rules[n - 1];
        rules_blockers(rules, (n - 1) as nat) + formula_blockers(d.semantics, d.name@)
            + versions_blockers(d.versions@, d.versions@.len(), d.name@)
    }
}

/// What keeps a program from the bulk strategy, by rule.
pub fn fast_blockers(program: &Program) -> (r: Vec<String>)
    ensures
        texts(r@) == rules_blockers(program.derived@, program.derived@.len()),
{
    let mut out: Vec<String> = Vec::new();
    let mut i: usize = 0;
    assert(texts(out@) =~= rules_blockers(program.derived@, 0));
    while i < program.derived.len()
        invariant
            i <= program.derived@.len(),
            texts(out@) == rules_blockers(program.derived@, i as nat),
        decreases program.derived@.len() - i,
    {
        let derived = &program.derived[i];
        collect_formula_blockers(&derived.semantics, derived.name.as_str(), &mut out);
        collect_versions_blockers(&derived.versions, derived.name.as_str(), &mut out);
        i = i + 1;
    }
    out
}

} // verus!
