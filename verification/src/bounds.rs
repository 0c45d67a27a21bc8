//! A larger bound on the depth of references does not change a value.
use crate::model::{DerivedSemantics, JudgmentExpr, RelatedValueRef, RelationDerivation, ScalarExpr};
use crate::semantics::{
    connective_run, count_run, entity_for, extremum_run, judgment_run, members_run, related_run,
    rule_formula, rule_judgment, rule_scalar, rule_unrounded, scalar_run, sum_run, total_run,
    derivation_context, judgment_run_is_step, scalar_run_is_step, Eval, Facts,
    RelationContext,
};
use vstd::prelude::*;

verus! {

/// `more` is `less`, unless `less` ran out of its bound.
pub open spec fn refines<T>(less: Option<Eval<T>>, more: Option<Eval<T>>) -> bool {
    less is Some ==> more == less
}

proof fn rule_unrounded_stable(cx: Facts, f: nat, g: nat, name: Seq<char>, ent: Seq<char>)
    requires
        f <= g,
    ensures
        refines(rule_unrounded(cx, f, name, ent), rule_unrounded(cx, g, name, ent)),
    decreases 2 * f + 1, cx, 0int, 0int,
{
    if let Ok((d, DerivedSemantics::Scalar(e))) = rule_formula(cx, name) {
        scalar_stable(cx, f, g, e, ent, None);
    }
}

/// The value of a rule does not change with a larger bound.
pub proof fn rule_scalar_stable(cx: Facts, f: nat, g: nat, name: Seq<char>, ent: Seq<char>)
    requires
        f <= g,
    ensures
        refines(rule_scalar(cx, f, name, ent), rule_scalar(cx, g, name, ent)),
        refines(rule_unrounded(cx, f, name, ent), rule_unrounded(cx, g, name, ent)),
    decreases 2 * f + 1, cx, 1int, 0int,
{
    rule_unrounded_stable(cx, f, g, name, ent);
}

/// The judgment of a rule does not change with a larger bound.
pub proof fn rule_judgment_stable(cx: Facts, f: nat, g: nat, name: Seq<char>, ent: Seq<char>)
    requires
        f <= g,
    ensures
        refines(rule_judgment(cx, f, name, ent), rule_judgment(cx, g, name, ent)),
    decreases 2 * f + 1, cx, 0int, 0int,
{
    if let Ok((d, DerivedSemantics::Judgment(e))) = rule_formula(cx, name) {
        judgment_stable(cx, f, g, e, ent, None);
    }
}

/// The value of a scalar formula does not change with a larger bound.
pub proof fn scalar_stable(
    cx: Facts,
    f: nat,
    g: nat,
    e: ScalarExpr,
    ent: Seq<char>,
    context: Option<RelationContext>,
)
    requires
        f <= g,
    ensures
        refines(scalar_run(cx, f, e, ent, context), scalar_run(cx, g, e, ent, context)),
    decreases 2 * f, e, 1int, 0int,
{
    scalar_run_is_step(cx, f, e, ent, context);
    scalar_run_is_step(cx, g, e, ent, context);
    match e {
        ScalarExpr::Derived(name) => {
            if f > 0 {
                if let Some(d) = cx.program.rule(name@) {
                    let target = entity_for(context, d.entity@, ent);
                    rule_scalar_stable(cx, (f - 1) as nat, (g - 1) as nat, name@, target);
                }
            }
        },
        ScalarExpr::ParameterLookup { index, .. } => scalar_stable(cx, f, g, *index, ent, context),
        ScalarExpr::Add(items) => sum_stable(cx, f, g, items@, items@.len(), ent, context),
        ScalarExpr::Sub(a, b) => {
            scalar_stable(cx, f, g, *a, ent, context);
            scalar_stable(cx, f, g, *b, ent, context);
        },
        ScalarExpr::Mul(a, b) => {
            scalar_stable(cx, f, g, *a, ent, context);
            scalar_stable(cx, f, g, *b, ent, context);
        },
        ScalarExpr::Div(a, b) => {
            scalar_stable(cx, f, g, *a, ent, context);
            scalar_stable(cx, f, g, *b, ent, context);
        },
        ScalarExpr::Max(items) => extremum_stable(
            cx, f, g, items@, items@.len(), true, ent, context),
        ScalarExpr::Min(items) => extremum_stable(
            cx, f, g, items@, items@.len(), false, ent, context),
        ScalarExpr::Ceil(a) => scalar_stable(cx, f, g, *a, ent, context),
        ScalarExpr::Floor(a) => scalar_stable(cx, f, g, *a, ent, context),
        ScalarExpr::DateAddDays { date, days } => {
            scalar_stable(cx, f, g, *date, ent, context);
            scalar_stable(cx, f, g, *days, ent, context);
        },
        ScalarExpr::DateAddMonths { date, months } => {
            scalar_stable(cx, f, g, *date, ent, context);
            scalar_stable(cx, f, g, *months, ent, context);
        },
        ScalarExpr::DateAddYears { date, years } => {
            scalar_stable(cx, f, g, *date, ent, context);
            scalar_stable(cx, f, g, *years, ent, context);
        },
        ScalarExpr::DaysBetween { from, to } => {
            scalar_stable(cx, f, g, *from, ent, context);
            scalar_stable(cx, f, g, *to, ent, context);
        },
        ScalarExpr::CountRelated { relation, current_slot, related_slot, .. } => {
            if f > 0 {
                let (cs, rs) = (current_slot as nat, related_slot as nat);
                related_stable(cx, (f - 1) as nat, (g - 1) as nat, relation@, cs, rs, ent);
                if let Some(run) = related_run(cx, (f - 1) as nat, relation@, cs, rs, ent) {
                    if let Ok(ids) = run.value {
                        count_stable(cx, f, g, e, ids, ids.len());
                    }
                }
            }
        },
        ScalarExpr::SumRelated { relation, current_slot, related_slot, .. } => {
            if f > 0 {
                let (cs, rs) = (current_slot as nat, related_slot as nat);
                related_stable(cx, (f - 1) as nat, (g - 1) as nat, relation@, cs, rs, ent);
                if let Some(run) = related_run(cx, (f - 1) as nat, relation@, cs, rs, ent) {
                    if let Ok(ids) = run.value {
                        total_stable(cx, f, g, e, ids, ids.len());
                    }
                }
            }
        },
        ScalarExpr::If { condition, then_expr, else_expr } => {
            judgment_stable(cx, f, g, *condition, ent, context);
            scalar_stable(cx, f, g, *then_expr, ent, context);
            scalar_stable(cx, f, g, *else_expr, ent, context);
        },
        ScalarExpr::NoMatch { subject, .. } => scalar_stable(cx, f, g, *subject, ent, context),
        _ => {},
    }
}

pub proof fn sum_stable(
    cx: Facts,
    f: nat,
    g: nat,
    items: Seq<ScalarExpr>,
    n: nat,
    ent: Seq<char>,
    context: Option<RelationContext>,
)
    requires
        f <= g,
    ensures
        refines(sum_run(cx, f, items, n, ent, context), sum_run(cx, g, items, n, ent, context)),
    decreases 2 * f, items, 0int, n,
{
    if 0 < n <= items.len() {
        sum_stable(cx, f, g, items, (n - 1) as nat, ent, context);
        scalar_stable(cx, f, g, items[n - 1], ent, context);
    }
}

pub proof fn extremum_stable(
    cx: Facts,
    f: nat,
    g: nat,
    items: Seq<ScalarExpr>,
    n: nat,
    largest: bool,
    ent: Seq<char>,
    context: Option<RelationContext>,
)
    requires
        f <= g,
    ensures
        refines(
            extremum_run(cx, f, items, n, largest, ent, context),
            extremum_run(cx, g, items, n, largest, ent, context),
        ),
    decreases 2 * f, items, 0int, n,
{
    if 0 < n <= items.len() {
        extremum_stable(cx, f, g, items, (n - 1) as nat, largest, ent, context);
        scalar_stable(cx, f, g, items[n - 1], ent, context);
    }
}

proof fn count_stable(cx: Facts, f: nat, g: nat, e: ScalarExpr, ids: Seq<Seq<char>>, n: nat)
    requires
        f <= g,
    ensures
        refines(count_run(cx, f, e, ids, n), count_run(cx, g, e, ids, n)),
    decreases 2 * f, e, 0int, n,
{
    if 0 < n <= ids.len() {
        count_stable(cx, f, g, e, ids, (n - 1) as nat);
        if let ScalarExpr::CountRelated { where_clause: Some(w), .. } = e {
            judgment_stable(cx, f, g, *w, ids[n - 1], None);
        }
    }
}

proof fn total_stable(cx: Facts, f: nat, g: nat, e: ScalarExpr, ids: Seq<Seq<char>>, n: nat)
    requires
        f <= g,
    ensures
        refines(total_run(cx, f, e, ids, n), total_run(cx, g, e, ids, n)),
    decreases 2 * f, e, 0int, n,
{
    if 0 < n <= ids.len() {
        total_stable(cx, f, g, e, ids, (n - 1) as nat);
        if let ScalarExpr::SumRelated { value, where_clause, .. } = e {
            if let RelatedValueRef::Derived(name) = value {
                if f > 0 {
                    rule_scalar_stable(cx, (f - 1) as nat, (g - 1) as nat, name@, ids[n - 1]);
                }
            }
            if let Some(w) = where_clause {
                judgment_stable(cx, f, g, *w, ids[n - 1], None);
            }
        }
    }
}

/// The judgment of a formula does not change with a larger bound.
pub proof fn judgment_stable(
    cx: Facts,
    f: nat,
    g: nat,
    e: JudgmentExpr,
    ent: Seq<char>,
    context: Option<RelationContext>,
)
    requires
        f <= g,
    ensures
        refines(judgment_run(cx, f, e, ent, context), judgment_run(cx, g, e, ent, context)),
    decreases 2 * f, e, 1int, 0int,
{
    judgment_run_is_step(cx, f, e, ent, context);
    judgment_run_is_step(cx, g, e, ent, context);
    match e {
        JudgmentExpr::Comparison { left, op, right } => {
            scalar_stable(cx, f, g, left, ent, context);
            scalar_stable(cx, f, g, right, ent, context);
        },
        JudgmentExpr::Derived(name) => {
            if f > 0 {
                if let Some(d) = cx.program.rule(name@) {
                    let target = entity_for(context, d.entity@, ent);
                    rule_judgment_stable(cx, (f - 1) as nat, (g - 1) as nat, name@, target);
                }
            }
        },
        JudgmentExpr::RelationMember { relation, current_slot, related_slot } => {
            if f > 0 {
                if let Some(c) = context {
                    related_stable(
                        cx,
                        (f - 1) as nat,
                        (g - 1) as nat,
                        relation@,
                        current_slot as nat,
                        related_slot as nat,
                        c.current_id,
                    );
                }
            }
        },
        JudgmentExpr::And(items) => connective_stable(
            cx,
            f,
            g,
            items@,
            0,
            crate::model::JudgmentOutcome::NotHolds,
            false,
            ent,
            context,
        ),
        JudgmentExpr::Or(items) => connective_stable(
            cx,
            f,
            g,
            items@,
            0,
            crate::model::JudgmentOutcome::Holds,
            false,
            ent,
            context,
        ),
        JudgmentExpr::Not(item) => judgment_stable(cx, f, g, *item, ent, context),
    }
}

proof fn connective_stable(
    cx: Facts,
    f: nat,
    g: nat,
    items: Seq<JudgmentExpr>,
    from: nat,
    decisive: crate::model::JudgmentOutcome,
    undetermined: bool,
    ent: Seq<char>,
    context: Option<RelationContext>,
)
    requires
        f <= g,
    ensures
        refines(
            connective_run(cx, f, items, from, decisive, undetermined, ent, context),
            connective_run(cx, g, items, from, decisive, undetermined, ent, context),
        ),
    decreases 2 * f, items, 0int, items.len() - from,
{
    if from < items.len() {
        judgment_stable(cx, f, g, items[from as int], ent, context);
        connective_stable(cx, f, g, items, from + 1, decisive, true, ent, context);
        connective_stable(cx, f, g, items, from + 1, decisive, undetermined, ent, context);
    }
}

proof fn members_stable(
    cx: Facts,
    f: nat,
    g: nat,
    d: RelationDerivation,
    ent: Seq<char>,
    ids: Seq<Seq<char>>,
    n: nat,
)
    requires
        f <= g,
    ensures
        refines(members_run(cx, f, d, ent, ids, n), members_run(cx, g, d, ent, ids, n)),
    decreases 2 * f + 1, cx, 0int, n,
{
    if 0 < n <= ids.len() {
        members_stable(cx, f, g, d, ent, ids, (n - 1) as nat);
        judgment_stable(
            cx,
            f,
            g,
            d.predicate,
            ids[n - 1],
            Some(derivation_context(d, ent, ids[n - 1])),
        );
    }
}

/// The ids of a relation do not change with a larger bound.
pub proof fn related_stable(
    cx: Facts,
    f: nat,
    g: nat,
    relation: Seq<char>,
    current_slot: nat,
    related_slot: nat,
    ent: Seq<char>,
)
    requires
        f <= g,
    ensures
        refines(
            related_run(cx, f, relation, current_slot, related_slot, ent),
            related_run(cx, g, relation, current_slot, related_slot, ent),
        ),
    decreases 2 * f + 1, cx, 1int, 0int,
{
    if let Some(schema) = cx.program.relation(relation) {
        if let Some(d) = schema.derivation {
            if f > 0 {
                let (cs, rs) = (d.current_slot as nat, d.related_slot as nat);
                let source = d.source_relation@;
                related_stable(cx, (f - 1) as nat, (g - 1) as nat, source, cs, rs, ent);
                if let Some(run) = related_run(cx, (f - 1) as nat, source, cs, rs, ent) {
                    if let Ok(ids) = run.value {
                        members_stable(cx, f, g, d, ent, ids, ids.len());
                    }
                }
            }
        }
    }
}

} // verus!
