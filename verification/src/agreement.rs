//! Facts that agree on inputs, relations and the period give the same values, whatever their
//! programs say of the sources of rules and parameters and of the kinds of slots.
use crate::engine::{
    judgment_meaning, judgment_meaning_at, judgment_terminates, scalar_meaning,
    scalar_meaning_at, scalar_terminates,
};
use crate::model::{
    Derived, DerivedSemantics, IndexedParameter, JudgmentExpr, Program, RelatedValueRef,
    RelationDerivation, RelationSchema, ScalarExpr,
};
use crate::semantics::{
    connective_run, count_run, input_value, entity_for, extremum_run, judgment_run, members_run,
    related_run, rule_formula, rule_judgment, rule_scalar, rule_unrounded, scalar_run, sum_run,
    total_run, derivation_context, judgment_parameters, judgment_rules, judgment_run_is_step,
    skipped, skipped_judgments, stated_related, TraceSkipReason, scalar_parameters, scalar_rules,
    scalar_run_is_step, Facts, RelationContext,
};
use vstd::prelude::*;

verus! {

/// Whether rules differ in nothing but what describes their source.
pub open spec fn rules_alike(a: Option<Derived>, b: Option<Derived>) -> bool {
    match (a, b) {
        (Some(x), Some(y)) => y == (Derived {
            source: y.source,
            source_url: y.source_url,
            corpus_citation_path: y.corpus_citation_path,
            ..x
        }),
        (None, None) => true,
        _ => false,
    }
}

/// Whether parameters differ in nothing but what describes their source.
pub open spec fn parameters_alike(a: Option<IndexedParameter>, b: Option<IndexedParameter>) -> bool {
    match (a, b) {
        (Some(x), Some(y)) => y == (IndexedParameter {
            source: y.source,
            source_url: y.source_url,
            corpus_citation_path: y.corpus_citation_path,
            ..x
        }),
        (None, None) => true,
        _ => false,
    }
}

/// Whether relations differ in nothing but the kinds that they declare for their slots.
pub open spec fn relations_alike(a: Option<RelationSchema>, b: Option<RelationSchema>) -> bool {
    match (a, b) {
        (Some(x), Some(y)) => y == (RelationSchema { slot_entities: y.slot_entities, ..x }),
        (None, None) => true,
        _ => false,
    }
}

/// Whether programs differ in nothing but what describes the source of their rules and
/// parameters, and the kinds that their relations declare.
pub open spec fn programs_alike(p: Program, q: Program) -> bool {
    &&& p.units == q.units
    &&& forall|name: Seq<char>|
        #![trigger p.relation(name)]
        #![trigger q.relation(name)]
        relations_alike(p.relation(name), q.relation(name))
    &&& forall|name: Seq<char>|
        #![trigger p.rule(name)]
        #![trigger q.rule(name)]
        rules_alike(p.rule(name), q.rule(name))
    &&& forall|name: Seq<char>|
        #![trigger p.parameter(name)]
        #![trigger q.parameter(name)]
        parameters_alike(p.parameter(name), q.parameter(name))
}

/// Whether facts have programs that execute alike, the same period and relations, and state
/// the same inputs.
pub open spec fn facts_agree(cx: Facts, cy: Facts) -> bool {
    &&& programs_alike(cx.program, cy.program)
    &&& cx.period == cy.period
    &&& cx.data.relations == cy.data.relations
    &&& forall|name: Seq<char>, id: Seq<char>| #[trigger]
        input_value(cx, name, id) == input_value(cy, name, id)
}

proof fn skipped_agrees(
    cx: Facts,
    cy: Facts,
    rules: Seq<Seq<char>>,
    parameters: Seq<Seq<char>>,
    ent: Seq<char>,
    context: Option<RelationContext>,
    reason: TraceSkipReason,
)
    requires
        facts_agree(cx, cy),
    ensures
        skipped(cx, rules, parameters, ent, context, reason) == skipped(
            cy,
            rules,
            parameters,
            ent,
            context,
            reason,
        ),
{
    assert(skipped(cx, rules, parameters, ent, context, reason) =~= skipped(
        cy,
        rules,
        parameters,
        ent,
        context,
        reason,
    ));
}

proof fn skipped_judgments_agree(
    cx: Facts,
    cy: Facts,
    items: Seq<JudgmentExpr>,
    from: nat,
    ent: Seq<char>,
    context: Option<RelationContext>,
)
    requires
        facts_agree(cx, cy),
    ensures
        skipped_judgments(cx, items, from, ent, context) == skipped_judgments(
            cy,
            items,
            from,
            ent,
            context,
        ),
    decreases items.len() - from,
{
    if from < items.len() {
        skipped_agrees(
            cx,
            cy,
            judgment_rules(items[from as int]),
            judgment_parameters(items[from as int]),
            ent,
            context,
            TraceSkipReason::ShortCircuit,
        );
        skipped_judgments_agree(cx, cy, items, from + 1, ent, context);
    }
}

proof fn stated_agrees(
    cx: Facts,
    cy: Facts,
    relation: Seq<char>,
    current_slot: nat,
    related_slot: nat,
    ent: Seq<char>,
    n: nat,
)
    requires
        facts_agree(cx, cy),
    ensures
        stated_related(cx, relation, current_slot, related_slot, ent, n) == stated_related(
            cy,
            relation,
            current_slot,
            related_slot,
            ent,
            n,
        ),
    decreases n,
{
    if n > 0 {
        stated_agrees(cx, cy, relation, current_slot, related_slot, ent, (n - 1) as nat);
    }
}

proof fn rule_unrounded_agrees(cx: Facts, cy: Facts, f: nat, name: Seq<char>, ent: Seq<char>)
    requires
        facts_agree(cx, cy),
    ensures
        rule_unrounded(cx, f, name, ent) == rule_unrounded(cy, f, name, ent),
    decreases 2 * f + 1, cx, 0int, 0int,
{
    if let Ok((d, DerivedSemantics::Scalar(e))) = rule_formula(cx, name) {
        scalar_agrees(cx, cy, f, e, ent, None);
    }
}

/// The value of a rule is the same on facts that agree.
pub proof fn rule_scalar_agrees(cx: Facts, cy: Facts, f: nat, name: Seq<char>, ent: Seq<char>)
    requires
        facts_agree(cx, cy),
    ensures
        rule_scalar(cx, f, name, ent) == rule_scalar(cy, f, name, ent),
        rule_unrounded(cx, f, name, ent) == rule_unrounded(cy, f, name, ent),
    decreases 2 * f + 1, cx, 1int, 0int,
{
    rule_unrounded_agrees(cx, cy, f, name, ent);
}

/// The judgment of a rule is the same on facts that agree.
pub proof fn rule_judgment_agrees(cx: Facts, cy: Facts, f: nat, name: Seq<char>, ent: Seq<char>)
    requires
        facts_agree(cx, cy),
    ensures
        rule_judgment(cx, f, name, ent) == rule_judgment(cy, f, name, ent),
    decreases 2 * f + 1, cx, 0int, 0int,
{
    if let Ok((d, DerivedSemantics::Judgment(e))) = rule_formula(cx, name) {
        judgment_agrees(cx, cy, f, e, ent, None);
    }
}

/// The value of a scalar formula is the same on facts that agree.
pub proof fn scalar_agrees(
    cx: Facts,
    cy: Facts,
    f: nat,
    e: ScalarExpr,
    ent: Seq<char>,
    context: Option<RelationContext>,
)
    requires
        facts_agree(cx, cy),
    ensures
        scalar_run(cx, f, e, ent, context) == scalar_run(cy, f, e, ent, context),
    decreases 2 * f, e, 1int, 0int,
{
    scalar_run_is_step(cx, f, e, ent, context);
    scalar_run_is_step(cy, f, e, ent, context);
    match e {
        ScalarExpr::Derived(name) => {
            if f > 0 {
                if let Some(d) = cx.program.rule(name@) {
                    let target = entity_for(context, d.entity@, ent);
                    rule_scalar_agrees(cx, cy, (f - 1) as nat, name@, target);
                }
            }
        },
        ScalarExpr::ParameterLookup { index, .. } => scalar_agrees(cx, cy, f, *index, ent, context),
        ScalarExpr::Add(items) => sum_agrees(cx, cy, f, items@, items@.len(), ent, context),
        ScalarExpr::Sub(a, b) => {
            scalar_agrees(cx, cy, f, *a, ent, context);
            scalar_agrees(cx, cy, f, *b, ent, context);
        },
        ScalarExpr::Mul(a, b) => {
            scalar_agrees(cx, cy, f, *a, ent, context);
            scalar_agrees(cx, cy, f, *b, ent, context);
        },
        ScalarExpr::Div(a, b) => {
            scalar_agrees(cx, cy, f, *a, ent, context);
            scalar_agrees(cx, cy, f, *b, ent, context);
        },
        ScalarExpr::Max(items) => extremum_agrees(
            cx, cy, f, items@, items@.len(), true, ent, context),
        ScalarExpr::Min(items) => extremum_agrees(
            cx, cy, f, items@, items@.len(), false, ent, context),
        ScalarExpr::Ceil(a) => scalar_agrees(cx, cy, f, *a, ent, context),
        ScalarExpr::Floor(a) => scalar_agrees(cx, cy, f, *a, ent, context),
        ScalarExpr::DateAddDays { date, days } => {
            scalar_agrees(cx, cy, f, *date, ent, context);
            scalar_agrees(cx, cy, f, *days, ent, context);
        },
        ScalarExpr::DateAddMonths { date, months } => {
            scalar_agrees(cx, cy, f, *date, ent, context);
            scalar_agrees(cx, cy, f, *months, ent, context);
        },
        ScalarExpr::DateAddYears { date, years } => {
            scalar_agrees(cx, cy, f, *date, ent, context);
            scalar_agrees(cx, cy, f, *years, ent, context);
        },
        ScalarExpr::DaysBetween { from, to } => {
            scalar_agrees(cx, cy, f, *from, ent, context);
            scalar_agrees(cx, cy, f, *to, ent, context);
        },
        ScalarExpr::CountRelated { relation, current_slot, related_slot, .. } => {
            if f > 0 {
                let (cs, rs) = (current_slot as nat, related_slot as nat);
                related_agrees(cx, cy, (f - 1) as nat, relation@, cs, rs, ent);
                if let Some(run) = related_run(cx, (f - 1) as nat, relation@, cs, rs, ent) {
                    if let Ok(ids) = run.value {
                        count_agrees(cx, cy, f, e, ids, ids.len());
                    }
                }
            }
        },
        ScalarExpr::SumRelated { relation, current_slot, related_slot, .. } => {
            if f > 0 {
                let (cs, rs) = (current_slot as nat, related_slot as nat);
                related_agrees(cx, cy, (f - 1) as nat, relation@, cs, rs, ent);
                if let Some(run) = related_run(cx, (f - 1) as nat, relation@, cs, rs, ent) {
                    if let Ok(ids) = run.value {
                        total_agrees(cx, cy, f, e, ids, ids.len());
                    }
                }
            }
        },
        ScalarExpr::If { condition, then_expr, else_expr } => {
            skipped_agrees(
                cx,
                cy,
                scalar_rules(*then_expr),
                scalar_parameters(*then_expr),
                ent,
                context,
                TraceSkipReason::BranchNotSelected,
            );
            skipped_agrees(
                cx,
                cy,
                scalar_rules(*else_expr),
                scalar_parameters(*else_expr),
                ent,
                context,
                TraceSkipReason::BranchNotSelected,
            );
            judgment_agrees(cx, cy, f, *condition, ent, context);
            scalar_agrees(cx, cy, f, *then_expr, ent, context);
            scalar_agrees(cx, cy, f, *else_expr, ent, context);
        },
        ScalarExpr::NoMatch { subject, .. } => scalar_agrees(cx, cy, f, *subject, ent, context),
        _ => {},
    }
}

proof fn sum_agrees(
    cx: Facts,
    cy: Facts,
    f: nat,
    items: Seq<ScalarExpr>,
    n: nat,
    ent: Seq<char>,
    context: Option<RelationContext>,
)
    requires
        facts_agree(cx, cy),
    ensures
        sum_run(cx, f, items, n, ent, context) == sum_run(cy, f, items, n, ent, context),
    decreases 2 * f, items, 0int, n,
{
    if 0 < n <= items.len() {
        sum_agrees(cx, cy, f, items, (n - 1) as nat, ent, context);
        scalar_agrees(cx, cy, f, items[n - 1], ent, context);
    }
}

proof fn extremum_agrees(
    cx: Facts,
    cy: Facts,
    f: nat,
    items: Seq<ScalarExpr>,
    n: nat,
    largest: bool,
    ent: Seq<char>,
    context: Option<RelationContext>,
)
    requires
        facts_agree(cx, cy),
    ensures
        extremum_run(cx, f, items, n, largest, ent, context) == extremum_run(cy, f, items, n, largest, ent, context),
    decreases 2 * f, items, 0int, n,
{
    if 0 < n <= items.len() {
        extremum_agrees(cx, cy, f, items, (n - 1) as nat, largest, ent, context);
        scalar_agrees(cx, cy, f, items[n - 1], ent, context);
    }
}

proof fn count_agrees(cx: Facts, cy: Facts, f: nat, e: ScalarExpr, ids: Seq<Seq<char>>, n: nat)
    requires
        facts_agree(cx, cy),
    ensures
        count_run(cx, f, e, ids, n) == count_run(cy, f, e, ids, n),
    decreases 2 * f, e, 0int, n,
{
    if 0 < n <= ids.len() {
        count_agrees(cx, cy, f, e, ids, (n - 1) as nat);
        if let ScalarExpr::CountRelated { where_clause: Some(w), .. } = e {
            judgment_agrees(cx, cy, f, *w, ids[n - 1], None);
        }
    }
}

proof fn total_agrees(cx: Facts, cy: Facts, f: nat, e: ScalarExpr, ids: Seq<Seq<char>>, n: nat)
    requires
        facts_agree(cx, cy),
    ensures
        total_run(cx, f, e, ids, n) == total_run(cy, f, e, ids, n),
    decreases 2 * f, e, 0int, n,
{
    if 0 < n <= ids.len() {
        total_agrees(cx, cy, f, e, ids, (n - 1) as nat);
        if let ScalarExpr::SumRelated { value, where_clause, .. } = e {
            if let RelatedValueRef::Derived(name) = value {
                if f > 0 {
                    rule_scalar_agrees(cx, cy, (f - 1) as nat, name@, ids[n - 1]);
                }
            }
            if let Some(w) = where_clause {
                judgment_agrees(cx, cy, f, *w, ids[n - 1], None);
            }
        }
    }
}

/// The judgment of a formula is the same on facts that agree.
pub proof fn judgment_agrees(
    cx: Facts,
    cy: Facts,
    f: nat,
    e: JudgmentExpr,
    ent: Seq<char>,
    context: Option<RelationContext>,
)
    requires
        facts_agree(cx, cy),
    ensures
        judgment_run(cx, f, e, ent, context) == judgment_run(cy, f, e, ent, context),
    decreases 2 * f, e, 1int, 0int,
{
    judgment_run_is_step(cx, f, e, ent, context);
    judgment_run_is_step(cy, f, e, ent, context);
    match e {
        JudgmentExpr::Comparison { left, op, right } => {
            scalar_agrees(cx, cy, f, left, ent, context);
            scalar_agrees(cx, cy, f, right, ent, context);
        },
        JudgmentExpr::Derived(name) => {
            if f > 0 {
                if let Some(d) = cx.program.rule(name@) {
                    let target = entity_for(context, d.entity@, ent);
                    rule_judgment_agrees(cx, cy, (f - 1) as nat, name@, target);
                }
            }
        },
        JudgmentExpr::RelationMember { relation, current_slot, related_slot } => {
            if f > 0 {
                if let Some(c) = context {
                    related_agrees(
                        cx,
                        cy,
                        (f - 1) as nat,
                        relation@,
                        current_slot as nat,
                        related_slot as nat,
                        c.current_id,
                    );
                }
            }
        },
        JudgmentExpr::And(items) => connective_agrees(
            cx,
            cy,
            f,
            items@,
            0,
            crate::model::JudgmentOutcome::NotHolds,
            false,
            ent,
            context,
        ),
        JudgmentExpr::Or(items) => connective_agrees(
            cx,
            cy,
            f,
            items@,
            0,
            crate::model::JudgmentOutcome::Holds,
            false,
            ent,
            context,
        ),
        JudgmentExpr::Not(item) => judgment_agrees(cx, cy, f, *item, ent, context),
    }
}

proof fn connective_agrees(
    cx: Facts,
    cy: Facts,
    f: nat,
    items: Seq<JudgmentExpr>,
    from: nat,
    decisive: crate::model::JudgmentOutcome,
    undetermined: bool,
    ent: Seq<char>,
    context: Option<RelationContext>,
)
    requires
        facts_agree(cx, cy),
    ensures
        connective_run(cx, f, items, from, decisive, undetermined, ent, context) == connective_run(cy, f, items, from, decisive, undetermined, ent, context),
    decreases 2 * f, items, 0int, items.len() - from,
{
    if from < items.len() {
        skipped_judgments_agree(cx, cy, items, from + 1, ent, context);
        judgment_agrees(cx, cy, f, items[from as int], ent, context);
        connective_agrees(cx, cy, f, items, from + 1, decisive, true, ent, context);
        connective_agrees(cx, cy, f, items, from + 1, decisive, undetermined, ent, context);
    }
}

proof fn members_agrees(
    cx: Facts,
    cy: Facts,
    f: nat,
    d: RelationDerivation,
    ent: Seq<char>,
    ids: Seq<Seq<char>>,
    n: nat,
)
    requires
        facts_agree(cx, cy),
    ensures
        members_run(cx, f, d, ent, ids, n) == members_run(cy, f, d, ent, ids, n),
    decreases 2 * f + 1, cx, 0int, n,
{
    if 0 < n <= ids.len() {
        members_agrees(cx, cy, f, d, ent, ids, (n - 1) as nat);
        judgment_agrees(
            cx,
            cy,
            f,
            d.predicate,
            ids[n - 1],
            Some(derivation_context(d, ent, ids[n - 1])),
        );
    }
}

/// The ids of a relation are the same on facts that agree.
pub proof fn related_agrees(
    cx: Facts,
    cy: Facts,
    f: nat,
    relation: Seq<char>,
    current_slot: nat,
    related_slot: nat,
    ent: Seq<char>,
)
    requires
        facts_agree(cx, cy),
    ensures
        related_run(cx, f, relation, current_slot, related_slot, ent) == related_run(cy, f, relation, current_slot, related_slot, ent),
    decreases 2 * f + 1, cx, 1int, 0int,
{
    if let Some(schema) = cx.program.relation(relation) {
        stated_agrees(
            cx,
            cy,
            relation,
            current_slot,
            related_slot,
            ent,
            cx.data.relations.len(),
        );
        if let Some(d) = schema.derivation {
            if f > 0 {
                let (cs, rs) = (d.current_slot as nat, d.related_slot as nat);
                let source = d.source_relation@;
                related_agrees(cx, cy, (f - 1) as nat, source, cs, rs, ent);
                if let Some(run) = related_run(cx, (f - 1) as nat, source, cs, rs, ent) {
                    if let Ok(ids) = run.value {
                        members_agrees(cx, cy, f, d, ent, ids, ids.len());
                    }
                }
            }
        }
    }
}

/// Facts that agree give rules the same values.
pub proof fn rules_agree(cx: Facts, cy: Facts, name: Seq<char>, ent: Seq<char>)
    requires
        facts_agree(cx, cy),
    ensures
        scalar_terminates(cx, name, ent) ==> scalar_meaning(cx, name, ent) == scalar_meaning(
            cy,
            name,
            ent,
        ),
        judgment_terminates(cx, name, ent) ==> judgment_meaning(cx, name, ent) == judgment_meaning(
            cy,
            name,
            ent,
        ),
{
    if scalar_terminates(cx, name, ent) {
        let f = choose|f: nat| #[trigger] rule_scalar(cx, f, name, ent) is Some;
        rule_scalar_agrees(cx, cy, f, name, ent);
        scalar_meaning_at(cx, f, name, ent);
        scalar_meaning_at(cy, f, name, ent);
    }
    if judgment_terminates(cx, name, ent) {
        let f = choose|f: nat| #[trigger] rule_judgment(cx, f, name, ent) is Some;
        rule_judgment_agrees(cx, cy, f, name, ent);
        judgment_meaning_at(cx, f, name, ent);
        judgment_meaning_at(cy, f, name, ent);
    }
}

} // verus!
