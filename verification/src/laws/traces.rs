//! Laws of what an evaluation leaves in its trace: what it depended on, what it read, and what it
//! passed over.
use super::place::Place;
use crate::laws::parts::{few, gathered, many, parts, scalar_items, Part};
use crate::model::{
    IndexedParameter, JudgmentExpr, JudgmentOutcome, ParameterVersion, RelatedValueRef, ScalarExpr,
    ScalarValue,
};
use crate::semantics::{
    judgment_parameters, judgment_rules, judgment_run, judgment_run_is_step, judgments_parameters,
    judgments_rules, rule_judgment, rule_scalar, scalar_parameters, scalar_rules, scalar_run,
    scalar_run_is_step, scalars_parameters, scalars_rules, skipped, skipped_judgments,
    skipped_scalar, RuleKey, TraceEvent, TraceSkipReason,
};
use vstd::prelude::*;

verus! {

/// Whether evaluating a formula leaves the events.
pub open spec fn leaves(at: Place, e: ScalarExpr, log: Seq<TraceEvent>) -> bool {
    scalar_run(at.cx, at.fuel, e, at.ent, at.context) matches Some(run) && run.log == log
}

/// Whether evaluating a judgment leaves the events.
pub open spec fn judgment_leaves(at: Place, e: JudgmentExpr, log: Seq<TraceEvent>) -> bool {
    judgment_run(at.cx, at.fuel, e, at.ent, at.context) matches Some(run) && run.log == log
}

/// The parts of a formula, with the patterns of a `match` fallback, which are shown and not
/// evaluated.
pub open spec fn written_parts(q: Part) -> Seq<Part> {
    match q {
        Part::Scalar(ScalarExpr::NoMatch { subject, patterns }) => seq![Part::Scalar(*subject)]
            + scalar_items(patterns@),
        _ => parts(q),
    }
}

/// The rules that are named in a formula.
pub open spec fn rules_in(q: Part) -> Seq<Seq<char>> {
    match q {
        Part::Scalar(e) => scalar_rules(e),
        Part::Judgment(e) => judgment_rules(e),
    }
}

/// The parameters that are named in a formula.
pub open spec fn parameters_in(q: Part) -> Seq<Seq<char>> {
    match q {
        Part::Scalar(e) => scalar_parameters(e),
        Part::Judgment(e) => judgment_parameters(e),
    }
}

pub open spec fn rules_in_itself(q: Part) -> Seq<Seq<char>> {
    match q {
        Part::Scalar(ScalarExpr::Derived(name)) => seq![name@],
        Part::Scalar(ScalarExpr::SumRelated { value: RelatedValueRef::Derived(name), .. }) => seq![
            name@,
        ],
        Part::Judgment(JudgmentExpr::Derived(name)) => seq![name@],
        _ => Seq::empty(),
    }
}

pub open spec fn parameters_in_itself(q: Part) -> Seq<Seq<char>> {
    match q {
        Part::Scalar(ScalarExpr::ParameterLookup { parameter, .. }) => seq![parameter@],
        _ => Seq::empty(),
    }
}

proof fn gathered_after<X>(first: Part, rest: Seq<Part>, of: spec_fn(Part) -> Seq<X>)
    ensures
        gathered(seq![first] + rest, of) == of(first) + gathered(rest, of),
    decreases rest.len(),
{
    let all = seq![first] + rest;
    if rest.len() == 0 {
        few(all, of);
        few(rest, of);
        assert(gathered(all, of) =~= of(first) + gathered(rest, of));
    } else {
        gathered_after(first, rest.drop_last(), of);
        assert(all.drop_last() =~= seq![first] + rest.drop_last());
        assert(all.last() == rest.last());
        assert(gathered(all, of) =~= of(first) + gathered(rest, of));
    }
}

/// The rules that are named in a formula are the one that it names itself, and those that are named
/// in its parts, in the order in which they stand there.
pub proof fn a_formula_names_the_rules_of_its_parts(q: Part)
    ensures
        rules_in(q) == rules_in_itself(q) + gathered(written_parts(q), |x: Part| rules_in(x)),
{
    let of = |x: Part| rules_in(x);
    let list = written_parts(q);
    few(list, of);
    match q {
        Part::Scalar(e) => match e {
            ScalarExpr::Add(items) | ScalarExpr::Max(items) | ScalarExpr::Min(items) => {
                many(list, of, |n: nat| scalars_rules(items@, n), list.len());
                assert(list.take(list.len() as int) =~= list);
            },
            ScalarExpr::NoMatch { subject, patterns } => {
                let rest = scalar_items(patterns@);
                many(rest, of, |n: nat| scalars_rules(patterns@, n), rest.len());
                assert(rest.take(rest.len() as int) =~= rest);
                gathered_after(Part::Scalar(*subject), rest, of);
            },
            _ => {},
        },
        Part::Judgment(e) => match e {
            JudgmentExpr::And(items) | JudgmentExpr::Or(items) => {
                many(list, of, |n: nat| judgments_rules(items@, n), list.len());
                assert(list.take(list.len() as int) =~= list);
            },
            _ => {},
        },
    }
    assert(rules_in(q) =~= rules_in_itself(q) + gathered(list, of));
}

/// The parameters that are named in a formula are the one that it reads itself, and those that are
/// named in its parts, in the order in which they stand there.
pub proof fn a_formula_names_the_parameters_of_its_parts(q: Part)
    ensures
        parameters_in(q) == parameters_in_itself(q) + gathered(
            written_parts(q),
            |x: Part| parameters_in(x),
        ),
{
    let of = |x: Part| parameters_in(x);
    let list = written_parts(q);
    few(list, of);
    match q {
        Part::Scalar(e) => match e {
            ScalarExpr::Add(items) | ScalarExpr::Max(items) | ScalarExpr::Min(items) => {
                many(list, of, |n: nat| scalars_parameters(items@, n), list.len());
                assert(list.take(list.len() as int) =~= list);
            },
            ScalarExpr::NoMatch { subject, patterns } => {
                let rest = scalar_items(patterns@);
                many(rest, of, |n: nat| scalars_parameters(patterns@, n), rest.len());
                assert(rest.take(rest.len() as int) =~= rest);
                gathered_after(Part::Scalar(*subject), rest, of);
            },
            _ => {},
        },
        Part::Judgment(e) => match e {
            JudgmentExpr::And(items) | JudgmentExpr::Or(items) => {
                many(list, of, |n: nat| judgments_parameters(items@, n), list.len());
                assert(list.take(list.len() as int) =~= list);
            },
            _ => {},
        },
    }
    assert(parameters_in(q) =~= parameters_in_itself(q) + gathered(list, of));
}

/// A reference to a rule leaves one event: that the rule was depended on, for the entity and in the
/// period of the evaluation. What the rule itself depends on is not repeated.
pub proof fn a_reference_is_traced_as_a_dependency(at: Place, name: String)
    requires
        at.context is None,
        at.fuel > 0,
        at.cx.program.rule(name@) is Some,
    ensures
        ({
            let key = RuleKey { derived: name@, entity_id: at.ent, period: at.cx.period };
            let log = seq![TraceEvent::Dependency(key)];
            &&& rule_scalar(at.cx, (at.fuel - 1) as nat, name@, at.ent) is Some ==> leaves(
                at,
                ScalarExpr::Derived(name),
                log,
            )
            &&& rule_judgment(at.cx, (at.fuel - 1) as nat, name@, at.ent) is Some ==> judgment_leaves(
                at,
                JudgmentExpr::Derived(name),
                log,
            )
        }),
{
    scalar_run_is_step(at.cx, at.fuel, ScalarExpr::Derived(name), at.ent, at.context);
    judgment_run_is_step(at.cx, at.fuel, JudgmentExpr::Derived(name), at.ent, at.context);
}

/// A value that is read of a table leaves, behind what its index leaves, the parameter, the index, the
/// value and the dates of the version that it was read of.
pub proof fn a_read_is_traced_with_its_version(
    at: Place,
    parameter: String,
    index: ScalarExpr,
    p: IndexedParameter,
    version: ParameterVersion,
    key: i64,
    log: Seq<TraceEvent>,
)
    requires
        at.cx.program.parameter(parameter@) == Some(p),
        at.gives(index, ScalarValue::Integer(key)),
        leaves(at, index, log),
        p.version_at(at.cx.period.start) == Some(version),
        version.values@.contains_key(key),
    ensures
        leaves(
            at,
            ScalarExpr::ParameterLookup { parameter, index: Box::new(index) },
            log.push(
                TraceEvent::Read {
                    parameter: parameter@,
                    index: key,
                    value: version.values@[key],
                    effective_from: version.effective_from,
                    effective_to: version.effective_to,
                },
            ),
        ),
{
    let e = ScalarExpr::ParameterLookup { parameter, index: Box::new(index) };
    scalar_run_is_step(at.cx, at.fuel, e, at.ent, at.context);
    let run = scalar_run(at.cx, at.fuel, e, at.ent, at.context)->0;
    assert(run.log =~= log.push(
        TraceEvent::Read {
            parameter: parameter@,
            index: key,
            value: version.values@[key],
            effective_from: version.effective_from,
            effective_to: version.effective_to,
        },
    ));
}

/// Whether events say of every rule and parameter that is named in a formula, and of nothing else,
/// that it was passed over for the reason.
pub open spec fn passes_over(
    at: Place,
    q: Part,
    reason: TraceSkipReason,
    log: Seq<TraceEvent>,
) -> bool {
    &&& log.len() == rules_in(q).len() + parameters_in(q).len()
    &&& forall|i: int|
        0 <= i < rules_in(q).len() ==> ((#[trigger] log[i]) matches TraceEvent::SkippedRule {
            key,
            reason: r,
        } && key.derived == rules_in(q)[i] && key.period == at.cx.period && (at.context is None
            ==> key.entity_id == at.ent) && r == reason)
    &&& forall|i: int|
        0 <= i < parameters_in(q).len() ==> #[trigger] log[rules_in(q).len() + i]
            == (TraceEvent::SkippedParameter { parameter: parameters_in(q)[i], reason })
}

proof fn skipped_passes_over(at: Place, q: Part, reason: TraceSkipReason)
    ensures
        passes_over(
            at,
            q,
            reason,
            skipped(at.cx, rules_in(q), parameters_in(q), at.ent, at.context, reason),
        ),
{
}

/// A conditional leaves what its condition leaves, then that the branch which is not taken was passed
/// over, and then what the branch that is taken leaves.
pub proof fn a_branch_that_is_not_taken_is_passed_over(
    at: Place,
    condition: JudgmentExpr,
    then_expr: ScalarExpr,
    else_expr: ScalarExpr,
    outcome: JudgmentOutcome,
    taken: ScalarExpr,
    other: ScalarExpr,
    first: Seq<TraceEvent>,
    last: Seq<TraceEvent>,
)
    requires
        at.finds(condition, outcome),
        judgment_leaves(at, condition, first),
        outcome is Holds ==> taken == then_expr && other == else_expr,
        !(outcome is Holds) ==> taken == else_expr && other == then_expr,
        leaves(at, taken, last),
    ensures
        exists|between: Seq<TraceEvent>|
            {
                &&& leaves(
                    at,
                    ScalarExpr::If {
                        condition: Box::new(condition),
                        then_expr: Box::new(then_expr),
                        else_expr: Box::new(else_expr),
                    },
                    first + between + last,
                )
                &&& #[trigger] passes_over(
                    at,
                    Part::Scalar(other),
                    TraceSkipReason::BranchNotSelected,
                    between,
                )
            },
{
    let e = ScalarExpr::If {
        condition: Box::new(condition),
        then_expr: Box::new(then_expr),
        else_expr: Box::new(else_expr),
    };
    scalar_run_is_step(at.cx, at.fuel, e, at.ent, at.context);
    skipped_passes_over(at, Part::Scalar(other), TraceSkipReason::BranchNotSelected);
    let between = skipped_scalar(
        at.cx,
        other,
        at.ent,
        at.context,
        TraceSkipReason::BranchNotSelected,
    );
    assert(passes_over(at, Part::Scalar(other), TraceSkipReason::BranchNotSelected, between));
    assert(leaves(at, e, first + between + last));
}

/// Operands leave their events one after the other: a difference, a product and a comparison those of
/// the left one first, a quotient those of the divisor first.
pub proof fn operands_leave_their_events_in_order(
    at: Place,
    left: ScalarExpr,
    right: ScalarExpr,
    a: ScalarValue,
    b: ScalarValue,
    first: Seq<TraceEvent>,
    second: Seq<TraceEvent>,
    op: crate::model::ComparisonOp,
)
    requires
        at.gives(left, a),
        at.gives(right, b),
        leaves(at, left, first),
        leaves(at, right, second),
        a.number() is Some,
        b.number() is Some,
        b.number()->0.magnitude() != 0,
    ensures
        leaves(at, ScalarExpr::Sub(Box::new(left), Box::new(right)), first + second),
        leaves(at, ScalarExpr::Mul(Box::new(left), Box::new(right)), first + second),
        leaves(at, ScalarExpr::Div(Box::new(left), Box::new(right)), second + first),
        judgment_leaves(at, JudgmentExpr::Comparison { left, op, right }, first + second),
{
    scalar_run_is_step(
        at.cx,
        at.fuel,
        ScalarExpr::Sub(Box::new(left), Box::new(right)),
        at.ent,
        at.context,
    );
    scalar_run_is_step(
        at.cx,
        at.fuel,
        ScalarExpr::Mul(Box::new(left), Box::new(right)),
        at.ent,
        at.context,
    );
    scalar_run_is_step(
        at.cx,
        at.fuel,
        ScalarExpr::Div(Box::new(left), Box::new(right)),
        at.ent,
        at.context,
    );
    judgment_run_is_step(
        at.cx,
        at.fuel,
        JudgmentExpr::Comparison { left, op, right },
        at.ent,
        at.context,
    );
}

/// Whether events say, item by item, that the items from `from` on were passed over.
pub open spec fn passes_over_items(
    at: Place,
    items: Seq<JudgmentExpr>,
    from: nat,
    log: Seq<TraceEvent>,
) -> bool
    decreases items.len() - from,
{
    if from >= items.len() {
        log.len() == 0
    } else {
        let q = Part::Judgment(items[from as int]);
        let own = (rules_in(q).len() + parameters_in(q).len()) as int;
        &&& own <= log.len()
        &&& passes_over(at, q, TraceSkipReason::ShortCircuit, log.take(own))
        &&& passes_over_items(at, items, from + 1, log.skip(own))
    }
}

proof fn skipped_items_pass_over(at: Place, items: Seq<JudgmentExpr>, from: nat)
    ensures
        passes_over_items(
            at,
            items,
            from,
            skipped_judgments(at.cx, items, from, at.ent, at.context),
        ),
    decreases items.len() - from,
{
    if from < items.len() {
        skipped_items_pass_over(at, items, from + 1);
        let q = Part::Judgment(items[from as int]);
        let own = skipped(
            at.cx,
            rules_in(q),
            parameters_in(q),
            at.ent,
            at.context,
            TraceSkipReason::ShortCircuit,
        );
        skipped_passes_over(at, q, TraceSkipReason::ShortCircuit);
        let log = skipped_judgments(at.cx, items, from, at.ent, at.context);
        assert(log.take(own.len() as int) =~= own);
        assert(log.skip(own.len() as int) =~= skipped_judgments(
            at.cx,
            items,
            from + 1,
            at.ent,
            at.context,
        ));
    }
}

/// A connective whose first item decides it leaves what that item leaves, and then, item by item,
/// that the others were passed over.
pub proof fn items_behind_the_decision_are_passed_over(
    at: Place,
    items: Vec<JudgmentExpr>,
    first: Seq<TraceEvent>,
)
    requires
        items@.len() > 0,
        judgment_leaves(at, items@[0], first),
    ensures
        at.finds(items@[0], JudgmentOutcome::NotHolds) ==> exists|rest: Seq<TraceEvent>|
            judgment_leaves(at, JudgmentExpr::And(items), first + rest)
                && #[trigger] passes_over_items(at, items@, 1, rest),
        at.finds(items@[0], JudgmentOutcome::Holds) ==> exists|rest: Seq<TraceEvent>|
            judgment_leaves(at, JudgmentExpr::Or(items), first + rest)
                && #[trigger] passes_over_items(at, items@, 1, rest),
{
    judgment_run_is_step(at.cx, at.fuel, JudgmentExpr::And(items), at.ent, at.context);
    judgment_run_is_step(at.cx, at.fuel, JudgmentExpr::Or(items), at.ent, at.context);
    let rest = skipped_judgments(at.cx, items@, 1, at.ent, at.context);
    skipped_items_pass_over(at, items@, 1);
    assert(passes_over_items(at, items@, 1, rest));
    if at.finds(items@[0], JudgmentOutcome::NotHolds) {
        assert(judgment_leaves(at, JudgmentExpr::And(items), first + rest));
    }
    if at.finds(items@[0], JudgmentOutcome::Holds) {
        assert(judgment_leaves(at, JudgmentExpr::Or(items), first + rest));
    }
}

} // verus!
