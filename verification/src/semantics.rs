//! The reference semantics of rules.
//!
//! The value of a formula, and the trace that evaluating it leaves, as functions
//! of the program, the facts and the period. Every evaluator of this crate is
//! stated against these functions.
//!
//! Rules refer to rules and relations to relations, so a program may be cyclic.
//! Each function takes a bound on the depth of such references and is `None`
//! where the bound does not suffice.
use crate::date::Date;
use crate::decimal::{decimal_difference, decimal_product, decimal_sum, Decimal};
use crate::error::{divided, in_range, ErrorView};
use crate::format::{operand_label, operand_labels, value_label};
use crate::model::{
    ComparisonOp, DataView, Derived, DerivedSemantics, InputRecord, JudgmentExpr, JudgmentOutcome,
    PeriodView, Program, RelatedValueRef, RelationDerivation, Rounding, ScalarExpr, ScalarValue,
};
use crate::text::{digits, sorted_texts};
use vstd::prelude::*;

verus! {

/// A program with the facts and the period that it is evaluated on.
pub ghost struct Facts {
    pub program: Program,
    pub data: DataView,
    pub period: PeriodView,
}

/// A rule for an entity over a period.
pub ghost struct RuleKey {
    pub derived: Seq<char>,
    pub entity_id: Seq<char>,
    pub period: PeriodView,
}

/// Why a referenced rule or parameter was not evaluated.
#[derive(Clone, Copy, Debug, PartialEq, Eq, Structural)]
pub enum TraceSkipReason {
    ShortCircuit,
    BranchNotSelected,
}

/// One step of a trace.
pub ghost enum TraceEvent {
    /// The rule was evaluated.
    Dependency(RuleKey),
    /// The rule was not evaluated.
    SkippedRule { key: RuleKey, reason: TraceSkipReason },
    /// The parameter was not read.
    SkippedParameter { parameter: Seq<char>, reason: TraceSkipReason },
    /// The parameter was read.
    Read {
        parameter: Seq<char>,
        index: i64,
        value: ScalarValue,
        effective_from: Date,
        effective_to: Option<Date>,
    },
}

/// A finished evaluation: its value or error, and the trace it leaves.
pub ghost struct Eval<T> {
    pub value: Result<T, ErrorView>,
    pub log: Seq<TraceEvent>,
}

/// The two entities between which a derived relation's predicate is evaluated.
pub ghost struct RelationContext {
    pub current_id: Seq<char>,
    pub related_id: Seq<char>,
    pub current_entity: Option<Seq<char>>,
    pub related_entity: Option<Seq<char>>,
}

/// An evaluation that leaves no trace.
pub open spec fn done<T>(value: Result<T, ErrorView>) -> Option<Eval<T>> {
    Some(Eval { value, log: Seq::empty() })
}

/// An evaluation after the steps of `log`.
pub open spec fn after<T>(log: Seq<TraceEvent>, run: Option<Eval<T>>) -> Option<Eval<T>> {
    match run {
        Some(eval) => Some(Eval { value: eval.value, log: log + eval.log }),
        None => None,
    }
}

/// `left`, then `right`; an error of `left` ends the evaluation.
pub open spec fn both<A, B>(left: Option<Eval<A>>, right: Option<Eval<B>>) -> Option<Eval<(A, B)>> {
    match left {
        None => None,
        Some(l) => match l.value {
            Err(error) => Some(Eval { value: Err(error), log: l.log }),
            Ok(a) => match right {
                None => None,
                Some(r) => Some(
                    Eval {
                        value: match r.value {
                            Ok(b) => Ok((a, b)),
                            Err(error) => Err(error),
                        },
                        log: l.log + r.log,
                    },
                ),
            },
        },
    }
}

/// `run` with its value handed to `f`.
pub open spec fn finish<A, B>(run: Option<Eval<A>>, f: spec_fn(A) -> Result<B, ErrorView>) -> Option<
    Eval<B>,
> {
    match run {
        None => None,
        Some(eval) => Some(
            Eval {
                value: match eval.value {
                    Ok(a) => f(a),
                    Err(error) => Err(error),
                },
                log: eval.log,
            },
        ),
    }
}

/// The entity for which a rule of `entity` is evaluated.
pub open spec fn entity_for(
    context: Option<RelationContext>,
    entity: Seq<char>,
    default: Seq<char>,
) -> Seq<char> {
    match context {
        Some(c) => if c.current_entity == Some(entity) {
            c.current_id
        } else if c.related_entity == Some(entity) {
            c.related_id
        } else {
            default
        },
        None => default,
    }
}

/// Whether an input record states `name` of `entity_id` over the whole period.
pub open spec fn input_covers(
    record: InputRecord,
    name: Seq<char>,
    entity_id: Seq<char>,
    period: PeriodView,
) -> bool {
    record.name@ == name && record.entity_id@ == entity_id && record.interval.covers(period)
}

/// Among the first `n` records, the first of those that cover the period from
/// the latest start.
pub open spec fn input_choice(
    inputs: Seq<InputRecord>,
    name: Seq<char>,
    entity_id: Seq<char>,
    period: PeriodView,
    n: nat,
) -> Option<nat>
    decreases n,
{
    if n == 0 {
        None
    } else {
        let before = input_choice(inputs, name, entity_id, period, (n - 1) as nat);
        let last = inputs[n - 1];
        if !input_covers(last, name, entity_id, period) {
            before
        } else {
            match before {
                Some(i) if inputs[i as int].interval.start.number()
                    >= last.interval.start.number() => before,
                _ => Some((n - 1) as nat),
            }
        }
    }
}

/// Whether another record from the same start states another value.
pub open spec fn input_conflicts(
    inputs: Seq<InputRecord>,
    name: Seq<char>,
    entity_id: Seq<char>,
    period: PeriodView,
    chosen: nat,
) -> bool {
    exists|j: int|
        0 <= j < inputs.len() && input_covers(#[trigger] inputs[j], name, entity_id, period)
            && inputs[j].interval.start == inputs[chosen as int].interval.start
            && !inputs[j].value.equals(inputs[chosen as int].value)
}

/// The value of an input: that of the latest spell that covers the period.
pub open spec fn input_value(cx: Facts, name: Seq<char>, entity_id: Seq<char>) -> Result<
    ScalarValue,
    ErrorView,
> {
    let inputs = cx.data.inputs;
    match input_choice(inputs, name, entity_id, cx.period, inputs.len()) {
        None => Err(
            ErrorView::MissingInput {
                name,
                entity_id,
                period_start: cx.period.start,
                period_end: cx.period.end,
            },
        ),
        Some(i) => if input_conflicts(inputs, name, entity_id, cx.period, i) {
            Err(
                ErrorView::AmbiguousInput {
                    name,
                    entity_id,
                    effective_from: inputs[i as int].interval.start,
                },
            )
        } else {
            Ok(inputs[i as int].value)
        },
    }
}

/// Reading a parameter at a key.
pub open spec fn parameter_read(cx: Facts, name: Seq<char>, key: i64) -> Eval<ScalarValue> {
    match cx.program.parameter(name) {
        None => Eval { value: Err(ErrorView::UnknownParameter(name)), log: Seq::empty() },
        Some(parameter) => match parameter.version_at(cx.period.start) {
            Some(version) if version.values@.contains_key(key) => Eval {
                value: Ok(version.values@[key]),
                log: seq![
                    TraceEvent::Read {
                        parameter: name,
                        index: key,
                        value: version.values@[key],
                        effective_from: version.effective_from,
                        effective_to: version.effective_to,
                    },
                ],
            },
            _ => Eval {
                value: Err(
                    ErrorView::MissingParameterValue { parameter: name, key, at: cx.period.start },
                ),
                log: Seq::empty(),
            },
        },
    }
}

/// A value as a number.
pub open spec fn as_number(value: ScalarValue) -> Result<Decimal, ErrorView> {
    match value.number() {
        Some(number) => Ok(number),
        None => Err(ErrorView::TypeMismatch("expected numeric scalar"@)),
    }
}

/// A value as a day, or the error with `message`.
pub open spec fn as_day(value: ScalarValue, message: Seq<char>) -> Result<Date, ErrorView> {
    match value.day() {
        Some(day) => Ok(day),
        None => Err(ErrorView::TypeMismatch(message)),
    }
}

/// A value as an exact integer, or the error with `message`.
pub open spec fn as_count(value: ScalarValue, message: Seq<char>) -> Result<i64, ErrorView> {
    match value.index() {
        Some(count) => Ok(count),
        None => Err(ErrorView::TypeMismatch(message)),
    }
}

/// A date, or the error that it lies outside the calendar.
pub open spec fn in_calendar(date: Option<Date>, message: Seq<char>) -> Result<Date, ErrorView> {
    match date {
        Some(date) => Ok(date),
        None => Err(ErrorView::TypeMismatch(message)),
    }
}

/// `base` shifted by days.
pub open spec fn shifted_days(base: Date, offset: i64) -> Result<Date, ErrorView> {
    in_calendar(
        base.days_later(offset as int),
        "date_add_days result is outside the supported date range"@,
    )
}

/// `base` shifted by calendar months. A count beyond 32 bits leaves the calendar.
pub open spec fn shifted_months(base: Date, offset: i64) -> Result<Date, ErrorView> {
    in_calendar(
        if -0xffff_ffff <= offset <= 0xffff_ffff {
            base.months_later(offset as int)
        } else {
            None
        },
        "date_add_months result is outside the supported date range"@,
    )
}

/// `base` shifted by calendar years.
pub open spec fn shifted_years(base: Date, offset: i64) -> Result<Date, ErrorView> {
    in_calendar(
        if -0xffff_ffff <= offset * 12 <= 0xffff_ffff {
            base.months_later(offset * 12)
        } else {
            None
        },
        "date_add_years result is outside the supported date range"@,
    )
}

/// The comparison of two days.
pub open spec fn days_compare(a: Date, op: ComparisonOp, b: Date) -> bool {
    match op {
        ComparisonOp::Lt => a.number() < b.number(),
        ComparisonOp::Lte => a.number() <= b.number(),
        ComparisonOp::Gt => a.number() > b.number(),
        ComparisonOp::Gte => a.number() >= b.number(),
        ComparisonOp::Eq => a == b,
        ComparisonOp::Ne => a != b,
    }
}

/// The comparison of two numbers by value.
pub open spec fn numbers_compare(a: Decimal, op: ComparisonOp, b: Decimal) -> bool {
    match op {
        ComparisonOp::Lt => a.below(b),
        ComparisonOp::Lte => !b.below(a),
        ComparisonOp::Gt => b.below(a),
        ComparisonOp::Gte => !a.below(b),
        ComparisonOp::Eq => a.equals(b),
        ComparisonOp::Ne => !a.equals(b),
    }
}

/// The comparison of values that are equal or not, and without order.
pub open spec fn equality_compare(equal: bool, op: ComparisonOp, message: Seq<char>) -> Result<
    bool,
    ErrorView,
> {
    match op {
        ComparisonOp::Eq => Ok(equal),
        ComparisonOp::Ne => Ok(!equal),
        _ => Err(ErrorView::TypeMismatch(message)),
    }
}

/// The comparison of two values: booleans and texts for equality only, days by
/// date, and anything else as numbers.
pub open spec fn values_compare(left: ScalarValue, op: ComparisonOp, right: ScalarValue) -> Result<
    bool,
    ErrorView,
> {
    match (left, right) {
        (ScalarValue::Bool(a), ScalarValue::Bool(b)) => equality_compare(
            a == b,
            op,
            "boolean comparisons only support == and !="@,
        ),
        (ScalarValue::Text(a), ScalarValue::Text(b)) => equality_compare(
            a@ == b@,
            op,
            "text comparisons only support == and !="@,
        ),
        (ScalarValue::Date(a), ScalarValue::Date(b)) => Ok(days_compare(a, op, b)),
        _ => match left.number() {
            None => Err(ErrorView::TypeMismatch("left side of comparison is not numeric"@)),
            Some(a) => match right.number() {
                None => Err(ErrorView::TypeMismatch("right side of comparison is not numeric"@)),
                Some(b) => Ok(numbers_compare(a, op, b)),
            },
        },
    }
}

/// Names of the rules that a scalar formula mentions, in order.
pub open spec fn scalar_rules(e: ScalarExpr) -> Seq<Seq<char>>
    decreases e, 1int, 0int,
{
    match e {
        ScalarExpr::Derived(name) => seq![name@],
        ScalarExpr::ParameterLookup { index, .. } => scalar_rules(*index),
        ScalarExpr::Add(items) => scalars_rules(items@, items@.len()),
        ScalarExpr::Max(items) => scalars_rules(items@, items@.len()),
        ScalarExpr::Min(items) => scalars_rules(items@, items@.len()),
        ScalarExpr::Sub(a, b) => scalar_rules(*a) + scalar_rules(*b),
        ScalarExpr::Mul(a, b) => scalar_rules(*a) + scalar_rules(*b),
        ScalarExpr::Div(a, b) => scalar_rules(*a) + scalar_rules(*b),
        ScalarExpr::Ceil(a) => scalar_rules(*a),
        ScalarExpr::Floor(a) => scalar_rules(*a),
        ScalarExpr::DateAddDays { date, days } => scalar_rules(*date) + scalar_rules(*days),
        ScalarExpr::DateAddMonths { date, months } => scalar_rules(*date) + scalar_rules(*months),
        ScalarExpr::DateAddYears { date, years } => scalar_rules(*date) + scalar_rules(*years),
        ScalarExpr::DaysBetween { from, to } => scalar_rules(*from) + scalar_rules(*to),
        ScalarExpr::CountRelated { where_clause, .. } => match where_clause {
            Some(w) => judgment_rules(*w),
            None => Seq::empty(),
        },
        ScalarExpr::SumRelated { value, where_clause, .. } => {
            let own = match value {
                RelatedValueRef::Derived(name) => seq![name@],
                RelatedValueRef::Input(_) => Seq::empty(),
            };
            match where_clause {
                Some(w) => own + judgment_rules(*w),
                None => own,
            }
        },
        ScalarExpr::If { condition, then_expr, else_expr } => judgment_rules(*condition)
            + scalar_rules(*then_expr) + scalar_rules(*else_expr),
        ScalarExpr::NoMatch { subject, patterns } => scalar_rules(*subject) + scalars_rules(
            patterns@,
            patterns@.len(),
        ),
        ScalarExpr::OverPeriods { value, n, .. } => match n {
            Some(n) => scalar_rules(*value) + scalar_rules(*n),
            None => scalar_rules(*value),
        },
        _ => Seq::empty(),
    }
}

pub open spec fn scalars_rules(items: Seq<ScalarExpr>, n: nat) -> Seq<Seq<char>>
    decreases items, 0int, n,
{
    if n == 0 || n > items.len() {
        Seq::empty()
    } else {
        scalars_rules(items, (n - 1) as nat) + scalar_rules(items[n - 1])
    }
}

/// Names of the rules that a judgment formula mentions, in order.
pub open spec fn judgment_rules(e: JudgmentExpr) -> Seq<Seq<char>>
    decreases e, 1int, 0int,
{
    match e {
        JudgmentExpr::Comparison { left, right, .. } => scalar_rules(left) + scalar_rules(right),
        JudgmentExpr::Derived(name) => seq![name@],
        JudgmentExpr::RelationMember { .. } => Seq::empty(),
        JudgmentExpr::And(items) => judgments_rules(items@, items@.len()),
        JudgmentExpr::Or(items) => judgments_rules(items@, items@.len()),
        JudgmentExpr::Not(item) => judgment_rules(*item),
    }
}

pub open spec fn judgments_rules(items: Seq<JudgmentExpr>, n: nat) -> Seq<Seq<char>>
    decreases items, 0int, n,
{
    if n == 0 || n > items.len() {
        Seq::empty()
    } else {
        judgments_rules(items, (n - 1) as nat) + judgment_rules(items[n - 1])
    }
}

/// Names of the parameters that a scalar formula mentions, in order.
pub open spec fn scalar_parameters(e: ScalarExpr) -> Seq<Seq<char>>
    decreases e, 1int, 0int,
{
    match e {
        ScalarExpr::ParameterLookup { parameter, index } => seq![parameter@] + scalar_parameters(
            *index,
        ),
        ScalarExpr::Add(items) => scalars_parameters(items@, items@.len()),
        ScalarExpr::Max(items) => scalars_parameters(items@, items@.len()),
        ScalarExpr::Min(items) => scalars_parameters(items@, items@.len()),
        ScalarExpr::Sub(a, b) => scalar_parameters(*a) + scalar_parameters(*b),
        ScalarExpr::Mul(a, b) => scalar_parameters(*a) + scalar_parameters(*b),
        ScalarExpr::Div(a, b) => scalar_parameters(*a) + scalar_parameters(*b),
        ScalarExpr::Ceil(a) => scalar_parameters(*a),
        ScalarExpr::Floor(a) => scalar_parameters(*a),
        ScalarExpr::DateAddDays { date, days } => scalar_parameters(*date) + scalar_parameters(
            *days,
        ),
        ScalarExpr::DateAddMonths { date, months } => scalar_parameters(*date)
            + scalar_parameters(*months),
        ScalarExpr::DateAddYears { date, years } => scalar_parameters(*date) + scalar_parameters(
            *years,
        ),
        ScalarExpr::DaysBetween { from, to } => scalar_parameters(*from) + scalar_parameters(*to),
        ScalarExpr::CountRelated { where_clause, .. } => match where_clause {
            Some(w) => judgment_parameters(*w),
            None => Seq::empty(),
        },
        ScalarExpr::SumRelated { where_clause, .. } => match where_clause {
            Some(w) => judgment_parameters(*w),
            None => Seq::empty(),
        },
        ScalarExpr::If { condition, then_expr, else_expr } => judgment_parameters(*condition)
            + scalar_parameters(*then_expr) + scalar_parameters(*else_expr),
        ScalarExpr::NoMatch { subject, patterns } => scalar_parameters(*subject)
            + scalars_parameters(patterns@, patterns@.len()),
        ScalarExpr::OverPeriods { value, n, .. } => match n {
            Some(n) => scalar_parameters(*value) + scalar_parameters(*n),
            None => scalar_parameters(*value),
        },
        _ => Seq::empty(),
    }
}

pub open spec fn scalars_parameters(items: Seq<ScalarExpr>, n: nat) -> Seq<Seq<char>>
    decreases items, 0int, n,
{
    if n == 0 || n > items.len() {
        Seq::empty()
    } else {
        scalars_parameters(items, (n - 1) as nat) + scalar_parameters(items[n - 1])
    }
}

/// Names of the parameters that a judgment formula mentions, in order.
pub open spec fn judgment_parameters(e: JudgmentExpr) -> Seq<Seq<char>>
    decreases e, 1int, 0int,
{
    match e {
        JudgmentExpr::Comparison { left, right, .. } => scalar_parameters(left)
            + scalar_parameters(right),
        JudgmentExpr::Derived(_) => Seq::empty(),
        JudgmentExpr::RelationMember { .. } => Seq::empty(),
        JudgmentExpr::And(items) => judgments_parameters(items@, items@.len()),
        JudgmentExpr::Or(items) => judgments_parameters(items@, items@.len()),
        JudgmentExpr::Not(item) => judgment_parameters(*item),
    }
}

pub open spec fn judgments_parameters(items: Seq<JudgmentExpr>, n: nat) -> Seq<Seq<char>>
    decreases items, 0int, n,
{
    if n == 0 || n > items.len() {
        Seq::empty()
    } else {
        judgments_parameters(items, (n - 1) as nat) + judgment_parameters(items[n - 1])
    }
}

/// The trace of rules and parameters that were mentioned and not evaluated.
pub open spec fn skipped(
    cx: Facts,
    rules: Seq<Seq<char>>,
    parameters: Seq<Seq<char>>,
    entity_id: Seq<char>,
    context: Option<RelationContext>,
    reason: TraceSkipReason,
) -> Seq<TraceEvent> {
    rules.map_values(
        |name: Seq<char>|
            TraceEvent::SkippedRule {
                key: RuleKey {
                    derived: name,
                    entity_id: match cx.program.rule(name) {
                        Some(d) => entity_for(context, d.entity@, entity_id),
                        None => entity_id,
                    },
                    period: cx.period,
                },
                reason,
            },
    ) + parameters.map_values(
        |name: Seq<char>| TraceEvent::SkippedParameter { parameter: name, reason },
    )
}

/// The trace of a scalar formula that was not evaluated.
pub open spec fn skipped_scalar(
    cx: Facts,
    e: ScalarExpr,
    entity_id: Seq<char>,
    context: Option<RelationContext>,
    reason: TraceSkipReason,
) -> Seq<TraceEvent> {
    skipped(cx, scalar_rules(e), scalar_parameters(e), entity_id, context, reason)
}

/// The trace of the judgments from `from` on that were not evaluated.
pub open spec fn skipped_judgments(
    cx: Facts,
    items: Seq<JudgmentExpr>,
    from: nat,
    entity_id: Seq<char>,
    context: Option<RelationContext>,
) -> Seq<TraceEvent>
    decreases items.len() - from,
{
    if from >= items.len() {
        Seq::empty()
    } else {
        skipped(
            cx,
            judgment_rules(items[from as int]),
            judgment_parameters(items[from as int]),
            entity_id,
            context,
            TraceSkipReason::ShortCircuit,
        ) + skipped_judgments(cx, items, from + 1, entity_id, context)
    }
}

/// Related ids that the first `n` relation records state.
pub open spec fn stated_related(
    cx: Facts,
    relation: Seq<char>,
    current_slot: nat,
    related_slot: nat,
    entity_id: Seq<char>,
    n: nat,
) -> Seq<Seq<char>>
    decreases n,
{
    if n == 0 {
        Seq::empty()
    } else {
        let before = stated_related(
            cx,
            relation,
            current_slot,
            related_slot,
            entity_id,
            (n - 1) as nat,
        );
        let record = cx.data.relations[n - 1];
        if record.name@ == relation && current_slot < record.tuple@.len()
            && record.tuple@[current_slot as int]@ == entity_id && record.interval.covers(cx.period)
            && related_slot < record.tuple@.len() {
            before.push(record.tuple@[related_slot as int]@)
        } else {
            before
        }
    }
}

/// The declared kind of a slot, where there is one.
pub open spec fn slot_kind(kinds: Seq<String>, slot: nat) -> Option<Seq<char>> {
    if slot < kinds.len() {
        Some(kinds[slot as int]@)
    } else {
        None
    }
}

/// The message for slots beyond the arity of a relation.
pub open spec fn slots_message(
    relation: Seq<char>,
    arity: nat,
    current_slot: nat,
    related_slot: nat,
) -> Seq<char> {
    "relation `"@ + relation + "` has arity "@ + digits(arity) + ", but slots "@ + digits(
        current_slot,
    ) + " and "@ + digits(related_slot) + " were requested"@
}

/// A rule's value with the output rounding it declares.
pub open spec fn output_rounded(rounding: Option<Rounding>, value: ScalarValue) -> ScalarValue {
    match (rounding, value) {
        (Some(r), ScalarValue::Decimal(amount)) => ScalarValue::Decimal(r.applied(amount)),
        _ => value,
    }
}

/// What precedes the formula of a rule: the rule exists, its unit is declared
/// and a version applies.
pub open spec fn rule_formula(cx: Facts, name: Seq<char>) -> Result<
    (Derived, DerivedSemantics),
    ErrorView,
> {
    match cx.program.rule(name) {
        None => Err(ErrorView::UnknownDerived(name)),
        Some(d) => match d.unit {
            Some(unit) if cx.program.unit(unit@) is None => Err(ErrorView::UnknownUnit(unit@)),
            _ => match d.formula_at(cx.period.start) {
                None => Err(
                    ErrorView::MissingDerivedFormulaVersion { derived: name, at: cx.period.start },
                ),
                Some(formula) => Ok((d, formula)),
            },
        },
    }
}

/// `run` as it leaves the rule `d`.
pub open spec fn leaving<T>(d: Derived, run: Option<Eval<T>>) -> Option<Eval<T>> {
    match run {
        None => None,
        Some(eval) => Some(
            Eval {
                value: match eval.value {
                    Ok(v) => Ok(v),
                    Err(error) => Err(error.within(d.label())),
                },
                log: eval.log,
            },
        ),
    }
}

/// The scalar value of a rule before output rounding.
pub open spec fn rule_unrounded(cx: Facts, fuel: nat, name: Seq<char>, entity_id: Seq<char>) -> Option<
    Eval<ScalarValue>,
>
    decreases 2 * fuel + 1, cx, 0int, 0int,
{
    match rule_formula(cx, name) {
        Err(error) => done(Err(error)),
        Ok((d, DerivedSemantics::Scalar(e))) => leaving(
            d,
            scalar_run(cx, fuel, e, entity_id, None),
        ),
        Ok((d, DerivedSemantics::Judgment(_))) => done(Err(ErrorView::ExpectedScalar(name))),
    }
}

/// The scalar value of a rule.
pub open spec fn rule_scalar(cx: Facts, fuel: nat, name: Seq<char>, entity_id: Seq<char>) -> Option<
    Eval<ScalarValue>,
>
    decreases 2 * fuel + 1, cx, 1int, 0int,
{
    match cx.program.rule(name) {
        Some(d) => finish(
            rule_unrounded(cx, fuel, name, entity_id),
            |v: ScalarValue| Ok::<ScalarValue, ErrorView>(output_rounded(d.rounding, v)),
        ),
        None => rule_unrounded(cx, fuel, name, entity_id),
    }
}

/// The judgment of a rule.
pub open spec fn rule_judgment(cx: Facts, fuel: nat, name: Seq<char>, entity_id: Seq<char>) -> Option<
    Eval<JudgmentOutcome>,
>
    decreases 2 * fuel + 1, cx, 0int, 0int,
{
    match rule_formula(cx, name) {
        Err(error) => done(Err(error)),
        Ok((d, DerivedSemantics::Judgment(e))) => leaving(
            d,
            judgment_run(cx, fuel, e, entity_id, None),
        ),
        Ok((d, DerivedSemantics::Scalar(_))) => done(Err(ErrorView::ExpectedJudgment(name))),
    }
}

/// A reference to a rule: its value, traced as a dependency.
pub open spec fn referred<T>(key: RuleKey, run: Option<Eval<T>>) -> Option<Eval<T>> {
    match run {
        None => None,
        Some(eval) => Some(
            Eval { value: eval.value, log: seq![TraceEvent::Dependency(key)] },
        ),
    }
}

/// The number that a scalar formula gives.
pub open spec fn number_of(run: Option<Eval<ScalarValue>>) -> Option<Eval<Decimal>> {
    finish(run, |v: ScalarValue| as_number(v))
}

/// The value of a scalar formula for an entity.
#[verifier::opaque]
pub open spec fn scalar_run(
    cx: Facts,
    fuel: nat,
    e: ScalarExpr,
    ent: Seq<char>,
    context: Option<RelationContext>,
) -> Option<Eval<ScalarValue>>
    decreases 2 * fuel, e, 2int, 0int,
{
    scalar_step(cx, fuel, e, ent, context)
}

/// The value of a scalar formula is one step over the values of its parts.
pub proof fn scalar_run_is_step(
    cx: Facts,
    fuel: nat,
    e: ScalarExpr,
    ent: Seq<char>,
    context: Option<RelationContext>,
)
    ensures
        scalar_run(cx, fuel, e, ent, context) == scalar_step(cx, fuel, e, ent, context),
{
    reveal(scalar_run);
}

/// The value of a scalar formula over the values of its parts.
pub open spec fn scalar_step(
    cx: Facts,
    fuel: nat,
    e: ScalarExpr,
    ent: Seq<char>,
    context: Option<RelationContext>,
) -> Option<Eval<ScalarValue>>
    decreases 2 * fuel, e, 1int, 0int,
{
    match e {
        ScalarExpr::Literal(value) => done(Ok(value)),
        ScalarExpr::Input(name) => done(input_value(cx, name@, ent)),
        ScalarExpr::InputOrElse { name, default } => done(
            match input_value(cx, name@, ent) {
                Err(ErrorView::MissingInput { .. }) => Ok(default),
                other => other,
            },
        ),
        ScalarExpr::Derived(name) => match cx.program.rule(name@) {
            None => done(Err(ErrorView::UnknownDerived(name@))),
            Some(d) => {
                let target = entity_for(context, d.entity@, ent);
                if fuel == 0 {
                    None
                } else {
                    referred(
                        RuleKey { derived: name@, entity_id: target, period: cx.period },
                        rule_scalar(cx, (fuel - 1) as nat, name@, target),
                    )
                }
            },
        },
        ScalarExpr::ParameterLookup { parameter, index } => {
            let run = finish(
                scalar_run(cx, fuel, *index, ent, context),
                |v: ScalarValue|
                    as_count(
                        v,
                        "parameter key for `"@ + parameter@ + "` must be an integer"@,
                    ),
            );
            match run {
                None => None,
                Some(eval) => match eval.value {
                    Err(error) => Some(Eval { value: Err(error), log: eval.log }),
                    Ok(key) => after(eval.log, Some(parameter_read(cx, parameter@, key))),
                },
            }
        },
        ScalarExpr::Add(items) => finish(
            sum_run(cx, fuel, items@, items@.len(), ent, context),
            |d: Decimal| Ok::<ScalarValue, ErrorView>(ScalarValue::Decimal(d)),
        ),
        ScalarExpr::Sub(a, b) => finish(
            both(
                number_of(scalar_run(cx, fuel, *a, ent, context)),
                number_of(scalar_run(cx, fuel, *b, ent, context)),
            ),
            |p: (Decimal, Decimal)| as_decimal_value(in_range(decimal_difference(p.0, p.1))),
        ),
        ScalarExpr::Mul(a, b) => finish(
            both(
                number_of(scalar_run(cx, fuel, *a, ent, context)),
                number_of(scalar_run(cx, fuel, *b, ent, context)),
            ),
            |p: (Decimal, Decimal)| as_decimal_value(in_range(decimal_product(p.0, p.1))),
        ),
        ScalarExpr::Div(a, b) => finish(
            both(
                finish(
                    number_of(scalar_run(cx, fuel, *b, ent, context)),
                    |d: Decimal|
                        if d.magnitude() == 0 {
                            Err(ErrorView::DivisionByZero)
                        } else {
                            Ok(d)
                        },
                ),
                number_of(scalar_run(cx, fuel, *a, ent, context)),
            ),
            |p: (Decimal, Decimal)| as_decimal_value(divided(p.1, p.0)),
        ),
        ScalarExpr::Max(items) => if items@.len() == 0 {
            done(Err(ErrorView::TypeMismatch("max() requires at least one operand"@)))
        } else {
            finish(
                extremum_run(cx, fuel, items@, items@.len(), true, ent, context),
                |d: Decimal| Ok::<ScalarValue, ErrorView>(ScalarValue::Decimal(d)),
            )
        },
        ScalarExpr::Min(items) => if items@.len() == 0 {
            done(Err(ErrorView::TypeMismatch("min() requires at least one operand"@)))
        } else {
            finish(
                extremum_run(cx, fuel, items@, items@.len(), false, ent, context),
                |d: Decimal| Ok::<ScalarValue, ErrorView>(ScalarValue::Decimal(d)),
            )
        },
        ScalarExpr::Ceil(a) => finish(
            number_of(scalar_run(cx, fuel, *a, ent, context)),
            |d: Decimal| Ok::<ScalarValue, ErrorView>(ScalarValue::Decimal(d.ceil_value())),
        ),
        ScalarExpr::Floor(a) => finish(
            number_of(scalar_run(cx, fuel, *a, ent, context)),
            |d: Decimal| Ok::<ScalarValue, ErrorView>(ScalarValue::Decimal(d.floor_value())),
        ),
        ScalarExpr::PeriodStart => done(Ok(ScalarValue::Date(cx.period.start))),
        ScalarExpr::PeriodEnd => done(Ok(ScalarValue::Date(cx.period.end))),
        ScalarExpr::DateAddDays { date, days } => finish(
            both(
                finish(
                    scalar_run(cx, fuel, *date, ent, context),
                    |v: ScalarValue| as_day(v, "date_add_days expects a date on the left"@),
                ),
                finish(
                    scalar_run(cx, fuel, *days, ent, context),
                    |v: ScalarValue|
                        as_count(v, "date_add_days expects an integer day count on the right"@),
                ),
            ),
            |p: (Date, i64)| as_date_value(shifted_days(p.0, p.1)),
        ),
        ScalarExpr::DateAddMonths { date, months } => finish(
            both(
                finish(
                    scalar_run(cx, fuel, *date, ent, context),
                    |v: ScalarValue| as_day(v, "date_add_months expects a date on the left"@),
                ),
                finish(
                    scalar_run(cx, fuel, *months, ent, context),
                    |v: ScalarValue|
                        as_count(v, "date_add_months expects an integer month count on the right"@),
                ),
            ),
            |p: (Date, i64)| as_date_value(shifted_months(p.0, p.1)),
        ),
        ScalarExpr::DateAddYears { date, years } => finish(
            both(
                finish(
                    scalar_run(cx, fuel, *date, ent, context),
                    |v: ScalarValue| as_day(v, "date_add_years expects a date on the left"@),
                ),
                finish(
                    scalar_run(cx, fuel, *years, ent, context),
                    |v: ScalarValue|
                        as_count(v, "date_add_years expects an integer year count on the right"@),
                ),
            ),
            |p: (Date, i64)| as_date_value(shifted_years(p.0, p.1)),
        ),
        ScalarExpr::DaysBetween { from, to } => finish(
            both(
                finish(
                    scalar_run(cx, fuel, *from, ent, context),
                    |v: ScalarValue| as_day(v, "days_between expects a date for `from`"@),
                ),
                finish(
                    scalar_run(cx, fuel, *to, ent, context),
                    |v: ScalarValue| as_day(v, "days_between expects a date for `to`"@),
                ),
            ),
            |p: (Date, Date)|
                Ok::<ScalarValue, ErrorView>(
                    ScalarValue::Integer((p.1.number() - p.0.number()) as i64),
                ),
        ),
        ScalarExpr::CountRelated { relation, current_slot, related_slot, .. } => {
            let ids = if fuel == 0 {
                None
            } else {
                related_run(
                    cx,
                    (fuel - 1) as nat,
                    relation@,
                    current_slot as nat,
                    related_slot as nat,
                    ent,
                )
            };
            match ids {
                None => None,
                Some(eval) => match eval.value {
                    Err(error) => Some(Eval { value: Err(error), log: eval.log }),
                    Ok(ids) => after(
                        eval.log,
                        finish(
                            count_run(cx, fuel, e, ids, ids.len()),
                            |n: nat|
                                Ok::<ScalarValue, ErrorView>(ScalarValue::Integer(capped(n))),
                        ),
                    ),
                },
            }
        },
        ScalarExpr::SumRelated { relation, current_slot, related_slot, .. } => {
            let ids = if fuel == 0 {
                None
            } else {
                related_run(
                    cx,
                    (fuel - 1) as nat,
                    relation@,
                    current_slot as nat,
                    related_slot as nat,
                    ent,
                )
            };
            match ids {
                None => None,
                Some(eval) => match eval.value {
                    Err(error) => Some(Eval { value: Err(error), log: eval.log }),
                    Ok(ids) => after(
                        eval.log,
                        finish(
                            total_run(cx, fuel, e, ids, ids.len()),
                            |d: Decimal| Ok::<ScalarValue, ErrorView>(ScalarValue::Decimal(d)),
                        ),
                    ),
                },
            }
        },
        ScalarExpr::If { condition, then_expr, else_expr } => {
            match judgment_run(cx, fuel, *condition, ent, context) {
                None => None,
                Some(c) => match c.value {
                    Err(error) => Some(Eval { value: Err(error), log: c.log }),
                    Ok(outcome) => if outcome is Holds {
                        after(
                            c.log + skipped_scalar(
                                cx,
                                *else_expr,
                                ent,
                                context,
                                TraceSkipReason::BranchNotSelected,
                            ),
                            scalar_run(cx, fuel, *then_expr, ent, context),
                        )
                    } else {
                        after(
                            c.log + skipped_scalar(
                                cx,
                                *then_expr,
                                ent,
                                context,
                                TraceSkipReason::BranchNotSelected,
                            ),
                            scalar_run(cx, fuel, *else_expr, ent, context),
                        )
                    },
                },
            }
        },
        ScalarExpr::NoMatch { subject, patterns } => finish(
            scalar_run(cx, fuel, *subject, ent, context),
            |v: ScalarValue| Err::<ScalarValue, ErrorView>(no_match_error(*subject, v, patterns@)),
        ),
        ScalarExpr::OverPeriods { kind, .. } => done(
            Err(ErrorView::OverPeriodsOutsideLifetime(kind.call_name())),
        ),
    }
}

/// The error of a `match` that reaches its fallback. It names no rule yet.
pub open spec fn no_match_error(
    subject: ScalarExpr,
    value: ScalarValue,
    patterns: Seq<ScalarExpr>,
) -> ErrorView {
    ErrorView::NoMatchingArm {
        rule: Seq::empty(),
        subject: operand_label(subject),
        value: value_label(value),
        patterns: operand_labels(patterns, patterns.len()),
    }
}

/// A number as a value.
pub open spec fn as_decimal_value(r: Result<Decimal, ErrorView>) -> Result<ScalarValue, ErrorView> {
    match r {
        Ok(d) => Ok(ScalarValue::Decimal(d)),
        Err(error) => Err(error),
    }
}

/// A day as a value.
pub open spec fn as_date_value(r: Result<Date, ErrorView>) -> Result<ScalarValue, ErrorView> {
    match r {
        Ok(d) => Ok(ScalarValue::Date(d)),
        Err(error) => Err(error),
    }
}

/// A count as an `i64`.
pub open spec fn capped(n: nat) -> i64 {
    if n <= i64::MAX {
        n as i64
    } else {
        i64::MAX
    }
}

/// The sum of the first `n` items.
pub open spec fn sum_run(
    cx: Facts,
    fuel: nat,
    items: Seq<ScalarExpr>,
    n: nat,
    ent: Seq<char>,
    context: Option<RelationContext>,
) -> Option<Eval<Decimal>>
    decreases 2 * fuel, items, 0int, n,
{
    if n == 0 || n > items.len() {
        done(Ok(Decimal::zero_value()))
    } else {
        finish(
            both(
                sum_run(cx, fuel, items, (n - 1) as nat, ent, context),
                number_of(scalar_run(cx, fuel, items[n - 1], ent, context)),
            ),
            |p: (Decimal, Decimal)| in_range(decimal_sum(p.0, p.1)),
        )
    }
}

/// The better of a candidate and the best so far; the earlier of equals.
pub open spec fn better(largest: bool, best: Decimal, candidate: Decimal) -> Decimal {
    if largest {
        if best.below(candidate) {
            candidate
        } else {
            best
        }
    } else {
        if candidate.below(best) {
            candidate
        } else {
            best
        }
    }
}

/// The largest or smallest of the first `n` items.
pub open spec fn extremum_run(
    cx: Facts,
    fuel: nat,
    items: Seq<ScalarExpr>,
    n: nat,
    largest: bool,
    ent: Seq<char>,
    context: Option<RelationContext>,
) -> Option<Eval<Decimal>>
    decreases 2 * fuel, items, 0int, n,
{
    if n == 0 || n > items.len() {
        None
    } else if n == 1 {
        number_of(scalar_run(cx, fuel, items[0], ent, context))
    } else {
        finish(
            both(
                extremum_run(cx, fuel, items, (n - 1) as nat, largest, ent, context),
                number_of(scalar_run(cx, fuel, items[n - 1], ent, context)),
            ),
            |p: (Decimal, Decimal)| Ok::<Decimal, ErrorView>(better(largest, p.0, p.1)),
        )
    }
}

/// How many of the first `n` related ids the `where` clause of `e` keeps.
pub open spec fn count_run(
    cx: Facts,
    fuel: nat,
    e: ScalarExpr,
    ids: Seq<Seq<char>>,
    n: nat,
) -> Option<Eval<nat>>
    decreases 2 * fuel, e, 0int, n,
{
    if n == 0 || n > ids.len() {
        done(Ok(0nat))
    } else {
        let before = count_run(cx, fuel, e, ids, (n - 1) as nat);
        match e {
            ScalarExpr::CountRelated { where_clause: Some(w), .. } => finish(
                both(before, judgment_run(cx, fuel, *w, ids[n - 1], None)),
                |p: (nat, JudgmentOutcome)|
                    Ok::<nat, ErrorView>(
                        if p.1 is Holds {
                            p.0 + 1
                        } else {
                            p.0
                        },
                    ),
            ),
            _ => finish(before, |c: nat| Ok::<nat, ErrorView>(c + 1)),
        }
    }
}

/// A related value as a number.
pub open spec fn as_related_number(value: ScalarValue) -> Result<Decimal, ErrorView> {
    match value.number() {
        Some(number) => Ok(number),
        None => Err(ErrorView::TypeMismatch("related aggregation requires numeric values"@)),
    }
}

/// The sum over those of the first `n` related ids that the `where` clause of
/// `e` keeps.
pub open spec fn total_run(
    cx: Facts,
    fuel: nat,
    e: ScalarExpr,
    ids: Seq<Seq<char>>,
    n: nat,
) -> Option<Eval<Decimal>>
    decreases 2 * fuel, e, 0int, n,
{
    if n == 0 || n > ids.len() {
        done(Ok(Decimal::zero_value()))
    } else {
        let before = total_run(cx, fuel, e, ids, (n - 1) as nat);
        let id = ids[n - 1];
        match e {
            ScalarExpr::SumRelated { value, where_clause, .. } => {
                let read = finish(
                    match value {
                        RelatedValueRef::Input(name) => done(input_value(cx, name@, id)),
                        RelatedValueRef::Derived(name) => if fuel == 0 {
                            None
                        } else {
                            referred(
                                RuleKey { derived: name@, entity_id: id, period: cx.period },
                                rule_scalar(cx, (fuel - 1) as nat, name@, id),
                            )
                        },
                    },
                    |v: ScalarValue| as_related_number(v),
                );
                match where_clause {
                    None => finish(
                        both(before, read),
                        |p: (Decimal, Decimal)| in_range(decimal_sum(p.0, p.1)),
                    ),
                    Some(w) => {
                        let tested = both(before, judgment_run(cx, fuel, *w, id, None));
                        match tested {
                            None => None,
                            Some(t) => match t.value {
                                Err(error) => Some(Eval { value: Err(error), log: t.log }),
                                Ok((total, outcome)) => if outcome is Holds {
                                    after(
                                        t.log,
                                        finish(
                                            read,
                                            |d: Decimal| in_range(decimal_sum(total, d)),
                                        ),
                                    )
                                } else {
                                    Some(Eval { value: Ok(total), log: t.log })
                                },
                            },
                        }
                    },
                }
            },
            _ => None,
        }
    }
}

/// The judgment that a formula gives for an entity.
#[verifier::opaque]
pub open spec fn judgment_run(
    cx: Facts,
    fuel: nat,
    e: JudgmentExpr,
    ent: Seq<char>,
    context: Option<RelationContext>,
) -> Option<Eval<JudgmentOutcome>>
    decreases 2 * fuel, e, 2int, 0int,
{
    judgment_step(cx, fuel, e, ent, context)
}

/// The judgment of a formula is one step over the values of its parts.
pub proof fn judgment_run_is_step(
    cx: Facts,
    fuel: nat,
    e: JudgmentExpr,
    ent: Seq<char>,
    context: Option<RelationContext>,
)
    ensures
        judgment_run(cx, fuel, e, ent, context) == judgment_step(cx, fuel, e, ent, context),
{
    reveal(judgment_run);
}

/// The judgment of a formula over the values of its parts.
pub open spec fn judgment_step(
    cx: Facts,
    fuel: nat,
    e: JudgmentExpr,
    ent: Seq<char>,
    context: Option<RelationContext>,
) -> Option<Eval<JudgmentOutcome>>
    decreases 2 * fuel, e, 1int, 0int,
{
    match e {
        JudgmentExpr::Comparison { left, op, right } => finish(
            both(
                scalar_run(cx, fuel, left, ent, context),
                scalar_run(cx, fuel, right, ent, context),
            ),
            |p: (ScalarValue, ScalarValue)|
                match values_compare(p.0, op, p.1) {
                    Ok(holds) => Ok(JudgmentOutcome::of_bool(holds)),
                    Err(error) => Err(error),
                },
        ),
        JudgmentExpr::Derived(name) => match cx.program.rule(name@) {
            None => done(Err(ErrorView::UnknownDerived(name@))),
            Some(d) => {
                let target = entity_for(context, d.entity@, ent);
                if fuel == 0 {
                    None
                } else {
                    referred(
                        RuleKey { derived: name@, entity_id: target, period: cx.period },
                        rule_judgment(cx, (fuel - 1) as nat, name@, target),
                    )
                }
            },
        },
        JudgmentExpr::RelationMember { relation, current_slot, related_slot } => match context {
            None => done(
                Err(
                    ErrorView::TypeMismatch(
                        "relation predicate `"@ + relation@
                            + "` can only be evaluated inside a derived relation"@,
                    ),
                ),
            ),
            Some(c) => if fuel == 0 {
                None
            } else {
                finish(
                    related_run(
                        cx,
                        (fuel - 1) as nat,
                        relation@,
                        current_slot as nat,
                        related_slot as nat,
                        c.current_id,
                    ),
                    |ids: Seq<Seq<char>>|
                        Ok::<JudgmentOutcome, ErrorView>(
                            JudgmentOutcome::of_bool(ids.contains(c.related_id)),
                        ),
                )
            },
        },
        JudgmentExpr::And(items) => connective_run(
            cx,
            fuel,
            items@,
            0,
            JudgmentOutcome::NotHolds,
            false,
            ent,
            context,
        ),
        JudgmentExpr::Or(items) => connective_run(
            cx,
            fuel,
            items@,
            0,
            JudgmentOutcome::Holds,
            false,
            ent,
            context,
        ),
        JudgmentExpr::Not(item) => finish(
            judgment_run(cx, fuel, *item, ent, context),
            |o: JudgmentOutcome| Ok::<JudgmentOutcome, ErrorView>(o.negated()),
        ),
    }
}

/// `and` (`decisive` is not-holds) or `or` (`decisive` is holds) over the items
/// from `from` on: the first decisive item decides; otherwise an undetermined
/// item makes the outcome undetermined.
pub open spec fn connective_run(
    cx: Facts,
    fuel: nat,
    items: Seq<JudgmentExpr>,
    from: nat,
    decisive: JudgmentOutcome,
    undetermined: bool,
    ent: Seq<char>,
    context: Option<RelationContext>,
) -> Option<Eval<JudgmentOutcome>>
    decreases 2 * fuel, items, 0int, items.len() - from,
{
    if from >= items.len() {
        done(
            Ok(
                if undetermined {
                    JudgmentOutcome::Undetermined
                } else {
                    decisive.negated()
                },
            ),
        )
    } else {
        match judgment_run(cx, fuel, items[from as int], ent, context) {
            None => None,
            Some(eval) => match eval.value {
                Err(error) => Some(Eval { value: Err(error), log: eval.log }),
                Ok(o) => if o == decisive {
                    Some(
                        Eval {
                            value: Ok(decisive),
                            log: eval.log + skipped_judgments(cx, items, from + 1, ent, context),
                        },
                    )
                } else {
                    after(
                        eval.log,
                        connective_run(
                            cx,
                            fuel,
                            items,
                            from + 1,
                            decisive,
                            undetermined || o is Undetermined,
                            ent,
                            context,
                        ),
                    )
                },
            },
        }
    }
}

/// The context in which a derived relation's predicate is evaluated.
pub open spec fn derivation_context(
    d: RelationDerivation,
    current_id: Seq<char>,
    related_id: Seq<char>,
) -> RelationContext {
    RelationContext {
        current_id,
        related_id,
        current_entity: slot_kind(d.slot_entities@, d.current_slot as nat),
        related_entity: slot_kind(d.slot_entities@, d.related_slot as nat),
    }
}

/// Those of the first `n` ids that satisfy the predicate of `d`.
pub open spec fn members_run(
    cx: Facts,
    fuel: nat,
    d: RelationDerivation,
    ent: Seq<char>,
    ids: Seq<Seq<char>>,
    n: nat,
) -> Option<Eval<Seq<Seq<char>>>>
    decreases 2 * fuel + 1, cx, 0int, n,
{
    if n == 0 || n > ids.len() {
        done(Ok(Seq::<Seq<char>>::empty()))
    } else {
        finish(
            both(
                members_run(cx, fuel, d, ent, ids, (n - 1) as nat),
                judgment_run(
                    cx,
                    fuel,
                    d.predicate,
                    ids[n - 1],
                    Some(derivation_context(d, ent, ids[n - 1])),
                ),
            ),
            |p: (Seq<Seq<char>>, JudgmentOutcome)|
                Ok::<Seq<Seq<char>>, ErrorView>(
                    if p.1 is Holds {
                        p.0.push(ids[n - 1])
                    } else {
                        p.0
                    },
                ),
        )
    }
}

/// The ids related to an entity, in ascending order: those that the records
/// state and, for a derived relation, those of the source relation that satisfy
/// its predicate.
pub open spec fn related_run(
    cx: Facts,
    fuel: nat,
    relation: Seq<char>,
    current_slot: nat,
    related_slot: nat,
    ent: Seq<char>,
) -> Option<Eval<Seq<Seq<char>>>>
    decreases 2 * fuel + 1, cx, 1int, 0int,
{
    match cx.program.relation(relation) {
        None => done(Err(ErrorView::UnknownRelation(relation))),
        Some(schema) => if current_slot >= schema.arity || related_slot >= schema.arity {
            done(
                Err(
                    ErrorView::TypeMismatch(
                        slots_message(relation, schema.arity as nat, current_slot, related_slot),
                    ),
                ),
            )
        } else {
            let stated = stated_related(
                cx,
                relation,
                current_slot,
                related_slot,
                ent,
                cx.data.relations.len(),
            );
            match schema.derivation {
                None => done(Ok(sorted_texts(stated))),
                Some(d) => {
                    let source = if fuel == 0 {
                        None
                    } else {
                        related_run(
                            cx,
                            (fuel - 1) as nat,
                            d.source_relation@,
                            d.current_slot as nat,
                            d.related_slot as nat,
                            ent,
                        )
                    };
                    match source {
                        None => None,
                        Some(eval) => match eval.value {
                            Err(error) => Some(Eval { value: Err(error), log: eval.log }),
                            Ok(ids) => after(
                                eval.log,
                                finish(
                                    members_run(cx, fuel, d, ent, ids, ids.len()),
                                    |kept: Seq<Seq<char>>|
                                        Ok::<Seq<Seq<char>>, ErrorView>(
                                            sorted_texts(stated + kept),
                                        ),
                                ),
                            ),
                        },
                    }
                },
            }
        },
    }
}

} // verus!
