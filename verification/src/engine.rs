//! The reference interpreter: evaluates one rule for one entity at a time,
//! lazily, remembers what it computed and traces how.
use crate::bounds::{rule_judgment_stable, rule_scalar_stable};
use crate::date::Date;
use crate::decimal::Decimal;
use crate::error::{checked_add, checked_div, checked_mul, checked_sub, outcome, ErrorView, EvalError};
use crate::format::{describe_match_operand, describe_match_operands, format_value_label};
use crate::model::{
    find_index, find_named, ComparisonOp, DType, DataSet, Derived, DerivedSemantics, JudgmentExpr,
    JudgmentOutcome, Period, PeriodView, Program, RelatedValueRef, RelationDerivation, ScalarExpr,
    ScalarValue,
};
use crate::semantics::{
    after, as_count, as_day, as_related_number, referred, capped, connective_run, count_run,
    derivation_context, done, entity_for, equality_compare, extremum_run, finish, input_choice,
    input_conflicts, input_covers, input_value, judgment_parameters, judgment_rules, judgment_run,
    judgment_run_is_step, judgments_parameters, judgments_rules, members_run, no_match_error,
    number_of, output_rounded, parameter_read, related_run, rule_judgment, rule_scalar,
    rule_unrounded, scalar_parameters, scalar_rules, scalar_run, scalar_run_is_step,
    scalars_parameters, scalars_rules, shifted_days, shifted_months, shifted_years, skipped,
    skipped_judgments, skipped_scalar, slot_kind, stated_related, sum_run, total_run,
    values_compare, Eval, Facts, RelationContext, RuleKey, TraceEvent, TraceSkipReason,
};
use crate::inputs::value_equals_itself;
use crate::text::{
    insert_sorted, owned, precedes, same, sorted_texts, text_lt, text_lt_irreflexive,
    text_lt_total, text_lt_transitive, texts, usize_text,
};
use crate::trace::{
    entry_at, entry_from, entry_from_meaning, entry_pushed, find_entry, set_entry, CacheKey, Entry,
    NodeExecutionTrace, ParameterTraceRead, SkippedTraceDependency, TraceView,
};
use vstd::prelude::*;
use vstd::string::*;

verus! {

broadcast use vstd::std_specs::btree::group_btree_axioms;

/// Shifts a date by days. A result outside the calendar is an error.
pub(crate) fn shift_calendar_days(base: Date, offset: i64) -> (r: Result<Date, EvalError>)
    ensures
        outcome(r) == shifted_days(base, offset),
{
    match base.add_days(offset) {
        Some(date) => Ok(date),
        None => Err(
            EvalError::TypeMismatch(
                owned("date_add_days result is outside the supported date range"),
            ),
        ),
    }
}

/// The date `offset` calendar months later, where the count fits 32 bits.
fn months_later(base: Date, offset: i64) -> (r: Option<Date>)
    ensures
        r == if -0xffff_ffff <= offset <= 0xffff_ffff {
            base.months_later(offset as int)
        } else {
            None
        },
{
    if offset < -0xffff_ffff || offset > 0xffff_ffff {
        None
    } else if offset < 0 {
        base.sub_months((-offset) as u32)
    } else {
        base.add_months(offset as u32)
    }
}

/// Shifts by calendar months, cutting a missing target day to the end of the
/// month. A result outside the calendar is an error.
pub(crate) fn shift_calendar_months(base: Date, offset: i64) -> (r: Result<Date, EvalError>)
    ensures
        outcome(r) == shifted_months(base, offset),
{
    match months_later(base, offset) {
        Some(date) => Ok(date),
        None => Err(
            EvalError::TypeMismatch(
                owned("date_add_months result is outside the supported date range"),
            ),
        ),
    }
}

/// Shifts by calendar years.
pub(crate) fn shift_calendar_years(base: Date, offset: i64) -> (r: Result<Date, EvalError>)
    ensures
        outcome(r) == shifted_years(base, offset),
{
    let shifted = match offset.checked_mul(12) {
        Some(months) => months_later(base, months),
        None => None,
    };
    match shifted {
        Some(date) => Ok(date),
        None => Err(
            EvalError::TypeMismatch(
                owned("date_add_years result is outside the supported date range"),
            ),
        ),
    }
}

fn compare_days(a: &Date, op: ComparisonOp, b: &Date) -> (r: bool)
    ensures
        r == crate::semantics::days_compare(*a, op, *b),
{
    match op {
        ComparisonOp::Lt => a.before(b),
        ComparisonOp::Lte => a.up_to(b),
        ComparisonOp::Gt => b.before(a),
        ComparisonOp::Gte => b.up_to(a),
        ComparisonOp::Eq => a.same_day(b),
        ComparisonOp::Ne => !a.same_day(b),
    }
}

pub(crate) fn compare_numbers(a: &Decimal, op: ComparisonOp, b: &Decimal) -> (r: bool)
    ensures
        r == crate::semantics::numbers_compare(*a, op, *b),
{
    match op {
        ComparisonOp::Lt => a.is_below(b),
        ComparisonOp::Lte => !b.is_below(a),
        ComparisonOp::Gt => b.is_below(a),
        ComparisonOp::Gte => !a.is_below(b),
        ComparisonOp::Eq => a.same_value(b),
        ComparisonOp::Ne => !a.same_value(b),
    }
}

fn compare_equality(equal: bool, op: ComparisonOp, message: &str) -> (r: Result<bool, EvalError>)
    ensures
        outcome(r) == equality_compare(equal, op, message@),
{
    match op {
        ComparisonOp::Eq => Ok(equal),
        ComparisonOp::Ne => Ok(!equal),
        _ => Err(EvalError::TypeMismatch(owned(message))),
    }
}

/// Compares two values: booleans and texts for equality only, days by date, and
/// anything else as numbers.
pub fn compare_scalar_values(left: &ScalarValue, op: ComparisonOp, right: &ScalarValue) -> (r:
    Result<bool, EvalError>)
    ensures
        outcome(r) == values_compare(*left, op, *right),
{
    match (left, right) {
        (ScalarValue::Bool(a), ScalarValue::Bool(b)) => compare_equality(
            *a == *b,
            op,
            "boolean comparisons only support == and !=",
        ),
        (ScalarValue::Text(a), ScalarValue::Text(b)) => compare_equality(
            same(a.as_str(), b.as_str()),
            op,
            "text comparisons only support == and !=",
        ),
        (ScalarValue::Date(a), ScalarValue::Date(b)) => Ok(compare_days(a, op, b)),
        _ => match left.as_decimal() {
            None => Err(
                EvalError::TypeMismatch(owned("left side of comparison is not numeric")),
            ),
            Some(a) => match right.as_decimal() {
                None => Err(
                    EvalError::TypeMismatch(owned("right side of comparison is not numeric")),
                ),
                Some(b) => Ok(compare_numbers(&a, op, &b)),
            },
        },
    }
}

/// The two entities between which a derived relation's predicate is evaluated.
#[derive(Clone, Copy)]
struct RelationEvalContext<'a> {
    current_id: &'a str,
    related_id: &'a str,
    current_entity: Option<&'a str>,
    related_entity: Option<&'a str>,
}

spec fn text_of(s: Option<&str>) -> Option<Seq<char>> {
    match s {
        Some(s) => Some(s@),
        None => None,
    }
}

impl<'a> RelationEvalContext<'a> {
    spec fn view(&self) -> RelationContext {
        RelationContext {
            current_id: self.current_id@,
            related_id: self.related_id@,
            current_entity: text_of(self.current_entity),
            related_entity: text_of(self.related_entity),
        }
    }

    /// The id of the entity of the given kind, where the context has one.
    fn entity_id_for(self, entity: &str) -> (r: Option<&'a str>)
        ensures
            match r {
                Some(id) => forall|default: Seq<char>|
                    #[trigger] entity_for(Some(self@), entity@, default) == id@,
                None => forall|default: Seq<char>|
                    #[trigger] entity_for(Some(self@), entity@, default) == default,
            },
    {
        if let Some(current) = self.current_entity {
            if same(current, entity) {
                return Some(self.current_id);
            }
        }
        if let Some(related) = self.related_entity {
            if same(related, entity) {
                return Some(self.related_id);
            }
        }
        None
    }
}

spec fn context_of(c: Option<RelationEvalContext<'_>>) -> Option<RelationContext> {
    match c {
        Some(c) => Some(c@),
        None => None,
    }
}

/// The entity for which a rule of `entity` is evaluated.
fn target_entity<'a>(
    context: Option<RelationEvalContext<'a>>,
    entity: &str,
    default: &'a str,
) -> (r: &'a str)
    ensures
        r@ == entity_for(context_of(context), entity@, default@),
{
    match context {
        Some(c) => match c.entity_id_for(entity) {
            Some(id) => id,
            None => default,
        },
        None => default,
    }
}

/// Whether the value of a rule is defined: its references end.
pub open spec fn scalar_terminates(cx: Facts, name: Seq<char>, ent: Seq<char>) -> bool {
    exists|fuel: nat| #[trigger] rule_scalar(cx, fuel, name, ent) is Some
}

/// The value of a rule and the trace of its evaluation.
pub open spec fn scalar_meaning(cx: Facts, name: Seq<char>, ent: Seq<char>) -> Eval<ScalarValue> {
    rule_scalar(
        cx,
        choose|fuel: nat| #[trigger] rule_scalar(cx, fuel, name, ent) is Some,
        name,
        ent,
    )->0
}

/// The value of a rule before output rounding.
pub open spec fn unrounded_meaning(cx: Facts, name: Seq<char>, ent: Seq<char>) -> Eval<
    ScalarValue,
> {
    rule_unrounded(
        cx,
        choose|fuel: nat| #[trigger] rule_scalar(cx, fuel, name, ent) is Some,
        name,
        ent,
    )->0
}

/// Whether the judgment of a rule is defined: its references end.
pub open spec fn judgment_terminates(cx: Facts, name: Seq<char>, ent: Seq<char>) -> bool {
    exists|fuel: nat| #[trigger] rule_judgment(cx, fuel, name, ent) is Some
}

/// The judgment of a rule and the trace of its evaluation.
pub open spec fn judgment_meaning(cx: Facts, name: Seq<char>, ent: Seq<char>) -> Eval<
    JudgmentOutcome,
> {
    rule_judgment(
        cx,
        choose|fuel: nat| #[trigger] rule_judgment(cx, fuel, name, ent) is Some,
        name,
        ent,
    )->0
}

/// Any sufficient bound gives the value of a rule.
pub proof fn scalar_meaning_at(cx: Facts, fuel: nat, name: Seq<char>, ent: Seq<char>)
    requires
        rule_scalar(cx, fuel, name, ent) is Some,
    ensures
        scalar_terminates(cx, name, ent),
        rule_scalar(cx, fuel, name, ent) == Some(scalar_meaning(cx, name, ent)),
        rule_unrounded(cx, fuel, name, ent) == Some(unrounded_meaning(cx, name, ent)),
{
    let f = choose|f: nat| #[trigger] rule_scalar(cx, f, name, ent) is Some;
    if f <= fuel {
        rule_scalar_stable(cx, f, fuel, name, ent);
    } else {
        rule_scalar_stable(cx, fuel, f, name, ent);
    }
}

/// Any sufficient bound gives the judgment of a rule.
pub proof fn judgment_meaning_at(cx: Facts, fuel: nat, name: Seq<char>, ent: Seq<char>)
    requires
        rule_judgment(cx, fuel, name, ent) is Some,
    ensures
        judgment_terminates(cx, name, ent),
        rule_judgment(cx, fuel, name, ent) == Some(judgment_meaning(cx, name, ent)),
{
    let f = choose|f: nat| #[trigger] rule_judgment(cx, f, name, ent) is Some;
    if f <= fuel {
        rule_judgment_stable(cx, f, fuel, name, ent);
    } else {
        rule_judgment_stable(cx, fuel, f, name, ent);
    }
}

/// Whether the value of a rule was reached through that of another.
pub open spec fn leads(p: Program, data: DataSet, from: RuleKey, to: RuleKey) -> bool {
    let cx = Facts { program: p, data: data@, period: from.period };
    let scalar = scalar_meaning(cx, from.derived, from.entity_id);
    let judgment = judgment_meaning(cx, from.derived, from.entity_id);
    ||| scalar_terminates(cx, from.derived, from.entity_id) && scalar.value is Ok
        && TraceView::empty().absorb(scalar.log).dependencies.contains(to)
    ||| judgment_terminates(cx, from.derived, from.entity_id) && judgment.value is Ok
        && TraceView::empty().absorb(judgment.log).dependencies.contains(to)
}

/// Whether each rule of a way was reached through the one before.
pub open spec fn is_way(p: Program, data: DataSet, path: Seq<RuleKey>) -> bool {
    &&& path.len() > 0
    &&& forall|i: int| 0 < i < path.len() ==> leads(p, data, path[i - 1], #[trigger] path[i])
}

/// Whether a way goes from a rule to another, or they are the same.
#[verifier::opaque]
pub open spec fn reaches(p: Program, data: DataSet, from: RuleKey, to: RuleKey) -> bool {
    exists|path: Seq<RuleKey>| #[trigger]
        is_way(p, data, path) && path[0] == from && path.last() == to
}

pub proof fn reaches_itself(p: Program, data: DataSet, key: RuleKey)
    ensures
        reaches(p, data, key, key),
{
    reveal(reaches);
    assert(is_way(p, data, seq![key]));
}

pub proof fn reaches_through(p: Program, data: DataSet, from: RuleKey, via: RuleKey, to: RuleKey)
    requires
        leads(p, data, from, via),
        reaches(p, data, via, to),
    ensures
        reaches(p, data, from, to),
{
    reveal(reaches);
    let path = choose|path: Seq<RuleKey>| #[trigger]
        is_way(p, data, path) && path[0] == via && path.last() == to;
    let longer = seq![from] + path;
    assert forall|i: int| 0 < i < longer.len() implies leads(
        p,
        data,
        longer[i - 1],
        #[trigger] longer[i],
    ) by {
        assert(longer[i] == path[i - 1]);
        if i > 1 {
            assert(longer[i - 1] == path[i - 2]);
        }
    }
    assert(is_way(p, data, longer));
    assert(longer.last() == path.last());
}

/// Whether a rule is one of some rules, or reached from one.
pub open spec fn reached_from(p: Program, data: DataSet, keys: Seq<RuleKey>, key: RuleKey) -> bool {
    exists|d: RuleKey| #[trigger] keys.contains(d) && reaches(p, data, d, key)
}

/// An interpreter over a program and its facts.
pub struct Engine<'a> {
    program: &'a Program,
    data: &'a DataSet,
    scalar_cache: Vec<Entry<ScalarValue>>,
    /// The value before rounding, of rules whose rounding moved it.
    pre_rounding_cache: Vec<Entry<ScalarValue>>,
    judgment_cache: Vec<Entry<JudgmentOutcome>>,
    execution_trace: Vec<Entry<NodeExecutionTrace>>,
}

/// The pre-rounding value that is remembered beside a rounded one.
pub open spec fn moved_by_rounding(rounded: ScalarValue, unrounded: Result<ScalarValue, ErrorView>)
    -> Option<ScalarValue> {
    match unrounded {
        Ok(value) => if rounded.equals(value) {
            None
        } else {
            Some(value)
        },
        Err(_) => None,
    }
}

impl<'a> Engine<'a> {
    pub closed spec fn program_view(&self) -> Program {
        *self.program
    }

    pub closed spec fn data_view(&self) -> DataSet {
        *self.data
    }

    /// What the engine evaluates over a period.
    pub open spec fn facts(&self, period: PeriodView) -> Facts {
        Facts { program: self.program_view(), data: self.data_view()@, period }
    }

    /// The scalar remembered for a key.
    pub closed spec fn scalar_at(&self, key: RuleKey) -> Option<ScalarValue> {
        entry_at(self.scalar_cache@, key)
    }

    /// The pre-rounding scalar remembered for a key.
    pub closed spec fn pre_rounding_at(&self, key: RuleKey) -> Option<ScalarValue> {
        entry_at(self.pre_rounding_cache@, key)
    }

    /// The judgment remembered for a key.
    pub closed spec fn judgment_at(&self, key: RuleKey) -> Option<JudgmentOutcome> {
        entry_at(self.judgment_cache@, key)
    }

    /// The trace remembered for a key.
    pub closed spec fn trace_at(&self, key: RuleKey) -> Option<TraceView> {
        match entry_at(self.execution_trace@, key) {
            Some(trace) => Some(trace@),
            None => None,
        }
    }

    /// What is remembered of a key is what the semantics gives.
    spec fn scalar_sound(&self, key: RuleKey) -> bool {
        self.scalar_at(key) matches Some(v) ==> {
            let cx = self.facts(key.period);
            let meaning = scalar_meaning(cx, key.derived, key.entity_id);
            &&& scalar_terminates(cx, key.derived, key.entity_id)
            &&& meaning.value == Ok::<ScalarValue, ErrorView>(v)
            &&& self.trace_at(key) == Some(TraceView::empty().absorb(meaning.log))
            &&& self.pre_rounding_at(key) == moved_by_rounding(
                v,
                unrounded_meaning(cx, key.derived, key.entity_id).value,
            )
        }
    }

    spec fn judgment_sound(&self, key: RuleKey) -> bool {
        self.judgment_at(key) matches Some(v) ==> {
            let cx = self.facts(key.period);
            let meaning = judgment_meaning(cx, key.derived, key.entity_id);
            &&& judgment_terminates(cx, key.derived, key.entity_id)
            &&& meaning.value == Ok::<JudgmentOutcome, ErrorView>(v)
            &&& self.trace_at(key) == Some(TraceView::empty().absorb(meaning.log))
        }
    }

    /// Whether the engine remembers everything that a trace says was evaluated.
    #[verifier::opaque]
    pub open spec fn notes(&self, trace: TraceView, period: PeriodView) -> bool {
        forall|key: RuleKey| #[trigger]
            trace.dependencies.contains(key) ==> self.is_remembered(key) && key.period == period
    }

    /// Whether the engine remembers everything that led to a remembered value.
    pub open spec fn is_closed_at(&self, key: RuleKey) -> bool {
        self.is_remembered(key) ==> match self.trace_at(key) {
            Some(trace) => self.notes(trace, key.period),
            None => true,
        }
    }

    /// Everything remembered is what the semantics gives.
    pub closed spec fn well_formed(&self) -> bool {
        &&& forall|key: RuleKey| #![trigger self.trace_at(key)] self.is_closed_at(key)
        &&& forall|key: RuleKey| #![trigger self.scalar_at(key)] self.scalar_sound(key)
        &&& forall|key: RuleKey| #![trigger self.judgment_at(key)] self.judgment_sound(key)
        &&& forall|key: RuleKey| #[trigger]
            self.pre_rounding_at(key) is Some ==> self.scalar_at(key) is Some
    }

    /// Whether the engine evaluates the same as `before` and remembers all it did.
    pub open spec fn extends(&self, before: &Engine<'a>) -> bool {
        &&& self.well_formed()
        &&& self.program_view() == before.program_view()
        &&& self.data_view() == before.data_view()
        &&& forall|key: RuleKey| #[trigger]
            before.scalar_at(key) is Some ==> self.scalar_at(key) == before.scalar_at(key)
        &&& forall|key: RuleKey| #[trigger]
            before.judgment_at(key) is Some ==> self.judgment_at(key) == before.judgment_at(key)
    }

    proof fn notes_kept(&self, before: &Engine<'a>, trace: TraceView, period: PeriodView)
        requires
            self.extends(before),
        ensures
            before.notes(trace, period) ==> self.notes(trace, period),
    {
        reveal(Engine::notes);
        if before.notes(trace, period) {
            assert forall|key: RuleKey| #[trigger]
                trace.dependencies.contains(key) implies self.is_remembered(key) && key.period
                == period by {
                assert(before.is_remembered(key));
            }
        }
    }

    /// An engine that remembers more notes as much.
    proof fn notes_grow(&self, before: &Engine<'a>, trace: TraceView, period: PeriodView)
        requires
            forall|key: RuleKey| #[trigger]
                before.is_remembered(key) ==> self.is_remembered(key),
        ensures
            before.notes(trace, period) ==> self.notes(trace, period),
    {
        reveal(Engine::notes);
        if before.notes(trace, period) {
            assert forall|key: RuleKey| #[trigger]
                trace.dependencies.contains(key) implies self.is_remembered(key) && key.period
                == period by {
                assert(before.is_remembered(key));
            }
        }
    }

    proof fn notes_same(&self, a: TraceView, b: TraceView, period: PeriodView)
        requires
            a.dependencies == b.dependencies,
        ensures
            self.notes(a, period) == self.notes(b, period),
    {
        reveal(Engine::notes);
    }

    /// What was evaluated is noted, with one rule more.
    proof fn notes_more(
        &self,
        before: &Engine<'a>,
        trace: TraceView,
        key: RuleKey,
        period: PeriodView,
    )
        requires
            self.extends(before),
            self.is_remembered(key),
            key.period == period,
        ensures
            before.notes(trace, period) ==> self.notes(
                trace.with(TraceEvent::Dependency(key)),
                period,
            ),
    {
        self.notes_kept(before, trace, period);
        reveal(Engine::notes);
        let longer = trace.with(TraceEvent::Dependency(key));
        assert forall|k: RuleKey| #[trigger] longer.dependencies.contains(k) implies k == key
            || trace.dependencies.contains(k) by {
            if !trace.dependencies.contains(key) {
                pushed_contains(trace.dependencies, key);
            }
        }
    }

    proof fn notes_nothing(&self, period: PeriodView)
        ensures
            self.notes(TraceView::empty(), period),
    {
        reveal(Engine::notes);
    }

    /// The rules that the engine remembers.
    pub open spec fn remembered(&self) -> Set<RuleKey> {
        Set::new(|key: RuleKey| self.is_remembered(key))
    }

    /// Whether the engine remembers nothing but some rules and what a trace reached.
    #[verifier::opaque]
    pub open spec fn stays_in(&self, base: Set<RuleKey>, trace: TraceView) -> bool {
        forall|key: RuleKey| #[trigger]
            self.is_remembered(key) ==> base.contains(key) || reached_from(
                self.program_view(),
                self.data_view(),
                trace.dependencies,
                key,
            )
    }

    /// Whether the engine remembers nothing but what it did before and what a rule reached.
    #[verifier::opaque]
    pub open spec fn grown(&self, before: &Engine<'a>, rule: RuleKey) -> bool {
        forall|key: RuleKey| #[trigger]
            self.is_remembered(key) ==> before.is_remembered(key) || reaches(
                self.program_view(),
                self.data_view(),
                rule,
                key,
            )
    }

    proof fn grown_by_nothing(&self, rule: RuleKey)
        ensures
            self.grown(self, rule),
    {
        reveal(Engine::grown);
    }

    proof fn stays_at_start(&self)
        ensures
            self.stays_in(self.remembered(), TraceView::empty()),
    {
        reveal(Engine::stays_in);
    }

    proof fn stays_same(&self, a: TraceView, b: TraceView)
        requires
            a.dependencies == b.dependencies,
        ensures
            forall|base: Set<RuleKey>| #[trigger] self.stays_in(base, b) == self.stays_in(base, a),
    {
        reveal(Engine::stays_in);
    }

    /// With one rule more, what is remembered was reached through the longer trace.
    proof fn stays_more(&self, before: &Engine<'a>, trace: TraceView, rule: RuleKey)
        requires
            self.extends(before),
            self.grown(before, rule),
        ensures
            forall|base: Set<RuleKey>|
                before.stays_in(base, trace) ==> #[trigger] self.stays_in(
                    base,
                    trace.with(TraceEvent::Dependency(rule)),
                ),
    {
        reveal(Engine::stays_in);
        reveal(Engine::grown);
        let longer = trace.with(TraceEvent::Dependency(rule));
        let (p, data) = (self.program_view(), self.data_view());
        if !trace.dependencies.contains(rule) {
            pushed_contains(trace.dependencies, rule);
        }
        assert(longer.dependencies.contains(rule));
        assert forall|base: Set<RuleKey>| before.stays_in(base, trace) implies #[trigger] self.stays_in(
            base,
            longer,
        ) by {
            assert forall|key: RuleKey| #[trigger] self.is_remembered(key) implies base.contains(key)
                || reached_from(p, data, longer.dependencies, key) by {
                if before.is_remembered(key) {
                    if !base.contains(key) {
                        let d = choose|d: RuleKey| #[trigger]
                            trace.dependencies.contains(d) && reaches(p, data, d, key);
                        assert(longer.dependencies.contains(d));
                    }
                } else {
                    assert(longer.dependencies.contains(rule) && reaches(p, data, rule, key));
                }
            }
        }
    }

    /// What the formula of a rule reached, the rule reached.
    proof fn grown_by_rule(
        &self,
        before: &Engine<'a>,
        mid: &Engine<'a>,
        rule: RuleKey,
        trace: TraceView,
    )
        requires
            mid.stays_in(before.remembered(), trace),
            self.program_view() == mid.program_view(),
            self.data_view() == mid.data_view(),
            forall|q: RuleKey| #[trigger]
                self.is_remembered(q) ==> q == rule || mid.is_remembered(q),
            forall|d: RuleKey| #[trigger]
                trace.dependencies.contains(d) ==> leads(
                    self.program_view(),
                    self.data_view(),
                    rule,
                    d,
                ),
        ensures
            self.grown(before, rule),
    {
        reveal(Engine::stays_in);
        reveal(Engine::grown);
        let (p, data) = (self.program_view(), self.data_view());
        assert forall|key: RuleKey| #[trigger] self.is_remembered(key) implies before.is_remembered(
            key,
        ) || reaches(p, data, rule, key) by {
            if key == rule {
                reaches_itself(p, data, rule);
            } else {
                assert(mid.is_remembered(key));
                if !before.remembered().contains(key) {
                    let d = choose|d: RuleKey| #[trigger]
                        trace.dependencies.contains(d) && reaches(p, data, d, key);
                    reaches_through(p, data, rule, d, key);
                }
            }
        }
    }

    /// Everything that a remembered rule reached is remembered.
    pub proof fn remembered_is_reached(&self, from: RuleKey, to: RuleKey)
        requires
            self.well_formed(),
            self.is_remembered(from),
            reaches(self.program_view(), self.data_view(), from, to),
        ensures
            self.is_remembered(to),
    {
        reveal(reaches);
        let (p, data) = (self.program_view(), self.data_view());
        let path = choose|path: Seq<RuleKey>| #[trigger]
            is_way(p, data, path) && path[0] == from && path.last() == to;
        self.way_is_remembered(path, path.len() - 1);
    }

    proof fn way_is_remembered(&self, path: Seq<RuleKey>, i: int)
        requires
            self.well_formed(),
            is_way(self.program_view(), self.data_view(), path),
            self.is_remembered(path[0]),
            0 <= i < path.len(),
        ensures
            self.is_remembered(path[i]),
        decreases i,
    {
        if i > 0 {
            self.way_is_remembered(path, i - 1);
            let (from, to) = (path[i - 1], path[i]);
            assert(leads(self.program_view(), self.data_view(), from, to));
            self.leads_is_led_to(from, to);
            self.remembered_is_closed(from, to);
        }
    }

    /// A remembered rule led to what its value was reached through.
    pub proof fn leads_is_led_to(&self, from: RuleKey, to: RuleKey)
        requires
            self.well_formed(),
            self.is_remembered(from),
        ensures
            leads(self.program_view(), self.data_view(), from, to) <==> self.led_to(from, to),
    {
        let cx = self.facts(from.period);
        self.remembered_is_meaning(from);
        if scalar_terminates(cx, from.derived, from.entity_id) && scalar_meaning(
            cx,
            from.derived,
            from.entity_id,
        ).value is Ok && judgment_terminates(cx, from.derived, from.entity_id) {
            let f = choose|f: nat| #[trigger] rule_scalar(cx, f, from.derived, from.entity_id) is Some;
            let g = choose|g: nat| #[trigger]
                rule_judgment(cx, g, from.derived, from.entity_id) is Some;
            scalar_meaning_at(cx, f, from.derived, from.entity_id);
            judgment_meaning_at(cx, g, from.derived, from.entity_id);
            assert(rule_unrounded(cx, f, from.derived, from.entity_id)->0.value is Ok);
            assert(rule_judgment(cx, g, from.derived, from.entity_id)->0.value is Err);
        }
    }

    /// Everything that led to a remembered value is remembered.
    pub proof fn remembered_is_closed(&self, key: RuleKey, dependency: RuleKey)
        requires
            self.well_formed(),
            self.is_remembered(key),
            self.led_to(key, dependency),
        ensures
            self.is_remembered(dependency),
            dependency.period == key.period,
    {
        assert(self.is_closed_at(key));
        reveal(Engine::notes);
    }

    /// A remembered value is the rule's value, with its trace and what rounding moved.
    pub proof fn remembered_is_meaning(&self, key: RuleKey)
        requires
            self.well_formed(),
        ensures
            self.scalar_at(key) matches Some(v) ==> {
                let cx = self.facts(key.period);
                let meaning = scalar_meaning(cx, key.derived, key.entity_id);
                &&& scalar_terminates(cx, key.derived, key.entity_id)
                &&& meaning.value == Ok::<ScalarValue, ErrorView>(v)
                &&& self.trace_at(key) == Some(TraceView::empty().absorb(meaning.log))
                &&& self.pre_rounding_at(key) == moved_by_rounding(
                    v,
                    unrounded_meaning(cx, key.derived, key.entity_id).value,
                )
            },
            self.judgment_at(key) matches Some(v) ==> {
                let cx = self.facts(key.period);
                let meaning = judgment_meaning(cx, key.derived, key.entity_id);
                &&& judgment_terminates(cx, key.derived, key.entity_id)
                &&& meaning.value == Ok::<JudgmentOutcome, ErrorView>(v)
                &&& self.trace_at(key) == Some(TraceView::empty().absorb(meaning.log))
            },
    {
        assert(self.scalar_sound(key));
        assert(self.judgment_sound(key));
    }

    /// A remembered value is the rule's amount as the rule declares it to be rounded. The amount
    /// itself is kept beside it just where the rule declares rounding and that moved it.
    pub proof fn kept_where_rounding_moved_it(&self, key: RuleKey)
        requires
            self.well_formed(),
            self.scalar_at(key) is Some,
        ensures
            self.program_view().rule(key.derived) is Some,
            unrounded_meaning(self.facts(key.period), key.derived, key.entity_id).value is Ok,
            ({
                let rounding = self.program_view().rule(key.derived)->0.rounding;
                let computed = unrounded_meaning(
                    self.facts(key.period),
                    key.derived,
                    key.entity_id,
                ).value->Ok_0;
                match (rounding, computed) {
                    (Some(rounding), ScalarValue::Decimal(amount)) => {
                        &&& self.scalar_at(key) == Some(
                            ScalarValue::Decimal(rounding.applied(amount)),
                        )
                        &&& self.pre_rounding_at(key) == if rounding.applied(amount).equals(amount) {
                            None
                        } else {
                            Some(ScalarValue::Decimal(amount))
                        }
                    },
                    _ => self.scalar_at(key) == Some(computed) && self.pre_rounding_at(key) is None,
                }
            }),
    {
        let cx = self.facts(key.period);
        self.remembered_is_meaning(key);
        let f = choose|f: nat| #[trigger] rule_scalar(cx, f, key.derived, key.entity_id) is Some;
        scalar_meaning_at(cx, f, key.derived, key.entity_id);
        assert(rule_scalar(cx, f, key.derived, key.entity_id)->0.value is Ok);
        assert(rule_unrounded(cx, f, key.derived, key.entity_id)->0.value is Ok);
        value_equals_itself(self.scalar_at(key)->0);
    }

    /// An engine that remembers nothing.
    pub fn new(program: &'a Program, data: &'a DataSet) -> (r: Engine<'a>)
        ensures
            r.program_view() == *program,
            r.data_view() == *data,
            r.well_formed(),
            forall|key: RuleKey| #[trigger] r.scalar_at(key) is None,
            forall|key: RuleKey| #[trigger] r.judgment_at(key) is None,
    {
        Engine {
            program,
            data,
            scalar_cache: Vec::new(),
            pre_rounding_cache: Vec::new(),
            judgment_cache: Vec::new(),
            execution_trace: Vec::new(),
        }
    }

    pub fn cached_scalar(&self, derived: &str, entity_id: &str, period: &Period) -> (r: Option<
        ScalarValue,
    >)
        ensures
            r == self.scalar_at(
                RuleKey { derived: derived@, entity_id: entity_id@, period: period@ },
            ),
    {
        match find_entry(&self.scalar_cache, &CacheKey::new(derived, entity_id, period)) {
            Some(i) => Some(self.scalar_cache[i].value.duplicate()),
            None => None,
        }
    }

    /// The value before rounding, where rounding moved it.
    pub fn cached_pre_rounding(
        &self,
        derived: &str,
        entity_id: &str,
        period: &Period,
    ) -> (r: Option<ScalarValue>)
        ensures
            r == self.pre_rounding_at(
                RuleKey { derived: derived@, entity_id: entity_id@, period: period@ },
            ),
    {
        match find_entry(&self.pre_rounding_cache, &CacheKey::new(derived, entity_id, period)) {
            Some(i) => Some(self.pre_rounding_cache[i].value.duplicate()),
            None => None,
        }
    }

    pub fn cached_judgment(&self, derived: &str, entity_id: &str, period: &Period) -> (r: Option<
        JudgmentOutcome,
    >)
        ensures
            r == self.judgment_at(
                RuleKey { derived: derived@, entity_id: entity_id@, period: period@ },
            ),
    {
        match find_entry(&self.judgment_cache, &CacheKey::new(derived, entity_id, period)) {
            Some(i) => Some(self.judgment_cache[i].value),
            None => None,
        }
    }
}

/// Adds the text of a name at the end of a list.
fn push_text(names: &mut Vec<String>, name: &String)
    ensures
        texts(final(names)@) == texts(old(names)@) + seq![name@],
{
    names.push(name.clone());
    assert(texts(names@) =~= texts(old(names)@) + seq![name@]);
}

fn collect_scalars_trace_references(
    items: &Vec<ScalarExpr>,
    derived: &mut Vec<String>,
    parameters: &mut Vec<String>,
)
    ensures
        texts(final(derived)@) == texts(old(derived)@) + scalars_rules(items@, items@.len()),
        texts(final(parameters)@) == texts(old(parameters)@) + scalars_parameters(
            items@,
            items@.len(),
        ),
    decreases items, 0int,
{
    let mut i: usize = 0;
    proof {
        assert(texts(derived@) =~= texts(derived@) + scalars_rules(items@, 0));
        assert(texts(parameters@) =~= texts(parameters@) + scalars_parameters(items@, 0));
    }
    while i < items.len()
        invariant
            i <= items@.len(),
            texts(derived@) == texts(old(derived)@) + scalars_rules(items@, i as nat),
            texts(parameters@) == texts(old(parameters)@) + scalars_parameters(items@, i as nat),
        decreases items@.len() - i,
    {
        collect_scalar_trace_references(&items[i], derived, parameters);
        proof {
            assert(texts(derived@) =~= texts(old(derived)@) + scalars_rules(
                items@,
                (i + 1) as nat,
            ));
            assert(texts(parameters@) =~= texts(old(parameters)@) + scalars_parameters(
                items@,
                (i + 1) as nat,
            ));
        }
        i = i + 1;
    }
}

/// Adds the rules and parameters that a scalar formula mentions.
fn collect_scalar_trace_references(
    e: &ScalarExpr,
    derived: &mut Vec<String>,
    parameters: &mut Vec<String>,
)
    ensures
        texts(final(derived)@) == texts(old(derived)@) + scalar_rules(*e),
        texts(final(parameters)@) == texts(old(parameters)@) + scalar_parameters(*e),
    decreases e, 1int,
{
    let ghost d0 = texts(derived@);
    let ghost p0 = texts(parameters@);
    match e {
        ScalarExpr::Literal(_) => {},
        ScalarExpr::Input(_) => {},
        ScalarExpr::InputOrElse { .. } => {},
        ScalarExpr::PeriodStart => {},
        ScalarExpr::PeriodEnd => {},
        ScalarExpr::Derived(name) => push_text(derived, name),
        ScalarExpr::ParameterLookup { parameter, index } => {
            push_text(parameters, parameter);
            collect_scalar_trace_references(index, derived, parameters);
        },
        ScalarExpr::Add(items) => collect_scalars_trace_references(items, derived, parameters),
        ScalarExpr::Max(items) => collect_scalars_trace_references(items, derived, parameters),
        ScalarExpr::Min(items) => collect_scalars_trace_references(items, derived, parameters),
        ScalarExpr::Sub(a, b) => {
            collect_scalar_trace_references(a, derived, parameters);
            collect_scalar_trace_references(b, derived, parameters);
        },
        ScalarExpr::Mul(a, b) => {
            collect_scalar_trace_references(a, derived, parameters);
            collect_scalar_trace_references(b, derived, parameters);
        },
        ScalarExpr::Div(a, b) => {
            collect_scalar_trace_references(a, derived, parameters);
            collect_scalar_trace_references(b, derived, parameters);
        },
        ScalarExpr::Ceil(a) => collect_scalar_trace_references(a, derived, parameters),
        ScalarExpr::Floor(a) => collect_scalar_trace_references(a, derived, parameters),
        ScalarExpr::DateAddDays { date, days } => {
            collect_scalar_trace_references(date, derived, parameters);
            collect_scalar_trace_references(days, derived, parameters);
        },
        ScalarExpr::DateAddMonths { date, months } => {
            collect_scalar_trace_references(date, derived, parameters);
            collect_scalar_trace_references(months, derived, parameters);
        },
        ScalarExpr::DateAddYears { date, years } => {
            collect_scalar_trace_references(date, derived, parameters);
            collect_scalar_trace_references(years, derived, parameters);
        },
        ScalarExpr::DaysBetween { from, to } => {
            collect_scalar_trace_references(from, derived, parameters);
            collect_scalar_trace_references(to, derived, parameters);
        },
        ScalarExpr::CountRelated { where_clause, .. } => {
            if let Some(predicate) = where_clause {
                collect_judgment_trace_references(predicate, derived, parameters);
            }
        },
        ScalarExpr::SumRelated { value, where_clause, .. } => {
            if let RelatedValueRef::Derived(name) = value {
                push_text(derived, name);
            }
            if let Some(predicate) = where_clause {
                collect_judgment_trace_references(predicate, derived, parameters);
            }
        },
        ScalarExpr::If { condition, then_expr, else_expr } => {
            collect_judgment_trace_references(condition, derived, parameters);
            collect_scalar_trace_references(then_expr, derived, parameters);
            collect_scalar_trace_references(else_expr, derived, parameters);
        },
        ScalarExpr::NoMatch { subject, patterns } => {
            collect_scalar_trace_references(subject, derived, parameters);
            collect_scalars_trace_references(patterns, derived, parameters);
        },
        ScalarExpr::OverPeriods { value, n, .. } => {
            collect_scalar_trace_references(value, derived, parameters);
            if let Some(n) = n {
                collect_scalar_trace_references(n, derived, parameters);
            }
        },
    }
    assert(texts(derived@) =~= d0 + scalar_rules(*e));
    assert(texts(parameters@) =~= p0 + scalar_parameters(*e));
}

fn collect_judgments_trace_references(
    items: &Vec<JudgmentExpr>,
    derived: &mut Vec<String>,
    parameters: &mut Vec<String>,
)
    ensures
        texts(final(derived)@) == texts(old(derived)@) + judgments_rules(items@, items@.len()),
        texts(final(parameters)@) == texts(old(parameters)@) + judgments_parameters(
            items@,
            items@.len(),
        ),
    decreases items, 0int,
{
    let mut i: usize = 0;
    proof {
        assert(texts(derived@) =~= texts(derived@) + judgments_rules(items@, 0));
        assert(texts(parameters@) =~= texts(parameters@) + judgments_parameters(items@, 0));
    }
    while i < items.len()
        invariant
            i <= items@.len(),
            texts(derived@) == texts(old(derived)@) + judgments_rules(items@, i as nat),
            texts(parameters@) == texts(old(parameters)@) + judgments_parameters(items@, i as nat),
        decreases items@.len() - i,
    {
        collect_judgment_trace_references(&items[i], derived, parameters);
        proof {
            assert(texts(derived@) =~= texts(old(derived)@) + judgments_rules(
                items@,
                (i + 1) as nat,
            ));
            assert(texts(parameters@) =~= texts(old(parameters)@) + judgments_parameters(
                items@,
                (i + 1) as nat,
            ));
        }
        i = i + 1;
    }
}

/// Adds the rules and parameters that a judgment formula mentions.
fn collect_judgment_trace_references(
    e: &JudgmentExpr,
    derived: &mut Vec<String>,
    parameters: &mut Vec<String>,
)
    ensures
        texts(final(derived)@) == texts(old(derived)@) + judgment_rules(*e),
        texts(final(parameters)@) == texts(old(parameters)@) + judgment_parameters(*e),
    decreases e, 1int,
{
    let ghost d0 = texts(derived@);
    let ghost p0 = texts(parameters@);
    match e {
        JudgmentExpr::Comparison { left, right, .. } => {
            collect_scalar_trace_references(left, derived, parameters);
            collect_scalar_trace_references(right, derived, parameters);
        },
        JudgmentExpr::Derived(name) => push_text(derived, name),
        JudgmentExpr::RelationMember { .. } => {},
        JudgmentExpr::And(items) => collect_judgments_trace_references(items, derived, parameters),
        JudgmentExpr::Or(items) => collect_judgments_trace_references(items, derived, parameters),
        JudgmentExpr::Not(item) => collect_judgment_trace_references(item, derived, parameters),
    }
    assert(texts(derived@) =~= d0 + judgment_rules(*e));
    assert(texts(parameters@) =~= p0 + judgment_parameters(*e));
}

impl<'a> Engine<'a> {
    /// Traces rules and parameters that were mentioned and not evaluated.
    fn record_skipped(
        &self,
        derived: Vec<String>,
        parameters: Vec<String>,
        entity_id: &str,
        period: &Period,
        context: Option<RelationEvalContext<'_>>,
        reason: TraceSkipReason,
        trace: &mut NodeExecutionTrace,
    )
        ensures
            final(trace)@ == old(trace)@.absorb(
                skipped(
                    self.facts(period@),
                    texts(derived@),
                    texts(parameters@),
                    entity_id@,
                    context_of(context),
                    reason,
                ),
            ),
            final(trace)@.dependencies == old(trace)@.dependencies,
    {
        let ghost cx = self.facts(period@);
        let ghost all = skipped(
            cx,
            texts(derived@),
            texts(parameters@),
            entity_id@,
            context_of(context),
            reason,
        );
        let ghost start = trace@;
        proof {
            assert(all.take(0) =~= Seq::<TraceEvent>::empty());
        }
        let mut i: usize = 0;
        while i < derived.len()
            invariant
                i <= derived@.len(),
                cx == self.facts(period@),
                all == skipped(
                    cx,
                    texts(derived@),
                    texts(parameters@),
                    entity_id@,
                    context_of(context),
                    reason,
                ),
                trace@ == start.absorb(all.take(i as int)),
                trace@.dependencies == start.dependencies,
            decreases derived@.len() - i,
        {
            let target = match find_named(&self.program.derived, derived[i].as_str()) {
                Some(rule) => target_entity(context, rule.entity.as_str(), entity_id),
                None => entity_id,
            };
            let key = CacheKey::new(derived[i].as_str(), target, period);
            let dependency = SkippedTraceDependency::Derived { key, reason };
            proof {
                assert(dependency@ == all[i as int]);
                trace@.absorb_one(dependency@);
                assert(all.take(i + 1).drop_last() =~= all.take(i as int));
            }
            trace.record_skipped_dependency(dependency);
            i = i + 1;
        }
        let mut j: usize = 0;
        while j < parameters.len()
            invariant
                j <= parameters@.len(),
                all == skipped(
                    cx,
                    texts(derived@),
                    texts(parameters@),
                    entity_id@,
                    context_of(context),
                    reason,
                ),
                trace@ == start.absorb(all.take(derived@.len() + j)),
                trace@.dependencies == start.dependencies,
            decreases parameters@.len() - j,
        {
            let dependency = SkippedTraceDependency::Parameter {
                parameter: parameters[j].clone(),
                reason,
            };
            proof {
                assert(dependency@ == all[derived@.len() + j]);
                trace@.absorb_one(dependency@);
                assert(all.take(derived@.len() + j + 1).drop_last() =~= all.take(
                    derived@.len() + j,
                ));
            }
            trace.record_skipped_dependency(dependency);
            j = j + 1;
        }
        assert(all.take(derived@.len() + j) =~= all);
    }

    /// Traces a scalar formula that was not evaluated.
    fn record_skipped_scalar_dependencies(
        &self,
        e: &ScalarExpr,
        entity_id: &str,
        period: &Period,
        context: Option<RelationEvalContext<'_>>,
        reason: TraceSkipReason,
        trace: &mut NodeExecutionTrace,
    )
        ensures
            final(trace)@ == old(trace)@.absorb(
                skipped_scalar(
                    self.facts(period@),
                    *e,
                    entity_id@,
                    context_of(context),
                    reason,
                ),
            ),
            final(trace)@.dependencies == old(trace)@.dependencies,
    {
        let mut derived: Vec<String> = Vec::new();
        let mut parameters: Vec<String> = Vec::new();
        collect_scalar_trace_references(e, &mut derived, &mut parameters);
        assert(texts(derived@) =~= scalar_rules(*e));
        assert(texts(parameters@) =~= scalar_parameters(*e));
        self.record_skipped(derived, parameters, entity_id, period, context, reason, trace);
    }

    /// Traces the judgments from `from` on, which a decided one left unevaluated.
    fn record_skipped_judgment_dependencies(
        &self,
        items: &Vec<JudgmentExpr>,
        from: usize,
        entity_id: &str,
        period: &Period,
        context: Option<RelationEvalContext<'_>>,
        trace: &mut NodeExecutionTrace,
    )
        requires
            from <= items@.len(),
        ensures
            final(trace)@ == old(trace)@.absorb(
                skipped_judgments(
                    self.facts(period@),
                    items@,
                    from as nat,
                    entity_id@,
                    context_of(context),
                ),
            ),
            final(trace)@.dependencies == old(trace)@.dependencies,
        decreases items@.len() - from,
    {
        if from < items.len() {
            let mut derived: Vec<String> = Vec::new();
            let mut parameters: Vec<String> = Vec::new();
            collect_judgment_trace_references(&items[from], &mut derived, &mut parameters);
            assert(texts(derived@) =~= judgment_rules(items@[from as int]));
            assert(texts(parameters@) =~= judgment_parameters(items@[from as int]));
            let ghost start = trace@;
            self.record_skipped(
                derived,
                parameters,
                entity_id,
                period,
                context,
                TraceSkipReason::ShortCircuit,
                trace,
            );
            self.record_skipped_judgment_dependencies(
                items,
                from + 1,
                entity_id,
                period,
                context,
                trace,
            );
            proof {
                let cx = self.facts(period@);
                start.absorb_joined(
                    skipped(
                        cx,
                        judgment_rules(items@[from as int]),
                        judgment_parameters(items@[from as int]),
                        entity_id@,
                        context_of(context),
                        TraceSkipReason::ShortCircuit,
                    ),
                    skipped_judgments(
                        cx,
                        items@,
                        (from + 1) as nat,
                        entity_id@,
                        context_of(context),
                    ),
                );
            }
        }
    }

    /// The value of an input: that of the latest spell that covers the period.
    pub(crate) fn lookup_input(&self, name: &str, entity_id: &str, period: &Period) -> (r: Result<
        ScalarValue,
        EvalError,
    >)
        ensures
            outcome(r) == input_value(self.facts(period@), name@, entity_id@),
    {
        let inputs = &self.data.inputs;
        let mut best: Option<usize> = None;
        let mut i: usize = 0;
        while i < inputs.len()
            invariant
                i <= inputs@.len(),
                input_choice(inputs@, name@, entity_id@, period@, i as nat) == match best {
                    Some(b) => Some(b as nat),
                    None => None,
                },
                best matches Some(b) ==> b < i,
            decreases inputs@.len() - i,
        {
            let record = &inputs[i];
            if same(record.name.as_str(), name) && same(record.entity_id.as_str(), entity_id)
                && record.interval.contains_period(period) {
                let later = match best {
                    Some(b) => inputs[b].interval.start.before(&record.interval.start),
                    None => true,
                };
                if later {
                    best = Some(i);
                }
            }
            i = i + 1;
        }
        let chosen = match best {
            Some(b) => b,
            None => {
                return Err(
                    EvalError::MissingInput {
                        name: owned(name),
                        entity_id: owned(entity_id),
                        period_start: period.start,
                        period_end: period.end,
                    },
                );
            },
        };
        let mut j: usize = 0;
        while j < inputs.len()
            invariant
                j <= inputs@.len(),
                chosen < inputs@.len(),
                self.data_view().inputs == *inputs,
                input_choice(inputs@, name@, entity_id@, period@, inputs@.len()) == Some(
                    chosen as nat,
                ),
                forall|k: int|
                    0 <= k < j && input_covers(#[trigger] inputs@[k], name@, entity_id@, period@)
                        && inputs@[k].interval.start == inputs@[chosen as int].interval.start
                        ==> inputs@[k].value.equals(inputs@[chosen as int].value),
            decreases inputs@.len() - j,
        {
            let record = &inputs[j];
            if same(record.name.as_str(), name) && same(record.entity_id.as_str(), entity_id)
                && record.interval.contains_period(period) && record.interval.start.same_day(
                &inputs[chosen].interval.start,
            ) && !record.value.equal_to(&inputs[chosen].value) {
                assert(input_conflicts(inputs@, name@, entity_id@, period@, chosen as nat));
                return Err(
                    EvalError::AmbiguousInput {
                        name: owned(name),
                        entity_id: owned(entity_id),
                        effective_from: inputs[chosen].interval.start,
                    },
                );
            }
            j = j + 1;
        }
        assert(!input_conflicts(inputs@, name@, entity_id@, period@, chosen as nat));
        Ok(inputs[chosen].value.duplicate())
    }

    /// Reads a parameter at a key and traces the read.
    fn lookup_parameter(
        &self,
        name: &str,
        key: i64,
        period: &Period,
        trace: &mut NodeExecutionTrace,
    ) -> (r: Result<ScalarValue, EvalError>)
        ensures
            ({
                let read = parameter_read(self.facts(period@), name@, key);
                outcome(r) == read.value && final(trace)@ == old(trace)@.absorb(read.log)
            }),
            final(trace)@.dependencies == old(trace)@.dependencies,
    {
        let parameter = match find_named(&self.program.parameters, name) {
            Some(parameter) => parameter,
            None => {
                return Err(EvalError::UnknownParameter(owned(name)));
            },
        };
        let missing = EvalError::MissingParameterValue {
            parameter: owned(name),
            key,
            at: period.start,
        };
        match parameter.version_on(period.start) {
            Some(version) => match version.values.get(&key) {
                Some(value) => {
                    trace.record_parameter_read(
                        ParameterTraceRead {
                            parameter: owned(name),
                            index: key,
                            value: value.duplicate(),
                            effective_from: version.effective_from,
                            effective_to: version.effective_to,
                        },
                    );
                    Ok(value.duplicate())
                },
                None => Err(missing),
            },
            None => Err(missing),
        }
    }

    /// The rule with a name.
    fn get_derived(&self, name: &str) -> (r: Result<&'a Derived, EvalError>)
        ensures
            match r {
                Ok(d) => self.program_view().rule(name@) == Some(*d),
                Err(e) => self.program_view().rule(name@) is None && e@
                    == ErrorView::UnknownDerived(name@),
            },
    {
        match find_named(&self.program.derived, name) {
            Some(derived) => Ok(derived),
            None => Err(EvalError::UnknownDerived(owned(name))),
        }
    }

    /// A rule's unit, where it has one, is declared.
    fn validate_unit(&self, derived: &Derived) -> (r: Result<(), EvalError>)
        ensures
            outcome(r) == match derived.unit {
                Some(unit) if self.program_view().unit(unit@) is None => Err(
                    ErrorView::UnknownUnit(unit@),
                ),
                _ => Ok(()),
            },
    {
        match &derived.unit {
            Some(unit) => match find_index(&self.program.units, unit.as_str()) {
                Some(_) => Ok(()),
                None => Err(EvalError::UnknownUnit(unit.clone())),
            },
            None => Ok(()),
        }
    }

    /// Related ids that the records state, in the order of the records.
    fn stated_ids(
        &self,
        relation: &str,
        current_slot: usize,
        related_slot: usize,
        entity_id: &str,
        period: &Period,
    ) -> (r: Vec<String>)
        ensures
            texts(r@) == stated_related(
                self.facts(period@),
                relation@,
                current_slot as nat,
                related_slot as nat,
                entity_id@,
                self.data_view().relations@.len(),
            ),
    {
        let records = &self.data.relations;
        let ghost cx = self.facts(period@);
        let mut ids: Vec<String> = Vec::new();
        let mut i: usize = 0;
        assert(texts(ids@) =~= Seq::<Seq<char>>::empty());
        while i < records.len()
            invariant
                i <= records@.len(),
                cx == self.facts(period@),
                records@ == cx.data.relations,
                texts(ids@) == stated_related(
                    cx,
                    relation@,
                    current_slot as nat,
                    related_slot as nat,
                    entity_id@,
                    i as nat,
                ),
            decreases records@.len() - i,
        {
            let record = &records[i];
            if same(record.name.as_str(), relation) && current_slot < record.tuple.len() && same(
                record.tuple[current_slot].as_str(),
                entity_id,
            ) && record.interval.contains_period(period) && related_slot < record.tuple.len() {
                let ghost before = texts(ids@);
                ids.push(record.tuple[related_slot].clone());
                assert(texts(ids@) =~= before.push(record.tuple@[related_slot as int]@));
            }
            i = i + 1;
        }
        ids
    }
}

/// The texts of a list in ascending order, each once.
fn sort_texts(ids: Vec<String>) -> (r: Vec<String>)
    ensures
        texts(r@) == sorted_texts(texts(ids@)),
{
    let mut sorted: Vec<String> = Vec::new();
    let mut i: usize = 0;
    proof {
        assert(texts(ids@).take(0) =~= Seq::<Seq<char>>::empty());
        assert(texts(sorted@) =~= Seq::<Seq<char>>::empty());
    }
    while i < ids.len()
        invariant
            i <= ids@.len(),
            texts(sorted@) == sorted_texts(texts(ids@).take(i as int)),
        decreases ids@.len() - i,
    {
        insert_sorted(&mut sorted, ids[i].clone());
        proof {
            let prefix = texts(ids@).take(i + 1);
            assert(prefix.drop_last() =~= texts(ids@).take(i as int));
            assert(prefix.last() == ids@[i as int]@);
        }
        i = i + 1;
    }
    assert(texts(ids@).take(i as int) =~= texts(ids@));
    sorted
}

/// The number that an aggregation reads of a related entity.
spec fn related_value_run(cx: Facts, fuel: nat, value: RelatedValueRef, id: Seq<char>) -> Option<
    Eval<Decimal>,
>
{
    finish(
        match value {
            RelatedValueRef::Input(name) => done(input_value(cx, name@, id)),
            RelatedValueRef::Derived(name) => if fuel == 0 {
                None
            } else {
                referred(
                    RuleKey { derived: name@, entity_id: id, period: cx.period },
                    rule_scalar(cx, (fuel - 1) as nat, name@, id),
                )
            },
        },
        |v: ScalarValue| as_related_number(v),
    )
}

proof fn sum_prefix(
    cx: Facts,
    fuel: nat,
    items: Seq<ScalarExpr>,
    m: nat,
    n: nat,
    ent: Seq<char>,
    context: Option<RelationContext>,
)
    requires
        m <= n <= items.len(),
        sum_run(cx, fuel, items, n, ent, context) is Some,
    ensures
        sum_run(cx, fuel, items, m, ent, context) is Some,
        sum_run(cx, fuel, items, m, ent, context)->0.value is Err ==> sum_run(
            cx,
            fuel,
            items,
            n,
            ent,
            context,
        ) == sum_run(cx, fuel, items, m, ent, context),
    decreases n - m,
{
    if m < n {
        sum_prefix(cx, fuel, items, m, (n - 1) as nat, ent, context);
    }
}

proof fn extremum_prefix(
    cx: Facts,
    fuel: nat,
    items: Seq<ScalarExpr>,
    m: nat,
    n: nat,
    largest: bool,
    ent: Seq<char>,
    context: Option<RelationContext>,
)
    requires
        1 <= m <= n <= items.len(),
        extremum_run(cx, fuel, items, n, largest, ent, context) is Some,
    ensures
        extremum_run(cx, fuel, items, m, largest, ent, context) is Some,
        extremum_run(cx, fuel, items, m, largest, ent, context)->0.value is Err ==> extremum_run(
            cx,
            fuel,
            items,
            n,
            largest,
            ent,
            context,
        ) == extremum_run(cx, fuel, items, m, largest, ent, context),
    decreases n - m,
{
    if m < n {
        extremum_prefix(cx, fuel, items, m, (n - 1) as nat, largest, ent, context);
    }
}

proof fn count_prefix(cx: Facts, fuel: nat, e: ScalarExpr, ids: Seq<Seq<char>>, m: nat, n: nat)
    requires
        m <= n <= ids.len(),
        count_run(cx, fuel, e, ids, n) is Some,
    ensures
        count_run(cx, fuel, e, ids, m) is Some,
        count_run(cx, fuel, e, ids, m)->0.value is Err ==> count_run(cx, fuel, e, ids, n)
            == count_run(cx, fuel, e, ids, m),
    decreases n - m,
{
    if m < n {
        count_prefix(cx, fuel, e, ids, m, (n - 1) as nat);
    }
}

proof fn total_prefix(cx: Facts, fuel: nat, e: ScalarExpr, ids: Seq<Seq<char>>, m: nat, n: nat)
    requires
        m <= n <= ids.len(),
        total_run(cx, fuel, e, ids, n) is Some,
    ensures
        total_run(cx, fuel, e, ids, m) is Some,
        total_run(cx, fuel, e, ids, m)->0.value is Err ==> total_run(cx, fuel, e, ids, n)
            == total_run(cx, fuel, e, ids, m),
    decreases n - m,
{
    if m < n {
        total_prefix(cx, fuel, e, ids, m, (n - 1) as nat);
    }
}

proof fn members_prefix(
    cx: Facts,
    fuel: nat,
    d: RelationDerivation,
    ent: Seq<char>,
    ids: Seq<Seq<char>>,
    m: nat,
    n: nat,
)
    requires
        m <= n <= ids.len(),
        members_run(cx, fuel, d, ent, ids, n) is Some,
    ensures
        members_run(cx, fuel, d, ent, ids, m) is Some,
        members_run(cx, fuel, d, ent, ids, m)->0.value is Err ==> members_run(
            cx,
            fuel,
            d,
            ent,
            ids,
            n,
        ) == members_run(cx, fuel, d, ent, ids, m),
    decreases n - m,
{
    if m < n {
        members_prefix(cx, fuel, d, ent, ids, m, (n - 1) as nat);
    }
}

/// Whether a result and the trace before and after it are those of `run`.
spec fn ran<T>(
    run: Option<Eval<T>>,
    r: Result<T, EvalError>,
    before: TraceView,
    now: TraceView,
) -> bool {
    &&& run is Some
    &&& outcome(r) == run->0.value
    &&& now == before.absorb(run->0.log)
}

/// As [`ran`], for a list of ids.
spec fn ran_ids(
    run: Option<Eval<Seq<Seq<char>>>>,
    r: Result<Vec<String>, EvalError>,
    before: TraceView,
    now: TraceView,
) -> bool {
    &&& run is Some
    &&& match r {
        Ok(ids) => run->0.value == Ok::<Seq<Seq<char>>, ErrorView>(texts(ids@)),
        Err(error) => run->0.value == Err::<Seq<Seq<char>>, ErrorView>(error@),
    }
    &&& now == before.absorb(run->0.log)
}

impl<'a> Engine<'a> {
    /// The value of a rule, remembered where it is not an error.
    fn evaluate_scalar_within(
        &mut self,
        derived_name: &str,
        entity_id: &str,
        period: &Period,
        Ghost(fuel): Ghost<nat>,
    ) -> (r: Result<ScalarValue, EvalError>)
        requires
            old(self).well_formed(),
            rule_scalar(old(self).facts(period@), fuel, derived_name@, entity_id@) is Some,
        ensures
            final(self).extends(old(self)),
            outcome(r) == rule_scalar(
                old(self).facts(period@),
                fuel,
                derived_name@,
                entity_id@,
            )->0.value,
            r matches Ok(v) ==> final(self).scalar_at(
                RuleKey { derived: derived_name@, entity_id: entity_id@, period: period@ },
            ) == Some(v),
            r is Ok ==> final(self).grown(
                old(self),
                RuleKey { derived: derived_name@, entity_id: entity_id@, period: period@ },
            ),
        decreases 2 * fuel + 1, period, 1int, 0int,
    {
        let ghost cx = self.facts(period@);
        let ghost k = RuleKey { derived: derived_name@, entity_id: entity_id@, period: period@ };
        proof {
            scalar_meaning_at(cx, fuel, derived_name@, entity_id@);
            assert(self.scalar_sound(k));
        }
        let key = CacheKey::new(derived_name, entity_id, period);
        if let Some(i) = find_entry(&self.scalar_cache, &key) {
            proof {
                self.grown_by_nothing(k);
            }
            return Ok(self.scalar_cache[i].value.duplicate());
        }
        let derived = match self.get_derived(derived_name) {
            Ok(derived) => derived,
            Err(error) => {
                return Err(error);
            },
        };
        if let Err(error) = self.validate_unit(derived) {
            return Err(error);
        }
        let semantics = match derived.semantics_at(period) {
            Some(semantics) => semantics,
            None => {
                return Err(
                    EvalError::MissingDerivedFormulaVersion {
                        derived: owned(derived_name),
                        at: period.start,
                    },
                );
            },
        };
        let expr = match semantics {
            DerivedSemantics::Scalar(expr) => expr,
            DerivedSemantics::Judgment(_) => {
                self.trace_default(key);
                return Err(EvalError::ExpectedScalar(owned(derived_name)));
            },
        };
        let mut trace = NodeExecutionTrace::new();
        proof {
            self.notes_nothing(period@);
            self.stays_at_start();
        }
        let evaluated = self.eval_scalar_expr_inner(
            expr,
            entity_id,
            period,
            None,
            &mut trace,
            Ghost(fuel),
        );
        let ghost mid = *self;
        proof {
            assert(mid.scalar_sound(k));
            assert(mid.judgment_sound(k));
            if mid.judgment_at(k) is Some {
                let f = choose|f: nat| #[trigger]
                    rule_judgment(cx, f, derived_name@, entity_id@) is Some;
                assert(rule_judgment(cx, f, derived_name@, entity_id@)->0.value is Err);
                assert(false);
            }
        }
        set_entry(&mut self.execution_trace, key.duplicate(), trace);
        let value = match evaluated {
            Ok(value) => value,
            Err(error) => {
                proof {
                    assert(self.extends(old(self))) by {
                        assert forall|q: RuleKey| #![trigger self.scalar_at(q)] self.scalar_sound(
                            q,
                        ) by {
                            assert(mid.scalar_sound(q));
                        }
                        assert forall|q: RuleKey|
                            #![trigger self.judgment_at(q)]
                            self.judgment_sound(q) by {
                            assert(mid.judgment_sound(q));
                        }
                        assert forall|q: RuleKey| #[trigger]
                            self.pre_rounding_at(q) is Some implies self.scalar_at(q) is Some by {
                            assert(mid.pre_rounding_at(q) is Some);
                        }
                        assert forall|q: RuleKey| #[trigger]
                            mid.is_remembered(q) implies self.is_remembered(q) by {}
                        assert forall|q: RuleKey| #![trigger self.trace_at(q)] self.is_closed_at(
                            q,
                        ) by {
                            assert(mid.is_closed_at(q));
                            if q == k {
                                assert(!self.is_remembered(k));
                            } else {
                                assert(self.trace_at(q) == mid.trace_at(q));
                                if let Some(t) = mid.trace_at(q) {
                                    self.notes_grow(&mid, t, q.period);
                                }
                            }
                        }
                    }
                }
                let label = match &derived.id {
                    Some(id) => id.as_str(),
                    None => derived.name.as_str(),
                };
                return Err(error.within_rule(label));
            },
        };
        let rounded = apply_output_rounding(derived, value.duplicate());
        let ghost moved = !rounded.equals(value);
        let ghost pre0 = self.pre_rounding_cache@;
        if !rounded.equal_to(&value) {
            let ghost entry = Entry { key, value };
            proof {
                entry_pushed(self.pre_rounding_cache@, entry);
            }
            self.pre_rounding_cache.push(Entry { key: key.duplicate(), value });
        }
        let ghost entry = Entry { key, value: rounded };
        let ghost cache0 = self.scalar_cache@;
        proof {
            entry_pushed(self.scalar_cache@, entry);
        }
        self.scalar_cache.push(Entry { key, value: rounded.duplicate() });
        proof {
            assert(self.scalar_cache@ =~= cache0.push(entry));
            assert(mid.scalar_at(k) is Some ==> mid.scalar_at(k) == Some(rounded));
            assert(mid.pre_rounding_at(k) is Some ==> mid.scalar_at(k) is Some);
            assert forall|q: RuleKey| #![trigger self.scalar_at(q)] self.scalar_sound(q) by {
                assert(mid.scalar_sound(q));
                assert(mid.pre_rounding_at(q) is Some ==> mid.scalar_at(q) is Some);
            }
            assert forall|q: RuleKey| #![trigger self.judgment_at(q)] self.judgment_sound(q) by {
                assert(mid.judgment_sound(q));
            }
            assert forall|q: RuleKey| #[trigger]
                self.pre_rounding_at(q) is Some implies self.scalar_at(q) is Some by {
                assert(mid.pre_rounding_at(q) is Some ==> mid.scalar_at(q) is Some);
            }
            assert forall|q: RuleKey| #[trigger]
                old(self).scalar_at(q) is Some implies self.scalar_at(q) == old(self).scalar_at(
                q,
            ) by {
                assert(mid.scalar_at(q) == old(self).scalar_at(q));
            }
            assert forall|q: RuleKey| #[trigger]
                mid.is_remembered(q) implies self.is_remembered(q) by {}
            assert forall|q: RuleKey| #![trigger self.trace_at(q)] self.is_closed_at(q) by {
                assert(mid.is_closed_at(q));
                if q == k {
                    self.notes_grow(&mid, trace@, period@);
                } else {
                    assert(self.trace_at(q) == mid.trace_at(q));
                    if let Some(t) = mid.trace_at(q) {
                        self.notes_grow(&mid, t, q.period);
                    }
                }
            }
        }
        proof {
            assert(mid.stays_in(old(self).remembered(), trace@));
            assert(self.scalar_sound(k));
            assert forall|q: RuleKey| #[trigger] self.is_remembered(q) implies q == k
                || mid.is_remembered(q) by {}
            self.grown_by_rule(old(self), &mid, k, trace@);
        }
        Ok(rounded)
    }

    /// An empty trace for a key that has none.
    fn trace_default(&mut self, key: CacheKey)
        requires
            old(self).well_formed(),
        ensures
            final(self).extends(old(self)),
            forall|q: RuleKey| #[trigger]
                final(self).trace_at(q) == if q == key@ && old(self).trace_at(q) is None {
                    Some(TraceView::empty())
                } else {
                    old(self).trace_at(q)
                },
            forall|q: RuleKey| #[trigger] final(self).scalar_at(q) == old(self).scalar_at(q),
            forall|q: RuleKey| #[trigger]
                final(self).pre_rounding_at(q) == old(self).pre_rounding_at(q),
            forall|q: RuleKey| #[trigger] final(self).judgment_at(q) == old(self).judgment_at(q),
    {
        if let None = find_entry(&self.execution_trace, &key) {
            let ghost k = key@;
            let trace = NodeExecutionTrace::new();
            proof {
                assert(self.scalar_sound(k));
                assert(self.judgment_sound(k));
            }
            set_entry(&mut self.execution_trace, key, trace);
            proof {
                assert forall|q: RuleKey| #![trigger self.scalar_at(q)] self.scalar_sound(q) by {
                    assert(old(self).scalar_sound(q));
                }
                assert forall|q: RuleKey| #![trigger self.judgment_at(q)] self.judgment_sound(
                    q,
                ) by {
                    assert(old(self).judgment_sound(q));
                }
                assert forall|q: RuleKey| #[trigger]
                    self.pre_rounding_at(q) is Some implies self.scalar_at(q) is Some by {
                    assert(old(self).pre_rounding_at(q) is Some);
                }
                assert forall|q: RuleKey| #[trigger]
                    old(self).is_remembered(q) implies self.is_remembered(q) by {}
                assert forall|q: RuleKey| #![trigger self.trace_at(q)] self.is_closed_at(q) by {
                    assert(old(self).is_closed_at(q));
                    if q == k {
                        self.notes_nothing(q.period);
                    } else {
                        assert(self.trace_at(q) == old(self).trace_at(q));
                        if let Some(t) = old(self).trace_at(q) {
                            self.notes_grow(old(self), t, q.period);
                        }
                    }
                }
            }
        }
    }

    /// The judgment of a rule, remembered where it is not an error.
    fn evaluate_judgment_within(
        &mut self,
        derived_name: &str,
        entity_id: &str,
        period: &Period,
        Ghost(fuel): Ghost<nat>,
    ) -> (r: Result<JudgmentOutcome, EvalError>)
        requires
            old(self).well_formed(),
            rule_judgment(old(self).facts(period@), fuel, derived_name@, entity_id@) is Some,
        ensures
            final(self).extends(old(self)),
            outcome(r) == rule_judgment(
                old(self).facts(period@),
                fuel,
                derived_name@,
                entity_id@,
            )->0.value,
            r matches Ok(v) ==> final(self).judgment_at(
                RuleKey { derived: derived_name@, entity_id: entity_id@, period: period@ },
            ) == Some(v),
            r is Ok ==> final(self).grown(
                old(self),
                RuleKey { derived: derived_name@, entity_id: entity_id@, period: period@ },
            ),
        decreases 2 * fuel + 1, period, 1int, 0int,
    {
        let ghost cx = self.facts(period@);
        let ghost k = RuleKey { derived: derived_name@, entity_id: entity_id@, period: period@ };
        proof {
            judgment_meaning_at(cx, fuel, derived_name@, entity_id@);
            assert(self.judgment_sound(k));
        }
        let key = CacheKey::new(derived_name, entity_id, period);
        if let Some(i) = find_entry(&self.judgment_cache, &key) {
            proof {
                self.grown_by_nothing(k);
            }
            return Ok(self.judgment_cache[i].value);
        }
        let derived = match self.get_derived(derived_name) {
            Ok(derived) => derived,
            Err(error) => {
                return Err(error);
            },
        };
        if let Err(error) = self.validate_unit(derived) {
            return Err(error);
        }
        let semantics = match derived.semantics_at(period) {
            Some(semantics) => semantics,
            None => {
                return Err(
                    EvalError::MissingDerivedFormulaVersion {
                        derived: owned(derived_name),
                        at: period.start,
                    },
                );
            },
        };
        let expr = match semantics {
            DerivedSemantics::Judgment(expr) => expr,
            DerivedSemantics::Scalar(_) => {
                self.trace_default(key);
                return Err(EvalError::ExpectedJudgment(owned(derived_name)));
            },
        };
        let mut trace = NodeExecutionTrace::new();
        proof {
            self.notes_nothing(period@);
            self.stays_at_start();
        }
        let evaluated = self.eval_judgment_expr_inner(
            expr,
            entity_id,
            period,
            None,
            &mut trace,
            Ghost(fuel),
        );
        let ghost mid = *self;
        proof {
            assert(mid.scalar_sound(k));
            assert(mid.judgment_sound(k));
            if mid.scalar_at(k) is Some {
                let f = choose|f: nat| #[trigger]
                    rule_scalar(cx, f, derived_name@, entity_id@) is Some;
                assert(rule_unrounded(cx, f, derived_name@, entity_id@)->0.value is Err);
                assert(false);
            }
        }
        set_entry(&mut self.execution_trace, key.duplicate(), trace);
        let value = match evaluated {
            Ok(value) => value,
            Err(error) => {
                proof {
                    assert(self.extends(old(self))) by {
                        assert forall|q: RuleKey| #![trigger self.scalar_at(q)] self.scalar_sound(
                            q,
                        ) by {
                            assert(mid.scalar_sound(q));
                        }
                        assert forall|q: RuleKey|
                            #![trigger self.judgment_at(q)]
                            self.judgment_sound(q) by {
                            assert(mid.judgment_sound(q));
                        }
                        assert forall|q: RuleKey| #[trigger]
                            self.pre_rounding_at(q) is Some implies self.scalar_at(q) is Some by {
                            assert(mid.pre_rounding_at(q) is Some);
                        }
                        assert forall|q: RuleKey| #[trigger]
                            mid.is_remembered(q) implies self.is_remembered(q) by {}
                        assert forall|q: RuleKey| #![trigger self.trace_at(q)] self.is_closed_at(
                            q,
                        ) by {
                            assert(mid.is_closed_at(q));
                            if q == k {
                                assert(!self.is_remembered(k));
                            } else {
                                assert(self.trace_at(q) == mid.trace_at(q));
                                if let Some(t) = mid.trace_at(q) {
                                    self.notes_grow(&mid, t, q.period);
                                }
                            }
                        }
                    }
                }
                let label = match &derived.id {
                    Some(id) => id.as_str(),
                    None => derived.name.as_str(),
                };
                return Err(error.within_rule(label));
            },
        };
        let ghost entry = Entry { key, value };
        let ghost cache0 = self.judgment_cache@;
        proof {
            entry_pushed(self.judgment_cache@, entry);
        }
        self.judgment_cache.push(Entry { key, value });
        proof {
            assert(self.judgment_cache@ =~= cache0.push(entry));
            assert(mid.judgment_at(k) is Some ==> mid.judgment_at(k) == Some(value));
            assert forall|q: RuleKey| #![trigger self.scalar_at(q)] self.scalar_sound(q) by {
                assert(mid.scalar_sound(q));
            }
            assert forall|q: RuleKey| #![trigger self.judgment_at(q)] self.judgment_sound(q) by {
                assert(mid.judgment_sound(q));
            }
            assert forall|q: RuleKey| #[trigger]
                self.pre_rounding_at(q) is Some implies self.scalar_at(q) is Some by {
                assert(mid.pre_rounding_at(q) is Some);
            }
            assert forall|q: RuleKey| #[trigger]
                old(self).judgment_at(q) is Some implies self.judgment_at(q) == old(
                self,
            ).judgment_at(q) by {
                assert(mid.judgment_at(q) == old(self).judgment_at(q));
            }
            assert forall|q: RuleKey| #[trigger]
                mid.is_remembered(q) implies self.is_remembered(q) by {}
            assert forall|q: RuleKey| #![trigger self.trace_at(q)] self.is_closed_at(q) by {
                assert(mid.is_closed_at(q));
                if q == k {
                    self.notes_grow(&mid, trace@, period@);
                } else {
                    assert(self.trace_at(q) == mid.trace_at(q));
                    if let Some(t) = mid.trace_at(q) {
                        self.notes_grow(&mid, t, q.period);
                    }
                }
            }
        }
        proof {
            assert(mid.stays_in(old(self).remembered(), trace@));
            assert(self.judgment_sound(k));
            assert forall|q: RuleKey| #[trigger] self.is_remembered(q) implies q == k
                || mid.is_remembered(q) by {}
            self.grown_by_rule(old(self), &mid, k, trace@);
        }
        Ok(value)
    }

    /// A scalar formula that is to give a number.
    fn eval_decimal(
        &mut self,
        expr: &ScalarExpr,
        entity_id: &str,
        period: &Period,
        context: Option<RelationEvalContext<'_>>,
        trace: &mut NodeExecutionTrace,
        Ghost(fuel): Ghost<nat>,
    ) -> (r: Result<Decimal, EvalError>)
        requires
            old(self).well_formed(),
            scalar_run(
                old(self).facts(period@),
                fuel,
                *expr,
                entity_id@,
                context_of(context),
            ) is Some,
        ensures
            final(self).extends(old(self)),
            ran(
                number_of(
                    scalar_run(
                        old(self).facts(period@),
                        fuel,
                        *expr,
                        entity_id@,
                        context_of(context),
                    ),
                ),
                r,
                old(trace)@,
                final(trace)@,
            ),
            r is Ok && old(self).notes(old(trace)@, period@) ==> final(self).notes(
                final(trace)@,
                period@,
            ),
            r is Ok ==> forall|base: Set<RuleKey>|
                old(self).stays_in(base, old(trace)@) ==> #[trigger] final(self).stays_in(
                    base,
                    final(trace)@,
                ),
        decreases 2 * fuel, expr, 3int, 0int,
    {
        match self.eval_scalar_expr_inner(expr, entity_id, period, context, trace, Ghost(fuel)) {
            Ok(value) => match value.as_decimal() {
                Some(number) => Ok(number),
                None => Err(EvalError::TypeMismatch(owned("expected numeric scalar"))),
            },
            Err(error) => Err(error),
        }
    }

    /// A scalar formula that is to give a day.
    fn eval_day(
        &mut self,
        expr: &ScalarExpr,
        message: &str,
        entity_id: &str,
        period: &Period,
        context: Option<RelationEvalContext<'_>>,
        trace: &mut NodeExecutionTrace,
        Ghost(fuel): Ghost<nat>,
    ) -> (r: Result<Date, EvalError>)
        requires
            old(self).well_formed(),
            scalar_run(
                old(self).facts(period@),
                fuel,
                *expr,
                entity_id@,
                context_of(context),
            ) is Some,
        ensures
            final(self).extends(old(self)),
            ran(
                finish(
                    scalar_run(
                        old(self).facts(period@),
                        fuel,
                        *expr,
                        entity_id@,
                        context_of(context),
                    ),
                    |v: ScalarValue| as_day(v, message@),
                ),
                r,
                old(trace)@,
                final(trace)@,
            ),
            r is Ok && old(self).notes(old(trace)@, period@) ==> final(self).notes(
                final(trace)@,
                period@,
            ),
            r is Ok ==> forall|base: Set<RuleKey>|
                old(self).stays_in(base, old(trace)@) ==> #[trigger] final(self).stays_in(
                    base,
                    final(trace)@,
                ),
        decreases 2 * fuel, expr, 3int, 0int,
    {
        match self.eval_scalar_expr_inner(expr, entity_id, period, context, trace, Ghost(fuel)) {
            Ok(value) => match value.as_date() {
                Some(day) => Ok(day),
                None => Err(EvalError::TypeMismatch(owned(message))),
            },
            Err(error) => Err(error),
        }
    }

    /// A scalar formula that is to give an exact integer.
    fn eval_count_operand(
        &mut self,
        expr: &ScalarExpr,
        message: &str,
        entity_id: &str,
        period: &Period,
        context: Option<RelationEvalContext<'_>>,
        trace: &mut NodeExecutionTrace,
        Ghost(fuel): Ghost<nat>,
    ) -> (r: Result<i64, EvalError>)
        requires
            old(self).well_formed(),
            scalar_run(
                old(self).facts(period@),
                fuel,
                *expr,
                entity_id@,
                context_of(context),
            ) is Some,
        ensures
            final(self).extends(old(self)),
            ran(
                finish(
                    scalar_run(
                        old(self).facts(period@),
                        fuel,
                        *expr,
                        entity_id@,
                        context_of(context),
                    ),
                    |v: ScalarValue| as_count(v, message@),
                ),
                r,
                old(trace)@,
                final(trace)@,
            ),
            r is Ok && old(self).notes(old(trace)@, period@) ==> final(self).notes(
                final(trace)@,
                period@,
            ),
            r is Ok ==> forall|base: Set<RuleKey>|
                old(self).stays_in(base, old(trace)@) ==> #[trigger] final(self).stays_in(
                    base,
                    final(trace)@,
                ),
        decreases 2 * fuel, expr, 3int, 0int,
    {
        match self.eval_scalar_expr_inner(expr, entity_id, period, context, trace, Ghost(fuel)) {
            Ok(value) => match value.as_index() {
                Some(count) => Ok(count),
                None => Err(EvalError::TypeMismatch(owned(message))),
            },
            Err(error) => Err(error),
        }
    }

    /// The sum of the items.
    fn eval_sum(
        &mut self,
        items: &Vec<ScalarExpr>,
        entity_id: &str,
        period: &Period,
        context: Option<RelationEvalContext<'_>>,
        trace: &mut NodeExecutionTrace,
        Ghost(fuel): Ghost<nat>,
    ) -> (r: Result<Decimal, EvalError>)
        requires
            old(self).well_formed(),
            sum_run(
                old(self).facts(period@),
                fuel,
                items@,
                items@.len(),
                entity_id@,
                context_of(context),
            ) is Some,
        ensures
            final(self).extends(old(self)),
            ran(
                sum_run(
                    old(self).facts(period@),
                    fuel,
                    items@,
                    items@.len(),
                    entity_id@,
                    context_of(context),
                ),
                r,
                old(trace)@,
                final(trace)@,
            ),
            r is Ok && old(self).notes(old(trace)@, period@) ==> final(self).notes(
                final(trace)@,
                period@,
            ),
            r is Ok ==> forall|base: Set<RuleKey>|
                old(self).stays_in(base, old(trace)@) ==> #[trigger] final(self).stays_in(
                    base,
                    final(trace)@,
                ),
        decreases 2 * fuel, items, 0int, 0int,
    {
        let ghost cx = self.facts(period@);
        let ghost c = context_of(context);
        let mut total = Decimal::zero();
        let mut i: usize = 0;
        while i < items.len()
            invariant
                i <= items@.len(),
                self.extends(old(self)),
                cx == old(self).facts(period@),
                c == context_of(context),
                sum_run(cx, fuel, items@, items@.len(), entity_id@, c) is Some,
                ran(
                    sum_run(cx, fuel, items@, i as nat, entity_id@, c),
                    Ok(total),
                    old(trace)@,
                    trace@,
                ),
                old(self).notes(old(trace)@, period@) ==> self.notes(trace@, period@),
                forall|base: Set<RuleKey>|
                    old(self).stays_in(base, old(trace)@) ==> #[trigger] self.stays_in(base, trace@),
            decreases items@.len() - i,
        {
            proof {
                sum_prefix(
                    cx,
                    fuel,
                    items@,
                    (i + 1) as nat,
                    items@.len(),
                    entity_id@,
                    c,
                );
            }
            let ghost item = scalar_run(cx, fuel, items@[i as int], entity_id@, c);
            proof {
                old(trace)@.absorb_joined(
                    sum_run(cx, fuel, items@, i as nat, entity_id@, c)->0.log,
                    item->0.log,
                );
            }
            match self.eval_decimal(&items[i], entity_id, period, context, trace, Ghost(fuel)) {
                Ok(number) => match checked_add(total, number) {
                    Ok(sum) => {
                        total = sum;
                    },
                    Err(error) => {
                        return Err(error);
                    },
                },
                Err(error) => {
                    return Err(error);
                },
            }
            i = i + 1;
        }
        Ok(total)
    }

    /// The largest or smallest of the items.
    fn eval_extremum(
        &mut self,
        items: &Vec<ScalarExpr>,
        largest: bool,
        entity_id: &str,
        period: &Period,
        context: Option<RelationEvalContext<'_>>,
        trace: &mut NodeExecutionTrace,
        Ghost(fuel): Ghost<nat>,
    ) -> (r: Result<Decimal, EvalError>)
        requires
            items@.len() > 0,
            old(self).well_formed(),
            extremum_run(
                old(self).facts(period@),
                fuel,
                items@,
                items@.len(),
                largest,
                entity_id@,
                context_of(context),
            ) is Some,
        ensures
            final(self).extends(old(self)),
            ran(
                extremum_run(
                    old(self).facts(period@),
                    fuel,
                    items@,
                    items@.len(),
                    largest,
                    entity_id@,
                    context_of(context),
                ),
                r,
                old(trace)@,
                final(trace)@,
            ),
            r is Ok && old(self).notes(old(trace)@, period@) ==> final(self).notes(
                final(trace)@,
                period@,
            ),
            r is Ok ==> forall|base: Set<RuleKey>|
                old(self).stays_in(base, old(trace)@) ==> #[trigger] final(self).stays_in(
                    base,
                    final(trace)@,
                ),
        decreases 2 * fuel, items, 0int, 0int,
    {
        let ghost cx = self.facts(period@);
        let ghost c = context_of(context);
        proof {
            extremum_prefix(cx, fuel, items@, 1, items@.len(), largest, entity_id@, c);
        }
        let mut best = match self.eval_decimal(
            &items[0],
            entity_id,
            period,
            context,
            trace,
            Ghost(fuel),
        ) {
            Ok(number) => number,
            Err(error) => {
                return Err(error);
            },
        };
        let mut i: usize = 1;
        while i < items.len()
            invariant
                1 <= i <= items@.len(),
                self.extends(old(self)),
                cx == old(self).facts(period@),
                c == context_of(context),
                extremum_run(cx, fuel, items@, items@.len(), largest, entity_id@, c) is Some,
                ran(
                    extremum_run(cx, fuel, items@, i as nat, largest, entity_id@, c),
                    Ok(best),
                    old(trace)@,
                    trace@,
                ),
                old(self).notes(old(trace)@, period@) ==> self.notes(trace@, period@),
                forall|base: Set<RuleKey>|
                    old(self).stays_in(base, old(trace)@) ==> #[trigger] self.stays_in(base, trace@),
            decreases items@.len() - i,
        {
            proof {
                extremum_prefix(
                    cx,
                    fuel,
                    items@,
                    (i + 1) as nat,
                    items@.len(),
                    largest,
                    entity_id@,
                    c,
                );
            }
            let ghost item = scalar_run(cx, fuel, items@[i as int], entity_id@, c);
            proof {
                old(trace)@.absorb_joined(
                    extremum_run(cx, fuel, items@, i as nat, largest, entity_id@, c)->0.log,
                    item->0.log,
                );
            }
            match self.eval_decimal(&items[i], entity_id, period, context, trace, Ghost(fuel)) {
                Ok(candidate) => {
                    let replaces = if largest {
                        best.is_below(&candidate)
                    } else {
                        candidate.is_below(&best)
                    };
                    if replaces {
                        best = candidate;
                    }
                },
                Err(error) => {
                    return Err(error);
                },
            }
            i = i + 1;
        }
        Ok(best)
    }

    /// How many of the related ids the `where` clause keeps.
    fn eval_count_related(
        &mut self,
        expr: &ScalarExpr,
        where_clause: &Option<Box<JudgmentExpr>>,
        ids: &Vec<String>,
        period: &Period,
        trace: &mut NodeExecutionTrace,
        Ghost(fuel): Ghost<nat>,
    ) -> (r: Result<i64, EvalError>)
        requires
            old(self).well_formed(),
            expr matches ScalarExpr::CountRelated { where_clause: w, .. } && *where_clause == w,
            count_run(
                old(self).facts(period@),
                fuel,
                *expr,
                texts(ids@),
                ids@.len(),
            ) is Some,
        ensures
            final(self).extends(old(self)),
            ({
                let run = count_run(
                    old(self).facts(period@),
                    fuel,
                    *expr,
                    texts(ids@),
                    ids@.len(),
                )->0;
                &&& outcome(r) == match run.value {
                    Ok(n) => Ok(capped(n)),
                    Err(error) => Err(error),
                }
                &&& final(trace)@ == old(trace)@.absorb(run.log)
            }),
            r is Ok && old(self).notes(old(trace)@, period@) ==> final(self).notes(
                final(trace)@,
                period@,
            ),
            r is Ok ==> forall|base: Set<RuleKey>|
                old(self).stays_in(base, old(trace)@) ==> #[trigger] final(self).stays_in(
                    base,
                    final(trace)@,
                ),
        decreases 2 * fuel, expr, 1int, 0int,
    {
        let ghost cx = self.facts(period@);
        let mut count: usize = 0;
        let mut i: usize = 0;
        while i < ids.len()
            invariant
                i <= ids@.len(),
                count <= i,
                self.extends(old(self)),
                cx == old(self).facts(period@),
                expr matches ScalarExpr::CountRelated { where_clause: w, .. } && *where_clause == w,
                count_run(cx, fuel, *expr, texts(ids@), ids@.len()) is Some,
                count_run(cx, fuel, *expr, texts(ids@), i as nat) is Some,
                count_run(cx, fuel, *expr, texts(ids@), i as nat)->0.value == Ok::<nat, ErrorView>(
                    count as nat,
                ),
                trace@ == old(trace)@.absorb(
                    count_run(cx, fuel, *expr, texts(ids@), i as nat)->0.log,
                ),
                old(self).notes(old(trace)@, period@) ==> self.notes(trace@, period@),
                forall|base: Set<RuleKey>|
                    old(self).stays_in(base, old(trace)@) ==> #[trigger] self.stays_in(base, trace@),
            decreases ids@.len() - i,
        {
            proof {
                count_prefix(cx, fuel, *expr, texts(ids@), (i + 1) as nat, ids@.len());
            }
            match where_clause {
                Some(predicate) => {
                    proof {
                        assert(texts(ids@)[i as int] == ids@[i as int]@);
                        old(trace)@.absorb_joined(
                            count_run(cx, fuel, *expr, texts(ids@), i as nat)->0.log,
                            judgment_run(cx, fuel, **predicate, ids@[i as int]@, None)->0.log,
                        );
                    }
                    match self.eval_judgment_expr_inner(
                        predicate,
                        ids[i].as_str(),
                        period,
                        None,
                        trace,
                        Ghost(fuel),
                    ) {
                        Ok(held) => {
                            if held.is_holds() {
                                count = count + 1;
                            }
                        },
                        Err(error) => {
                            return Err(error);
                        },
                    }
                },
                None => {
                    count = count + 1;
                },
            }
            i = i + 1;
        }
        if count as u64 <= i64::MAX as u64 {
            Ok(count as i64)
        } else {
            Ok(i64::MAX)
        }
    }

    /// The number that an aggregation reads of a related entity.
    fn eval_related_value(
        &mut self,
        expr: &ScalarExpr,
        value: &RelatedValueRef,
        entity_id: &str,
        period: &Period,
        trace: &mut NodeExecutionTrace,
        Ghost(fuel): Ghost<nat>,
    ) -> (r: Result<Decimal, EvalError>)
        requires
            old(self).well_formed(),
            related_value_run(old(self).facts(period@), fuel, *value, entity_id@) is Some,
        ensures
            final(self).extends(old(self)),
            ran(
                related_value_run(old(self).facts(period@), fuel, *value, entity_id@),
                r,
                old(trace)@,
                final(trace)@,
            ),
            r is Ok && old(self).notes(old(trace)@, period@) ==> final(self).notes(
                final(trace)@,
                period@,
            ),
            r is Ok ==> forall|base: Set<RuleKey>|
                old(self).stays_in(base, old(trace)@) ==> #[trigger] final(self).stays_in(
                    base,
                    final(trace)@,
                ),
        decreases 2 * fuel, expr, 0int, 0int,
    {
        let ghost t0 = trace@;
        let scalar = match value {
            RelatedValueRef::Input(name) => self.lookup_input(name.as_str(), entity_id, period),
            RelatedValueRef::Derived(name) => {
                trace.record_evaluated_dependency(
                    CacheKey::new(name.as_str(), entity_id, period),
                );
                let ghost before = *self;
                let ghost key = RuleKey {
                    derived: name@,
                    entity_id: entity_id@,
                    period: period@,
                };
                let referred_value = self.evaluate_scalar_within(
                    name.as_str(),
                    entity_id,
                    period,
                    Ghost((fuel - 1) as nat),
                );
                proof {
                    t0.absorb_one(TraceEvent::Dependency(key));
                    if referred_value is Ok {
                        self.notes_more(&before, t0, key, period@);
                        self.stays_more(&before, t0, key);
                    }
                }
                referred_value
            },
        };
        match scalar {
            Ok(value) => match value.as_decimal() {
                Some(number) => Ok(number),
                None => Err(
                    EvalError::TypeMismatch(owned("related aggregation requires numeric values")),
                ),
            },
            Err(error) => Err(error),
        }
    }

    /// The sum over those of the related ids that the `where` clause keeps.
    fn eval_sum_related(
        &mut self,
        expr: &ScalarExpr,
        value: &RelatedValueRef,
        where_clause: &Option<Box<JudgmentExpr>>,
        ids: &Vec<String>,
        period: &Period,
        trace: &mut NodeExecutionTrace,
        Ghost(fuel): Ghost<nat>,
    ) -> (r: Result<Decimal, EvalError>)
        requires
            old(self).well_formed(),
            expr matches ScalarExpr::SumRelated { value: v, where_clause: w, .. } && *value == v
                && *where_clause == w,
            total_run(
                old(self).facts(period@),
                fuel,
                *expr,
                texts(ids@),
                ids@.len(),
            ) is Some,
        ensures
            final(self).extends(old(self)),
            ran(
                total_run(old(self).facts(period@), fuel, *expr, texts(ids@), ids@.len()),
                r,
                old(trace)@,
                final(trace)@,
            ),
            r is Ok && old(self).notes(old(trace)@, period@) ==> final(self).notes(
                final(trace)@,
                period@,
            ),
            r is Ok ==> forall|base: Set<RuleKey>|
                old(self).stays_in(base, old(trace)@) ==> #[trigger] final(self).stays_in(
                    base,
                    final(trace)@,
                ),
        decreases 2 * fuel, expr, 1int, 0int,
    {
        let ghost cx = self.facts(period@);
        let mut total = Decimal::zero();
        let mut i: usize = 0;
        while i < ids.len()
            invariant
                i <= ids@.len(),
                self.extends(old(self)),
                cx == old(self).facts(period@),
                expr matches ScalarExpr::SumRelated { value: v, where_clause: w, .. } && *value
                    == v && *where_clause == w,
                total_run(cx, fuel, *expr, texts(ids@), ids@.len()) is Some,
                ran(
                    total_run(cx, fuel, *expr, texts(ids@), i as nat),
                    Ok(total),
                    old(trace)@,
                    trace@,
                ),
                old(self).notes(old(trace)@, period@) ==> self.notes(trace@, period@),
                forall|base: Set<RuleKey>|
                    old(self).stays_in(base, old(trace)@) ==> #[trigger] self.stays_in(base, trace@),
            decreases ids@.len() - i,
        {
            proof {
                total_prefix(cx, fuel, *expr, texts(ids@), (i + 1) as nat, ids@.len());
            }
            let ghost before = total_run(cx, fuel, *expr, texts(ids@), i as nat);
            let ghost id = ids@[i as int]@;
            let ghost read = related_value_run(cx, fuel, *value, id);
            proof {
                assert(texts(ids@)[i as int] == id);
                old(trace)@.absorb_joined(before->0.log, read->0.log);
            }
            let kept = match where_clause {
                Some(predicate) => {
                    let ghost tested = judgment_run(cx, fuel, **predicate, id, None);
                    proof {
                        old(trace)@.absorb_joined(before->0.log, tested->0.log);
                        old(trace)@.absorb_joined(
                            before->0.log + tested->0.log,
                            read->0.log,
                        );
                    }
                    match self.eval_judgment_expr_inner(
                        predicate,
                        ids[i].as_str(),
                        period,
                        None,
                        trace,
                        Ghost(fuel),
                    ) {
                        Ok(held) => held.is_holds(),
                        Err(error) => {
                            return Err(error);
                        },
                    }
                },
                None => true,
            };
            if kept {
                match self.eval_related_value(
                    expr,
                    value,
                    ids[i].as_str(),
                    period,
                    trace,
                    Ghost(fuel),
                ) {
                    Ok(number) => match checked_add(total, number) {
                        Ok(sum) => {
                            total = sum;
                        },
                        Err(error) => {
                            return Err(error);
                        },
                    },
                    Err(error) => {
                        return Err(error);
                    },
                }
            }
            i = i + 1;
        }
        Ok(total)
    }

    /// The value of a scalar formula for an entity.
    fn eval_scalar_expr_inner(
        &mut self,
        expr: &ScalarExpr,
        entity_id: &str,
        period: &Period,
        context: Option<RelationEvalContext<'_>>,
        trace: &mut NodeExecutionTrace,
        Ghost(fuel): Ghost<nat>,
    ) -> (r: Result<ScalarValue, EvalError>)
        requires
            old(self).well_formed(),
            scalar_run(
                old(self).facts(period@),
                fuel,
                *expr,
                entity_id@,
                context_of(context),
            ) is Some,
        ensures
            final(self).extends(old(self)),
            ran(
                scalar_run(
                    old(self).facts(period@),
                    fuel,
                    *expr,
                    entity_id@,
                    context_of(context),
                ),
                r,
                old(trace)@,
                final(trace)@,
            ),
            r is Ok && old(self).notes(old(trace)@, period@) ==> final(self).notes(
                final(trace)@,
                period@,
            ),
            r is Ok ==> forall|base: Set<RuleKey>|
                old(self).stays_in(base, old(trace)@) ==> #[trigger] final(self).stays_in(
                    base,
                    final(trace)@,
                ),
        decreases 2 * fuel, expr, 2int, 0int,
    {
        let ghost f = fuel;
        let ghost cx = self.facts(period@);
        let ghost c = context_of(context);
        let ghost t0 = trace@;
        proof {
            scalar_run_is_step(cx, fuel, *expr, entity_id@, c);
        }
        match expr {
            ScalarExpr::Literal(value) => Ok(value.duplicate()),
            ScalarExpr::Input(name) => self.lookup_input(name.as_str(), entity_id, period),
            ScalarExpr::InputOrElse { name, default } => {
                match self.lookup_input(name.as_str(), entity_id, period) {
                    Err(EvalError::MissingInput { .. }) => Ok(default.duplicate()),
                    other => other,
                }
            },
            ScalarExpr::Derived(name) => {
                let derived = match self.get_derived(name.as_str()) {
                    Ok(derived) => derived,
                    Err(error) => {
                        return Err(error);
                    },
                };
                let target = target_entity(context, derived.entity.as_str(), entity_id);
                let ghost before = *self;
                let ghost start = trace@;
                let ghost key = RuleKey {
                    derived: name@,
                    entity_id: target@,
                    period: period@,
                };
                trace.record_evaluated_dependency(CacheKey::new(name.as_str(), target, period));
                let referred_value = self.evaluate_scalar_within(
                    name.as_str(),
                    target,
                    period,
                    Ghost((fuel - 1) as nat),
                );
                proof {
                    start.absorb_one(TraceEvent::Dependency(key));
                    if referred_value is Ok {
                        self.notes_more(&before, start, key, period@);
                        self.stays_more(&before, start, key);
                    }
                }
                referred_value
            },
            ScalarExpr::ParameterLookup { parameter, index } => {
                let mut message = owned("parameter key for `");
                message.append(parameter.as_str());
                message.append("` must be an integer");
                match self.eval_count_operand(
                    index,
                    message.as_str(),
                    entity_id,
                    period,
                    context,
                    trace,
                    Ghost(f),
                ) {
                    Ok(key) => {
                        proof {
                            t0.absorb_joined(
                                scalar_run(cx, f, **index, entity_id@, c)->0.log,
                                parameter_read(cx, parameter@, key).log,
                            );
                        }
                        let ghost t1 = trace@;
                        let read = self.lookup_parameter(parameter.as_str(), key, period, trace);
                        proof {
                            self.notes_same(t1, trace@, period@);
                            self.stays_same(t1, trace@);
                        }
                        read
                    },
                    Err(error) => Err(error),
                }
            },
            ScalarExpr::Add(items) => {
                match self.eval_sum(items, entity_id, period, context, trace, Ghost(f)) {
                    Ok(total) => Ok(ScalarValue::Decimal(total)),
                    Err(error) => Err(error),
                }
            },
            ScalarExpr::Sub(left, right) => {
                proof {
                    t0.absorb_joined(
                        scalar_run(cx, f, **left, entity_id@, c)->0.log,
                        scalar_run(cx, f, **right, entity_id@, c)->0.log,
                    );
                }
                let a = match self.eval_decimal(left, entity_id, period, context, trace, Ghost(f)) {
                    Ok(a) => a,
                    Err(error) => {
                        return Err(error);
                    },
                };
                let b = match self.eval_decimal(
                    right,
                    entity_id,
                    period,
                    context,
                    trace,
                    Ghost(f),
                ) {
                    Ok(b) => b,
                    Err(error) => {
                        return Err(error);
                    },
                };
                match checked_sub(a, b) {
                    Ok(value) => Ok(ScalarValue::Decimal(value)),
                    Err(error) => Err(error),
                }
            },
            ScalarExpr::Mul(left, right) => {
                proof {
                    t0.absorb_joined(
                        scalar_run(cx, f, **left, entity_id@, c)->0.log,
                        scalar_run(cx, f, **right, entity_id@, c)->0.log,
                    );
                }
                let a = match self.eval_decimal(left, entity_id, period, context, trace, Ghost(f)) {
                    Ok(a) => a,
                    Err(error) => {
                        return Err(error);
                    },
                };
                let b = match self.eval_decimal(
                    right,
                    entity_id,
                    period,
                    context,
                    trace,
                    Ghost(f),
                ) {
                    Ok(b) => b,
                    Err(error) => {
                        return Err(error);
                    },
                };
                match checked_mul(a, b) {
                    Ok(value) => Ok(ScalarValue::Decimal(value)),
                    Err(error) => Err(error),
                }
            },
            ScalarExpr::Div(left, right) => {
                proof {
                    t0.absorb_joined(
                        scalar_run(cx, f, **right, entity_id@, c)->0.log,
                        scalar_run(cx, f, **left, entity_id@, c)->0.log,
                    );
                }
                let divisor = match self.eval_decimal(
                    right,
                    entity_id,
                    period,
                    context,
                    trace,
                    Ghost(f),
                ) {
                    Ok(divisor) => divisor,
                    Err(error) => {
                        return Err(error);
                    },
                };
                if divisor.is_zero() {
                    return Err(EvalError::DivisionByZero);
                }
                let dividend = match self.eval_decimal(
                    left,
                    entity_id,
                    period,
                    context,
                    trace,
                    Ghost(f),
                ) {
                    Ok(dividend) => dividend,
                    Err(error) => {
                        return Err(error);
                    },
                };
                match checked_div(dividend, divisor) {
                    Ok(value) => Ok(ScalarValue::Decimal(value)),
                    Err(error) => Err(error),
                }
            },
            ScalarExpr::Max(items) => {
                if items.len() == 0 {
                    return Err(
                        EvalError::TypeMismatch(owned("max() requires at least one operand")),
                    );
                }
                match self.eval_extremum(items, true, entity_id, period, context, trace, Ghost(f)) {
                    Ok(best) => Ok(ScalarValue::Decimal(best)),
                    Err(error) => Err(error),
                }
            },
            ScalarExpr::Min(items) => {
                if items.len() == 0 {
                    return Err(
                        EvalError::TypeMismatch(owned("min() requires at least one operand")),
                    );
                }
                match self.eval_extremum(
                    items,
                    false,
                    entity_id,
                    period,
                    context,
                    trace,
                    Ghost(f),
                ) {
                    Ok(best) => Ok(ScalarValue::Decimal(best)),
                    Err(error) => Err(error),
                }
            },
            ScalarExpr::Ceil(value) => {
                match self.eval_decimal(value, entity_id, period, context, trace, Ghost(f)) {
                    Ok(number) => Ok(ScalarValue::Decimal(number.ceil())),
                    Err(error) => Err(error),
                }
            },
            ScalarExpr::Floor(value) => {
                match self.eval_decimal(value, entity_id, period, context, trace, Ghost(f)) {
                    Ok(number) => Ok(ScalarValue::Decimal(number.floor())),
                    Err(error) => Err(error),
                }
            },
            ScalarExpr::PeriodStart => Ok(ScalarValue::Date(period.start)),
            ScalarExpr::PeriodEnd => Ok(ScalarValue::Date(period.end)),
            ScalarExpr::DateAddDays { date, days } => {
                proof {
                    t0.absorb_joined(
                        scalar_run(cx, f, **date, entity_id@, c)->0.log,
                        scalar_run(cx, f, **days, entity_id@, c)->0.log,
                    );
                }
                let base = match self.eval_day(
                    date,
                    "date_add_days expects a date on the left",
                    entity_id,
                    period,
                    context,
                    trace,
                    Ghost(f),
                ) {
                    Ok(base) => base,
                    Err(error) => {
                        return Err(error);
                    },
                };
                let offset = match self.eval_count_operand(
                    days,
                    "date_add_days expects an integer day count on the right",
                    entity_id,
                    period,
                    context,
                    trace,
                    Ghost(f),
                ) {
                    Ok(offset) => offset,
                    Err(error) => {
                        return Err(error);
                    },
                };
                match shift_calendar_days(base, offset) {
                    Ok(date) => Ok(ScalarValue::Date(date)),
                    Err(error) => Err(error),
                }
            },
            ScalarExpr::DateAddMonths { date, months } => {
                proof {
                    t0.absorb_joined(
                        scalar_run(cx, f, **date, entity_id@, c)->0.log,
                        scalar_run(cx, f, **months, entity_id@, c)->0.log,
                    );
                }
                let base = match self.eval_day(
                    date,
                    "date_add_months expects a date on the left",
                    entity_id,
                    period,
                    context,
                    trace,
                    Ghost(f),
                ) {
                    Ok(base) => base,
                    Err(error) => {
                        return Err(error);
                    },
                };
                let offset = match self.eval_count_operand(
                    months,
                    "date_add_months expects an integer month count on the right",
                    entity_id,
                    period,
                    context,
                    trace,
                    Ghost(f),
                ) {
                    Ok(offset) => offset,
                    Err(error) => {
                        return Err(error);
                    },
                };
                match shift_calendar_months(base, offset) {
                    Ok(date) => Ok(ScalarValue::Date(date)),
                    Err(error) => Err(error),
                }
            },
            ScalarExpr::DateAddYears { date, years } => {
                proof {
                    t0.absorb_joined(
                        scalar_run(cx, f, **date, entity_id@, c)->0.log,
                        scalar_run(cx, f, **years, entity_id@, c)->0.log,
                    );
                }
                let base = match self.eval_day(
                    date,
                    "date_add_years expects a date on the left",
                    entity_id,
                    period,
                    context,
                    trace,
                    Ghost(f),
                ) {
                    Ok(base) => base,
                    Err(error) => {
                        return Err(error);
                    },
                };
                let offset = match self.eval_count_operand(
                    years,
                    "date_add_years expects an integer year count on the right",
                    entity_id,
                    period,
                    context,
                    trace,
                    Ghost(f),
                ) {
                    Ok(offset) => offset,
                    Err(error) => {
                        return Err(error);
                    },
                };
                match shift_calendar_years(base, offset) {
                    Ok(date) => Ok(ScalarValue::Date(date)),
                    Err(error) => Err(error),
                }
            },
            ScalarExpr::DaysBetween { from, to } => {
                proof {
                    t0.absorb_joined(
                        scalar_run(cx, f, **from, entity_id@, c)->0.log,
                        scalar_run(cx, f, **to, entity_id@, c)->0.log,
                    );
                }
                let a = match self.eval_day(
                    from,
                    "days_between expects a date for `from`",
                    entity_id,
                    period,
                    context,
                    trace,
                    Ghost(f),
                ) {
                    Ok(a) => a,
                    Err(error) => {
                        return Err(error);
                    },
                };
                let b = match self.eval_day(
                    to,
                    "days_between expects a date for `to`",
                    entity_id,
                    period,
                    context,
                    trace,
                    Ghost(f),
                ) {
                    Ok(b) => b,
                    Err(error) => {
                        return Err(error);
                    },
                };
                Ok(ScalarValue::Integer(a.days_until(&b)))
            },
            ScalarExpr::CountRelated { relation, current_slot, related_slot, where_clause } => {
                let ids = match self.related_entity_ids(
                    relation.as_str(),
                    *current_slot,
                    *related_slot,
                    entity_id,
                    period,
                    trace,
                    Ghost((fuel - 1) as nat),
                ) {
                    Ok(ids) => ids,
                    Err(error) => {
                        return Err(error);
                    },
                };
                proof {
                    t0.absorb_joined(
                        related_run(
                            cx,
                            (f - 1) as nat,
                            relation@,
                            *current_slot as nat,
                            *related_slot as nat,
                            entity_id@,
                        )->0.log,
                        count_run(cx, f, *expr, texts(ids@), ids@.len())->0.log,
                    );
                }
                match self.eval_count_related(expr, where_clause, &ids, period, trace, Ghost(f)) {
                    Ok(count) => Ok(ScalarValue::Integer(count)),
                    Err(error) => Err(error),
                }
            },
            ScalarExpr::SumRelated {
                relation,
                current_slot,
                related_slot,
                value,
                where_clause,
            } => {
                let ids = match self.related_entity_ids(
                    relation.as_str(),
                    *current_slot,
                    *related_slot,
                    entity_id,
                    period,
                    trace,
                    Ghost((fuel - 1) as nat),
                ) {
                    Ok(ids) => ids,
                    Err(error) => {
                        return Err(error);
                    },
                };
                proof {
                    t0.absorb_joined(
                        related_run(
                            cx,
                            (f - 1) as nat,
                            relation@,
                            *current_slot as nat,
                            *related_slot as nat,
                            entity_id@,
                        )->0.log,
                        total_run(cx, f, *expr, texts(ids@), ids@.len())->0.log,
                    );
                }
                match self.eval_sum_related(
                    expr,
                    value,
                    where_clause,
                    &ids,
                    period,
                    trace,
                    Ghost(f),
                ) {
                    Ok(total) => Ok(ScalarValue::Decimal(total)),
                    Err(error) => Err(error),
                }
            },
            ScalarExpr::If { condition, then_expr, else_expr } => {
                let held = match self.eval_judgment_expr_inner(
                    condition,
                    entity_id,
                    period,
                    context,
                    trace,
                    Ghost(f),
                ) {
                    Ok(held) => held,
                    Err(error) => {
                        return Err(error);
                    },
                };
                let ghost tested = judgment_run(cx, f, **condition, entity_id@, c);
                proof {
                    let reason = TraceSkipReason::BranchNotSelected;
                    let without_else = skipped_scalar(cx, **else_expr, entity_id@, c, reason);
                    let without_then = skipped_scalar(cx, **then_expr, entity_id@, c, reason);
                    t0.absorb_joined(tested->0.log, without_else);
                    t0.absorb_joined(
                        tested->0.log + without_else,
                        scalar_run(cx, f, **then_expr, entity_id@, c)->0.log,
                    );
                    t0.absorb_joined(tested->0.log, without_then);
                    t0.absorb_joined(
                        tested->0.log + without_then,
                        scalar_run(cx, f, **else_expr, entity_id@, c)->0.log,
                    );
                }
                if held.is_holds() {
                    let ghost t1 = trace@;
                    self.record_skipped_scalar_dependencies(
                        else_expr,
                        entity_id,
                        period,
                        context,
                        TraceSkipReason::BranchNotSelected,
                        trace,
                    );
                    proof {
                        self.notes_same(t1, trace@, period@);
                        self.stays_same(t1, trace@);
                    }
                    self.eval_scalar_expr_inner(
                        then_expr,
                        entity_id,
                        period,
                        context,
                        trace,
                        Ghost(f),
                    )
                } else {
                    let ghost t1 = trace@;
                    self.record_skipped_scalar_dependencies(
                        then_expr,
                        entity_id,
                        period,
                        context,
                        TraceSkipReason::BranchNotSelected,
                        trace,
                    );
                    proof {
                        self.notes_same(t1, trace@, period@);
                        self.stays_same(t1, trace@);
                    }
                    self.eval_scalar_expr_inner(
                        else_expr,
                        entity_id,
                        period,
                        context,
                        trace,
                        Ghost(f),
                    )
                }
            },
            ScalarExpr::NoMatch { subject, patterns } => {
                match self.eval_scalar_expr_inner(
                    subject,
                    entity_id,
                    period,
                    context,
                    trace,
                    Ghost(f),
                ) {
                    Ok(value) => Err(no_matching_arm(subject, &value, patterns)),
                    Err(error) => Err(error),
                }
            },
            ScalarExpr::OverPeriods { kind, .. } => Err(
                EvalError::OverPeriodsOutsideLifetime(kind.as_call_name()),
            ),
        }
    }

    /// `and` or `or` over the items: stops at the first that decides.
    fn eval_connective(
        &mut self,
        items: &Vec<JudgmentExpr>,
        decisive: JudgmentOutcome,
        entity_id: &str,
        period: &Period,
        context: Option<RelationEvalContext<'_>>,
        trace: &mut NodeExecutionTrace,
        Ghost(fuel): Ghost<nat>,
    ) -> (r: Result<JudgmentOutcome, EvalError>)
        requires
            old(self).well_formed(),
            connective_run(
                old(self).facts(period@),
                fuel,
                items@,
                0,
                decisive,
                false,
                entity_id@,
                context_of(context),
            ) is Some,
        ensures
            final(self).extends(old(self)),
            ran(
                connective_run(
                    old(self).facts(period@),
                    fuel,
                    items@,
                    0,
                    decisive,
                    false,
                    entity_id@,
                    context_of(context),
                ),
                r,
                old(trace)@,
                final(trace)@,
            ),
            r is Ok && old(self).notes(old(trace)@, period@) ==> final(self).notes(
                final(trace)@,
                period@,
            ),
            r is Ok ==> forall|base: Set<RuleKey>|
                old(self).stays_in(base, old(trace)@) ==> #[trigger] final(self).stays_in(
                    base,
                    final(trace)@,
                ),
        decreases 2 * fuel, items, 0int, 0int,
    {
        let ghost cx = self.facts(period@);
        let ghost c = context_of(context);
        let ghost whole = connective_run(cx, fuel, items@, 0, decisive, false, entity_id@, c);
        let ghost mut log: Seq<TraceEvent> = Seq::empty();
        let mut undetermined = false;
        let mut i: usize = 0;
        proof {
            assert(log + whole->0.log =~= whole->0.log);
        }
        while i < items.len()
            invariant
                i <= items@.len(),
                self.extends(old(self)),
                cx == old(self).facts(period@),
                c == context_of(context),
                whole is Some,
                whole == connective_run(cx, fuel, items@, 0, decisive, false, entity_id@, c),
                whole == after(
                    log,
                    connective_run(
                        cx,
                        fuel,
                        items@,
                        i as nat,
                        decisive,
                        undetermined,
                        entity_id@,
                        c,
                    ),
                ),
                trace@ == old(trace)@.absorb(log),
                old(self).notes(old(trace)@, period@) ==> self.notes(trace@, period@),
                forall|base: Set<RuleKey>|
                    old(self).stays_in(base, old(trace)@) ==> #[trigger] self.stays_in(base, trace@),
            decreases items@.len() - i,
        {
            let ghost run = judgment_run(cx, fuel, items@[i as int], entity_id@, c);
            proof {
                let rest = skipped_judgments(cx, items@, (i + 1) as nat, entity_id@, c);
                old(trace)@.absorb_joined(log, run->0.log);
                old(trace)@.absorb_joined(log + run->0.log, rest);
                assert(log + (run->0.log + rest) =~= log + run->0.log + rest);
            }
            let held = match self.eval_judgment_expr_inner(
                &items[i],
                entity_id,
                period,
                context,
                trace,
                Ghost(fuel),
            ) {
                Ok(held) => held,
                Err(error) => {
                    return Err(error);
                },
            };
            if held == decisive {
                let ghost t1 = trace@;
                self.record_skipped_judgment_dependencies(
                    items,
                    i + 1,
                    entity_id,
                    period,
                    context,
                    trace,
                );
                proof {
                    self.notes_same(t1, trace@, period@);
                    self.stays_same(t1, trace@);
                }
                return Ok(decisive);
            }
            let ghost before = log;
            if held == JudgmentOutcome::Undetermined {
                undetermined = true;
            }
            proof {
                log = log + run->0.log;
                let rest = connective_run(
                    cx,
                    fuel,
                    items@,
                    (i + 1) as nat,
                    decisive,
                    undetermined,
                    entity_id@,
                    c,
                );
                assert(before + (run->0.log + rest->0.log) =~= log + rest->0.log);
            }
            i = i + 1;
        }
        proof {
            assert(log + Seq::<TraceEvent>::empty() =~= log);
        }
        if undetermined {
            Ok(JudgmentOutcome::Undetermined)
        } else {
            Ok(decisive.negate())
        }
    }

    /// The judgment that a formula gives for an entity.
    fn eval_judgment_expr_inner(
        &mut self,
        expr: &JudgmentExpr,
        entity_id: &str,
        period: &Period,
        context: Option<RelationEvalContext<'_>>,
        trace: &mut NodeExecutionTrace,
        Ghost(fuel): Ghost<nat>,
    ) -> (r: Result<JudgmentOutcome, EvalError>)
        requires
            old(self).well_formed(),
            judgment_run(
                old(self).facts(period@),
                fuel,
                *expr,
                entity_id@,
                context_of(context),
            ) is Some,
        ensures
            final(self).extends(old(self)),
            ran(
                judgment_run(
                    old(self).facts(period@),
                    fuel,
                    *expr,
                    entity_id@,
                    context_of(context),
                ),
                r,
                old(trace)@,
                final(trace)@,
            ),
            r is Ok && old(self).notes(old(trace)@, period@) ==> final(self).notes(
                final(trace)@,
                period@,
            ),
            r is Ok ==> forall|base: Set<RuleKey>|
                old(self).stays_in(base, old(trace)@) ==> #[trigger] final(self).stays_in(
                    base,
                    final(trace)@,
                ),
        decreases 2 * fuel, expr, 2int, 0int,
    {
        proof {
            judgment_run_is_step(
                self.facts(period@),
                fuel,
                *expr,
                entity_id@,
                context_of(context),
            );
        }
        match expr {
            JudgmentExpr::Comparison { left, op, right } => {
                proof {
                    let cx = self.facts(period@);
                    let c = context_of(context);
                    trace@.absorb_joined(
                        scalar_run(cx, fuel, *left, entity_id@, c)->0.log,
                        scalar_run(cx, fuel, *right, entity_id@, c)->0.log,
                    );
                }
                let a = match self.eval_scalar_expr_inner(
                    left,
                    entity_id,
                    period,
                    context,
                    trace,
                    Ghost(fuel),
                ) {
                    Ok(a) => a,
                    Err(error) => {
                        return Err(error);
                    },
                };
                let b = match self.eval_scalar_expr_inner(
                    right,
                    entity_id,
                    period,
                    context,
                    trace,
                    Ghost(fuel),
                ) {
                    Ok(b) => b,
                    Err(error) => {
                        return Err(error);
                    },
                };
                match compare_scalar_values(&a, *op, &b) {
                    Ok(holds) => Ok(JudgmentOutcome::from_bool(holds)),
                    Err(error) => Err(error),
                }
            },
            JudgmentExpr::Derived(name) => {
                let derived = match self.get_derived(name.as_str()) {
                    Ok(derived) => derived,
                    Err(error) => {
                        return Err(error);
                    },
                };
                let target = target_entity(context, derived.entity.as_str(), entity_id);
                let ghost before = *self;
                let ghost start = trace@;
                let ghost key = RuleKey {
                    derived: name@,
                    entity_id: target@,
                    period: period@,
                };
                trace.record_evaluated_dependency(CacheKey::new(name.as_str(), target, period));
                let referred_value = self.evaluate_judgment_within(
                    name.as_str(),
                    target,
                    period,
                    Ghost((fuel - 1) as nat),
                );
                proof {
                    start.absorb_one(TraceEvent::Dependency(key));
                    if referred_value is Ok {
                        self.notes_more(&before, start, key, period@);
                        self.stays_more(&before, start, key);
                    }
                }
                referred_value
            },
            JudgmentExpr::RelationMember { relation, current_slot, related_slot } => {
                let c = match context {
                    Some(c) => c,
                    None => {
                        return Err(relation_member_outside_derived_relation(relation.as_str()));
                    },
                };
                match self.relation_contains(
                    relation.as_str(),
                    *current_slot,
                    *related_slot,
                    c.current_id,
                    c.related_id,
                    period,
                    trace,
                    Ghost((fuel - 1) as nat),
                ) {
                    Ok(holds) => Ok(JudgmentOutcome::from_bool(holds)),
                    Err(error) => Err(error),
                }
            },
            JudgmentExpr::And(items) => self.eval_connective(
                items,
                JudgmentOutcome::NotHolds,
                entity_id,
                period,
                context,
                trace,
                Ghost(fuel),
            ),
            JudgmentExpr::Or(items) => self.eval_connective(
                items,
                JudgmentOutcome::Holds,
                entity_id,
                period,
                context,
                trace,
                Ghost(fuel),
            ),
            JudgmentExpr::Not(item) => {
                match self.eval_judgment_expr_inner(
                    item,
                    entity_id,
                    period,
                    context,
                    trace,
                    Ghost(fuel),
                ) {
                    Ok(held) => Ok(held.negate()),
                    Err(error) => Err(error),
                }
            },
        }
    }

    /// Those of the ids that satisfy a derived relation's predicate.
    fn eval_members(
        &mut self,
        derivation: &RelationDerivation,
        entity_id: &str,
        ids: &Vec<String>,
        period: &Period,
        trace: &mut NodeExecutionTrace,
        Ghost(fuel): Ghost<nat>,
    ) -> (r: Result<Vec<String>, EvalError>)
        requires
            old(self).well_formed(),
            members_run(
                old(self).facts(period@),
                fuel,
                *derivation,
                entity_id@,
                texts(ids@),
                ids@.len(),
            ) is Some,
        ensures
            final(self).extends(old(self)),
            ran_ids(
                members_run(
                    old(self).facts(period@),
                    fuel,
                    *derivation,
                    entity_id@,
                    texts(ids@),
                    ids@.len(),
                ),
                r,
                old(trace)@,
                final(trace)@,
            ),
            r is Ok && old(self).notes(old(trace)@, period@) ==> final(self).notes(
                final(trace)@,
                period@,
            ),
            r is Ok ==> forall|base: Set<RuleKey>|
                old(self).stays_in(base, old(trace)@) ==> #[trigger] final(self).stays_in(
                    base,
                    final(trace)@,
                ),
        decreases 2 * fuel + 1, period, 0int, 0int,
    {
        let ghost cx = self.facts(period@);
        let mut kept: Vec<String> = Vec::new();
        let mut i: usize = 0;
        assert(texts(kept@) =~= Seq::<Seq<char>>::empty());
        while i < ids.len()
            invariant
                i <= ids@.len(),
                self.extends(old(self)),
                cx == old(self).facts(period@),
                members_run(cx, fuel, *derivation, entity_id@, texts(ids@), ids@.len()) is Some,
                ran_ids(
                    members_run(cx, fuel, *derivation, entity_id@, texts(ids@), i as nat),
                    Ok(kept),
                    old(trace)@,
                    trace@,
                ),
                old(self).notes(old(trace)@, period@) ==> self.notes(trace@, period@),
                forall|base: Set<RuleKey>|
                    old(self).stays_in(base, old(trace)@) ==> #[trigger] self.stays_in(base, trace@),
            decreases ids@.len() - i,
        {
            proof {
                members_prefix(
                    cx,
                    fuel,
                    *derivation,
                    entity_id@,
                    texts(ids@),
                    (i + 1) as nat,
                    ids@.len(),
                );
            }
            let related_id = ids[i].as_str();
            proof {
                assert(texts(ids@)[i as int] == ids@[i as int]@);
                old(trace)@.absorb_joined(
                    members_run(cx, fuel, *derivation, entity_id@, texts(ids@), i as nat)->0.log,
                    judgment_run(
                        cx,
                        fuel,
                        derivation.predicate,
                        related_id@,
                        Some(derivation_context(*derivation, entity_id@, related_id@)),
                    )->0.log,
                );
            }
            let context = RelationEvalContext {
                current_id: entity_id,
                related_id,
                current_entity: slot_entity(
                    &derivation.slot_entities,
                    derivation.current_slot,
                ),
                related_entity: slot_entity(
                    &derivation.slot_entities,
                    derivation.related_slot,
                ),
            };
            match self.eval_judgment_expr_inner(
                &derivation.predicate,
                related_id,
                period,
                Some(context),
                trace,
                Ghost(fuel),
            ) {
                Ok(held) => {
                    if held.is_holds() {
                        let ghost before = texts(kept@);
                        kept.push(ids[i].clone());
                        assert(texts(kept@) =~= before.push(ids@[i as int]@));
                    }
                },
                Err(error) => {
                    return Err(error);
                },
            }
            i = i + 1;
        }
        Ok(kept)
    }

    /// The ids related to an entity, in ascending order, each once.
    fn related_entity_ids(
        &mut self,
        relation: &str,
        current_slot: usize,
        related_slot: usize,
        entity_id: &str,
        period: &Period,
        trace: &mut NodeExecutionTrace,
        Ghost(fuel): Ghost<nat>,
    ) -> (r: Result<Vec<String>, EvalError>)
        requires
            old(self).well_formed(),
            related_run(
                old(self).facts(period@),
                fuel,
                relation@,
                current_slot as nat,
                related_slot as nat,
                entity_id@,
            ) is Some,
        ensures
            final(self).extends(old(self)),
            ran_ids(
                related_run(
                    old(self).facts(period@),
                    fuel,
                    relation@,
                    current_slot as nat,
                    related_slot as nat,
                    entity_id@,
                ),
                r,
                old(trace)@,
                final(trace)@,
            ),
            r is Ok && old(self).notes(old(trace)@, period@) ==> final(self).notes(
                final(trace)@,
                period@,
            ),
            r is Ok ==> forall|base: Set<RuleKey>|
                old(self).stays_in(base, old(trace)@) ==> #[trigger] final(self).stays_in(
                    base,
                    final(trace)@,
                ),
        decreases 2 * fuel + 1, period, 1int, 0int,
    {
        let ghost cx = self.facts(period@);
        let program = self.program;
        let schema = match find_named(&program.relations, relation) {
            Some(schema) => schema,
            None => {
                return Err(EvalError::UnknownRelation(owned(relation)));
            },
        };
        if current_slot >= schema.arity || related_slot >= schema.arity {
            let mut message = owned("relation `");
            message.append(relation);
            message.append("` has arity ");
            message.append(usize_text(schema.arity).as_str());
            message.append(", but slots ");
            message.append(usize_text(current_slot).as_str());
            message.append(" and ");
            message.append(usize_text(related_slot).as_str());
            message.append(" were requested");
            return Err(EvalError::TypeMismatch(message));
        }
        let mut ids = self.stated_ids(relation, current_slot, related_slot, entity_id, period);
        if let Some(derivation) = &schema.derivation {
            let source = match self.related_entity_ids(
                derivation.source_relation.as_str(),
                derivation.current_slot,
                derivation.related_slot,
                entity_id,
                period,
                trace,
                Ghost((fuel - 1) as nat),
            ) {
                Ok(source) => source,
                Err(error) => {
                    return Err(error);
                },
            };
            proof {
                old(trace)@.absorb_joined(
                    related_run(
                        cx,
                        (fuel - 1) as nat,
                        derivation.source_relation@,
                        derivation.current_slot as nat,
                        derivation.related_slot as nat,
                        entity_id@,
                    )->0.log,
                    members_run(
                        cx,
                        fuel,
                        *derivation,
                        entity_id@,
                        texts(source@),
                        source@.len(),
                    )->0.log,
                );
            }
            let mut kept = match self.eval_members(
                derivation,
                entity_id,
                &source,
                period,
                trace,
                Ghost(fuel),
            ) {
                Ok(kept) => kept,
                Err(error) => {
                    return Err(error);
                },
            };
            let ghost stated = texts(ids@);
            let ghost members = texts(kept@);
            ids.append(&mut kept);
            assert(texts(ids@) =~= stated + members);
        }
        Ok(sort_texts(ids))
    }

    /// Whether one id is related to another.
    fn relation_contains(
        &mut self,
        relation: &str,
        current_slot: usize,
        related_slot: usize,
        current_id: &str,
        related_id: &str,
        period: &Period,
        trace: &mut NodeExecutionTrace,
        Ghost(fuel): Ghost<nat>,
    ) -> (r: Result<bool, EvalError>)
        requires
            old(self).well_formed(),
            related_run(
                old(self).facts(period@),
                fuel,
                relation@,
                current_slot as nat,
                related_slot as nat,
                current_id@,
            ) is Some,
        ensures
            final(self).extends(old(self)),
            ran(
                finish(
                    related_run(
                        old(self).facts(period@),
                        fuel,
                        relation@,
                        current_slot as nat,
                        related_slot as nat,
                        current_id@,
                    ),
                    |ids: Seq<Seq<char>>| Ok::<bool, ErrorView>(ids.contains(related_id@)),
                ),
                r,
                old(trace)@,
                final(trace)@,
            ),
            r is Ok && old(self).notes(old(trace)@, period@) ==> final(self).notes(
                final(trace)@,
                period@,
            ),
            r is Ok ==> forall|base: Set<RuleKey>|
                old(self).stays_in(base, old(trace)@) ==> #[trigger] final(self).stays_in(
                    base,
                    final(trace)@,
                ),
        decreases 2 * fuel + 1, period, 2int, 0int,
    {
        let ids = match self.related_entity_ids(
            relation,
            current_slot,
            related_slot,
            current_id,
            period,
            trace,
            Ghost(fuel),
        ) {
            Ok(ids) => ids,
            Err(error) => {
                return Err(error);
            },
        };
        let mut i: usize = 0;
        while i < ids.len()
            invariant
                i <= ids@.len(),
                self.extends(old(self)),
                forall|j: int| 0 <= j < i ==> #[trigger] texts(ids@)[j] != related_id@,
                ran_ids(
                    related_run(
                        old(self).facts(period@),
                        fuel,
                        relation@,
                        current_slot as nat,
                        related_slot as nat,
                        current_id@,
                    ),
                    Ok(ids),
                    old(trace)@,
                    trace@,
                ),
                old(self).notes(old(trace)@, period@) ==> self.notes(trace@, period@),
                forall|base: Set<RuleKey>|
                    old(self).stays_in(base, old(trace)@) ==> #[trigger] self.stays_in(base, trace@),
            decreases ids@.len() - i,
        {
            assert(texts(ids@)[i as int] == ids@[i as int]@);
            if same(ids[i].as_str(), related_id) {
                assert(texts(ids@).contains(related_id@));
                return Ok(true);
            }
            i = i + 1;
        }
        assert(!texts(ids@).contains(related_id@));
        Ok(false)
    }

    /// The value of a rule. A rule whose references do not end has none.
    pub fn evaluate_scalar(&mut self, derived_name: &str, entity_id: &str, period: &Period) -> (r:
        Result<ScalarValue, EvalError>)
        requires
            old(self).well_formed(),
            scalar_terminates(old(self).facts(period@), derived_name@, entity_id@),
        ensures
            final(self).extends(old(self)),
            outcome(r) == scalar_meaning(
                old(self).facts(period@),
                derived_name@,
                entity_id@,
            ).value,
            r matches Ok(v) ==> final(self).scalar_at(
                RuleKey { derived: derived_name@, entity_id: entity_id@, period: period@ },
            ) == Some(v),
            r is Ok ==> final(self).grown(
                old(self),
                RuleKey { derived: derived_name@, entity_id: entity_id@, period: period@ },
            ),
    {
        let ghost fuel = choose|f: nat| #[trigger]
            rule_scalar(self.facts(period@), f, derived_name@, entity_id@) is Some;
        self.evaluate_scalar_within(derived_name, entity_id, period, Ghost(fuel))
    }

    /// The judgment of a rule. A rule whose references do not end has none.
    pub fn evaluate_judgment(
        &mut self,
        derived_name: &str,
        entity_id: &str,
        period: &Period,
    ) -> (r: Result<JudgmentOutcome, EvalError>)
        requires
            old(self).well_formed(),
            judgment_terminates(old(self).facts(period@), derived_name@, entity_id@),
        ensures
            final(self).extends(old(self)),
            outcome(r) == judgment_meaning(
                old(self).facts(period@),
                derived_name@,
                entity_id@,
            ).value,
            r matches Ok(v) ==> final(self).judgment_at(
                RuleKey { derived: derived_name@, entity_id: entity_id@, period: period@ },
            ) == Some(v),
            r is Ok ==> final(self).grown(
                old(self),
                RuleKey { derived: derived_name@, entity_id: entity_id@, period: period@ },
            ),
    {
        let ghost fuel = choose|f: nat| #[trigger]
            rule_judgment(self.facts(period@), f, derived_name@, entity_id@) is Some;
        self.evaluate_judgment_within(derived_name, entity_id, period, Ghost(fuel))
    }

    /// The value of a parameter that has no index. An indexed parameter needs a
    /// key, so it is read through rules only.
    pub fn evaluate_parameter(&mut self, name: &str, period: &Period) -> (r: Result<
        ScalarValue,
        EvalError,
    >)
        ensures
            *final(self) == *old(self),
            outcome(r) == match old(self).program_view().parameter(name@) {
                None => Err(ErrorView::UnknownParameter(name@)),
                Some(parameter) => if parameter.indexed_by is Some {
                    Err(
                        ErrorView::TypeMismatch(
                            "parameter `"@ + name@
                                + "` is indexed; query it through a derived rule"@,
                        ),
                    )
                } else {
                    parameter_read(old(self).facts(period@), name@, 0).value
                },
            },
    {
        let parameter = match find_named(&self.program.parameters, name) {
            Some(parameter) => parameter,
            None => {
                return Err(EvalError::UnknownParameter(owned(name)));
            },
        };
        if let Some(_) = &parameter.indexed_by {
            let mut message = owned("parameter `");
            message.append(name);
            message.append("` is indexed; query it through a derived rule");
            return Err(EvalError::TypeMismatch(message));
        }
        let mut trace = NodeExecutionTrace::new();
        self.lookup_parameter(name, 0, period, &mut trace)
    }
}

impl<'a> Engine<'a> {
    /// The value of a parameter at a key.
    pub(crate) fn read_parameter(&self, name: &str, key: i64, period: &Period) -> (r: Result<
        ScalarValue,
        EvalError,
    >)
        ensures
            outcome(r) == parameter_read(self.facts(period@), name@, key).value,
    {
        let mut trace = NodeExecutionTrace::new();
        self.lookup_parameter(name, key, period, &mut trace)
    }

    /// The value of a formula for an entity, without a trace.
    pub(crate) fn eval_scalar_expr(
        &mut self,
        expr: &ScalarExpr,
        entity_id: &str,
        period: &Period,
        Ghost(fuel): Ghost<nat>,
    ) -> (r: Result<ScalarValue, EvalError>)
        requires
            old(self).well_formed(),
            scalar_run(old(self).facts(period@), fuel, *expr, entity_id@, None) is Some,
        ensures
            final(self).extends(old(self)),
            outcome(r) == scalar_run(
                old(self).facts(period@),
                fuel,
                *expr,
                entity_id@,
                None,
            )->0.value,
    {
        let mut trace = NodeExecutionTrace::new();
        self.eval_scalar_expr_inner(expr, entity_id, period, None, &mut trace, Ghost(fuel))
    }
}

/// The declared kind of a slot.
fn slot_entity<'b>(kinds: &'b Vec<String>, slot: usize) -> (r: Option<&'b str>)
    ensures
        text_of(r) == slot_kind(kinds@, slot as nat),
{
    if slot < kinds.len() {
        Some(kinds[slot].as_str())
    } else {
        None
    }
}

/// The error of a `match` whose subject equals none of its arms.
pub(crate) fn no_matching_arm(
    subject: &ScalarExpr,
    value: &ScalarValue,
    patterns: &Vec<ScalarExpr>,
) -> (r: EvalError)
    ensures
        r@ == no_match_error(*subject, *value, patterns@),
{
    EvalError::NoMatchingArm {
        rule: String::new(),
        subject: describe_match_operand(subject),
        value: format_value_label(value),
        patterns: describe_match_operands(patterns),
    }
}

/// The error of a relation predicate outside a derived relation.
pub(crate) fn relation_member_outside_derived_relation(relation: &str) -> (r: EvalError)
    ensures
        r@ == ErrorView::TypeMismatch(
            "relation predicate `"@ + relation@
                + "` can only be evaluated inside a derived relation"@,
        ),
{
    let mut message = owned("relation predicate `");
    message.append(relation);
    message.append("` can only be evaluated inside a derived relation");
    EvalError::TypeMismatch(message)
}

/// A rule's value with the output rounding it declares. Rounding is defined for
/// decimals only; another value passes through.
pub fn apply_output_rounding(derived: &Derived, value: ScalarValue) -> (r: ScalarValue)
    ensures
        r == output_rounded(derived.rounding, value),
{
    match (&derived.rounding, value) {
        (Some(rounding), ScalarValue::Decimal(amount)) => ScalarValue::Decimal(
            rounding.apply(amount),
        ),
        (_, value) => value,
    }
}

/// The number of a value.
pub fn expect_decimal(value: ScalarValue) -> (r: Result<Decimal, EvalError>)
    ensures
        outcome(r) == match value.number() {
            Some(number) => Ok(number),
            None => Err(ErrorView::TypeMismatch("expected decimal-compatible scalar"@)),
        },
{
    match value.as_decimal() {
        Some(number) => Ok(number),
        None => Err(EvalError::TypeMismatch(owned("expected decimal-compatible scalar"))),
    }
}

/// The integer that a value is.
pub fn expect_integer(value: ScalarValue) -> (r: Result<i64, EvalError>)
    ensures
        outcome(r) == match value {
            ScalarValue::Integer(value) => Ok(value),
            _ => Err(ErrorView::TypeMismatch("expected integer scalar"@)),
        },
{
    match value {
        ScalarValue::Integer(value) => Ok(value),
        _ => Err(EvalError::TypeMismatch(owned("expected integer scalar"))),
    }
}

/// Whether a rule is declared to have values of a type.
pub fn expect_dtype(derived: &Derived, expected: DType) -> (r: Result<(), EvalError>)
    ensures
        outcome(r) == if derived.dtype == expected {
            Ok(())
        } else {
            Err(
                ErrorView::TypeMismatch(
                    "derived `"@ + derived.name@ + "` has dtype "@ + derived.dtype.name()
                        + ", expected "@ + expected.name(),
                ),
            )
        },
{
    if derived.dtype == expected {
        return Ok(());
    }
    let mut message = owned("derived `");
    message.append(derived.name.as_str());
    message.append("` has dtype ");
    message.append(derived.dtype.as_str());
    message.append(", expected ");
    message.append(expected.as_str());
    Err(EvalError::TypeMismatch(message))
}

/// The value of an evaluated rule.
#[derive(Debug)]
pub enum EvaluatedTraceValue {
    Scalar { value: ScalarValue, pre_rounding_value: Option<ScalarValue> },
    Judgment(JudgmentOutcome),
}

/// A rule that was evaluated for an entity, with its value and how it came about.
#[derive(Debug)]
pub struct EvaluatedTraceInstance {
    pub key: CacheKey,
    pub value: EvaluatedTraceValue,
    pub execution: NodeExecutionTrace,
}

/// Order of evaluated rules: by rule, then by entity.
pub open spec fn instance_lt(a: RuleKey, b: RuleKey) -> bool {
    if a.derived != b.derived {
        text_lt(a.derived, b.derived)
    } else {
        text_lt(a.entity_id, b.entity_id)
    }
}

proof fn instance_lt_total(a: RuleKey, b: RuleKey)
    requires
        a.period == b.period,
    ensures
        a == b || instance_lt(a, b) || instance_lt(b, a),
{
    text_lt_total(a.derived, b.derived);
    text_lt_total(a.entity_id, b.entity_id);
}

proof fn instance_lt_transitive(a: RuleKey, b: RuleKey, c: RuleKey)
    requires
        instance_lt(a, b),
        instance_lt(b, c),
    ensures
        instance_lt(a, c),
{
    if a.derived == b.derived && b.derived == c.derived {
        text_lt_transitive(a.entity_id, b.entity_id, c.entity_id);
    } else if a.derived != b.derived && b.derived != c.derived {
        text_lt_transitive(a.derived, b.derived, c.derived);
        text_lt_irreflexive(a.derived);
    }
}

/// Strictly ascending.
pub open spec fn instances_ascend(s: Seq<RuleKey>) -> bool {
    forall|i: int, j: int| 0 <= i < j < s.len() ==> instance_lt(#[trigger] s[i], #[trigger] s[j])
}

fn key_precedes(a: &CacheKey, b: &CacheKey) -> (r: bool)
    ensures
        r == instance_lt(a@, b@),
{
    if same(a.derived.as_str(), b.derived.as_str()) {
        precedes(a.entity_id.as_str(), b.entity_id.as_str())
    } else {
        precedes(a.derived.as_str(), b.derived.as_str())
    }
}

pub open spec fn key_views(keys: Seq<CacheKey>) -> Seq<RuleKey> {
    keys.map_values(|k: CacheKey| k@)
}

/// Puts a key at its place in an ascending list, unless it is there.
fn insert_key(v: &mut Vec<CacheKey>, x: CacheKey, Ghost(period): Ghost<PeriodView>)
    requires
        instances_ascend(key_views(old(v)@)),
        forall|k: int| 0 <= k < old(v)@.len() ==> (#[trigger] old(v)@[k])@.period == period,
        x@.period == period,
    ensures
        instances_ascend(key_views(final(v)@)),
        forall|k: int| 0 <= k < final(v)@.len() ==> (#[trigger] final(v)@[k])@.period == period,
        forall|y: RuleKey|
            #[trigger] key_views(final(v)@).contains(y) <==> (key_views(old(v)@).contains(y) || y
                == x@),
{
    let ghost s = key_views(v@);
    let mut i: usize = 0;
    while i < v.len() && key_precedes(&v[i], &x)
        invariant
            i <= v@.len(),
            v@ == old(v)@,
            s == key_views(v@),
            forall|j: int| 0 <= j < i ==> instance_lt(#[trigger] s[j], x@),
        decreases v@.len() - i,
    {
        assert(s[i as int] == v@[i as int]@);
        i = i + 1;
    }
    if i < v.len() && !key_precedes(&x, &v[i]) {
        proof {
            assert(s[i as int] == v@[i as int]@);
            instance_lt_total(s[i as int], x@);
            assert(s.contains(x@));
        }
        return ;
    }
    let ghost given = x@;
    v.insert(i, x);
    proof {
        let t = key_views(v@);
        assert(t =~= s.insert(i as int, given));
        assert forall|j: int| i <= j < s.len() implies instance_lt(given, #[trigger] s[j]) by {
            assert(s[i as int] == old(v)@[i as int]@);
            if j > i {
                instance_lt_transitive(given, s[i as int], s[j]);
            }
        }
        assert forall|a: int, b: int| 0 <= a < b < t.len() implies instance_lt(
            #[trigger] t[a],
            #[trigger] t[b],
        ) by {
            let left = if a < i { a } else { a - 1 };
            let right = if b < i { b } else { b - 1 };
            if a == i {
                assert(instance_lt(given, s[right]));
            } else if b == i {
                assert(instance_lt(s[left], given));
            } else {
                assert(instance_lt(s[left], s[right]));
            }
        }
        assert forall|y: RuleKey| #[trigger] t.contains(y) <==> (s.contains(y) || y == given) by {
            if s.contains(y) {
                let k = s.index_of(y);
                assert(t[if k < i { k } else { k + 1 }] == y);
            }
            if y == given {
                assert(t[i as int] == y);
            }
            if t.contains(y) {
                let k = t.index_of(y);
                if k < i {
                    assert(s[k] == y);
                } else if k > i {
                    assert(s[k - 1] == y);
                }
            }
        }
        assert forall|k: int| 0 <= k < v@.len() implies (#[trigger] v@[k])@.period == period by {
            if k < i {
                assert(v@[k] == old(v)@[k]);
            } else if k > i {
                assert(v@[k] == old(v)@[k - 1]);
            }
        }
    }
}

fn holds_key(keys: &Vec<CacheKey>, key: &CacheKey) -> (r: bool)
    ensures
        r == key_views(keys@).contains(key@),
{
    let mut i: usize = 0;
    while i < keys.len()
        invariant
            i <= keys@.len(),
            forall|j: int| 0 <= j < i ==> #[trigger] key_views(keys@)[j] != key@,
        decreases keys@.len() - i,
    {
        if keys[i].same_key(key) {
            assert(key_views(keys@)[i as int] == key@);
            return true;
        }
        i = i + 1;
    }
    false
}

spec fn unvisited(flags: Seq<bool>, n: nat) -> nat
    decreases n,
{
    if n == 0 || n > flags.len() {
        0
    } else {
        unvisited(flags, (n - 1) as nat) + if flags[n - 1] {
            0nat
        } else {
            1nat
        }
    }
}

proof fn visiting_lowers(flags: Seq<bool>, i: int, n: nat)
    requires
        0 <= i < flags.len(),
        n <= flags.len(),
        !flags[i],
    ensures
        unvisited(flags.update(i, true), n) + (if i < n {
            1nat
        } else {
            0nat
        }) == unvisited(flags, n),
    decreases n,
{
    if n > 0 {
        visiting_lowers(flags, i, (n - 1) as nat);
    }
}

impl<'a> Engine<'a> {
    /// Whether the engine remembers a value for the key.
    pub open spec fn is_remembered(&self, key: RuleKey) -> bool {
        self.scalar_at(key) is Some || self.judgment_at(key) is Some
    }

    /// Whether evaluating the rule evaluated the other one.
    pub open spec fn led_to(&self, from: RuleKey, to: RuleKey) -> bool {
        match self.trace_at(from) {
            Some(trace) => trace.dependencies.contains(to),
            None => false,
        }
    }

    /// Whether the path starts at a remembered rule of the root entity, and each rule on it
    /// led to the next.
    pub open spec fn is_trace_path(
        &self,
        period: PeriodView,
        root: Seq<char>,
        path: Seq<RuleKey>,
    ) -> bool {
        &&& path.len() > 0
        &&& self.is_remembered(path[0])
        &&& path[0].period == period
        &&& path[0].entity_id == root
        &&& forall|i: int| 0 < i < path.len() ==> self.led_to(path[i - 1], #[trigger] path[i])
    }

    /// Whether a rule of the root entity led to the rule.
    pub open spec fn is_reached(&self, period: PeriodView, root: Seq<char>, key: RuleKey) -> bool {
        exists|path: Seq<RuleKey>| #[trigger]
            self.is_trace_path(period, root, path) && path.last() == key
    }

    /// Whether the rule belongs to the trace of the root entity over the period.
    pub open spec fn is_trace_instance(
        &self,
        period: PeriodView,
        root: Seq<char>,
        key: RuleKey,
    ) -> bool {
        self.is_remembered(key) && key.period == period && self.is_reached(period, root, key)
    }

    /// Whether an instance states what is remembered of its key.
    pub open spec fn states(&self, instance: EvaluatedTraceInstance) -> bool {
        let key = instance.key@;
        &&& match instance.value {
            EvaluatedTraceValue::Scalar { value, pre_rounding_value } => self.scalar_at(key)
                == Some(value) && self.pre_rounding_at(key) == pre_rounding_value,
            EvaluatedTraceValue::Judgment(outcome) => self.scalar_at(key) is None
                && self.judgment_at(key) == Some(outcome),
        }
        &&& instance.execution@ == match self.trace_at(key) {
            Some(trace) => trace,
            None => TraceView::empty(),
        }
    }

    /// The remembered keys of a period, ascending.
    fn remembered_keys(&self, period: &Period) -> (r: Vec<CacheKey>)
        ensures
            instances_ascend(key_views(r@)),
            forall|k: int| 0 <= k < r@.len() ==> (#[trigger] r@[k])@.period == period@,
            forall|y: RuleKey|
                #[trigger] key_views(r@).contains(y) <==> self.is_remembered(y) && y.period
                    == period@,
    {
        let mut keys: Vec<CacheKey> = Vec::new();
        let mut i: usize = 0;
        while i < self.scalar_cache.len()
            invariant
                i <= self.scalar_cache@.len(),
                instances_ascend(key_views(keys@)),
                forall|k: int| 0 <= k < keys@.len() ==> (#[trigger] keys@[k])@.period == period@,
                forall|y: RuleKey| #[trigger]
                    key_views(keys@).contains(y) ==> self.is_remembered(y),
                forall|j: int|
                    0 <= j < i && (#[trigger] self.scalar_cache@[j]).key@.period == period@
                        ==> key_views(keys@).contains(self.scalar_cache@[j].key@),
            decreases self.scalar_cache@.len() - i,
        {
            let key = &self.scalar_cache[i].key;
            if key.period.same_period(period) {
                proof {
                    entry_is_found(self.scalar_cache@, i as int);
                }
                insert_key(&mut keys, key.duplicate(), Ghost(period@));
            }
            i = i + 1;
        }
        let mut i: usize = 0;
        while i < self.judgment_cache.len()
            invariant
                i <= self.judgment_cache@.len(),
                instances_ascend(key_views(keys@)),
                forall|k: int| 0 <= k < keys@.len() ==> (#[trigger] keys@[k])@.period == period@,
                forall|y: RuleKey| #[trigger]
                    key_views(keys@).contains(y) ==> self.is_remembered(y),
                forall|j: int|
                    0 <= j < self.scalar_cache@.len() && (
                    #[trigger] self.scalar_cache@[j]).key@.period == period@ ==> key_views(
                        keys@,
                    ).contains(self.scalar_cache@[j].key@),
                forall|j: int|
                    0 <= j < i && (#[trigger] self.judgment_cache@[j]).key@.period == period@
                        ==> key_views(keys@).contains(self.judgment_cache@[j].key@),
            decreases self.judgment_cache@.len() - i,
        {
            let key = &self.judgment_cache[i].key;
            if key.period.same_period(period) {
                proof {
                    entry_is_found(self.judgment_cache@, i as int);
                }
                insert_key(&mut keys, key.duplicate(), Ghost(period@));
            }
            i = i + 1;
        }
        proof {
            assert forall|y: RuleKey| #[trigger] key_views(keys@).contains(y) <==> (
            self.is_remembered(y) && y.period == period@) by {
                if self.is_remembered(y) && y.period == period@ {
                    entry_from_meaning(self.scalar_cache@, y, 0);
                    entry_from_meaning(self.judgment_cache@, y, 0);
                    if self.scalar_at(y) is Some {
                        let j = entry_from(self.scalar_cache@, y, 0)->Some_0;
                        assert(self.scalar_cache@[j as int].key@ == y);
                    } else {
                        let j = entry_from(self.judgment_cache@, y, 0)->Some_0;
                        assert(self.judgment_cache@[j as int].key@ == y);
                    }
                }
                if key_views(keys@).contains(y) {
                    let k = key_views(keys@).index_of(y);
                    assert(keys@[k]@ == y);
                }
            }
        }
        keys
    }

    /// A trace whose rule was reached and whose own references were not followed.
    fn pending_trace(&self, reached: &Vec<CacheKey>, visited: &Vec<bool>) -> (r: Option<usize>)
        requires
            visited@.len() == self.execution_trace@.len(),
        ensures
            match r {
                Some(i) => i < visited@.len() && !visited@[i as int] && key_views(
                    reached@,
                ).contains(self.execution_trace@[i as int].key@) && entry_from(
                    self.execution_trace@,
                    self.execution_trace@[i as int].key@,
                    0,
                ) == Some(i as nat),
                None => forall|i: int|
                    0 <= i < visited@.len() && key_views(reached@).contains(
                        (#[trigger] self.execution_trace@[i]).key@,
                    ) && entry_from(self.execution_trace@, self.execution_trace@[i].key@, 0)
                        == Some(i as nat) ==> visited@[i],
            },
    {
        let mut i: usize = 0;
        while i < visited.len()
            invariant
                i <= visited@.len(),
                visited@.len() == self.execution_trace@.len(),
                forall|j: int|
                    0 <= j < i && key_views(reached@).contains(
                        (#[trigger] self.execution_trace@[j]).key@,
                    ) && entry_from(self.execution_trace@, self.execution_trace@[j].key@, 0)
                        == Some(j as nat) ==> visited@[j],
            decreases visited@.len() - i,
        {
            let key = &self.execution_trace[i].key;
            if !visited[i] && holds_key(reached, key) {
                if let Some(at) = find_entry(&self.execution_trace, key) {
                    if at == i {
                        return Some(i);
                    }
                }
            }
            i = i + 1;
        }
        None
    }

    /// The rules that rules of the root entity led to, with those themselves.
    fn reached_keys(
        &self,
        keys: &Vec<CacheKey>,
        root_entity_id: &str,
        Ghost(period): Ghost<PeriodView>,
    ) -> (r: Vec<CacheKey>)
        requires
            forall|y: RuleKey|
                #[trigger] key_views(keys@).contains(y) <==> self.is_remembered(y) && y.period
                    == period,
        ensures
            forall|y: RuleKey| #[trigger]
                key_views(r@).contains(y) <==> self.is_reached(period, root_entity_id@, y),
    {
        let ghost root = root_entity_id@;
        let mut reached: Vec<CacheKey> = Vec::new();
        let mut i: usize = 0;
        while i < keys.len()
            invariant
                i <= keys@.len(),
                root == root_entity_id@,
                forall|y: RuleKey|
                    #[trigger] key_views(keys@).contains(y) <==> self.is_remembered(y) && y.period
                        == period,
                forall|y: RuleKey| #[trigger]
                    key_views(reached@).contains(y) ==> self.is_reached(period, root, y),
                forall|j: int|
                    0 <= j < i && (#[trigger] keys@[j])@.entity_id == root ==> key_views(
                        reached@,
                    ).contains(keys@[j]@),
            decreases keys@.len() - i,
        {
            if same(keys[i].entity_id.as_str(), root_entity_id) {
                let ghost before = key_views(reached@);
                let ghost key = keys@[i as int]@;
                reached.push(keys[i].duplicate());
                proof {
                    assert(key_views(reached@) =~= before.push(key));
                    pushed_contains(before, key);
                    assert(key_views(keys@)[i as int] == key);
                    assert(key_views(keys@).contains(key));
                    let path = seq![key];
                    assert(self.is_trace_path(period, root, path));
                    assert(path.last() == key);
                    assert(self.is_reached(period, root, key));
                }
            }
            i = i + 1;
        }
        let mut visited: Vec<bool> = Vec::new();
        while visited.len() < self.execution_trace.len()
            invariant
                visited@.len() <= self.execution_trace@.len(),
                forall|j: int| 0 <= j < visited@.len() ==> !#[trigger] visited@[j],
            decreases self.execution_trace@.len() - visited@.len(),
        {
            visited.push(false);
        }
        loop
            invariant
                root == root_entity_id@,
                visited@.len() == self.execution_trace@.len(),
                forall|y: RuleKey|
                    #[trigger] key_views(keys@).contains(y) <==> self.is_remembered(y) && y.period
                        == period,
                forall|y: RuleKey| #[trigger]
                    key_views(reached@).contains(y) ==> self.is_reached(period, root, y),
                forall|j: int|
                    0 <= j < keys@.len() && (#[trigger] keys@[j])@.entity_id == root ==> key_views(
                        reached@,
                    ).contains(keys@[j]@),
                forall|j: int, y: RuleKey|
                    0 <= j < visited@.len() && #[trigger] visited@[j]
                        && self.execution_trace@[j].value@.dependencies.contains(y)
                        ==> #[trigger] key_views(reached@).contains(y),
            ensures
                forall|j: int|
                    0 <= j < visited@.len() && key_views(reached@).contains(
                        (#[trigger] self.execution_trace@[j]).key@,
                    ) && entry_from(self.execution_trace@, self.execution_trace@[j].key@, 0)
                        == Some(j as nat) ==> visited@[j],
            decreases unvisited(visited@, visited@.len()),
        {
            let next: usize = match self.pending_trace(&reached, &visited) {
                Some(next) => next,
                None => {
                    break ;
                },
            };
            let ghost flags = visited@;
            let ghost list = key_views(reached@);
            let ghost from = self.execution_trace@[next as int].key@;
            let ghost more = self.execution_trace@[next as int].value@.dependencies;
            let dependencies = &self.execution_trace[next].value.dependencies;
            let mut d: usize = 0;
            assert(list + more.take(0) =~= list);
            while d < dependencies.len()
                invariant
                    d <= dependencies@.len(),
                    more == key_views(dependencies@),
                    key_views(reached@) == list + more.take(d as int),
                decreases dependencies@.len() - d,
            {
                let ghost before = key_views(reached@);
                reached.push(dependencies[d].duplicate());
                proof {
                    assert(key_views(reached@) =~= before.push(dependencies@[d as int]@));
                    assert(more.take(d + 1) =~= more.take(d as int).push(more[d as int]));
                    assert(key_views(reached@) =~= list + more.take(d + 1));
                }
                d = d + 1;
            }
            visited.set(next, true);
            proof {
                assert(more.take(d as int) =~= more);
                visiting_lowers(flags, next as int, flags.len());
                joined_contains(list, more);
                assert(self.trace_at(from) == Some(self.execution_trace@[next as int].value@));
                assert forall|y: RuleKey| #[trigger]
                    key_views(reached@).contains(y) implies self.is_reached(period, root, y) by {
                    if !list.contains(y) {
                        assert(self.led_to(from, y));
                        self.reached_on(period, root, from, y);
                    }
                }
            }
        }
        proof {
            assert forall|from: RuleKey, to: RuleKey|
                key_views(reached@).contains(from) && #[trigger] self.led_to(
                    from,
                    to,
                ) implies key_views(reached@).contains(to) by {
                entry_from_meaning(self.execution_trace@, from, 0);
                let j = entry_from(self.execution_trace@, from, 0)->Some_0;
                assert(self.execution_trace@[j as int].key@ == from);
                assert(visited@[j as int]);
            }
            assert forall|y: RuleKey| self.is_reached(period, root, y) implies #[trigger] key_views(
                reached@,
            ).contains(y) by {
                let path = choose|path: Seq<RuleKey>| #[trigger]
                    self.is_trace_path(period, root, path) && path.last() == y;
                assert forall|j: int|
                    0 <= j < keys@.len() && (#[trigger] keys@[j])@.entity_id
                        == root implies key_views(reached@).contains(keys@[j]@) by {}
                self.closed_has_path(period, root, key_views(keys@), key_views(reached@), path);
            }
        }
        reached
    }

    /// What a reached rule led to is reached.
    pub proof fn reached_on(
        &self,
        period: PeriodView,
        root: Seq<char>,
        from: RuleKey,
        to: RuleKey,
    )
        requires
            self.is_reached(period, root, from),
            self.led_to(from, to),
        ensures
            self.is_reached(period, root, to),
    {
        let path = choose|path: Seq<RuleKey>| #[trigger]
            self.is_trace_path(period, root, path) && path.last() == from;
        let longer = path.push(to);
        assert forall|i: int| 0 < i < longer.len() implies self.led_to(
            longer[i - 1],
            #[trigger] longer[i],
        ) by {
            if i < path.len() {
                assert(longer[i] == path[i]);
            }
        }
        assert(self.is_trace_path(period, root, longer));
        assert(longer.last() == to);
    }

    /// A set that holds the rules of the root entity, and what its rules led to, holds
    /// every path.
    proof fn closed_has_path(
        &self,
        period: PeriodView,
        root: Seq<char>,
        keys: Seq<RuleKey>,
        reached: Seq<RuleKey>,
        path: Seq<RuleKey>,
    )
        requires
            forall|y: RuleKey|
                #[trigger] keys.contains(y) <==> self.is_remembered(y) && y.period == period,
            forall|j: int|
                0 <= j < keys.len() && (#[trigger] keys[j]).entity_id == root ==> reached.contains(
                    keys[j],
                ),
            forall|from: RuleKey, to: RuleKey|
                reached.contains(from) && #[trigger] self.led_to(from, to) ==> reached.contains(to),
            self.is_trace_path(period, root, path),
        ensures
            reached.contains(path.last()),
        decreases path.len(),
    {
        if path.len() == 1 {
            assert(keys.contains(path[0]));
            let j = keys.index_of(path[0]);
            assert(keys[j] == path[0]);
        } else {
            let front = path.drop_last();
            assert forall|i: int| 0 < i < front.len() implies self.led_to(
                front[i - 1],
                #[trigger] front[i],
            ) by {
                assert(front[i] == path[i]);
            }
            self.closed_has_path(period, root, keys, reached, front);
            assert(self.led_to(path[path.len() - 2], path[path.len() - 1]));
        }
    }

    /// The rules that belong to the trace of the root entity over the period, ascending.
    pub fn evaluated_trace_instances(&self, period: &Period, root_entity_id: &str) -> (r: Vec<
        EvaluatedTraceInstance,
    >)
        ensures
            instances_ascend(instance_keys(r@)),
            forall|k: int| 0 <= k < r@.len() ==> self.states(#[trigger] r@[k]),
            forall|y: RuleKey| #[trigger]
                instance_keys(r@).contains(y)
                    <==> self.is_trace_instance(period@, root_entity_id@, y),
    {
        let keys = self.remembered_keys(period);
        let reached = self.reached_keys(&keys, root_entity_id, Ghost(period@));
        let ghost all = key_views(keys@);
        let ghost (p, root) = (period@, root_entity_id@);
        let mut out: Vec<EvaluatedTraceInstance> = Vec::new();
        let mut i: usize = 0;
        while i < keys.len()
            invariant
                i <= keys@.len(),
                all == key_views(keys@),
                p == period@,
                root == root_entity_id@,
                instances_ascend(all),
                forall|y: RuleKey|
                    #[trigger] all.contains(y) <==> self.is_remembered(y) && y.period == p,
                forall|y: RuleKey| #[trigger]
                    key_views(reached@).contains(y) <==> self.is_reached(p, root, y),
                forall|k: int| 0 <= k < out@.len() ==> self.states(#[trigger] out@[k]),
                forall|k: int|
                    0 <= k < out@.len() ==> all.take(i as int).contains(
                        (#[trigger] out@[k]).key@,
                    ) && self.is_trace_instance(p, root, out@[k].key@),
                instances_ascend(instance_keys(out@)),
                forall|j: int|
                    0 <= j < i && self.is_reached(p, root, #[trigger] all[j]) ==> instance_keys(
                        out@,
                    ).contains(all[j]),
            decreases keys@.len() - i,
        {
            let key = &keys[i];
            let ghost k = key@;
            let ghost before = out@;
            proof {
                assert(all[i as int] == k);
                assert(all.contains(k));
                assert(all.take(i + 1) =~= all.take(i as int).push(k));
                pushed_contains(all.take(i as int), k);
            }
            if holds_key(&reached, key) {
                let execution = match find_entry(&self.execution_trace, key) {
                    Some(at) => self.execution_trace[at].value.duplicate(),
                    None => NodeExecutionTrace::new(),
                };
                let value = match find_entry(&self.scalar_cache, key) {
                    Some(at) => {
                        let pre_rounding_value = match find_entry(&self.pre_rounding_cache, key) {
                            Some(at) => Some(self.pre_rounding_cache[at].value.duplicate()),
                            None => None,
                        };
                        EvaluatedTraceValue::Scalar {
                            value: self.scalar_cache[at].value.duplicate(),
                            pre_rounding_value,
                        }
                    },
                    None => match find_entry(&self.judgment_cache, key) {
                        Some(at) => EvaluatedTraceValue::Judgment(self.judgment_cache[at].value),
                        None => {
                            assert(false);
                            EvaluatedTraceValue::Judgment(JudgmentOutcome::Undetermined)
                        },
                    },
                };
                let instance = EvaluatedTraceInstance { key: key.duplicate(), value, execution };
                assert(self.states(instance));
                out.push(instance);
                proof {
                    let (a, b) = (instance_keys(before), instance_keys(out@));
                    assert(b =~= a.push(k));
                    pushed_contains(a, k);
                    assert forall|x: int, y: int| 0 <= x < y < b.len() implies instance_lt(
                        #[trigger] b[x],
                        #[trigger] b[y],
                    ) by {
                        if y < a.len() {
                            assert(instance_lt(a[x], a[y]));
                        } else {
                            assert(before[x].key@ == a[x]);
                            let at = all.take(i as int).index_of(a[x]);
                            assert(all[at] == a[x]);
                            assert(instance_lt(all[at], all[i as int]));
                        }
                    }
                    assert forall|x: int| 0 <= x < out@.len() implies all.take(i + 1).contains(
                        (#[trigger] out@[x]).key@,
                    ) && self.is_trace_instance(p, root, out@[x].key@) by {
                        if x < before.len() {
                            assert(out@[x] == before[x]);
                        }
                    }
                }
            }
            i = i + 1;
        }
        proof {
            let found = instance_keys(out@);
            assert forall|y: RuleKey| #[trigger] found.contains(y) <==> self.is_trace_instance(
                p,
                root,
                y,
            ) by {
                if found.contains(y) {
                    let k = found.index_of(y);
                    assert(out@[k].key@ == y);
                }
                if self.is_trace_instance(p, root, y) {
                    assert(all.contains(y));
                    let j = all.index_of(y);
                    assert(self.is_reached(p, root, all[j]));
                }
            }
        }
        out
    }
}

pub open spec fn instance_keys(list: Seq<EvaluatedTraceInstance>) -> Seq<RuleKey> {
    list.map_values(|i: EvaluatedTraceInstance| i.key@)
}

proof fn pushed_contains<T>(s: Seq<T>, x: T)
    ensures
        forall|y: T| #[trigger] s.push(x).contains(y) <==> (s.contains(y) || y == x),
{
    assert forall|y: T| #[trigger] s.push(x).contains(y) <==> (s.contains(y) || y == x) by {
        if s.contains(y) {
            assert(s.push(x)[s.index_of(y)] == y);
        }
        assert(s.push(x)[s.len() as int] == x);
        if s.push(x).contains(y) {
            let k = s.push(x).index_of(y);
            if k < s.len() {
                assert(s[k] == y);
            }
        }
    }
}

proof fn joined_contains<T>(a: Seq<T>, b: Seq<T>)
    ensures
        forall|y: T| #[trigger] (a + b).contains(y) <==> (a.contains(y) || b.contains(y)),
{
    assert forall|y: T| #[trigger] (a + b).contains(y) <==> (a.contains(y) || b.contains(y)) by {
        if a.contains(y) {
            assert((a + b)[a.index_of(y)] == y);
        }
        if b.contains(y) {
            assert((a + b)[a.len() + b.index_of(y)] == y);
        }
        if (a + b).contains(y) {
            let k = (a + b).index_of(y);
            if k < a.len() {
                assert(a[k] == y);
            } else {
                assert(b[k - a.len()] == y);
            }
        }
    }
}

/// An entry's key is found.
proof fn entry_is_found<V>(entries: Seq<Entry<V>>, i: int)
    requires
        0 <= i < entries.len(),
    ensures
        entry_at(entries, entries[i].key@) is Some,
{
    entry_is_found_from(entries, i, 0);
}

proof fn entry_is_found_from<V>(entries: Seq<Entry<V>>, i: int, from: nat)
    requires
        from <= i < entries.len(),
    ensures
        entry_from(entries, entries[i].key@, from) is Some,
    decreases i - from,
{
    if from < i {
        entry_is_found_from(entries, i, from + 1);
    }
}

} // verus!
