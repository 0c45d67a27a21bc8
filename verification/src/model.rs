//! The rule model: periods, values, expressions, rules, relations and facts.
use crate::date::{civil, day_number, day_number_in_range, next_month_follows, valid_ymd};
use crate::date::{Date, MAX_DAYS};
use crate::decimal::{Decimal, RoundingMode};
use crate::text::{owned, same};
use std::collections::BTreeMap;
use vstd::prelude::*;

verus! {

/// Pseudo-entity of formula parameters with no declared entity. Rules at this
/// entity are the same for every row.
pub const SCALAR_ENTITY: &'static str = "Scalar";

/// What kind of period a query is about.
#[derive(Debug)]
pub enum PeriodKind {
    Month,
    BenefitWeek,
    TaxYear,
    Custom(String),
}

/// The model of a [`PeriodKind`].
pub ghost enum PeriodKindView {
    Month,
    BenefitWeek,
    TaxYear,
    Custom(Seq<char>),
}

impl PeriodKind {
    pub open spec fn view(&self) -> PeriodKindView {
        match self {
            PeriodKind::Month => PeriodKindView::Month,
            PeriodKind::BenefitWeek => PeriodKindView::BenefitWeek,
            PeriodKind::TaxYear => PeriodKindView::TaxYear,
            PeriodKind::Custom(name) => PeriodKindView::Custom(name@),
        }
    }

    /// Whether both are the same kind.
    pub fn same_kind(&self, other: &PeriodKind) -> (r: bool)
        ensures
            r == (self@ == other@),
    {
        match (self, other) {
            (PeriodKind::Month, PeriodKind::Month) => true,
            (PeriodKind::BenefitWeek, PeriodKind::BenefitWeek) => true,
            (PeriodKind::TaxYear, PeriodKind::TaxYear) => true,
            (PeriodKind::Custom(a), PeriodKind::Custom(b)) => same(a.as_str(), b.as_str()),
            _ => false,
        }
    }

    pub fn duplicate(&self) -> (r: PeriodKind)
        ensures
            r == *self,
    {
        match self {
            PeriodKind::Month => PeriodKind::Month,
            PeriodKind::BenefitWeek => PeriodKind::BenefitWeek,
            PeriodKind::TaxYear => PeriodKind::TaxYear,
            PeriodKind::Custom(name) => PeriodKind::Custom(name.clone()),
        }
    }
}

/// A period with its first and last day.
#[derive(Debug)]
pub struct Period {
    pub kind: PeriodKind,
    pub start: Date,
    pub end: Date,
}

/// The model of a [`Period`].
pub ghost struct PeriodView {
    pub kind: PeriodKindView,
    pub start: Date,
    pub end: Date,
}

impl Period {
    pub open spec fn view(&self) -> PeriodView {
        PeriodView { kind: self.kind@, start: self.start, end: self.end }
    }

    /// The calendar month, from its first to its last day.
    pub fn month(year: i32, month: u32) -> (r: Period)
        requires
            valid_ymd(year as int, month as int, 1),
            month == 12 ==> valid_ymd(year + 1, 1, 1),
        ensures
            r.kind is Month,
            r.start == Date::of_number(day_number(year as int, month as int, 1)),
            r.end == Date::of_number(
                (if month == 12 {
                    day_number(year + 1, 1, 1)
                } else {
                    day_number(year as int, month + 1, 1)
                }) - 1,
            ),
    {
        let start = Date::from_ymd(year, month, 1);
        let next = if month == 12 {
            Date::from_ymd(year + 1, 1, 1)
        } else {
            Date::from_ymd(year, month + 1, 1)
        };
        let (start, next) = match (start, next) {
            (Some(start), Some(next)) => (start, next),
            _ => {
                proof {
                    assert(false);
                }
                (Date::epoch(), Date::epoch())
            },
        };
        proof {
            next_month_follows(year as int, month as int);
            day_number_in_range(year as int, month as int, 1);
            if month == 12 {
                day_number_in_range(year + 1, 1, 1);
                Date::number_of(day_number(year + 1, 1, 1));
            } else {
                day_number_in_range(year as int, month + 1, 1);
                Date::number_of(day_number(year as int, month + 1, 1));
            }
        }
        let end = match next.add_days(-1) {
            Some(end) => end,
            None => {
                proof {
                    assert(false);
                }
                next
            },
        };
        Period { kind: PeriodKind::Month, start, end }
    }

    /// The seven days from `start`.
    pub fn benefit_week(start: Date) -> (r: Period)
        requires
            start.number() + 6 <= MAX_DAYS,
        ensures
            r.kind is BenefitWeek,
            r.start == start,
            r.end.number() == start.number() + 6,
    {
        start.number_in_range();
        let end = match start.add_days(6) {
            Some(end) => end,
            None => {
                proof {
                    assert(false);
                }
                start
            },
        };
        proof {
            Date::number_of(start.number() + 6);
        }
        Period { kind: PeriodKind::BenefitWeek, start, end }
    }

    pub fn duplicate(&self) -> (r: Period)
        ensures
            r == *self,
    {
        Period { kind: self.kind.duplicate(), start: self.start, end: self.end }
    }

    /// Whether both are the same period.
    pub fn same_period(&self, other: &Period) -> (r: bool)
        ensures
            r == (self@ == other@),
    {
        self.kind.same_kind(&other.kind) && self.start.same_day(&other.start)
            && self.end.same_day(&other.end)
    }
}

/// The days over which a fact holds, both ends included.
#[derive(Clone, Copy, Debug)]
pub struct Interval {
    pub start: Date,
    pub end: Date,
}

impl Interval {
    /// Whether the interval covers the days from `start` to `end`.
    pub open spec fn covers(self, period: PeriodView) -> bool {
        self.start.number() <= period.start.number() && self.end.number() >= period.end.number()
    }

    /// The interval of exactly the days of `period`.
    pub fn covering(period: &Period) -> (r: Interval)
        ensures
            r.start == period.start,
            r.end == period.end,
            r.covers(period@),
    {
        Interval { start: period.start, end: period.end }
    }

    pub fn contains_period(&self, period: &Period) -> (r: bool)
        ensures
            r == self.covers(period@),
    {
        self.start.up_to(&period.start) && period.end.up_to(&self.end)
    }
}

/// What a unit measures.
#[derive(Debug)]
pub enum UnitKind {
    Currency { minor_units: u8 },
    Count,
    Ratio,
    Duration,
    Custom(String),
}

/// A declared unit.
#[derive(Debug)]
pub struct UnitDef {
    pub name: String,
    pub kind: UnitKind,
}

impl UnitDef {
    pub fn currency(name: &str, minor_units: u8) -> (r: UnitDef)
        ensures
            r.name@ == name@,
            r.kind == (UnitKind::Currency { minor_units }),
    {
        UnitDef { name: owned(name), kind: UnitKind::Currency { minor_units } }
    }

    pub fn count(name: &str) -> (r: UnitDef)
        ensures
            r.name@ == name@,
            r.kind is Count,
    {
        UnitDef { name: owned(name), kind: UnitKind::Count }
    }

    pub fn custom(name: &str, kind: &str) -> (r: UnitDef)
        ensures
            r.name@ == name@,
            r.kind matches UnitKind::Custom(k) && k@ == kind@,
    {
        UnitDef { name: owned(name), kind: UnitKind::Custom(owned(kind)) }
    }
}

impl RoundingMode {
    /// The name of the mode in the rule vocabulary.
    pub open spec fn name(self) -> Seq<char> {
        match self {
            RoundingMode::HalfUp => "half_up"@,
            RoundingMode::HalfEven => "half_even"@,
            RoundingMode::Floor => "floor"@,
            RoundingMode::Ceil => "ceil"@,
        }
    }

    pub fn as_str(self) -> (r: &'static str)
        ensures
            r@ == self.name(),
    {
        match self {
            RoundingMode::HalfUp => "half_up",
            RoundingMode::HalfEven => "half_even",
            RoundingMode::Floor => "floor",
            RoundingMode::Ceil => "ceil",
        }
    }

    /// Rounds to `minor_units` decimal places. Every execution path rounds
    /// through this function.
    pub fn round_decimal(self, value: Decimal, minor_units: u8) -> (r: Decimal)
        ensures
            r == value.rounded(minor_units as nat, self),
    {
        value.round(minor_units, self)
    }
}

/// The output rounding that a rule declares.
#[derive(Clone, Copy, Debug)]
pub struct Rounding {
    pub mode: RoundingMode,
    pub minor_units: u8,
}

impl Rounding {
    pub open spec fn applied(self, value: Decimal) -> Decimal {
        value.rounded(self.minor_units as nat, self.mode)
    }

    pub fn apply(&self, value: Decimal) -> (r: Decimal)
        ensures
            r == self.applied(value),
    {
        self.mode.round_decimal(value, self.minor_units)
    }
}

/// The type of a rule's output.
#[derive(Clone, Copy, Debug, PartialEq, Eq, Structural)]
pub enum DType {
    Judgment,
    Bool,
    Integer,
    Decimal,
    Text,
    Date,
}

impl DType {
    /// The name of the variant.
    pub open spec fn name(self) -> Seq<char> {
        match self {
            DType::Judgment => "Judgment"@,
            DType::Bool => "Bool"@,
            DType::Integer => "Integer"@,
            DType::Decimal => "Decimal"@,
            DType::Text => "Text"@,
            DType::Date => "Date"@,
        }
    }

    pub fn as_str(self) -> (r: &'static str)
        ensures
            r@ == self.name(),
    {
        match self {
            DType::Judgment => "Judgment",
            DType::Bool => "Bool",
            DType::Integer => "Integer",
            DType::Decimal => "Decimal",
            DType::Text => "Text",
            DType::Date => "Date",
        }
    }
}

/// A scalar.
#[derive(Clone, Debug)]
pub enum ScalarValue {
    Bool(bool),
    Integer(i64),
    Decimal(Decimal),
    Text(String),
    Date(Date),
}

impl ScalarValue {
    /// The value as a number.
    pub open spec fn number(self) -> Option<Decimal> {
        match self {
            ScalarValue::Integer(value) => Some(Decimal::of_int(value as int)),
            ScalarValue::Decimal(value) => Some(value),
            _ => None,
        }
    }

    /// The value as a day.
    pub open spec fn day(self) -> Option<Date> {
        match self {
            ScalarValue::Date(value) => Some(value),
            _ => None,
        }
    }

    /// The value as an exact integer: an integer, or a decimal without fraction
    /// that fits.
    pub open spec fn index(self) -> Option<i64> {
        match self {
            ScalarValue::Integer(value) => Some(value),
            ScalarValue::Decimal(value) => value.index_value(),
            _ => None,
        }
    }

    /// Whether two values are equal: of the same kind, and decimals by value.
    pub open spec fn equals(self, other: ScalarValue) -> bool {
        match (self, other) {
            (ScalarValue::Bool(a), ScalarValue::Bool(b)) => a == b,
            (ScalarValue::Integer(a), ScalarValue::Integer(b)) => a == b,
            (ScalarValue::Decimal(a), ScalarValue::Decimal(b)) => a.equals(b),
            (ScalarValue::Text(a), ScalarValue::Text(b)) => a@ == b@,
            (ScalarValue::Date(a), ScalarValue::Date(b)) => a == b,
            _ => false,
        }
    }

    pub fn as_decimal(&self) -> (r: Option<Decimal>)
        ensures
            r == self.number(),
    {
        match self {
            ScalarValue::Integer(value) => Some(Decimal::from_i64(*value)),
            ScalarValue::Decimal(value) => Some(*value),
            _ => None,
        }
    }

    pub fn as_bool(&self) -> (r: Option<bool>)
        ensures
            r == match *self {
                ScalarValue::Bool(value) => Some(value),
                _ => None,
            },
    {
        match self {
            ScalarValue::Bool(value) => Some(*value),
            _ => None,
        }
    }

    pub fn as_date(&self) -> (r: Option<Date>)
        ensures
            r == self.day(),
    {
        match self {
            ScalarValue::Date(value) => Some(*value),
            _ => None,
        }
    }

    pub fn as_index(&self) -> (r: Option<i64>)
        ensures
            r == self.index(),
    {
        match self {
            ScalarValue::Integer(value) => Some(*value),
            ScalarValue::Decimal(value) => value.to_index(),
            _ => None,
        }
    }

    pub fn equal_to(&self, other: &ScalarValue) -> (r: bool)
        ensures
            r == self.equals(*other),
    {
        match (self, other) {
            (ScalarValue::Bool(a), ScalarValue::Bool(b)) => *a == *b,
            (ScalarValue::Integer(a), ScalarValue::Integer(b)) => *a == *b,
            (ScalarValue::Decimal(a), ScalarValue::Decimal(b)) => a.same_value(b),
            (ScalarValue::Text(a), ScalarValue::Text(b)) => same(a.as_str(), b.as_str()),
            (ScalarValue::Date(a), ScalarValue::Date(b)) => a.same_day(b),
            _ => false,
        }
    }

    pub fn duplicate(&self) -> (r: ScalarValue)
        ensures
            r == *self,
    {
        match self {
            ScalarValue::Bool(value) => ScalarValue::Bool(*value),
            ScalarValue::Integer(value) => ScalarValue::Integer(*value),
            ScalarValue::Decimal(value) => ScalarValue::Decimal(*value),
            ScalarValue::Text(value) => ScalarValue::Text(value.clone()),
            ScalarValue::Date(value) => ScalarValue::Date(*value),
        }
    }
}

/// The outcome of a judgment.
#[derive(Clone, Copy, Debug, PartialEq, Eq, Structural)]
pub enum JudgmentOutcome {
    Holds,
    NotHolds,
    Undetermined,
}

impl JudgmentOutcome {
    /// The outcome of the negated judgment.
    pub open spec fn negated(self) -> JudgmentOutcome {
        match self {
            JudgmentOutcome::Holds => JudgmentOutcome::NotHolds,
            JudgmentOutcome::NotHolds => JudgmentOutcome::Holds,
            JudgmentOutcome::Undetermined => JudgmentOutcome::Undetermined,
        }
    }

    /// The outcome of a test.
    pub open spec fn of_bool(holds: bool) -> JudgmentOutcome {
        if holds {
            JudgmentOutcome::Holds
        } else {
            JudgmentOutcome::NotHolds
        }
    }

    pub fn is_holds(self) -> (r: bool)
        ensures
            r == (self is Holds),
    {
        matches!(self, JudgmentOutcome::Holds)
    }

    pub fn negate(self) -> (r: JudgmentOutcome)
        ensures
            r == self.negated(),
    {
        match self {
            JudgmentOutcome::Holds => JudgmentOutcome::NotHolds,
            JudgmentOutcome::NotHolds => JudgmentOutcome::Holds,
            JudgmentOutcome::Undetermined => JudgmentOutcome::Undetermined,
        }
    }

    pub fn from_bool(holds: bool) -> (r: JudgmentOutcome)
        ensures
            r == JudgmentOutcome::of_bool(holds),
    {
        if holds {
            JudgmentOutcome::Holds
        } else {
            JudgmentOutcome::NotHolds
        }
    }
}

#[derive(Clone, Copy, Debug, PartialEq, Eq, Structural)]
pub enum ComparisonOp {
    Lt,
    Lte,
    Gt,
    Gte,
    Eq,
    Ne,
}

/// The value that an aggregation reads of each related entity.
#[derive(Debug)]
pub enum RelatedValueRef {
    Input(String),
    Derived(String),
}

/// A reduction over an entity's own period axis.
#[derive(Clone, Copy, Debug, PartialEq, Eq, Structural)]
pub enum OverPeriodsKind {
    /// Sum of the inner value across all supplied periods.
    Sum,
    /// Maximum of the inner value across all supplied periods.
    Max,
    /// Number of supplied periods whose inner value is nonzero or true.
    Count,
    /// Sum of the `n` largest per-period inner values.
    SumTopN,
}

impl OverPeriodsKind {
    pub open spec fn call_name(self) -> Seq<char> {
        match self {
            OverPeriodsKind::Sum => "sum_over_periods"@,
            OverPeriodsKind::Max => "max_over_periods"@,
            OverPeriodsKind::Count => "count_over_periods"@,
            OverPeriodsKind::SumTopN => "sum_top_n_over_periods"@,
        }
    }

    /// The name of the formula builtin that lowers to this reduction.
    pub fn as_call_name(self) -> (r: &'static str)
        ensures
            r@ == self.call_name(),
    {
        match self {
            OverPeriodsKind::Sum => "sum_over_periods",
            OverPeriodsKind::Max => "max_over_periods",
            OverPeriodsKind::Count => "count_over_periods",
            OverPeriodsKind::SumTopN => "sum_top_n_over_periods",
        }
    }
}

/// A scalar formula.
#[allow(inconsistent_fields)]
#[derive(Debug)]
pub enum ScalarExpr {
    Literal(ScalarValue),
    Input(String),
    /// An input, or `default` where no record covers the period.
    InputOrElse { name: String, default: ScalarValue },
    Derived(String),
    ParameterLookup { parameter: String, index: Box<ScalarExpr> },
    Add(Vec<ScalarExpr>),
    Sub(Box<ScalarExpr>, Box<ScalarExpr>),
    Mul(Box<ScalarExpr>, Box<ScalarExpr>),
    Div(Box<ScalarExpr>, Box<ScalarExpr>),
    Max(Vec<ScalarExpr>),
    Min(Vec<ScalarExpr>),
    Ceil(Box<ScalarExpr>),
    Floor(Box<ScalarExpr>),
    PeriodStart,
    PeriodEnd,
    DateAddDays { date: Box<ScalarExpr>, days: Box<ScalarExpr> },
    DateAddMonths { date: Box<ScalarExpr>, months: Box<ScalarExpr> },
    DateAddYears { date: Box<ScalarExpr>, years: Box<ScalarExpr> },
    DaysBetween { from: Box<ScalarExpr>, to: Box<ScalarExpr> },
    CountRelated {
        relation: String,
        current_slot: usize,
        related_slot: usize,
        where_clause: Option<Box<JudgmentExpr>>,
    },
    SumRelated {
        relation: String,
        current_slot: usize,
        related_slot: usize,
        value: RelatedValueRef,
        where_clause: Option<Box<JudgmentExpr>>,
    },
    If { condition: Box<JudgmentExpr>, then_expr: Box<ScalarExpr>, else_expr: Box<ScalarExpr> },
    /// The fallback of a `match` without `_`: reaching it is an error that names
    /// the subject's value and the arms.
    NoMatch { subject: Box<ScalarExpr>, patterns: Vec<ScalarExpr> },
    /// A reduction over the period axis; defined for lifetime execution only.
    /// `n` is present for [`OverPeriodsKind::SumTopN`] only.
    OverPeriods { kind: OverPeriodsKind, value: Box<ScalarExpr>, n: Option<Box<ScalarExpr>> },
}

/// A judgment formula.
#[derive(Debug)]
pub enum JudgmentExpr {
    Comparison { left: ScalarExpr, op: ComparisonOp, right: ScalarExpr },
    Derived(String),
    RelationMember { relation: String, current_slot: usize, related_slot: usize },
    And(Vec<JudgmentExpr>),
    Or(Vec<JudgmentExpr>),
    Not(Box<JudgmentExpr>),
}

/// The formula of a rule.
#[derive(Debug)]
pub enum DerivedSemantics {
    Scalar(ScalarExpr),
    Judgment(JudgmentExpr),
}

/// Whether a version from `from` to `to` applies on `date`.
pub open spec fn version_applies(from: Date, to: Option<Date>, date: Date) -> bool {
    &&& from.number() <= date.number()
    &&& match to {
        Some(end) => date.number() <= end.number(),
        None => true,
    }
}

/// A formula with the dates over which it applies.
#[derive(Debug)]
pub struct DerivedVersion {
    pub effective_from: Date,
    pub effective_to: Option<Date>,
    pub semantics: DerivedSemantics,
}

impl DerivedVersion {
    pub fn applies_at(&self, date: Date) -> (r: bool)
        ensures
            r == version_applies(self.effective_from, self.effective_to, date),
    {
        self.effective_from.up_to(&date) && match &self.effective_to {
            Some(end) => date.up_to(end),
            None => true,
        }
    }
}

/// The index of the version that applies on `date` among the first `n`: the one
/// with the latest `effective_from`, the last of several.
pub open spec fn derived_version_at(versions: Seq<DerivedVersion>, date: Date, n: nat) -> Option<
    nat,
>
    decreases n,
{
    if n == 0 {
        None
    } else {
        let before = derived_version_at(versions, date, (n - 1) as nat);
        let last = versions[n - 1];
        if !version_applies(last.effective_from, last.effective_to, date) {
            before
        } else {
            match before {
                Some(i) if versions[i as int].effective_from.number()
                    > last.effective_from.number() => before,
                _ => Some((n - 1) as nat),
            }
        }
    }
}

/// A rule.
#[derive(Debug)]
pub struct Derived {
    pub id: Option<String>,
    pub name: String,
    pub entity: String,
    pub dtype: DType,
    pub unit: Option<String>,
    /// Output rounding; `None` leaves the value as it is.
    pub rounding: Option<Rounding>,
    pub source: Option<String>,
    pub source_url: Option<String>,
    pub corpus_citation_path: Option<String>,
    pub semantics: DerivedSemantics,
    pub versions: Vec<DerivedVersion>,
}

impl Derived {
    /// The formula of the rule at a date.
    pub open spec fn formula_at(self, date: Date) -> Option<DerivedSemantics> {
        if self.versions@.len() == 0 {
            Some(self.semantics)
        } else {
            match derived_version_at(self.versions@, date, self.versions@.len()) {
                Some(i) => Some(self.versions@[i as int].semantics),
                None => None,
            }
        }
    }

    /// The public name of the rule: its id where it has one.
    pub open spec fn label(self) -> Seq<char> {
        match self.id {
            Some(id) => id@,
            None => self.name@,
        }
    }

    pub fn semantics_at(&self, period: &Period) -> (r: Option<&DerivedSemantics>)
        ensures
            match r {
                Some(s) => self.formula_at(period.start) == Some(*s),
                None => self.formula_at(period.start) is None,
            },
    {
        if self.versions.len() == 0 {
            return Some(&self.semantics);
        }
        let mut best: Option<usize> = None;
        let mut i: usize = 0;
        while i < self.versions.len()
            invariant
                i <= self.versions@.len(),
                derived_version_at(self.versions@, period.start, i as nat) == match best {
                    Some(b) => Some(b as nat),
                    None => None,
                },
                best matches Some(b) ==> b < i,
            decreases self.versions@.len() - i,
        {
            if self.versions[i].applies_at(period.start) {
                let later = match best {
                    Some(b) => self.versions[b].effective_from.up_to(
                        &self.versions[i].effective_from,
                    ),
                    None => true,
                };
                if later {
                    best = Some(i);
                }
            }
            i = i + 1;
        }
        match best {
            Some(b) => Some(&self.versions[b].semantics),
            None => None,
        }
    }
}

/// A relation between entities.
#[derive(Debug)]
pub struct RelationSchema {
    pub name: String,
    pub arity: usize,
    /// Declared entity kind of each tuple position; empty where undeclared.
    pub slot_entities: Vec<String>,
    pub derivation: Option<RelationDerivation>,
}

/// How a relation is derived from another by a predicate.
#[derive(Debug)]
pub struct RelationDerivation {
    pub source_relation: String,
    pub current_slot: usize,
    pub related_slot: usize,
    pub entity: Option<String>,
    pub member_relation: Option<String>,
    pub slot_entities: Vec<String>,
    pub predicate: JudgmentExpr,
}

/// Parameter values with the dates over which they apply.
#[derive(Debug)]
pub struct ParameterVersion {
    pub effective_from: Date,
    pub effective_to: Option<Date>,
    pub values: BTreeMap<i64, ScalarValue>,
}

impl ParameterVersion {
    pub fn applies_at(&self, date: Date) -> (r: bool)
        ensures
            r == version_applies(self.effective_from, self.effective_to, date),
    {
        self.effective_from.up_to(&date) && match &self.effective_to {
            Some(end) => date.up_to(end),
            None => true,
        }
    }
}

/// The index of the parameter version that applies on `date` among the first
/// `n`: the one with the latest `effective_from`, the last of several.
pub open spec fn parameter_version_at(
    versions: Seq<ParameterVersion>,
    date: Date,
    n: nat,
) -> Option<nat>
    decreases n,
{
    if n == 0 {
        None
    } else {
        let before = parameter_version_at(versions, date, (n - 1) as nat);
        let last = versions[n - 1];
        if !version_applies(last.effective_from, last.effective_to, date) {
            before
        } else {
            match before {
                Some(i) if versions[i as int].effective_from.number()
                    > last.effective_from.number() => before,
                _ => Some((n - 1) as nat),
            }
        }
    }
}

/// A parameter: a table of values per version.
#[derive(Debug)]
pub struct IndexedParameter {
    pub id: Option<String>,
    pub name: String,
    pub unit: Option<String>,
    pub indexed_by: Option<String>,
    pub source: Option<String>,
    pub source_url: Option<String>,
    pub corpus_citation_path: Option<String>,
    pub versions: Vec<ParameterVersion>,
}

impl IndexedParameter {
    /// The version that applies on `date`.
    pub open spec fn version_at(self, date: Date) -> Option<ParameterVersion> {
        match parameter_version_at(self.versions@, date, self.versions@.len()) {
            Some(i) => Some(self.versions@[i as int]),
            None => None,
        }
    }

    pub fn version_on(&self, date: Date) -> (r: Option<&ParameterVersion>)
        ensures
            match r {
                Some(v) => self.version_at(date) == Some(*v),
                None => self.version_at(date) is None,
            },
    {
        let mut best: Option<usize> = None;
        let mut i: usize = 0;
        while i < self.versions.len()
            invariant
                i <= self.versions@.len(),
                parameter_version_at(self.versions@, date, i as nat) == match best {
                    Some(b) => Some(b as nat),
                    None => None,
                },
                best matches Some(b) ==> b < i,
            decreases self.versions@.len() - i,
        {
            if self.versions[i].applies_at(date) {
                let later = match best {
                    Some(b) => self.versions[b].effective_from.up_to(
                        &self.versions[i].effective_from,
                    ),
                    None => true,
                };
                if later {
                    best = Some(i);
                }
            }
            i = i + 1;
        }
        match best {
            Some(b) => Some(&self.versions[b]),
            None => None,
        }
    }
}

/// A program: the declared units, relations, parameters and rules. Each list
/// holds a name at most once where it is built with the `add_` functions; the
/// first entry of a name is the one that is found.
#[derive(Debug)]
pub struct Program {
    pub units: Vec<UnitDef>,
    pub relations: Vec<RelationSchema>,
    pub parameters: Vec<IndexedParameter>,
    pub derived: Vec<Derived>,
}

/// An item that is found by its name.
pub trait Named {
    /// The name of the item.
    spec fn label_of(&self) -> Seq<char>;

    fn name_of(&self) -> (r: &str)
        ensures
            r@ == self.label_of(),
    ;
}

impl Named for UnitDef {
    open spec fn label_of(&self) -> Seq<char> {
        self.name@
    }

    fn name_of(&self) -> (r: &str) {
        self.name.as_str()
    }
}

impl Named for RelationSchema {
    open spec fn label_of(&self) -> Seq<char> {
        self.name@
    }

    fn name_of(&self) -> (r: &str) {
        self.name.as_str()
    }
}

impl Named for IndexedParameter {
    open spec fn label_of(&self) -> Seq<char> {
        self.name@
    }

    fn name_of(&self) -> (r: &str) {
        self.name.as_str()
    }
}

impl Named for Derived {
    open spec fn label_of(&self) -> Seq<char> {
        self.name@
    }

    fn name_of(&self) -> (r: &str) {
        self.name.as_str()
    }
}

/// The first index from `from` on whose item has the name.
pub open spec fn position_from<T: Named>(items: Seq<T>, name: Seq<char>, from: nat) -> Option<nat>
    decreases items.len() - from,
{
    if from >= items.len() {
        None
    } else if items[from as int].label_of() == name {
        Some(from)
    } else {
        position_from(items, name, from + 1)
    }
}

/// The index of the item with the name.
pub open spec fn position_of<T: Named>(items: Seq<T>, name: Seq<char>) -> Option<nat> {
    position_from(items, name, 0)
}

/// The item with the name.
pub open spec fn item_named<T: Named>(items: Seq<T>, name: Seq<char>) -> Option<T> {
    match position_of(items, name) {
        Some(i) => Some(items[i as int]),
        None => None,
    }
}

/// Items with the same names are found at the same place.
pub proof fn same_positions<T: Named>(a: Seq<T>, b: Seq<T>, name: Seq<char>, from: nat)
    requires
        a.len() == b.len(),
        forall|i: int| 0 <= i < a.len() ==> (#[trigger] b[i]).label_of() == a[i].label_of(),
    ensures
        position_from(a, name, from) == position_from(b, name, from),
        position_from(a, name, from) matches Some(i) ==> i < a.len(),
    decreases a.len() - from,
{
    if from < a.len() {
        assert(b[from as int].label_of() == a[from as int].label_of());
        same_positions(a, b, name, from + 1);
    }
}

/// What is found has the name, and nothing before it has.
pub proof fn position_from_meaning<T: Named>(items: Seq<T>, name: Seq<char>, from: nat)
    ensures
        match position_from(items, name, from) {
            Some(i) => from <= i < items.len() && items[i as int].label_of() == name && forall|j: int|
                from <= j < i ==> #[trigger] items[j].label_of() != name,
            None => forall|j: int|
                from <= j < items.len() ==> #[trigger] items[j].label_of() != name,
        },
    decreases items.len() - from,
{
    if from < items.len() && items[from as int].label_of() != name {
        position_from_meaning(items, name, from + 1);
    }
}

/// The index of the item with the name.
pub(crate) fn find_index<T: Named>(items: &Vec<T>, name: &str) -> (r: Option<usize>)
    ensures
        position_of(items@, name@) == match r {
            Some(i) => Some(i as nat),
            None => None,
        },
        r matches Some(i) ==> i < items@.len() && items@[i as int].label_of() == name@,
{
    let mut i: usize = 0;
    while i < items.len()
        invariant
            i <= items@.len(),
            position_of(items@, name@) == position_from(items@, name@, i as nat),
        decreases items@.len() - i,
    {
        if same(items[i].name_of(), name) {
            return Some(i);
        }
        i = i + 1;
    }
    None
}

/// The item with the name.
pub(crate) fn find_named<'a, T: Named>(items: &'a Vec<T>, name: &str) -> (r: Option<&'a T>)
    ensures
        item_named(items@, name@) == match r {
            Some(item) => Some(*item),
            None => None,
        },
        r matches Some(item) ==> item.label_of() == name@,
{
    match find_index(items, name) {
        Some(i) => Some(&items[i]),
        None => None,
    }
}

/// A name declared twice in a namespace.
#[derive(Debug)]
pub struct NamespaceCollisionError {
    pub namespace: &'static str,
    pub name: String,
}

/// No two items have the same name.
pub open spec fn names_unique<T: Named>(items: Seq<T>) -> bool {
    forall|i: int, j: int|
        0 <= i < j < items.len() ==> #[trigger] items[i].label_of()
            != #[trigger] items[j].label_of()
}

/// Adds an item under a name that is not taken; a taken name leaves the items as
/// they were.
fn insert_unique<T: Named>(namespace: &'static str, values: &mut Vec<T>, value: T) -> (r: Result<
    (),
    NamespaceCollisionError,
>)
    ensures
        match r {
            Ok(_) => position_of(old(values)@, value.label_of()) is None && final(values)@ == old(
                values,
            )@.push(value),
            Err(e) => position_of(old(values)@, value.label_of()) is Some && final(values)@ == old(
                values,
            )@ && e.namespace@ == namespace@ && e.name@ == value.label_of(),
        },
        names_unique(old(values)@) ==> names_unique(final(values)@),
{
    match find_index(values, value.name_of()) {
        Some(_) => Err(NamespaceCollisionError { namespace, name: owned(value.name_of()) }),
        None => {
            proof {
                position_from_meaning(values@, value.label_of(), 0);
            }
            values.push(value);
            Ok(())
        },
    }
}

/// Whether adding `value` to `before` gives `after` with outcome `r`.
pub open spec fn added<T: Named>(
    before: Seq<T>,
    after: Seq<T>,
    value: T,
    namespace: Seq<char>,
    r: Result<(), NamespaceCollisionError>,
) -> bool {
    match r {
        Ok(_) => position_of(before, value.label_of()) is None && after == before.push(value),
        Err(e) => position_of(before, value.label_of()) is Some && after == before
            && e.namespace@ == namespace && e.name@ == value.label_of(),
    }
}

impl Program {
    /// No name is declared twice.
    pub open spec fn unique_names(self) -> bool {
        &&& names_unique(self.units@)
        &&& names_unique(self.relations@)
        &&& names_unique(self.parameters@)
        &&& names_unique(self.derived@)
    }

    /// The rule with a name.
    pub open spec fn rule(self, name: Seq<char>) -> Option<Derived> {
        item_named(self.derived@, name)
    }

    /// The relation with a name.
    pub open spec fn relation(self, name: Seq<char>) -> Option<RelationSchema> {
        item_named(self.relations@, name)
    }

    /// The parameter with a name.
    pub open spec fn parameter(self, name: Seq<char>) -> Option<IndexedParameter> {
        item_named(self.parameters@, name)
    }

    /// The unit with a name.
    pub open spec fn unit(self, name: Seq<char>) -> Option<UnitDef> {
        item_named(self.units@, name)
    }

    /// A program without declarations.
    pub fn new() -> (r: Program)
        ensures
            r.unique_names(),
            r.units@.len() == 0,
            r.relations@.len() == 0,
            r.parameters@.len() == 0,
            r.derived@.len() == 0,
    {
        Program {
            units: Vec::new(),
            relations: Vec::new(),
            parameters: Vec::new(),
            derived: Vec::new(),
        }
    }

    pub fn add_unit(&mut self, unit: UnitDef) -> (r: Result<(), NamespaceCollisionError>)
        ensures
            added(old(self).units@, final(self).units@, unit, "unit"@, r),
            final(self).relations == old(self).relations,
            final(self).parameters == old(self).parameters,
            final(self).derived == old(self).derived,
            old(self).unique_names() ==> final(self).unique_names(),
    {
        insert_unique("unit", &mut self.units, unit)
    }

    /// Adds a relation whose positions are undeclared.
    pub fn add_relation(&mut self, name: &str, arity: usize) -> (r: Result<
        (),
        NamespaceCollisionError,
    >)
        ensures
            match r {
                Ok(_) => {
                    let after = final(self).relations@;
                    &&& old(self).relation(name@) is None
                    &&& after.len() == old(self).relations@.len() + 1
                    &&& after.drop_last() == old(self).relations@
                    &&& after.last().name@ == name@
                    &&& after.last().arity == arity
                    &&& after.last().slot_entities@.len() == 0
                    &&& after.last().derivation is None
                },
                Err(e) => {
                    &&& old(self).relation(name@) is Some
                    &&& final(self).relations@ == old(self).relations@
                    &&& e.namespace@ == "relation"@
                    &&& e.name@ == name@
                },
            },
            final(self).units == old(self).units,
            final(self).parameters == old(self).parameters,
            final(self).derived == old(self).derived,
            old(self).unique_names() ==> final(self).unique_names(),
    {
        let schema = RelationSchema {
            name: owned(name),
            arity,
            slot_entities: Vec::new(),
            derivation: None,
        };
        let r = self.add_relation_schema(schema);
        proof {
            assert(old(self).relations@.push(schema).drop_last() =~= old(self).relations@);
        }
        r
    }

    pub fn add_relation_schema(&mut self, schema: RelationSchema) -> (r: Result<
        (),
        NamespaceCollisionError,
    >)
        ensures
            added(old(self).relations@, final(self).relations@, schema, "relation"@, r),
            final(self).units == old(self).units,
            final(self).parameters == old(self).parameters,
            final(self).derived == old(self).derived,
            old(self).unique_names() ==> final(self).unique_names(),
    {
        insert_unique("relation", &mut self.relations, schema)
    }

    pub fn add_parameter(&mut self, parameter: IndexedParameter) -> (r: Result<
        (),
        NamespaceCollisionError,
    >)
        ensures
            added(old(self).parameters@, final(self).parameters@, parameter, "parameter"@, r),
            final(self).units == old(self).units,
            final(self).relations == old(self).relations,
            final(self).derived == old(self).derived,
            old(self).unique_names() ==> final(self).unique_names(),
    {
        insert_unique("parameter", &mut self.parameters, parameter)
    }

    pub fn add_derived(&mut self, derived: Derived) -> (r: Result<(), NamespaceCollisionError>)
        ensures
            added(old(self).derived@, final(self).derived@, derived, "derived rule"@, r),
            final(self).units == old(self).units,
            final(self).relations == old(self).relations,
            final(self).parameters == old(self).parameters,
            old(self).unique_names() ==> final(self).unique_names(),
    {
        insert_unique("derived rule", &mut self.derived, derived)
    }

    /// Decimal places of a declared currency unit; `None` for another unit or
    /// an undeclared name.
    pub fn currency_minor_units(&self, unit_name: &str) -> (r: Option<u8>)
        ensures
            r == match self.unit(unit_name@) {
                Some(UnitDef { kind: UnitKind::Currency { minor_units }, .. }) => Some(minor_units),
                _ => None,
            },
    {
        match find_named(&self.units, unit_name) {
            Some(unit) => match unit.kind {
                UnitKind::Currency { minor_units } => Some(minor_units),
                _ => None,
            },
            None => None,
        }
    }
}

/// A fact about an entity over an interval.
#[derive(Debug)]
pub struct InputRecord {
    pub name: String,
    pub entity: String,
    pub entity_id: String,
    pub interval: Interval,
    pub value: ScalarValue,
}

/// A tuple of a relation over an interval.
#[derive(Debug)]
pub struct RelationRecord {
    pub name: String,
    pub tuple: Vec<String>,
    pub interval: Interval,
}

/// The facts that a program is evaluated on.
#[derive(Debug)]
pub struct DataSet {
    pub inputs: Vec<InputRecord>,
    pub relations: Vec<RelationRecord>,
}

/// The model of a [`DataSet`].
pub ghost struct DataView {
    pub inputs: Seq<InputRecord>,
    pub relations: Seq<RelationRecord>,
}

impl DataSet {
    pub open spec fn view(&self) -> DataView {
        DataView { inputs: self.inputs@, relations: self.relations@ }
    }

    /// No facts.
    pub fn new() -> (r: DataSet)
        ensures
            r.inputs@ == Seq::<InputRecord>::empty(),
            r.relations@ == Seq::<RelationRecord>::empty(),
    {
        DataSet { inputs: Vec::new(), relations: Vec::new() }
    }

    pub fn add_input(
        &mut self,
        name: &str,
        entity: &str,
        entity_id: &str,
        interval: Interval,
        value: ScalarValue,
    )
        ensures
            final(self).relations == old(self).relations,
            final(self).inputs@.len() == old(self).inputs@.len() + 1,
            final(self).inputs@.drop_last() == old(self).inputs@,
            ({
                let last = final(self).inputs@.last();
                &&& last.name@ == name@
                &&& last.entity@ == entity@
                &&& last.entity_id@ == entity_id@
                &&& last.interval == interval
                &&& last.value == value
            }),
    {
        self.inputs.push(
            InputRecord {
                name: owned(name),
                entity: owned(entity),
                entity_id: owned(entity_id),
                interval,
                value,
            },
        );
        assert(self.inputs@.drop_last() =~= old(self).inputs@);
    }

    pub fn add_relation(&mut self, name: &str, tuple: Vec<String>, interval: Interval)
        ensures
            final(self).inputs == old(self).inputs,
            final(self).relations@.len() == old(self).relations@.len() + 1,
            final(self).relations@.drop_last() == old(self).relations@,
            ({
                let last = final(self).relations@.last();
                &&& last.name@ == name@
                &&& last.tuple == tuple
                &&& last.interval == interval
            }),
    {
        self.relations.push(RelationRecord { name: owned(name), tuple, interval });
        assert(self.relations@.drop_last() =~= old(self).relations@);
    }
}

/// January 1 of a year.
pub fn year_start(year: i32) -> (r: Date)
    requires
        valid_ymd(year as int, 1, 1),
    ensures
        r == Date::of_number(day_number(year as int, 1, 1)),
{
    match Date::from_ymd(year, 1, 1) {
        Some(date) => date,
        None => {
            proof {
                assert(false);
            }
            Date::epoch()
        },
    }
}

/// The calendar year in which a period starts.
pub fn year_of(period: &Period) -> (r: i32)
    ensures
        r == civil(period.start.number()).0,
{
    period.start.year()
}

} // verus!
