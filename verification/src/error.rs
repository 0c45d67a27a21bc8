//! Evaluation errors and their models.
use crate::date::Date;
use crate::decimal::{decimal_difference, decimal_product, decimal_quotient, decimal_sum, Decimal};
use vstd::prelude::*;

verus! {

/// Why an evaluation fails.
#[derive(Debug)]
pub enum EvalError {
    UnknownDerived(String),
    UnknownParameter(String),
    UnknownRelation(String),
    MissingInput { name: String, entity_id: String, period_start: Date, period_end: Date },
    AmbiguousInput { name: String, entity_id: String, effective_from: Date },
    UnknownUnit(String),
    TypeMismatch(String),
    MissingParameterValue { parameter: String, key: i64, at: Date },
    MissingDerivedFormulaVersion { derived: String, at: Date },
    ExpectedJudgment(String),
    ExpectedScalar(String),
    DivisionByZero,
    /// A result outside the range of decimal numbers.
    ArithmeticOverflow,
    /// A `match` without `_` whose subject equals none of its arms.
    NoMatchingArm { rule: String, subject: String, value: String, patterns: String },
    OverPeriodsOutsideLifetime(&'static str),
    LifetimePeriodBatchMismatch { periods: usize, batches: usize },
    LifetimeNoPeriods,
    LifetimeRowCountMismatch { period: usize, row_count: usize, expected: usize },
    LifetimeOutputWithoutReduction(String),
    LifetimeAmbiguousLeaf(String),
    LifetimePeriodVaryingInput {
        input: String,
        first_period: String,
        first_value: String,
        second_period: String,
        second_value: String,
    },
    LifetimePeriodsNotAscending {
        earlier_index: usize,
        earlier: String,
        later_index: usize,
        later: String,
    },
    OverPeriodsTopNOutOfRange { reduction: &'static str, n: String, period_count: usize },
    OverPeriodsTopNPeriodVarying {
        reduction: &'static str,
        first_period: String,
        first_value: String,
        second_period: String,
        second_value: String,
    },
}

/// The model of an [`EvalError`].
pub ghost enum ErrorView {
    UnknownDerived(Seq<char>),
    UnknownParameter(Seq<char>),
    UnknownRelation(Seq<char>),
    MissingInput { name: Seq<char>, entity_id: Seq<char>, period_start: Date, period_end: Date },
    AmbiguousInput { name: Seq<char>, entity_id: Seq<char>, effective_from: Date },
    UnknownUnit(Seq<char>),
    TypeMismatch(Seq<char>),
    MissingParameterValue { parameter: Seq<char>, key: i64, at: Date },
    MissingDerivedFormulaVersion { derived: Seq<char>, at: Date },
    ExpectedJudgment(Seq<char>),
    ExpectedScalar(Seq<char>),
    DivisionByZero,
    ArithmeticOverflow,
    NoMatchingArm { rule: Seq<char>, subject: Seq<char>, value: Seq<char>, patterns: Seq<char> },
    OverPeriodsOutsideLifetime(Seq<char>),
    LifetimePeriodBatchMismatch { periods: nat, batches: nat },
    LifetimeNoPeriods,
    LifetimeRowCountMismatch { period: nat, row_count: nat, expected: nat },
    LifetimeOutputWithoutReduction(Seq<char>),
    LifetimeAmbiguousLeaf(Seq<char>),
    LifetimePeriodVaryingInput {
        input: Seq<char>,
        first_period: Seq<char>,
        first_value: Seq<char>,
        second_period: Seq<char>,
        second_value: Seq<char>,
    },
    LifetimePeriodsNotAscending {
        earlier_index: nat,
        earlier: Seq<char>,
        later_index: nat,
        later: Seq<char>,
    },
    OverPeriodsTopNOutOfRange { reduction: Seq<char>, n: Seq<char>, period_count: nat },
    OverPeriodsTopNPeriodVarying {
        reduction: Seq<char>,
        first_period: Seq<char>,
        first_value: Seq<char>,
        second_period: Seq<char>,
        second_value: Seq<char>,
    },
}

impl ErrorView {
    /// The error as it leaves `rule`: a failed `match` that names no rule yet
    /// names this one.
    pub open spec fn within(self, rule: Seq<char>) -> ErrorView {
        match self {
            ErrorView::NoMatchingArm { rule: named, subject, value, patterns } if named.len()
                == 0 => ErrorView::NoMatchingArm { rule, subject, value, patterns },
            _ => self,
        }
    }
}

impl EvalError {
    pub open spec fn view(&self) -> ErrorView {
        match self {
            EvalError::UnknownDerived(s) => ErrorView::UnknownDerived(s@),
            EvalError::UnknownParameter(s) => ErrorView::UnknownParameter(s@),
            EvalError::UnknownRelation(s) => ErrorView::UnknownRelation(s@),
            EvalError::MissingInput { name, entity_id, period_start, period_end } => {
                ErrorView::MissingInput {
                    name: name@,
                    entity_id: entity_id@,
                    period_start: *period_start,
                    period_end: *period_end,
                }
            },
            EvalError::AmbiguousInput { name, entity_id, effective_from } => {
                ErrorView::AmbiguousInput {
                    name: name@,
                    entity_id: entity_id@,
                    effective_from: *effective_from,
                }
            },
            EvalError::UnknownUnit(s) => ErrorView::UnknownUnit(s@),
            EvalError::TypeMismatch(s) => ErrorView::TypeMismatch(s@),
            EvalError::MissingParameterValue { parameter, key, at } => {
                ErrorView::MissingParameterValue { parameter: parameter@, key: *key, at: *at }
            },
            EvalError::MissingDerivedFormulaVersion { derived, at } => {
                ErrorView::MissingDerivedFormulaVersion { derived: derived@, at: *at }
            },
            EvalError::ExpectedJudgment(s) => ErrorView::ExpectedJudgment(s@),
            EvalError::ExpectedScalar(s) => ErrorView::ExpectedScalar(s@),
            EvalError::DivisionByZero => ErrorView::DivisionByZero,
            EvalError::ArithmeticOverflow => ErrorView::ArithmeticOverflow,
            EvalError::NoMatchingArm { rule, subject, value, patterns } => {
                ErrorView::NoMatchingArm {
                    rule: rule@,
                    subject: subject@,
                    value: value@,
                    patterns: patterns@,
                }
            },
            EvalError::OverPeriodsOutsideLifetime(s) => ErrorView::OverPeriodsOutsideLifetime(s@),
            EvalError::LifetimePeriodBatchMismatch { periods, batches } => {
                ErrorView::LifetimePeriodBatchMismatch {
                    periods: *periods as nat,
                    batches: *batches as nat,
                }
            },
            EvalError::LifetimeNoPeriods => ErrorView::LifetimeNoPeriods,
            EvalError::LifetimeRowCountMismatch { period, row_count, expected } => {
                ErrorView::LifetimeRowCountMismatch {
                    period: *period as nat,
                    row_count: *row_count as nat,
                    expected: *expected as nat,
                }
            },
            EvalError::LifetimeOutputWithoutReduction(s) => {
                ErrorView::LifetimeOutputWithoutReduction(s@)
            },
            EvalError::LifetimeAmbiguousLeaf(s) => ErrorView::LifetimeAmbiguousLeaf(s@),
            EvalError::LifetimePeriodVaryingInput {
                input,
                first_period,
                first_value,
                second_period,
                second_value,
            } => {
                ErrorView::LifetimePeriodVaryingInput {
                    input: input@,
                    first_period: first_period@,
                    first_value: first_value@,
                    second_period: second_period@,
                    second_value: second_value@,
                }
            },
            EvalError::LifetimePeriodsNotAscending {
                earlier_index,
                earlier,
                later_index,
                later,
            } => {
                ErrorView::LifetimePeriodsNotAscending {
                    earlier_index: *earlier_index as nat,
                    earlier: earlier@,
                    later_index: *later_index as nat,
                    later: later@,
                }
            },
            EvalError::OverPeriodsTopNOutOfRange { reduction, n, period_count } => {
                ErrorView::OverPeriodsTopNOutOfRange {
                    reduction: reduction@,
                    n: n@,
                    period_count: *period_count as nat,
                }
            },
            EvalError::OverPeriodsTopNPeriodVarying {
                reduction,
                first_period,
                first_value,
                second_period,
                second_value,
            } => {
                ErrorView::OverPeriodsTopNPeriodVarying {
                    reduction: reduction@,
                    first_period: first_period@,
                    first_value: first_value@,
                    second_period: second_period@,
                    second_value: second_value@,
                }
            },
        }
    }

    pub fn duplicate(&self) -> (r: EvalError)
        ensures
            r@ == self@,
    {
        match self {
            EvalError::UnknownDerived(s) => EvalError::UnknownDerived(s.clone()),
            EvalError::UnknownParameter(s) => EvalError::UnknownParameter(s.clone()),
            EvalError::UnknownRelation(s) => EvalError::UnknownRelation(s.clone()),
            EvalError::MissingInput { name, entity_id, period_start, period_end } => {
                EvalError::MissingInput {
                    name: name.clone(),
                    entity_id: entity_id.clone(),
                    period_start: *period_start,
                    period_end: *period_end,
                }
            },
            EvalError::AmbiguousInput { name, entity_id, effective_from } => {
                EvalError::AmbiguousInput {
                    name: name.clone(),
                    entity_id: entity_id.clone(),
                    effective_from: *effective_from,
                }
            },
            EvalError::UnknownUnit(s) => EvalError::UnknownUnit(s.clone()),
            EvalError::TypeMismatch(s) => EvalError::TypeMismatch(s.clone()),
            EvalError::MissingParameterValue { parameter, key, at } => {
                EvalError::MissingParameterValue {
                    parameter: parameter.clone(),
                    key: *key,
                    at: *at,
                }
            },
            EvalError::MissingDerivedFormulaVersion { derived, at } => {
                EvalError::MissingDerivedFormulaVersion { derived: derived.clone(), at: *at }
            },
            EvalError::ExpectedJudgment(s) => EvalError::ExpectedJudgment(s.clone()),
            EvalError::ExpectedScalar(s) => EvalError::ExpectedScalar(s.clone()),
            EvalError::DivisionByZero => EvalError::DivisionByZero,
            EvalError::ArithmeticOverflow => EvalError::ArithmeticOverflow,
            EvalError::NoMatchingArm { rule, subject, value, patterns } => {
                EvalError::NoMatchingArm {
                    rule: rule.clone(),
                    subject: subject.clone(),
                    value: value.clone(),
                    patterns: patterns.clone(),
                }
            },
            EvalError::OverPeriodsOutsideLifetime(s) => EvalError::OverPeriodsOutsideLifetime(s),
            EvalError::LifetimePeriodBatchMismatch { periods, batches } => {
                EvalError::LifetimePeriodBatchMismatch { periods: *periods, batches: *batches }
            },
            EvalError::LifetimeNoPeriods => EvalError::LifetimeNoPeriods,
            EvalError::LifetimeRowCountMismatch { period, row_count, expected } => {
                EvalError::LifetimeRowCountMismatch {
                    period: *period,
                    row_count: *row_count,
                    expected: *expected,
                }
            },
            EvalError::LifetimeOutputWithoutReduction(s) => {
                EvalError::LifetimeOutputWithoutReduction(s.clone())
            },
            EvalError::LifetimeAmbiguousLeaf(s) => EvalError::LifetimeAmbiguousLeaf(s.clone()),
            EvalError::LifetimePeriodVaryingInput {
                input,
                first_period,
                first_value,
                second_period,
                second_value,
            } => {
                EvalError::LifetimePeriodVaryingInput {
                    input: input.clone(),
                    first_period: first_period.clone(),
                    first_value: first_value.clone(),
                    second_period: second_period.clone(),
                    second_value: second_value.clone(),
                }
            },
            EvalError::LifetimePeriodsNotAscending {
                earlier_index,
                earlier,
                later_index,
                later,
            } => {
                EvalError::LifetimePeriodsNotAscending {
                    earlier_index: *earlier_index,
                    earlier: earlier.clone(),
                    later_index: *later_index,
                    later: later.clone(),
                }
            },
            EvalError::OverPeriodsTopNOutOfRange { reduction, n, period_count } => {
                EvalError::OverPeriodsTopNOutOfRange {
                    reduction,
                    n: n.clone(),
                    period_count: *period_count,
                }
            },
            EvalError::OverPeriodsTopNPeriodVarying {
                reduction,
                first_period,
                first_value,
                second_period,
                second_value,
            } => {
                EvalError::OverPeriodsTopNPeriodVarying {
                    reduction,
                    first_period: first_period.clone(),
                    first_value: first_value.clone(),
                    second_period: second_period.clone(),
                    second_value: second_value.clone(),
                }
            },
        }
    }

    /// The error as it leaves `rule`.
    pub fn within_rule(self, name: &str) -> (r: EvalError)
        ensures
            r@ == self@.within(name@),
    {
        match self {
            EvalError::NoMatchingArm { rule, subject, value, patterns } => {
                if rule.as_str().is_empty() {
                    EvalError::NoMatchingArm {
                        rule: crate::text::owned(name),
                        subject,
                        value,
                        patterns,
                    }
                } else {
                    EvalError::NoMatchingArm { rule, subject, value, patterns }
                }
            },
            other => other,
        }
    }
}

/// A result with the model of its error.
pub open spec fn outcome<T>(r: Result<T, EvalError>) -> Result<T, ErrorView> {
    match r {
        Ok(value) => Ok(value),
        Err(error) => Err(error@),
    }
}

/// The result of an arithmetic operation that may overflow.
pub open spec fn in_range(value: Option<Decimal>) -> Result<Decimal, ErrorView> {
    match value {
        Some(value) => Ok(value),
        None => Err(ErrorView::ArithmeticOverflow),
    }
}

/// The quotient; a zero divisor is an error of its own.
pub open spec fn divided(a: Decimal, b: Decimal) -> Result<Decimal, ErrorView> {
    if b.magnitude() == 0 {
        Err(ErrorView::DivisionByZero)
    } else {
        in_range(decimal_quotient(a, b))
    }
}

/// The sum, or an overflow error. It is exact where its digits fit.
pub fn checked_add(a: Decimal, b: Decimal) -> (r: Result<Decimal, EvalError>)
    ensures
        outcome(r) == in_range(decimal_sum(a, b)),
        a.keeps_total(b, a.total(b)) ==> (r matches Ok(x) && x.has_value(
            a.total(b),
            a.finer_places(b),
        )),
{
    match a.checked_add(&b) {
        Some(value) => Ok(value),
        None => Err(EvalError::ArithmeticOverflow),
    }
}

/// The difference, or an overflow error. It is exact where its digits fit.
pub fn checked_sub(a: Decimal, b: Decimal) -> (r: Result<Decimal, EvalError>)
    ensures
        outcome(r) == in_range(decimal_difference(a, b)),
        a.keeps_total(b, a.gap(b)) ==> (r matches Ok(x) && x.has_value(
            a.gap(b),
            a.finer_places(b),
        )),
{
    match a.checked_sub(&b) {
        Some(value) => Ok(value),
        None => Err(EvalError::ArithmeticOverflow),
    }
}

/// The product, or an overflow error. It is exact where its digits fit.
pub fn checked_mul(a: Decimal, b: Decimal) -> (r: Result<Decimal, EvalError>)
    ensures
        outcome(r) == in_range(decimal_product(a, b)),
        a.keeps_product(b) ==> (r matches Ok(x) && x.has_value(
            a.mantissa() * b.mantissa(),
            a.places() + b.places(),
        )),
{
    match a.checked_mul(&b) {
        Some(value) => Ok(value),
        None => Err(EvalError::ArithmeticOverflow),
    }
}

/// The quotient, or an error for a zero divisor or an overflow.
pub fn checked_div(a: Decimal, b: Decimal) -> (r: Result<Decimal, EvalError>)
    ensures
        outcome(r) == divided(a, b),
{
    if b.is_zero() {
        return Err(EvalError::DivisionByZero);
    }
    match a.checked_div(&b) {
        Some(value) => Ok(value),
        None => Err(EvalError::ArithmeticOverflow),
    }
}

} // verus!
