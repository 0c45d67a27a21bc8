//! Bounded requests to lifetime execution.
//!
//! Rows are aligned by position, as the caller declares them. A request supplies every
//! period and every input itself: nothing is filled in.
use crate::batch::{
    outputs_are, request_failure, requested_rule, DenseBatchSpec, DenseExecutionResult,
    DenseOutputValue, NamedColumn,
};
use crate::catalog::{catalog_of, catalog_offers, contains_char, derived_named, holds, input_named, offers, slot_pairs, CatalogEntry};
use crate::column::{ColumnKind, DenseColumn};
use crate::compile::{
    rounding_fault, validate_rounding, CompileError, CompileErrorView, CompiledProgramArtifact,
    ARTIFACT_FORMAT_VERSION,
};
use crate::compiler::{
    compile_fault, compiled_programs_hold_what_is_read, stands_for, DenseCompileError,
};
use crate::date::Date;
use crate::decimal::{exact_decimal, Decimal};
use crate::dense::{column_view, ColumnView, DenseCompiledProgram, RelationKeyView};
use crate::error::{ErrorView, EvalError};
use crate::format::{debug_text, quoted};
use crate::kinds::mixed_branches;
use crate::lowering::{DenseErrorView, CompileFacts};
use crate::model::{
    find_index, find_named, item_named, DType, Derived, JudgmentOutcome, Named, Period, PeriodKind,
    PeriodKindView, Program, ScalarValue,
};
use crate::reading::{is_compiled, reads_input, reads_relation};
use crate::reductions::{life_request_typed, life_request_work, lifetime_request, requested_life};
use crate::text::{int_text, opt_text, owned, same, texts, usize_text};
use vstd::prelude::*;
use vstd::string::*;

verus! {

/// Largest request in bytes.
pub const MAX_REQUEST_BYTES: usize = 16777216;

/// Largest artifact in bytes.
pub const MAX_ARTIFACT_BYTES: usize = 67108864;

pub const MAX_PERIODS: usize = 512;

pub const MAX_ROWS: usize = 100000;

pub const MAX_COLUMNS: usize = 256;

pub const MAX_CELLS: usize = 2000000;

/// Longest string in bytes.
pub const MAX_STRING_BYTES: usize = 4096;

/// The format of a request.
#[derive(Clone, Copy, Debug, PartialEq, Eq, Structural)]
pub enum LifetimeRequestSchema {
    V1,
}

/// The format of a response.
#[derive(Clone, Copy, Debug, PartialEq, Eq, Structural)]
pub enum LifetimeResponseSchema {
    V1,
}

/// The arithmetic of an execution.
#[derive(Clone, Copy, Debug, PartialEq, Eq, Structural)]
pub enum LifetimeArithmetic {
    Decimal,
}

/// A period of a request.
#[derive(Debug)]
pub enum LifetimePeriod {
    Month { start: Date, end: Date },
    BenefitWeek { start: Date, end: Date },
    TaxYear { start: Date, end: Date },
    Custom { name: String, start: Date, end: Date },
}

impl LifetimePeriod {
    pub open spec fn kind(self) -> PeriodKindView {
        match self {
            LifetimePeriod::Month { .. } => PeriodKindView::Month,
            LifetimePeriod::BenefitWeek { .. } => PeriodKindView::BenefitWeek,
            LifetimePeriod::TaxYear { .. } => PeriodKindView::TaxYear,
            LifetimePeriod::Custom { name, .. } => PeriodKindView::Custom(name@),
        }
    }

    pub open spec fn start_day(self) -> Date {
        match self {
            LifetimePeriod::Month { start, .. } => start,
            LifetimePeriod::BenefitWeek { start, .. } => start,
            LifetimePeriod::TaxYear { start, .. } => start,
            LifetimePeriod::Custom { start, .. } => start,
        }
    }

    pub open spec fn end_day(self) -> Date {
        match self {
            LifetimePeriod::Month { end, .. } => end,
            LifetimePeriod::BenefitWeek { end, .. } => end,
            LifetimePeriod::TaxYear { end, .. } => end,
            LifetimePeriod::Custom { end, .. } => end,
        }
    }

    /// Whether both are the same period.
    pub open spec fn is_period(self, other: LifetimePeriod) -> bool {
        &&& self.kind() == other.kind()
        &&& self.start_day() == other.start_day()
        &&& self.end_day() == other.end_day()
    }

    fn to_model(&self) -> (r: Period)
        ensures
            r.kind@ == self.kind(),
            r.start == self.start_day(),
            r.end == self.end_day(),
    {
        match self {
            LifetimePeriod::Month { start, end } => Period {
                kind: PeriodKind::Month,
                start: *start,
                end: *end,
            },
            LifetimePeriod::BenefitWeek { start, end } => Period {
                kind: PeriodKind::BenefitWeek,
                start: *start,
                end: *end,
            },
            LifetimePeriod::TaxYear { start, end } => Period {
                kind: PeriodKind::TaxYear,
                start: *start,
                end: *end,
            },
            LifetimePeriod::Custom { name, start, end } => Period {
                kind: PeriodKind::Custom(name.clone()),
                start: *start,
                end: *end,
            },
        }
    }

    pub fn duplicate(&self) -> (r: LifetimePeriod)
        ensures
            r == *self,
    {
        match self {
            LifetimePeriod::Month { start, end } => LifetimePeriod::Month {
                start: *start,
                end: *end,
            },
            LifetimePeriod::BenefitWeek { start, end } => LifetimePeriod::BenefitWeek {
                start: *start,
                end: *end,
            },
            LifetimePeriod::TaxYear { start, end } => LifetimePeriod::TaxYear {
                start: *start,
                end: *end,
            },
            LifetimePeriod::Custom { name, start, end } => LifetimePeriod::Custom {
                name: name.clone(),
                start: *start,
                end: *end,
            },
        }
    }
}

/// A column as requests and responses write it: decimals are text.
#[derive(Debug)]
pub enum LifetimeColumn {
    Bool { values: Vec<bool> },
    Integer { values: Vec<i64> },
    Decimal { values: Vec<String> },
    Text { values: Vec<String> },
    Date { values: Vec<Date> },
}

/// A column under the public name of its input.
#[derive(Debug)]
pub struct LifetimeInput {
    pub reference: String,
    /// Whether the part of the reference before `#` is a valid module.
    pub target_is_valid: bool,
    pub column: LifetimeColumn,
}

/// The rows of a period.
#[derive(Debug)]
pub struct LifetimeBatch {
    pub row_count: usize,
    pub entity_ids: Vec<String>,
    /// Columns, each input once, ascending by reference.
    pub inputs: Vec<LifetimeInput>,
}

#[derive(Debug)]
pub struct LifetimeExecutionRequest {
    pub schema: LifetimeRequestSchema,
    pub entity: String,
    pub arithmetic: LifetimeArithmetic,
    pub periods: Vec<LifetimePeriod>,
    pub batches: Vec<LifetimeBatch>,
    pub outputs: Vec<String>,
    pub output_period: LifetimePeriod,
}

/// Marks a column of judgments.
#[derive(Clone, Copy, Debug, PartialEq, Eq, Structural)]
pub enum JudgmentColumnKind {
    Judgment,
}

#[derive(Debug)]
pub enum LifetimeOutputColumn {
    Scalar(LifetimeColumn),
    Judgment { kind: JudgmentColumnKind, values: Vec<JudgmentOutcome> },
}

/// A requested rule with its values.
#[derive(Debug)]
pub struct LifetimeOutput {
    pub id: String,
    pub name: String,
    pub dtype: DType,
    pub unit: Option<String>,
    pub column: LifetimeOutputColumn,
}

#[derive(Debug)]
pub struct LifetimeExecutionResponse {
    pub schema: LifetimeResponseSchema,
    pub engine_version: String,
    pub artifact_format_version: u32,
    pub arithmetic: LifetimeArithmetic,
    pub entity: String,
    pub row_count: usize,
    pub entity_ids: Vec<String>,
    pub periods: Vec<LifetimePeriod>,
    pub reference_period: LifetimePeriod,
    pub output_period: LifetimePeriod,
    /// One per requested output, in the order of the request.
    pub outputs: Vec<LifetimeOutput>,
}

/// Why a lifetime request is refused.
#[derive(Debug)]
pub enum LifetimeApiError {
    Request { field: String, message: String },
    Unsupported(String),
    Output(String),
    /// The parser's own words.
    Json(String),
    Artifact(CompileError),
    Compile(DenseCompileError),
    /// The program declares what no program may.
    Spec(CompileError),
    Evaluation(EvalError),
}

/// The model of a [`LifetimeApiError`].
pub ghost enum ApiErrorView {
    Request { field: Seq<char>, message: Seq<char> },
    Unsupported(Seq<char>),
    Output(Seq<char>),
    Json(Seq<char>),
    Artifact(CompileErrorView),
    Compile(DenseErrorView),
    Spec(CompileErrorView),
    Evaluation(ErrorView),
}

impl LifetimeApiError {
    pub open spec fn view(&self) -> ApiErrorView {
        match self {
            LifetimeApiError::Request { field, message } => ApiErrorView::Request {
                field: field@,
                message: message@,
            },
            LifetimeApiError::Unsupported(what) => ApiErrorView::Unsupported(what@),
            LifetimeApiError::Output(what) => ApiErrorView::Output(what@),
            LifetimeApiError::Json(message) => ApiErrorView::Json(message@),
            LifetimeApiError::Artifact(error) => ApiErrorView::Artifact(error@),
            LifetimeApiError::Compile(error) => ApiErrorView::Compile(error@),
            LifetimeApiError::Spec(error) => ApiErrorView::Spec(error@),
            LifetimeApiError::Evaluation(error) => ApiErrorView::Evaluation(error@),
        }
    }

    pub fn invalid(field: &str, message: &str) -> (r: LifetimeApiError)
        ensures
            r@ == refused(field@, message@),
    {
        LifetimeApiError::Request { field: owned(field), message: owned(message) }
    }

    /// The category under which an error is reported.
    pub open spec fn category_name(&self) -> Seq<char> {
        match self {
            LifetimeApiError::Request { .. } => "invalid_request"@,
            LifetimeApiError::Unsupported(_) => "unsupported"@,
            LifetimeApiError::Compile(_) => "unsupported"@,
            LifetimeApiError::Json(_) => "invalid_request"@,
            LifetimeApiError::Artifact(_) => "artifact"@,
            LifetimeApiError::Spec(_) => "evaluation"@,
            LifetimeApiError::Output(_) => "evaluation"@,
            LifetimeApiError::Evaluation(_) => "evaluation"@,
        }
    }

    pub fn category(&self) -> (r: &'static str)
        ensures
            r@ == self.category_name(),
    {
        match self {
            LifetimeApiError::Request { .. } => "invalid_request",
            LifetimeApiError::Unsupported(_) => "unsupported",
            LifetimeApiError::Compile(_) => "unsupported",
            LifetimeApiError::Json(_) => "invalid_request",
            LifetimeApiError::Artifact(_) => "artifact",
            LifetimeApiError::Spec(_) => "evaluation",
            LifetimeApiError::Output(_) => "evaluation",
            LifetimeApiError::Evaluation(_) => "evaluation",
        }
    }
}

/// A refused field.
pub open spec fn refused(field: Seq<char>, message: Seq<char>) -> ApiErrorView {
    ApiErrorView::Request { field, message }
}

/// The length of a text in bytes.
pub open spec fn byte_length(s: Seq<char>) -> usize {
    vstd::utf8::encode_utf8(s).len() as usize
}

/// The fault of a string that is too long.
pub open spec fn string_fault(s: Seq<char>, field: Seq<char>) -> Option<ApiErrorView> {
    if byte_length(s) > MAX_STRING_BYTES {
        Some(refused(field, "string exceeds byte limit"@))
    } else {
        None
    }
}

pub fn check_string(value: &str, field: &str) -> (r: Result<(), LifetimeApiError>)
    ensures
        string_fault(value@, field@) == match r {
            Ok(_) => None,
            Err(error) => Some(error@),
        },
{
    if value.len() > MAX_STRING_BYTES {
        return Err(LifetimeApiError::invalid(field, "string exceeds byte limit"));
    }
    Ok(())
}

/// Admits a request: first the length of its text, then what the parser made of it. A text
/// that is too long need not be parsed.
pub fn parse_lifetime_request(
    source: &str,
    parsed: Result<LifetimeExecutionRequest, String>,
) -> (r: Result<LifetimeExecutionRequest, LifetimeApiError>)
    ensures
        if byte_length(source@) > MAX_REQUEST_BYTES {
            r matches Err(error) && error@ == refused("request"@, "request exceeds byte limit"@)
        } else {
            match parsed {
                Ok(request) => r == Ok::<LifetimeExecutionRequest, LifetimeApiError>(request),
                Err(message) => r matches Err(error) && error@ == ApiErrorView::Json(message@),
            }
        },
{
    if source.len() > MAX_REQUEST_BYTES {
        return Err(LifetimeApiError::invalid("request", "request exceeds byte limit"));
    }
    match parsed {
        Ok(request) => Ok(request),
        Err(message) => Err(LifetimeApiError::Json(message)),
    }
}

/// What the parser made of the text of an artifact.
#[derive(Debug)]
pub enum ArtifactReading {
    /// It is no JSON, or an object in it repeats a key.
    NotUnique(String),
    /// It is JSON, but no artifact.
    Unread(String),
    Read(CompiledProgramArtifact),
}

/// The fault of an artifact of a later format.
pub open spec fn later_format(found: u32) -> ApiErrorView {
    ApiErrorView::Artifact(
        CompileErrorView::UnsupportedArtifactFormatVersion {
            path: "<memory>"@,
            found,
            supported: ARTIFACT_FORMAT_VERSION,
        },
    )
}

/// Admits an artifact: first the length of its text, then that no object in it repeats a key,
/// then its parse, and last its format. A text that is too long need not be parsed.
pub fn parse_lifetime_artifact(source: &str, reading: ArtifactReading) -> (r: Result<
    CompiledProgramArtifact,
    LifetimeApiError,
>)
    ensures
        if byte_length(source@) > MAX_ARTIFACT_BYTES {
            r matches Err(error) && error@ == refused("artifact"@, "artifact exceeds byte limit"@)
        } else {
            match reading {
                ArtifactReading::NotUnique(message) => r matches Err(error) && error@
                    == ApiErrorView::Json(message@),
                ArtifactReading::Unread(message) => r matches Err(error) && error@
                    == ApiErrorView::Artifact(
                    CompileErrorView::DeserializeArtifact {
                        path: "<memory>"@,
                        error: message@,
                    },
                ),
                ArtifactReading::Read(artifact) => if artifact.artifact_format_version
                    > ARTIFACT_FORMAT_VERSION {
                    r matches Err(error) && error@ == later_format(
                        artifact.artifact_format_version,
                    )
                } else {
                    r == Ok::<CompiledProgramArtifact, LifetimeApiError>(artifact)
                },
            }
        },
{
    if source.len() > MAX_ARTIFACT_BYTES {
        return Err(LifetimeApiError::invalid("artifact", "artifact exceeds byte limit"));
    }
    match reading {
        ArtifactReading::NotUnique(message) => Err(LifetimeApiError::Json(message)),
        ArtifactReading::Unread(message) => Err(
            LifetimeApiError::Artifact(
                CompileError::DeserializeArtifact { path: owned("<memory>"), error: message },
            ),
        ),
        ArtifactReading::Read(artifact) => match artifact.check_format_version("<memory>") {
            Ok(artifact) => Ok(artifact),
            Err(error) => Err(LifetimeApiError::Artifact(error)),
        },
    }
}

impl LifetimeColumn {
    pub open spec fn rows(self) -> nat {
        match self {
            LifetimeColumn::Bool { values } => values@.len(),
            LifetimeColumn::Integer { values } => values@.len(),
            LifetimeColumn::Decimal { values } => values@.len(),
            LifetimeColumn::Text { values } => values@.len(),
            LifetimeColumn::Date { values } => values@.len(),
        }
    }

    pub fn len(&self) -> (r: usize)
        ensures
            r == self.rows(),
    {
        match self {
            LifetimeColumn::Bool { values } => values.len(),
            LifetimeColumn::Integer { values } => values.len(),
            LifetimeColumn::Decimal { values } => values.len(),
            LifetimeColumn::Text { values } => values.len(),
            LifetimeColumn::Date { values } => values.len(),
        }
    }

    /// The column that is evaluated, or the fault of its first wrong value: a text that
    /// is too long, or a decimal that is not exactly representable.
    pub open spec fn dense(self, field: Seq<char>) -> Result<ColumnView, ApiErrorView> {
        match self {
            LifetimeColumn::Bool { values } => Ok(
                ColumnView {
                    dtype: ColumnKind::Bool,
                    cells: values@.map_values(|v: bool| ScalarValue::Bool(v)),
                },
            ),
            LifetimeColumn::Integer { values } => Ok(
                ColumnView {
                    dtype: ColumnKind::Integer,
                    cells: values@.map_values(
                        |v: i64| ScalarValue::Decimal(Decimal::of_int(v as int)),
                    ),
                },
            ),
            LifetimeColumn::Decimal { values } => match decimals_read(
                values@,
                field,
                values@.len(),
            ) {
                Ok(numbers) => Ok(
                    ColumnView {
                        dtype: ColumnKind::Decimal,
                        cells: numbers.map_values(|d: Decimal| ScalarValue::Decimal(d)),
                    },
                ),
                Err(error) => Err(error),
            },
            LifetimeColumn::Text { values } => match strings_fault(values@, field, values@.len()) {
                None => Ok(
                    ColumnView {
                        dtype: ColumnKind::Text,
                        cells: values@.map_values(|v: String| ScalarValue::Text(v)),
                    },
                ),
                Some(error) => Err(error),
            },
            LifetimeColumn::Date { values } => Ok(
                ColumnView {
                    dtype: ColumnKind::Date,
                    cells: values@.map_values(|v: Date| ScalarValue::Date(v)),
                },
            ),
        }
    }

    fn to_dense(&self, field: &str) -> (r: Result<DenseColumn, LifetimeApiError>)
        ensures
            match r {
                Ok(column) => self.dense(field@) == Ok::<ColumnView, ApiErrorView>(
                    column_view(column),
                ) && column.rows() == self.rows(),
                Err(error) => self.dense(field@) == Err::<ColumnView, ApiErrorView>(error@),
            },
    {
        match self {
            LifetimeColumn::Bool { values } => {
                let column = DenseColumn::Bool(crate::column::copied(values));
                assert(column_view(column).cells =~= values@.map_values(
                    |v: bool| ScalarValue::Bool(v),
                ));
                Ok(column)
            },
            LifetimeColumn::Integer { values } => {
                let column = DenseColumn::Integer(crate::column::copied(values));
                assert(column_view(column).cells =~= values@.map_values(
                    |v: i64| ScalarValue::Decimal(Decimal::of_int(v as int)),
                ));
                Ok(column)
            },
            LifetimeColumn::Decimal { values } => {
                let mut numbers: Vec<Decimal> = Vec::new();
                let mut row: usize = 0;
                assert(numbers@ =~= Seq::empty());
                while row < values.len()
                    invariant
                        row <= values@.len(),
                        numbers@.len() == row,
                        decimals_read(values@, field@, row as nat) == Ok::<
                            Seq<Decimal>,
                            ApiErrorView,
                        >(numbers@),
                        *self matches LifetimeColumn::Decimal { values: v } && v == *values,
                    decreases values@.len() - row,
                {
                    let text = values[row].as_str();
                    match check_string(text, field) {
                        Ok(()) => {},
                        Err(error) => {
                            proof {
                                decimals_read_kept(
                                    values@,
                                    field@,
                                    (row + 1) as nat,
                                    values@.len(),
                                );
                            }
                            return Err(error);
                        },
                    }
                    match Decimal::from_text(text) {
                        Some(number) => numbers.push(number),
                        None => {
                            let mut message = owned("row ");
                            message.append(usize_text(row).as_str());
                            message.append(" is not an exactly representable decimal");
                            proof {
                                decimals_read_kept(
                                    values@,
                                    field@,
                                    (row + 1) as nat,
                                    values@.len(),
                                );
                            }
                            return Err(
                                LifetimeApiError::Request { field: owned(field), message },
                            );
                        },
                    }
                    row = row + 1;
                }
                let column = DenseColumn::Decimal(numbers);
                assert(column_view(column).cells =~= numbers@.map_values(
                    |d: Decimal| ScalarValue::Decimal(d),
                ));
                Ok(column)
            },
            LifetimeColumn::Text { values } => {
                let mut row: usize = 0;
                while row < values.len()
                    invariant
                        row <= values@.len(),
                        strings_fault(values@, field@, row as nat) is None,
                        *self matches LifetimeColumn::Text { values: v } && v == *values,
                    decreases values@.len() - row,
                {
                    match check_string(values[row].as_str(), field) {
                        Ok(()) => {},
                        Err(error) => {
                            proof {
                                strings_fault_kept(
                                    values@,
                                    field@,
                                    (row + 1) as nat,
                                    values@.len(),
                                );
                            }
                            return Err(error);
                        },
                    }
                    row = row + 1;
                }
                let column = DenseColumn::Text(crate::column::copied_texts(values));
                assert(column_view(column).cells =~= values@.map_values(
                    |v: String| ScalarValue::Text(v),
                ));
                Ok(column)
            },
            LifetimeColumn::Date { values } => {
                let column = DenseColumn::Date(crate::column::copied(values));
                assert(column_view(column).cells =~= values@.map_values(
                    |v: Date| ScalarValue::Date(v),
                ));
                Ok(column)
            },
        }
    }
}

/// The numbers of the first `n` texts, or the first fault.
pub open spec fn decimals_read(values: Seq<String>, field: Seq<char>, n: nat) -> Result<
    Seq<Decimal>,
    ApiErrorView,
>
    decreases n,
{
    if n == 0 || n > values.len() {
        Ok(Seq::empty())
    } else {
        match decimals_read(values, field, (n - 1) as nat) {
            Err(error) => Err(error),
            Ok(numbers) => match string_fault(values[n - 1]@, field) {
                Some(error) => Err(error),
                None => match exact_decimal(values[n - 1]@) {
                    Some(number) => Ok(numbers.push(number)),
                    None => Err(
                        refused(
                            field,
                            "row "@ + int_text(n - 1) + " is not an exactly representable decimal"@,
                        ),
                    ),
                },
            },
        }
    }
}

proof fn decimals_read_kept(values: Seq<String>, field: Seq<char>, m: nat, n: nat)
    requires
        m <= n <= values.len(),
        decimals_read(values, field, m) is Err,
    ensures
        decimals_read(values, field, n) == decimals_read(values, field, m),
    decreases n,
{
    if m < n {
        decimals_read_kept(values, field, m, (n - 1) as nat);
    }
}

/// The fault of the first of the first `n` texts that is too long.
pub open spec fn strings_fault(values: Seq<String>, field: Seq<char>, n: nat) -> Option<
    ApiErrorView,
>
    decreases n,
{
    if n == 0 || n > values.len() {
        None
    } else {
        match strings_fault(values, field, (n - 1) as nat) {
            Some(error) => Some(error),
            None => string_fault(values[n - 1]@, field),
        }
    }
}

proof fn strings_fault_kept(values: Seq<String>, field: Seq<char>, m: nat, n: nat)
    requires
        m <= n <= values.len(),
        strings_fault(values, field, m) is Some,
    ensures
        strings_fault(values, field, n) == strings_fault(values, field, m),
    decreases n,
{
    if m < n {
        strings_fault_kept(values, field, m, (n - 1) as nat);
    }
}

/// How a period of a request is named.
pub open spec fn period_field(i: int) -> Seq<char> {
    "periods["@ + int_text(i) + "]"@
}

/// The fault of a period: a custom name that is too long or empty, an end before the
/// start, another kind than the first period, or an overlap with the one before.
pub open spec fn period_fault(periods: Seq<LifetimePeriod>, i: int) -> Option<ApiErrorView> {
    let period = periods[i];
    let name_fault = match period {
        LifetimePeriod::Custom { name, .. } => match string_fault(name@, "periods.name"@) {
            Some(error) => Some(error),
            None => if name@.len() == 0 {
                Some(refused("periods.name"@, "custom period name must not be empty"@))
            } else {
                None
            },
        },
        _ => None,
    };
    if name_fault is Some {
        name_fault
    } else if period.start_day().number() > period.end_day().number() {
        Some(refused(period_field(i), "start must not follow end"@))
    } else if i > 0 && (period.kind() != periods[0].kind() || period.start_day().number()
        <= periods[i - 1].end_day().number()) {
        Some(
            refused(
                period_field(i),
                "periods must have the same kind and be ascending without overlap"@,
            ),
        )
    } else {
        None
    }
}

/// The first fault of the first `n` periods.
pub open spec fn periods_fault(periods: Seq<LifetimePeriod>, n: nat) -> Option<ApiErrorView>
    decreases n,
{
    if n == 0 || n > periods.len() {
        None
    } else {
        match periods_fault(periods, (n - 1) as nat) {
            Some(error) => Some(error),
            None => period_fault(periods, n - 1),
        }
    }
}

proof fn periods_fault_kept(periods: Seq<LifetimePeriod>, m: nat, n: nat)
    requires
        m <= n <= periods.len(),
        periods_fault(periods, m) is Some,
    ensures
        periods_fault(periods, n) == periods_fault(periods, m),
    decreases n,
{
    if m < n {
        periods_fault_kept(periods, m, (n - 1) as nat);
    }
}

/// The first fault of a request that shows without the program.
pub open spec fn request_fault(request: LifetimeExecutionRequest) -> Option<ApiErrorView> {
    let periods = request.periods@;
    let entity_fault = string_fault(request.entity@, "entity"@);
    if entity_fault is Some {
        entity_fault
    } else if periods.len() == 0 || periods.len() > MAX_PERIODS {
        Some(refused("periods"@, "period count must be in 1..=512"@))
    } else if periods.len() != request.batches@.len() {
        Some(refused("batches"@, "one batch is required per period"@))
    } else if request.outputs@.len() == 0 || request.outputs@.len() > MAX_COLUMNS {
        Some(refused("outputs"@, "output count must be in 1..=256"@))
    } else if !periods.last().is_period(request.output_period) {
        Some(
            ApiErrorView::Unsupported(
                "output_period must equal the final supplied period; a separate determination period is not supported"@,
            ),
        )
    } else {
        periods_fault(periods, periods.len())
    }
}

/// Whether periods are those of a request.
pub open spec fn periods_are(periods: Seq<Period>, requested: Seq<LifetimePeriod>) -> bool {
    &&& periods.len() == requested.len()
    &&& forall|i: int| #![trigger periods[i]]
        0 <= i < periods.len() ==> periods[i].kind@ == requested[i].kind() && periods[i].start
            == requested[i].start_day() && periods[i].end == requested[i].end_day()
}

/// Checks what shows of a request without the program, and gives its periods.
pub fn check_request(request: &LifetimeExecutionRequest) -> (r: Result<
    Vec<Period>,
    LifetimeApiError,
>)
    ensures
        match r {
            Ok(periods) => request_fault(*request) is None && periods_are(
                periods@,
                request.periods@,
            ),
            Err(error) => request_fault(*request) == Some(error@),
        },
{
    match check_string(request.entity.as_str(), "entity") {
        Ok(()) => {},
        Err(error) => return Err(error),
    }
    let count = request.periods.len();
    if count == 0 || count > MAX_PERIODS {
        return Err(LifetimeApiError::invalid("periods", "period count must be in 1..=512"));
    }
    if count != request.batches.len() {
        return Err(LifetimeApiError::invalid("batches", "one batch is required per period"));
    }
    if request.outputs.len() == 0 || request.outputs.len() > MAX_COLUMNS {
        return Err(LifetimeApiError::invalid("outputs", "output count must be in 1..=256"));
    }
    let last = request.periods[count - 1].to_model();
    if !last.same_period(&request.output_period.to_model()) {
        return Err(
            LifetimeApiError::Unsupported(
                owned(
                    "output_period must equal the final supplied period; a separate determination period is not supported",
                ),
            ),
        );
    }
    let mut periods: Vec<Period> = Vec::new();
    let mut i: usize = 0;
    while i < count
        invariant
            i <= count,
            count == request.periods@.len(),
            periods@.len() == i,
            forall|j: int| #![trigger periods@[j]]
                0 <= j < i ==> periods@[j].kind@ == request.periods@[j].kind() && periods@[j].start
                    == request.periods@[j].start_day() && periods@[j].end
                    == request.periods@[j].end_day(),
            periods_fault(request.periods@, i as nat) is None,
            request_fault(*request) == periods_fault(request.periods@, request.periods@.len()),
        decreases count - i,
    {
        let period = request.periods[i].to_model();
        proof {
            if period_fault(request.periods@, i as int) is Some {
                periods_fault_kept(request.periods@, (i + 1) as nat, request.periods@.len());
            }
        }
        if let LifetimePeriod::Custom { name, .. } = &request.periods[i] {
            match check_string(name.as_str(), "periods.name") {
                Ok(()) => {},
                Err(error) => return Err(error),
            }
            if name.as_str().unicode_len() == 0 {
                return Err(
                    LifetimeApiError::invalid(
                        "periods.name",
                        "custom period name must not be empty",
                    ),
                );
            }
        }
        let mut field = owned("periods[");
        field.append(usize_text(i).as_str());
        field.append("]");
        if period.end.before(&period.start) {
            return Err(LifetimeApiError::invalid(field.as_str(), "start must not follow end"));
        }
        if i > 0 && (!period.kind.same_kind(&periods[0].kind) || period.start.up_to(
            &periods[i - 1].end,
        )) {
            return Err(
                LifetimeApiError::invalid(
                    field.as_str(),
                    "periods must have the same kind and be ascending without overlap",
                ),
            );
        }
        periods.push(period);
        i = i + 1;
    }
    Ok(periods)
}

/// The names of the rules that a compiled program has.
pub open spec fn rule_names(dense: DenseCompiledProgram) -> Set<Seq<char>> {
    Set::new(|name: Seq<char>| requested_rule(dense, name) is Some)
}

/// The names of the rules that are compiled for an entity.
pub open spec fn compiled_names(cx: CompileFacts) -> Set<Seq<char>> {
    Set::new(|name: Seq<char>| is_compiled(cx, name))
}

/// The rule that a requested output names: by its public name, among the compiled ones.
pub open spec fn output_rule(
    program: Program,
    compiled: Set<Seq<char>>,
    reference: Seq<char>,
) -> Option<Seq<char>> {
    match derived_named(program, reference) {
        None => None,
        Some(name) => match item_named(program.derived@, name) {
            Some(d) if compiled.contains(name) && opt_text(d.id) == Some(reference) => {
                Some(name)
            },
            _ => None,
        },
    }
}

/// The names of the first `n` requested outputs, or the first fault.
pub open spec fn output_rules(
    program: Program,
    compiled: Set<Seq<char>>,
    outputs: Seq<String>,
    n: nat,
) -> Result<Seq<Seq<char>>, ApiErrorView>
    decreases n,
{
    if n == 0 || n > outputs.len() {
        Ok(Seq::empty())
    } else {
        let reference = outputs[n - 1]@;
        match output_rules(program, compiled, outputs, (n - 1) as nat) {
            Err(error) => Err(error),
            Ok(names) => match string_fault(reference, "outputs"@) {
                Some(error) => Err(error),
                None => if !holds(reference, '#') {
                    Err(refused("outputs"@, "full durable public output IDs are required"@))
                } else {
                    match output_rule(program, compiled, reference) {
                        None => Err(
                            refused(
                                "outputs"@,
                                "unknown public output "@ + quoted(reference)
                                    + " for this entity"@,
                            ),
                        ),
                        Some(name) => if names.contains(name) {
                            Err(refused("outputs"@, "duplicate resolved output"@))
                        } else {
                            Ok(names.push(name))
                        },
                    }
                },
            },
        }
    }
}

proof fn output_rules_kept(
    program: Program,
    compiled: Set<Seq<char>>,
    outputs: Seq<String>,
    m: nat,
    n: nat,
)
    requires
        m <= n <= outputs.len(),
        output_rules(program, compiled, outputs, m) is Err,
    ensures
        output_rules(program, compiled, outputs, n) == output_rules(program, compiled, outputs, m),
    decreases n,
{
    if m < n {
        output_rules_kept(program, compiled, outputs, m, (n - 1) as nat);
    }
}

fn listed(names: &Vec<String>, name: &str) -> (r: bool)
    ensures
        r == texts(names@).contains(name@),
{
    let mut i: usize = 0;
    while i < names.len()
        invariant
            i <= names@.len(),
            forall|j: int| 0 <= j < i ==> (#[trigger] names@[j])@ != name@,
        decreases names@.len() - i,
    {
        if same(names[i].as_str(), name) {
            assert(texts(names@)[i as int] == name@);
            return true;
        }
        i = i + 1;
    }
    proof {
        if texts(names@).contains(name@) {
            let j = texts(names@).index_of(name@);
            assert(names@[j]@ == name@);
        }
    }
    false
}

/// The names of the requested outputs.
pub fn resolve_request_outputs(
    program: &Program,
    dense: &DenseCompiledProgram,
    outputs: &Vec<String>,
) -> (r: Result<Vec<String>, LifetimeApiError>)
    ensures
        match r {
            Ok(names) => output_rules(*program, rule_names(*dense), outputs@, outputs@.len()) == Ok::<
                Seq<Seq<char>>,
                ApiErrorView,
            >(texts(names@)),
            Err(error) => output_rules(*program, rule_names(*dense), outputs@, outputs@.len()) == Err::<
                Seq<Seq<char>>,
                ApiErrorView,
            >(error@),
        },
{
    let mut names: Vec<String> = Vec::new();
    let mut i: usize = 0;
    assert(texts(names@) =~= Seq::empty());
    while i < outputs.len()
        invariant
            i <= outputs@.len(),
            output_rules(*program, rule_names(*dense), outputs@, i as nat) == Ok::<
                Seq<Seq<char>>,
                ApiErrorView,
            >(texts(names@)),
        decreases outputs@.len() - i,
    {
        let reference = outputs[i].as_str();
        proof {
            if output_rules(*program, rule_names(*dense), outputs@, (i + 1) as nat) is Err {
                output_rules_kept(*program, rule_names(*dense), outputs@, (i + 1) as nat, outputs@.len());
            }
        }
        match check_string(reference, "outputs") {
            Ok(()) => {},
            Err(error) => return Err(error),
        }
        if !contains_char(reference, '#') {
            return Err(
                LifetimeApiError::invalid(
                    "outputs",
                    "full durable public output IDs are required",
                ),
            );
        }
        let found = match program.resolve_derived_name(reference) {
            None => None,
            Some(name) => match find_named(&program.derived, name.as_str()) {
                None => None,
                Some(derived) => {
                    let same_id = match &derived.id {
                        Some(id) => same(id.as_str(), reference),
                        None => false,
                    };
                    if same_id && find_index(&dense.derived, name.as_str()).is_some() {
                        Some(name)
                    } else {
                        None
                    }
                },
            },
        };
        let name = match found {
            Some(name) => name,
            None => {
                let mut message = owned("unknown public output ");
                message.append(debug_text(reference).as_str());
                message.append(" for this entity");
                return Err(LifetimeApiError::invalid("outputs", message.as_str()));
            },
        };
        if listed(&names, name.as_str()) {
            return Err(LifetimeApiError::invalid("outputs", "duplicate resolved output"));
        }
        let ghost before = names@;
        names.push(name);
        assert(texts(names@) =~= texts(before).push(name@));
        i = i + 1;
    }
    Ok(names)
}

/// How a batch of a request is named.
pub open spec fn batch_field(i: int) -> Seq<char> {
    "batches["@ + int_text(i) + "]"@
}

/// The first fault of the first `n` entity ids: each is a nonempty string of its own.
pub open spec fn ids_fault(ids: Seq<String>, field: Seq<char>, n: nat) -> Option<ApiErrorView>
    decreases n,
{
    if n == 0 || n > ids.len() {
        None
    } else {
        match ids_fault(ids, field, (n - 1) as nat) {
            Some(error) => Some(error),
            None => match string_fault(ids[n - 1]@, field) {
                Some(error) => Some(error),
                None => if ids[n - 1]@.len() == 0 || texts(ids).take(n - 1).contains(ids[n - 1]@) {
                    Some(refused(field, "entity_ids must be nonempty unique strings"@))
                } else {
                    None
                },
            },
        }
    }
}

proof fn ids_fault_kept(ids: Seq<String>, field: Seq<char>, m: nat, n: nat)
    requires
        m <= n <= ids.len(),
        ids_fault(ids, field, m) is Some,
    ensures
        ids_fault(ids, field, n) == ids_fault(ids, field, m),
    decreases n,
{
    if m < n {
        ids_fault_kept(ids, field, m, (n - 1) as nat);
    }
}

/// The fault of the rows of a batch.
pub open spec fn rows_fault(batch: LifetimeBatch, first: Seq<Seq<char>>, field: Seq<char>) -> Option<
    ApiErrorView,
> {
    if batch.row_count > MAX_ROWS || batch.entity_ids@.len() != batch.row_count {
        Some(refused(field, "row count exceeds limit or differs from entity_ids length"@))
    } else if texts(batch.entity_ids@) != first {
        Some(refused(field, "entity_ids must match the first batch exactly in order"@))
    } else {
        match ids_fault(batch.entity_ids@, field, batch.entity_ids@.len()) {
            Some(error) => Some(error),
            None => if batch.inputs@.len() > MAX_COLUMNS {
                Some(refused(field, "input column count exceeds limit"@))
            } else {
                None
            },
        }
    }
}

/// A program, the inputs that are read of it and its input catalog.
pub ghost struct InputFacts {
    pub program: Program,
    pub inputs: Set<Seq<char>>,
    pub catalog: Seq<CatalogEntry>,
}

/// The inputs that a compiled program has.
pub open spec fn input_names(dense: DenseCompiledProgram) -> Set<Seq<char>> {
    Set::new(|name: Seq<char>| texts(dense.root_inputs@).contains(name))
}

/// The inputs that the rules compiled for an entity read.
pub open spec fn read_names(cx: CompileFacts) -> Set<Seq<char>> {
    Set::new(|name: Seq<char>| reads_input(cx, name))
}

/// The input that a column is for: one that the compiled rules read, under a public
/// name that the catalog offers.
pub open spec fn input_slot(cx: InputFacts, input: LifetimeInput) -> Option<Seq<char>> {
    match input_named(cx.program, input.reference@, cx.catalog, input.target_is_valid) {
        Some(name) => if cx.inputs.contains(name) && offers(
            cx.catalog,
            name,
            input.reference@,
        ) {
            Some(name)
        } else {
            None
        },
        None => None,
    }
}

/// Names and columns, and the number of cells so far.
pub ghost struct ColumnsRead {
    pub cells: nat,
    pub names: Seq<Seq<char>>,
    pub columns: Seq<ColumnView>,
}

/// The first `n` columns of a batch, or the first fault.
pub open spec fn columns_read(
    cx: InputFacts,
    batch: LifetimeBatch,
    field: Seq<char>,
    cells: nat,
    n: nat,
) -> Result<ColumnsRead, ApiErrorView>
    decreases n,
{
    if n == 0 || n > batch.inputs@.len() {
        Ok(ColumnsRead { cells, names: Seq::empty(), columns: Seq::empty() })
    } else {
        let input = batch.inputs@[n - 1];
        let reference = input.reference@;
        match columns_read(cx, batch, field, cells, (n - 1) as nat) {
            Err(error) => Err(error),
            Ok(before) => match string_fault(reference, field) {
                Some(error) => Err(error),
                None => if !holds(reference, '#') {
                    Err(
                        refused(
                            field,
                            "unknown public input: full durable input IDs are required"@,
                        ),
                    )
                } else {
                    match input_slot(cx, input) {
                        None => Err(
                            refused(
                                field,
                                "unknown public input "@ + quoted(reference)
                                    + " for this entity"@,
                            ),
                        ),
                        Some(name) => if before.names.contains(name) {
                            Err(
                                refused(
                                    field,
                                    "multiple public input names resolve to the same slot"@,
                                ),
                            )
                        } else if input.column.rows() != batch.row_count {
                            Err(
                                refused(
                                    field,
                                    "input "@ + quoted(reference)
                                        + " length differs from row_count"@,
                                ),
                            )
                        } else if before.cells + input.column.rows() > MAX_CELLS {
                            Err(refused(field, "total supplied cell count exceeds limit"@))
                        } else {
                            match input.column.dense(
                                field + ".inputs["@ + quoted(reference) + "]"@,
                            ) {
                                Err(error) => Err(error),
                                Ok(column) => Ok(
                                    ColumnsRead {
                                        cells: before.cells + input.column.rows(),
                                        names: before.names.push(name),
                                        columns: before.columns.push(column),
                                    },
                                ),
                            }
                        },
                    }
                },
            },
        }
    }
}

proof fn columns_read_kept(
    cx: InputFacts,
    batch: LifetimeBatch,
    field: Seq<char>,
    cells: nat,
    m: nat,
    n: nat,
)
    requires
        m <= n <= batch.inputs@.len(),
        columns_read(cx, batch, field, cells, m) is Err,
    ensures
        columns_read(cx, batch, field, cells, n) == columns_read(cx, batch, field, cells, m),
    decreases n,
{
    if m < n {
        columns_read_kept(cx, batch, field, cells, m, (n - 1) as nat);
    }
}

/// One batch behind others with `cells` cells: its columns, or its first fault.
pub open spec fn batch_read(
    cx: InputFacts,
    batch: LifetimeBatch,
    first: Seq<Seq<char>>,
    i: int,
    cells: nat,
) -> Result<ColumnsRead, ApiErrorView> {
    match rows_fault(batch, first, batch_field(i)) {
        Some(error) => Err(error),
        None => match columns_read(
            cx,
            batch,
            batch_field(i),
            cells + batch.row_count as nat,
            batch.inputs@.len(),
        ) {
            Err(error) => Err(error),
            Ok(read) => if read.cells > MAX_CELLS {
                Err(refused(batch_field(i), "total supplied cell count exceeds limit"@))
            } else {
                Ok(read)
            },
        },
    }
}

/// The first `n` batches, or the first fault.
pub open spec fn batches_read(cx: InputFacts, batches: Seq<LifetimeBatch>, n: nat) -> Result<
    Seq<ColumnsRead>,
    ApiErrorView,
>
    decreases n,
{
    if n == 0 || n > batches.len() {
        Ok(Seq::empty())
    } else {
        match batches_read(cx, batches, (n - 1) as nat) {
            Err(error) => Err(error),
            Ok(before) => {
                let cells = if before.len() == 0 {
                    0
                } else {
                    before.last().cells
                };
                match batch_read(cx, batches[n - 1], texts(batches[0].entity_ids@), n - 1, cells) {
                    Err(error) => Err(error),
                    Ok(read) => Ok(before.push(read)),
                }
            },
        }
    }
}

proof fn batches_read_kept(cx: InputFacts, batches: Seq<LifetimeBatch>, m: nat, n: nat)
    requires
        m <= n <= batches.len(),
        batches_read(cx, batches, m) is Err,
    ensures
        batches_read(cx, batches, n) == batches_read(cx, batches, m),
    decreases n,
{
    if m < n {
        batches_read_kept(cx, batches, m, (n - 1) as nat);
    }
}

/// Whether a batch is evaluated with the columns that were read.
pub open spec fn batch_is(batch: DenseBatchSpec, row_count: usize, read: ColumnsRead) -> bool {
    &&& batch.row_count == row_count
    &&& row_count <= MAX_ROWS
    &&& batch.relations@.len() == 0
    &&& batch.inputs@.len() == read.names.len()
    &&& batch.inputs@.len() == read.columns.len()
    &&& forall|k: int| #![trigger batch.inputs@[k]]
        0 <= k < batch.inputs@.len() ==> batch.inputs@[k].name@ == read.names[k] && column_view(
            batch.inputs@[k].column,
        ) == read.columns[k]
}

pub open spec fn batches_are(
    batches: Seq<DenseBatchSpec>,
    requested: Seq<LifetimeBatch>,
    read: Seq<ColumnsRead>,
) -> bool {
    &&& batches.len() == requested.len()
    &&& batches.len() == read.len()
    &&& forall|i: int| #![trigger batches[i]]
        0 <= i < batches.len() ==> batch_is(batches[i], requested[i].row_count, read[i])
}

/// Checks the rows of a batch.
fn check_rows(batch: &LifetimeBatch, first: &Vec<String>, field: &str) -> (r: Result<
    (),
    LifetimeApiError,
>)
    ensures
        rows_fault(*batch, texts(first@), field@) == match r {
            Ok(_) => None,
            Err(error) => Some(error@),
        },
{
    let ids = &batch.entity_ids;
    if batch.row_count > MAX_ROWS || ids.len() != batch.row_count {
        return Err(
            LifetimeApiError::invalid(
                field,
                "row count exceeds limit or differs from entity_ids length",
            ),
        );
    }
    if !same_texts(ids, first) {
        return Err(
            LifetimeApiError::invalid(
                field,
                "entity_ids must match the first batch exactly in order",
            ),
        );
    }
    let mut i: usize = 0;
    while i < ids.len()
        invariant
            i <= ids@.len(),
            *ids == batch.entity_ids,
            batch.row_count <= MAX_ROWS,
            ids@.len() == batch.row_count,
            texts(ids@) == texts(first@),
            ids_fault(ids@, field@, i as nat) is None,
        decreases ids@.len() - i,
    {
        let id = ids[i].as_str();
        proof {
            if ids_fault(ids@, field@, (i + 1) as nat) is Some {
                ids_fault_kept(ids@, field@, (i + 1) as nat, ids@.len());
            }
        }
        match check_string(id, field) {
            Ok(()) => {},
            Err(error) => return Err(error),
        }
        let mut seen = false;
        let mut k: usize = 0;
        while k < i
            invariant
                k <= i < ids@.len(),
                id@ == ids@[i as int]@,
                seen == exists|j: int| 0 <= j < k && (#[trigger] ids@[j])@ == id@,
            decreases i - k,
        {
            if same(ids[k].as_str(), id) {
                assert(ids@[k as int]@ == id@);
                seen = true;
            }
            k = k + 1;
        }
        proof {
            let earlier = texts(ids@).take(i as int);
            if seen {
                let j = choose|j: int| 0 <= j < i && (#[trigger] ids@[j])@ == id@;
                assert(earlier[j] == id@);
            }
            if earlier.contains(id@) {
                let j = earlier.index_of(id@);
                assert(ids@[j]@ == id@);
            }
        }
        if id.unicode_len() == 0 || seen {
            return Err(
                LifetimeApiError::invalid(field, "entity_ids must be nonempty unique strings"),
            );
        }
        i = i + 1;
    }
    if batch.inputs.len() > MAX_COLUMNS {
        return Err(LifetimeApiError::invalid(field, "input column count exceeds limit"));
    }
    Ok(())
}

fn same_texts(a: &Vec<String>, b: &Vec<String>) -> (r: bool)
    ensures
        r == (texts(a@) == texts(b@)),
{
    if a.len() != b.len() {
        assert(texts(a@).len() != texts(b@).len());
        return false;
    }
    let mut i: usize = 0;
    while i < a.len()
        invariant
            i <= a@.len(),
            a@.len() == b@.len(),
            forall|j: int| 0 <= j < i ==> (#[trigger] a@[j])@ == b@[j]@,
        decreases a@.len() - i,
    {
        if !same(a[i].as_str(), b[i].as_str()) {
            assert(texts(a@)[i as int] != texts(b@)[i as int]);
            return false;
        }
        i = i + 1;
    }
    assert(texts(a@) =~= texts(b@));
    true
}

/// The input that a column is for.
fn resolve_slot(
    program: &Program,
    dense: &DenseCompiledProgram,
    catalog: &Vec<CatalogEntry>,
    input: &LifetimeInput,
) -> (r: Option<String>)
    ensures
        input_slot(
            InputFacts { program: *program, inputs: input_names(*dense), catalog: catalog@ },
            *input,
        ) == opt_text(r),
{
    let reference = input.reference.as_str();
    match program.resolve_input_name_with_catalog(reference, catalog, input.target_is_valid) {
        Some(name) => {
            if listed(&dense.root_inputs, name.as_str()) && catalog_offers(
                catalog,
                name.as_str(),
                reference,
            ) {
                Some(name)
            } else {
                None
            }
        },
        None => None,
    }
}

fn quoted_message(before: &str, reference: &str, behind: &str) -> (r: String)
    ensures
        r@ == before@ + quoted(reference@) + behind@,
{
    let mut message = owned(before);
    message.append(debug_text(reference).as_str());
    message.append(behind);
    message
}

/// Reads the columns of a batch.
fn read_columns(
    program: &Program,
    dense: &DenseCompiledProgram,
    catalog: &Vec<CatalogEntry>,
    batch: &LifetimeBatch,
    field: &str,
    cells: usize,
) -> (r: Result<(usize, DenseBatchSpec), LifetimeApiError>)
    requires
        cells <= MAX_CELLS + MAX_ROWS,
        batch.row_count <= MAX_ROWS,
    ensures
        ({
            let cx = InputFacts { program: *program, inputs: input_names(*dense), catalog: catalog@ };
            let read = columns_read(cx, *batch, field@, cells as nat, batch.inputs@.len());
            match r {
                Ok((count, spec)) => read matches Ok(c) && c.cells == count && batch_is(
                    spec,
                    batch.row_count,
                    c,
                ),
                Err(error) => read == Err::<ColumnsRead, ApiErrorView>(error@),
            }
        }),
{
    let ghost cx = InputFacts { program: *program, inputs: input_names(*dense), catalog: catalog@ };
    let mut inputs: Vec<NamedColumn> = Vec::new();
    let mut names: Vec<String> = Vec::new();
    let mut count: usize = cells;
    let mut k: usize = 0;
    let ghost mut columns: Seq<ColumnView> = Seq::empty();
    assert(texts(names@) =~= Seq::empty());
    while k < batch.inputs.len()
        invariant
            k <= batch.inputs@.len(),
            cx == (InputFacts { program: *program, inputs: input_names(*dense), catalog: catalog@ }),
            batch.row_count <= MAX_ROWS,
            count <= MAX_CELLS + MAX_ROWS,
            columns_read(cx, *batch, field@, cells as nat, k as nat) == Ok::<
                ColumnsRead,
                ApiErrorView,
            >(ColumnsRead { cells: count as nat, names: texts(names@), columns }),
            inputs@.len() == k,
            names@.len() == k,
            columns.len() == k,
            forall|j: int| #![trigger inputs@[j]]
                0 <= j < k ==> inputs@[j].name@ == names@[j]@ && column_view(inputs@[j].column)
                    == columns[j],
        decreases batch.inputs@.len() - k,
    {
        let input = &batch.inputs[k];
        let reference = input.reference.as_str();
        proof {
            if columns_read(cx, *batch, field@, cells as nat, (k + 1) as nat) is Err {
                columns_read_kept(
                    cx,
                    *batch,
                    field@,
                    cells as nat,
                    (k + 1) as nat,
                    batch.inputs@.len(),
                );
            }
        }
        match check_string(reference, field) {
            Ok(()) => {},
            Err(error) => return Err(error),
        }
        if !contains_char(reference, '#') {
            return Err(
                LifetimeApiError::invalid(
                    field,
                    "unknown public input: full durable input IDs are required",
                ),
            );
        }
        let name = match resolve_slot(program, dense, catalog, input) {
            Some(name) => name,
            None => {
                let message = quoted_message("unknown public input ", reference, " for this entity");
                return Err(LifetimeApiError::invalid(field, message.as_str()));
            },
        };
        if listed(&names, name.as_str()) {
            return Err(
                LifetimeApiError::invalid(
                    field,
                    "multiple public input names resolve to the same slot",
                ),
            );
        }
        let len = input.column.len();
        if len != batch.row_count {
            let message = quoted_message("input ", reference, " length differs from row_count");
            return Err(LifetimeApiError::invalid(field, message.as_str()));
        }
        if count + len > MAX_CELLS {
            return Err(
                LifetimeApiError::invalid(field, "total supplied cell count exceeds limit"),
            );
        }
        let mut column_field = owned(field);
        column_field.append(".inputs[");
        column_field.append(debug_text(reference).as_str());
        column_field.append("]");
        let column = match input.column.to_dense(column_field.as_str()) {
            Ok(column) => column,
            Err(error) => return Err(error),
        };
        count = count + len;
        let ghost before = names@;
        names.push(name.clone());
        proof {
            assert(texts(names@) =~= texts(before).push(name@));
            columns = columns.push(column_view(column));
        }
        inputs.push(NamedColumn { name, column });
        k = k + 1;
    }
    let spec = DenseBatchSpec { row_count: batch.row_count, inputs, relations: Vec::new() };
    proof {
        assert forall|j: int| #![trigger spec.inputs@[j]] 0 <= j < spec.inputs@.len() implies
            spec.inputs@[j].name@ == texts(names@)[j] by {}
    }
    Ok((count, spec))
}

/// Reads the batches of a request.
fn read_batches(
    program: &Program,
    dense: &DenseCompiledProgram,
    catalog: &Vec<CatalogEntry>,
    batches: &Vec<LifetimeBatch>,
) -> (r: Result<Vec<DenseBatchSpec>, LifetimeApiError>)
    ensures
        ({
            let cx = InputFacts { program: *program, inputs: input_names(*dense), catalog: catalog@ };
            let read = batches_read(cx, batches@, batches@.len());
            match r {
                Ok(specs) => read matches Ok(c) && batches_are(specs@, batches@, c),
                Err(error) => read == Err::<Seq<ColumnsRead>, ApiErrorView>(error@),
            }
        }),
{
    let ghost cx = InputFacts { program: *program, inputs: input_names(*dense), catalog: catalog@ };
    let mut specs: Vec<DenseBatchSpec> = Vec::new();
    let mut cells: usize = 0;
    let ghost mut read: Seq<ColumnsRead> = Seq::empty();
    let mut i: usize = 0;
    while i < batches.len()
        invariant
            i <= batches@.len(),
            cx == (InputFacts { program: *program, inputs: input_names(*dense), catalog: catalog@ }),
            cells <= MAX_CELLS,
            cells == if read.len() == 0 {
                0
            } else {
                read.last().cells
            },
            batches_read(cx, batches@, i as nat) == Ok::<Seq<ColumnsRead>, ApiErrorView>(read),
            specs@.len() == i,
            read.len() == i,
            forall|j: int| #![trigger specs@[j]]
                0 <= j < i ==> batch_is(specs@[j], batches@[j].row_count, read[j]),
        decreases batches@.len() - i,
    {
        let batch = &batches[i];
        let mut field = owned("batches[");
        field.append(usize_text(i).as_str());
        field.append("]");
        proof {
            if batches_read(cx, batches@, (i + 1) as nat) is Err {
                batches_read_kept(cx, batches@, (i + 1) as nat, batches@.len());
            }
        }
        match check_rows(batch, &batches[0].entity_ids, field.as_str()) {
            Ok(()) => {},
            Err(error) => return Err(error),
        }
        let (count, spec) = match read_columns(
            program,
            dense,
            catalog,
            batch,
            field.as_str(),
            cells + batch.row_count,
        ) {
            Ok(part) => part,
            Err(error) => return Err(error),
        };
        if count > MAX_CELLS {
            return Err(
                LifetimeApiError::invalid(
                    field.as_str(),
                    "total supplied cell count exceeds limit",
                ),
            );
        }
        proof {
            let c = columns_read(
                cx,
                *batch,
                batch_field(i as int),
                cells as nat + batch.row_count as nat,
                batch.inputs@.len(),
            )->Ok_0;
            read = read.push(c);
        }
        cells = count;
        specs.push(spec);
        i = i + 1;
    }
    Ok(specs)
}

/// The name under which a declared type is reported.
pub open spec fn dtype_label(dtype: DType) -> Seq<char> {
    match dtype {
        DType::Judgment => "Judgment"@,
        DType::Bool => "Bool"@,
        DType::Integer => "Integer"@,
        DType::Decimal => "Decimal"@,
        DType::Text => "Text"@,
        DType::Date => "Date"@,
    }
}

fn dtype_text(dtype: DType) -> (r: &'static str)
    ensures
        r@ == dtype_label(dtype),
{
    match dtype {
        DType::Judgment => "Judgment",
        DType::Bool => "Bool",
        DType::Integer => "Integer",
        DType::Decimal => "Decimal",
        DType::Text => "Text",
        DType::Date => "Date",
    }
}

/// The type of an evaluated column as it is written: integers are widened where the rule
/// is declared decimal. Nothing else is converted.
pub open spec fn written_type(kind: ColumnKind, dtype: DType) -> DType {
    match kind {
        ColumnKind::Bool => DType::Bool,
        ColumnKind::Integer => if dtype == DType::Decimal {
            DType::Decimal
        } else {
            DType::Integer
        },
        ColumnKind::Decimal => DType::Decimal,
        ColumnKind::Text => DType::Text,
        ColumnKind::Date => DType::Date,
    }
}

/// The type of evaluated values as they are written.
pub open spec fn value_type(value: DenseOutputValue, dtype: DType) -> DType {
    match value {
        DenseOutputValue::Scalar(column) => written_type(column.kind(), dtype),
        DenseOutputValue::Judgment(_) => DType::Judgment,
    }
}

/// Whether a written column holds the values of an evaluated one. Decimals are written
/// without trailing zeros.
pub open spec fn column_written(out: LifetimeColumn, column: DenseColumn) -> bool {
    &&& out.rows() == column.rows()
    &&& forall|row: int|
        #![trigger column.cell(row)]
        0 <= row < column.rows() ==> match out {
            LifetimeColumn::Bool { values } => column.cell(row) == ScalarValue::Bool(
                values@[row],
            ),
            LifetimeColumn::Integer { values } => column.cell(row) == ScalarValue::Decimal(
                Decimal::of_int(values@[row] as int),
            ),
            LifetimeColumn::Decimal { values } => column.cell(row) matches ScalarValue::Decimal(d)
                && values@[row]@ == d.stripped().text(),
            LifetimeColumn::Text { values } => column.cell(row) == ScalarValue::Text(
                values@[row],
            ),
            LifetimeColumn::Date { values } => column.cell(row) == ScalarValue::Date(
                values@[row],
            ),
        }
}

/// The type of a written column.
pub open spec fn column_type(out: LifetimeColumn) -> DType {
    match out {
        LifetimeColumn::Bool { .. } => DType::Bool,
        LifetimeColumn::Integer { .. } => DType::Integer,
        LifetimeColumn::Decimal { .. } => DType::Decimal,
        LifetimeColumn::Text { .. } => DType::Text,
        LifetimeColumn::Date { .. } => DType::Date,
    }
}

/// Whether a written output holds evaluated values under the declared type.
pub open spec fn value_written(
    out: LifetimeOutputColumn,
    value: DenseOutputValue,
    dtype: DType,
) -> bool {
    match (out, value) {
        (LifetimeOutputColumn::Scalar(o), DenseOutputValue::Scalar(column)) => column_type(o)
            == dtype && column_written(o, column),
        (
            LifetimeOutputColumn::Judgment { values, .. },
            DenseOutputValue::Judgment(outcomes),
        ) => values@ == outcomes@,
        _ => false,
    }
}

/// The fault of evaluated values under another declared type.
pub open spec fn type_fault(value: DenseOutputValue, dtype: DType) -> Option<ApiErrorView> {
    let actual = value_type(value, dtype);
    if actual == dtype {
        None
    } else {
        Some(
            ApiErrorView::Output(
                "declared "@ + dtype_label(dtype) + " differs from evaluated "@ + dtype_label(
                    actual,
                ),
            ),
        )
    }
}

fn decimal_texts(values: &Vec<Decimal>) -> (r: Vec<String>)
    ensures
        r@.len() == values@.len(),
        forall|i: int| 0 <= i < r@.len() ==> (#[trigger] r@[i])@ == values@[i].stripped().text(),
{
    let mut r: Vec<String> = Vec::new();
    let mut i: usize = 0;
    while i < values.len()
        invariant
            i <= values@.len(),
            r@.len() == i,
            forall|j: int| 0 <= j < i ==> (#[trigger] r@[j])@ == values@[j].stripped().text(),
        decreases values@.len() - i,
    {
        r.push(values[i].normalize().to_text());
        i = i + 1;
    }
    r
}

/// Evaluated values as a response writes them.
fn write_value(value: &DenseOutputValue, dtype: DType) -> (r: Result<
    LifetimeOutputColumn,
    LifetimeApiError,
>)
    ensures
        match r {
            Ok(out) => type_fault(*value, dtype) is None && value_written(out, *value, dtype),
            Err(error) => type_fault(*value, dtype) == Some(error@),
        },
{
    let actual = match value {
        DenseOutputValue::Judgment(_) => DType::Judgment,
        DenseOutputValue::Scalar(column) => match column {
            DenseColumn::Bool(_) => DType::Bool,
            DenseColumn::Integer(_) => match dtype {
                DType::Decimal => DType::Decimal,
                _ => DType::Integer,
            },
            DenseColumn::Decimal(_) => DType::Decimal,
            DenseColumn::Text(_) => DType::Text,
            DenseColumn::Date(_) => DType::Date,
        },
    };
    if actual != dtype {
        let mut message = owned("declared ");
        message.append(dtype_text(dtype));
        message.append(" differs from evaluated ");
        message.append(dtype_text(actual));
        return Err(LifetimeApiError::Output(message));
    }
    match value {
        DenseOutputValue::Judgment(outcomes) => Ok(
            LifetimeOutputColumn::Judgment {
                kind: JudgmentColumnKind::Judgment,
                values: crate::column::copied(outcomes),
            },
        ),
        DenseOutputValue::Scalar(column) => Ok(
            LifetimeOutputColumn::Scalar(
                match column {
                    DenseColumn::Bool(values) => LifetimeColumn::Bool {
                        values: crate::column::copied(values),
                    },
                    DenseColumn::Integer(values) => {
                        if dtype == DType::Decimal {
                            let mut wide: Vec<Decimal> = Vec::new();
                            let mut i: usize = 0;
                            while i < values.len()
                                invariant
                                    i <= values@.len(),
                                    wide@.len() == i,
                                    forall|j: int|
                                        0 <= j < i ==> #[trigger] wide@[j] == Decimal::of_int(
                                            values@[j] as int,
                                        ),
                                decreases values@.len() - i,
                            {
                                wide.push(Decimal::from_i64(values[i]));
                                i = i + 1;
                            }
                            LifetimeColumn::Decimal { values: decimal_texts(&wide) }
                        } else {
                            LifetimeColumn::Integer { values: crate::column::copied(values) }
                        }
                    },
                    DenseColumn::Decimal(values) => LifetimeColumn::Decimal {
                        values: decimal_texts(values),
                    },
                    DenseColumn::Text(values) => LifetimeColumn::Text {
                        values: crate::column::copied_texts(values),
                    },
                    DenseColumn::Date(values) => LifetimeColumn::Date {
                        values: crate::column::copied(values),
                    },
                },
            ),
        ),
    }
}

/// Whether an output of a response is a rule with evaluated values.
pub open spec fn output_is(out: LifetimeOutput, d: Derived, value: DenseOutputValue) -> bool {
    &&& opt_text(d.id) == Some(out.id@)
    &&& out.name@ == d.name@
    &&& out.dtype == d.dtype
    &&& out.unit == d.unit
    &&& value_written(out.column, value, d.dtype)
}

/// What an evaluation is made on: the periods, batches and names of a request.
pub ghost struct Evaluation {
    pub periods: Seq<Period>,
    pub batches: Seq<DenseBatchSpec>,
    pub names: Seq<String>,
}

/// Whether an evaluation is that of a request.
pub open spec fn evaluation_is(
    v: Evaluation,
    request: LifetimeExecutionRequest,
    names: Seq<Seq<char>>,
    read: Seq<ColumnsRead>,
) -> bool {
    &&& periods_are(v.periods, request.periods@)
    &&& batches_are(v.batches, request.batches@, read)
    &&& texts(v.names) == names
}

/// Whether output `j` of a response is the requested rule with what `f` gives of it.
pub open spec fn output_answers(
    out: LifetimeOutput,
    program: Program,
    name: Seq<char>,
    rows: nat,
    f: spec_fn(int, int) -> crate::batch::RuleValue,
    j: int,
) -> bool {
    exists|value: DenseOutputValue| #[trigger]
        value.gives(rows, f, j) && output_is(
            out,
            item_named(program.derived@, name)->Some_0,
            value,
        )
}

/// Whether the values that `f` gives of requested rule `j` have a fault of their type.
pub open spec fn output_faults(
    error: ApiErrorView,
    program: Program,
    name: Seq<char>,
    rows: nat,
    f: spec_fn(int, int) -> crate::batch::RuleValue,
    j: int,
) -> bool {
    exists|value: DenseOutputValue| #[trigger]
        value.gives(rows, f, j) && type_fault(
            value,
            item_named(program.derived@, name)->Some_0.dtype,
        ) == Some(error)
}

/// Whether the values that `f` gives of requested rule `j` are of its type.
pub open spec fn output_fits(
    program: Program,
    name: Seq<char>,
    rows: nat,
    f: spec_fn(int, int) -> crate::batch::RuleValue,
    j: int,
) -> bool {
    exists|value: DenseOutputValue| #[trigger]
        value.gives(rows, f, j) && type_fault(
            value,
            item_named(program.derived@, name)->Some_0.dtype,
        ) is None
}

/// Whether requested rule `j` is the first whose values have a fault of their type.
pub open spec fn faults_first(
    error: ApiErrorView,
    program: Program,
    names: Seq<Seq<char>>,
    rows: nat,
    f: spec_fn(int, int) -> crate::batch::RuleValue,
    j: int,
) -> bool {
    &&& 0 <= j < names.len()
    &&& output_faults(error, program, names[j], rows, f, j)
    &&& forall|i: int| 0 <= i < j ==> #[trigger] output_fits(program, names[i], rows, f, i)
}

/// Whether a response carries a request's own parts and the evaluated outputs.
pub open spec fn response_is(
    response: LifetimeExecutionResponse,
    program: Program,
    version: u32,
    request: LifetimeExecutionRequest,
    names: Seq<Seq<char>>,
    f: spec_fn(int, int) -> crate::batch::RuleValue,
) -> bool {
    let rows = request.batches@[0].row_count as nat;
    &&& response.schema == LifetimeResponseSchema::V1
    &&& response.engine_version@ == crate::ENGINE_VERSION@
    &&& response.artifact_format_version == version
    &&& response.arithmetic == LifetimeArithmetic::Decimal
    &&& response.entity == request.entity
    &&& response.row_count == rows
    &&& texts(response.entity_ids@) == texts(request.batches@[0].entity_ids@)
    &&& response.periods == request.periods
    &&& response.reference_period == request.output_period
    &&& response.output_period == request.output_period
    &&& response.outputs@.len() == names.len()
    &&& forall|j: int|
        0 <= j < names.len() ==> #[trigger] output_answers(
            response.outputs@[j],
            program,
            names[j],
            rows,
            f,
            j,
        )
}

/// Whether a result is that of evaluating a request.
pub open spec fn evaluated_as(
    r: Result<LifetimeExecutionResponse, LifetimeApiError>,
    dense: DenseCompiledProgram,
    program: Program,
    version: u32,
    request: LifetimeExecutionRequest,
    names: Seq<Seq<char>>,
    v: Evaluation,
) -> bool {
    match lifetime_request(dense, v.periods, v.batches, v.names) {
        Err(e) => r matches Err(error) && error@ == ApiErrorView::Evaluation(e),
        Ok(lx) => {
            let f = |j: int, row: int| requested_life(lx, v.names, j, row);
            let failure = request_failure(f, v.names.len(), lx.row_count);
            match r {
                Ok(response) => {
                    &&& life_request_work(lx, v.names, v.names.len()) is Some
                    &&& failure is None
                    &&& response_is(response, program, version, request, names, f)
                },
                Err(error) => match life_request_work(lx, v.names, v.names.len()) {
                    None => error@ == ApiErrorView::Evaluation(mixed_branches())
                        && !life_request_typed(lx, v.names),
                    Some(_) => match failure {
                        Some(e) => error@ == ApiErrorView::Evaluation(e),
                        None => exists|j: int| #[trigger]
                            faults_first(error@, program, names, lx.row_count, f, j),
                    },
                },
            }
        },
    }
}

/// Whether a result is that of a request to the rules that are compiled for an entity.
pub open spec fn answered_by(
    r: Result<LifetimeExecutionResponse, LifetimeApiError>,
    cx: CompileFacts,
    catalog: Seq<CatalogEntry>,
    version: u32,
    request: LifetimeExecutionRequest,
) -> bool {
    match output_rules(
        cx.program,
        compiled_names(cx),
        request.outputs@,
        request.outputs@.len(),
    ) {
        Err(e) => r matches Err(error) && error@ == e,
        Ok(names) => if request.batches@[0].entity_ids@.len() * names.len() > MAX_CELLS {
            r matches Err(error) && error@ == refused(
                "outputs"@,
                "output cell count exceeds limit"@,
            )
        } else {
            let inputs = InputFacts { program: cx.program, inputs: read_names(cx), catalog };
            match batches_read(inputs, request.batches@, request.batches@.len()) {
                Err(e) => r matches Err(error) && error@ == e,
                Ok(read) => exists|dense: DenseCompiledProgram, v: Evaluation|
                    dense.well_formed() && #[trigger] stands_for(dense, cx) && #[trigger]
                    evaluation_is(v, request, names, read) && evaluated_as(
                        r,
                        dense,
                        cx.program,
                        version,
                        request,
                        names,
                        v,
                    ),
            }
        },
    }
}

/// Whether a result is that of a request.
pub open spec fn answered(
    r: Result<LifetimeExecutionResponse, LifetimeApiError>,
    artifact: CompiledProgramArtifact,
    written: Seq<char>,
    request: LifetimeExecutionRequest,
) -> bool {
    let program = artifact.program;
    let version = artifact.artifact_format_version;
    let cx = CompileFacts { program, root: request.entity@ };
    if byte_length(written) > MAX_ARTIFACT_BYTES {
        r matches Err(error) && error@ == refused("artifact"@, "artifact exceeds byte limit"@)
    } else if version > ARTIFACT_FORMAT_VERSION {
        r matches Err(error) && error@ == later_format(version)
    } else {
        match request_fault(request) {
            Some(e) => r matches Err(error) && error@ == e,
            None => match rounding_fault(program, program.derived@.len()) {
                Some(derived) => r matches Err(error) && error@ == ApiErrorView::Spec(
                    CompileErrorView::RoundingUnit { derived },
                ),
                None => if forall|i: int| #![trigger program.derived@[i]]
                    0 <= i < program.derived@.len() ==> program.derived@[i].entity@ != request.entity@ {
                    r matches Err(error) && error@ == ApiErrorView::Compile(
                        DenseErrorView::UnknownEntity(request.entity@),
                    )
                } else {
                    match compile_fault(cx, cx.rules()) {
                        Some(e) => r matches Err(error) && error@ == ApiErrorView::Compile(e),
                        None => if exists|key: RelationKeyView| #[trigger]
                            reads_relation(cx, key) {
                            r matches Err(error) && error@ == ApiErrorView::Unsupported(
                                "relation context is not supported by lifetime JSON v1"@,
                            )
                        } else {
                            exists|catalog: Seq<CatalogEntry>| #[trigger]
                                catalog_of(catalog, slot_pairs(program)) && answered_by(
                                    r,
                                    cx,
                                    catalog,
                                    version,
                                    request,
                                )
                        },
                    }
                },
            },
        }
    }
}

/// The outputs of a response, one per requested name.
fn write_outputs(
    program: &Program,
    names: &Vec<String>,
    execution: &DenseExecutionResult,
    Ghost(f): Ghost<spec_fn(int, int) -> crate::batch::RuleValue>,
    Ghost(rows): Ghost<nat>,
) -> (r: Result<Vec<LifetimeOutput>, LifetimeApiError>)
    requires
        outputs_are(execution.outputs@, names@, rows, f),
        forall|j: int| #![trigger names@[j]]
            0 <= j < names@.len() ==> (item_named(program.derived@, names@[j]@) matches Some(d)
                && d.id is Some),
    ensures
        match r {
            Ok(outputs) => {
                &&& outputs@.len() == names@.len()
                &&& forall|j: int|
                    0 <= j < names@.len() ==> #[trigger] output_answers(
                        outputs@[j],
                        *program,
                        names@[j]@,
                        rows,
                        f,
                        j,
                    )
            },
            Err(error) => exists|j: int| #[trigger]
                faults_first(error@, *program, texts(names@), rows, f, j),
        },
{
    let mut outputs: Vec<LifetimeOutput> = Vec::new();
    let mut j: usize = 0;
    while j < names.len()
        invariant
            j <= names@.len(),
            outputs@.len() == j,
            outputs_are(execution.outputs@, names@, rows, f),
            forall|i: int| #![trigger names@[i]]
                0 <= i < names@.len() ==> (item_named(program.derived@, names@[i]@) matches Some(d)
                    && d.id is Some),
            forall|i: int|
                0 <= i < j ==> #[trigger] output_answers(
                    outputs@[i],
                    *program,
                    names@[i]@,
                    rows,
                    f,
                    i,
                ),
            forall|i: int|
                0 <= i < j ==> #[trigger] output_fits(*program, texts(names@)[i], rows, f, i),
        decreases names@.len() - j,
    {
        let name = names[j].as_str();
        assert(texts(names@)[j as int] == name@);
        assert(crate::batch::is_listed(execution.outputs@, names@, rows, f, j as int));
        let ghost k = choose|k: int|
            0 <= k < execution.outputs@.len() && (#[trigger] execution.outputs@[k]).name@
                == names@[j as int]@ && execution.outputs@[k].value.gives(rows, f, j as int);
        proof {
            crate::model::position_from_meaning(execution.outputs@, name@, 0);
            assert(execution.outputs@[k].label_of() == name@);
        }
        let found = match find_index(&execution.outputs, name) {
            Some(found) => found,
            None => return Ok(outputs),
        };
        assert(found == k) by {
            if found != k {
                assert(execution.outputs@[found as int].name@ == execution.outputs@[k].name@);
            }
        }
        let value = &execution.outputs[found].value;
        let derived = match find_named(&program.derived, name) {
            Some(derived) => derived,
            None => return Ok(outputs),
        };
        let id = match &derived.id {
            Some(id) => id.clone(),
            None => return Ok(outputs),
        };
        let column = match write_value(value, derived.dtype) {
            Ok(column) => column,
            Err(error) => {
                assert(output_faults(error@, *program, name@, rows, f, j as int));
                assert(faults_first(error@, *program, texts(names@), rows, f, j as int));
                return Err(error);
            },
        };
        let unit = match &derived.unit {
            Some(unit) => Some(unit.clone()),
            None => None,
        };
        let ghost before = outputs@;
        outputs.push(
            LifetimeOutput { id, name: derived.name.clone(), dtype: derived.dtype, unit, column },
        );
        proof {
            assert(value.gives(rows, f, j as int));
            assert(output_is(outputs@[j as int], *derived, *value));
            assert(output_fits(*program, name@, rows, f, j as int));
            assert forall|i: int| 0 <= i < j + 1 implies #[trigger] output_answers(
                outputs@[i],
                *program,
                names@[i]@,
                rows,
                f,
                i,
            ) by {
                if i < j {
                    assert(outputs@[i] == before[i]);
                    assert(output_answers(before[i], *program, names@[i]@, rows, f, i));
                }
            }
        }
        j = j + 1;
    }
    Ok(outputs)
}

/// Each resolved output names a rule with a public name.
proof fn output_rules_have_ids(
    program: Program,
    compiled: Set<Seq<char>>,
    outputs: Seq<String>,
    n: nat,
)
    requires
        n <= outputs.len(),
    ensures
        output_rules(program, compiled, outputs, n) matches Ok(names) ==> names.len() == n && forall|
            j: int,
        |
            #![trigger names[j]]
            0 <= j < names.len() ==> (item_named(program.derived@, names[j]) matches Some(d)
                && d.id is Some),
    decreases n,
{
    if n > 0 {
        output_rules_have_ids(program, compiled, outputs, (n - 1) as nat);
    }
}

/// Evaluates a request on an artifact, which comes with the JSON text that it is written as:
/// whoever made it, it is admitted as one that was read. What is needed is checked in a fixed
/// order: the length of that text and the format of the artifact, the request's entity, periods
/// and counts, the program's rounding and its compilation for the entity, the outputs, and the
/// batches; then the rules are evaluated over the lifetime.
pub fn execute_lifetime_request(
    artifact: CompiledProgramArtifact,
    written: &str,
    request: LifetimeExecutionRequest,
) -> (r: Result<LifetimeExecutionResponse, LifetimeApiError>)
    ensures
        answered(r, artifact, written@, request),
{
    let ghost asked = request;
    let ghost cx = CompileFacts { program: artifact.program, root: request.entity@ };
    let artifact = match parse_lifetime_artifact(written, ArtifactReading::Read(artifact)) {
        Ok(artifact) => artifact,
        Err(error) => return Err(error),
    };
    let program = &artifact.program;
    let artifact_format_version = artifact.artifact_format_version;
    let periods = match check_request(&request) {
        Ok(periods) => periods,
        Err(error) => return Err(error),
    };
    match validate_rounding(program) {
        Ok(()) => {},
        Err(error) => return Err(LifetimeApiError::Spec(error)),
    }
    let dense = match DenseCompiledProgram::from_program(program, Some(request.entity.as_str())) {
        Ok(dense) => dense,
        Err(error) => return Err(LifetimeApiError::Compile(error)),
    };
    let catalog = program.input_catalog();
    proof {
        assert(stands_for(dense, cx) && catalog_of(catalog@, slot_pairs(*program)));
        compiled_programs_hold_what_is_read(dense, cx);
        assert(rule_names(dense) =~= compiled_names(cx));
        assert(input_names(dense) =~= read_names(cx));
    }
    if dense.relations.len() != 0 {
        return Err(
            LifetimeApiError::Unsupported(
                owned("relation context is not supported by lifetime JSON v1"),
            ),
        );
    }
    let names = match resolve_request_outputs(program, &dense, &request.outputs) {
        Ok(names) => names,
        Err(error) => return Err(error),
    };
    proof {
        output_rules_have_ids(*program, rule_names(dense), request.outputs@, request.outputs@.len());
        assert forall|j: int| #![trigger names@[j]] 0 <= j < names@.len() implies (item_named(
            program.derived@,
            names@[j]@,
        ) matches Some(d) && d.id is Some) by {
            assert(texts(names@)[j] == names@[j]@);
        }
    }
    let rows = request.batches[0].entity_ids.len();
    let count = names.len();
    assert(count > 0);
    proof {
        let limit = MAX_CELLS as int;
        let (a, b) = (rows as int, count as int);
        assert((a > limit / b) == (a * b > limit)) by (nonlinear_arith)
            requires
                b > 0,
                a >= 0,
                limit >= 0,
        ;
    }
    if rows > MAX_CELLS / count {
        return Err(LifetimeApiError::invalid("outputs", "output cell count exceeds limit"));
    }
    let batches = match read_batches(program, &dense, &catalog, &request.batches) {
        Ok(batches) => batches,
        Err(error) => return Err(error),
    };
    let ghost inputs = InputFacts { program: *program, inputs: input_names(dense), catalog: catalog@ };
    let ghost read = batches_read(inputs, request.batches@, request.batches@.len())->Ok_0;
    let ghost v = Evaluation { periods: periods@, batches: batches@, names: names@ };
    proof {
        assert(evaluation_is(v, asked, texts(names@), read));
        assert forall|i: int| 0 <= i < batches@.len() implies (#[trigger] batches@[i]).row_count
            < usize::MAX by {
            assert(batch_is(batches@[i], request.batches@[i].row_count, read[i]));
        }
    }
    let execution = match dense.execute_lifetime(&periods, &batches, &names) {
        Ok(execution) => execution,
        Err(error) => {
            let r: Result<LifetimeExecutionResponse, LifetimeApiError> = Err(
                LifetimeApiError::Evaluation(error),
            );
            assert(evaluated_as(
                r,
                dense,
                *program,
                artifact_format_version,
                asked,
                texts(names@),
                v,
            ));
            return r;
        },
    };
    let ghost lx = lifetime_request(dense, periods@, batches@, names@)->Ok_0;
    let ghost f = |j: int, row: int| requested_life(lx, names@, j, row);
    assert(batch_is(batches@[0], request.batches@[0].row_count, read[0]));
    let outputs = match write_outputs(
        program,
        &names,
        &execution,
        Ghost(f),
        Ghost(lx.row_count),
    ) {
        Ok(outputs) => outputs,
        Err(error) => {
            let r: Result<LifetimeExecutionResponse, LifetimeApiError> = Err(error);
            proof {
                assert(evaluated_as(
                    r,
                    dense,
                    *program,
                    artifact_format_version,
                    asked,
                    texts(names@),
                    v,
                ));
            }
            return r;
        },
    };
    let entity_ids = crate::column::copied_texts(&request.batches[0].entity_ids);
    let output_period = request.output_period.duplicate();
    let response = LifetimeExecutionResponse {
        schema: LifetimeResponseSchema::V1,
        engine_version: owned(crate::ENGINE_VERSION),
        artifact_format_version,
        arithmetic: LifetimeArithmetic::Decimal,
        entity: request.entity,
        row_count: execution.row_count,
        entity_ids,
        periods: request.periods,
        reference_period: output_period,
        output_period: request.output_period,
        outputs,
    };
    let r: Result<LifetimeExecutionResponse, LifetimeApiError> = Ok(response);
    proof {
        assert forall|j: int| 0 <= j < texts(names@).len() implies #[trigger] output_answers(
            response.outputs@[j],
            *program,
            texts(names@)[j],
            lx.row_count,
            f,
            j,
        ) by {
            assert(texts(names@)[j] == names@[j]@);
            assert(output_answers(
                response.outputs@[j],
                *program,
                names@[j]@,
                lx.row_count,
                f,
                j,
            ));
        }
        assert(response_is(response, *program, artifact_format_version, asked, texts(names@), f));
        assert(evaluated_as(r, dense, *program, artifact_format_version, asked, texts(names@), v));
    }
    r
}

} // verus!
