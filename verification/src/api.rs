//! Requests: queries for outputs, answered with a trace of how they came about.
use crate::compile::CompileError;
use crate::catalog::{derived_named, parameter_named};
use crate::date::Date;
use crate::decimal::RoundingMode;
use crate::engine::{
    instance_keys, instance_lt, instances_ascend, judgment_meaning, judgment_meaning_at,
    judgment_terminates, reaches, reaches_itself, scalar_meaning, scalar_meaning_at, scalar_terminates, Engine, EvaluatedTraceInstance,
    EvaluatedTraceValue,
};
use crate::error::{outcome, ErrorView, EvalError};
use crate::format::{
    format_judgment_expression, format_scalar_expression, judgment_text, parameter_text,
    public_parameter_key, rule_text, scalar_text,
};
use crate::model::{
    find_named, DType, DataSet, Derived, DerivedSemantics, JudgmentOutcome, Period, PeriodView,
    Program, ScalarValue,
};
use crate::pins::PinError;
use crate::semantics::{
    parameter_read, rule_judgment, rule_scalar, rule_unrounded, Facts, RuleKey, TraceEvent, TraceSkipReason,
};
use crate::termination::{ending_references_give_values, references_end};
use crate::text::{
    opt_text, owned, precedes, same, text_lt, text_lt_irreflexive, text_lt_transitive, texts,
};
use crate::trace::{CacheKey, ParameterTraceRead, SkippedTraceDependency};
use vstd::prelude::*;
use vstd::string::*;

verus! {

/// How a request is executed.
#[derive(Clone, Copy, Debug, PartialEq, Eq, Structural)]
pub enum ExecutionMode {
    /// Rule by rule, with a trace.
    Explain,
    /// All entities of a rule at once.
    Fast,
}

/// Outputs that are asked for, of one entity over one period.
#[derive(Debug)]
pub struct ExecutionQuery {
    pub entity_id: String,
    pub period: Period,
    pub outputs: Vec<String>,
    /// When the determination is made. It has no effect on the evaluation.
    pub assessment_date: Option<Date>,
}

/// How a request was executed, and why not as it asked.
#[derive(Debug)]
pub struct ExecutionMetadata {
    pub requested_mode: ExecutionMode,
    pub actual_mode: ExecutionMode,
    pub fallback_reason: Option<String>,
}

/// An output.
#[derive(Debug)]
pub enum OutputValue {
    Scalar {
        name: String,
        id: Option<String>,
        dtype: DType,
        unit: Option<String>,
        value: ScalarValue,
    },
    Judgment {
        name: String,
        id: Option<String>,
        unit: Option<String>,
        outcome: JudgmentOutcome,
    },
}

/// The model of an [`OutputValue`].
pub ghost enum OutputView {
    Scalar {
        name: Seq<char>,
        id: Option<Seq<char>>,
        dtype: DType,
        unit: Option<Seq<char>>,
        value: ScalarValue,
    },
    Judgment {
        name: Seq<char>,
        id: Option<Seq<char>>,
        unit: Option<Seq<char>>,
        outcome: JudgmentOutcome,
    },
}

impl OutputValue {
    pub open spec fn view(&self) -> OutputView {
        match *self {
            OutputValue::Scalar { name, id, dtype, unit, value } => OutputView::Scalar {
                name: name@,
                id: opt_text(id),
                dtype,
                unit: opt_text(unit),
                value,
            },
            OutputValue::Judgment { name, id, unit, outcome } => OutputView::Judgment {
                name: name@,
                id: opt_text(id),
                unit: opt_text(unit),
                outcome,
            },
        }
    }
}

/// An item under its key, in a list that is ascending by key.
#[derive(Debug)]
pub struct Keyed<T> {
    pub key: String,
    pub item: T,
}

/// A rule or parameter that was mentioned and not evaluated.
#[derive(Debug)]
pub struct NotEvaluatedDependency {
    pub dependency: String,
    pub reason: NotEvaluatedReason,
}

/// Why a rule or parameter was not evaluated.
#[derive(Clone, Copy, Debug, PartialEq, Eq, Structural)]
pub enum NotEvaluatedReason {
    ShortCircuit,
    BranchNotSelected,
}

/// A parameter value that a rule read.
#[derive(Debug)]
pub struct TraceParameterRead {
    /// The public name of the parameter.
    pub parameter: String,
    pub name: String,
    pub id: Option<String>,
    pub index: i64,
    pub value: ScalarValue,
    pub unit: Option<String>,
    pub effective_from: Date,
    pub effective_to: Option<Date>,
    pub source: Option<String>,
    pub source_url: Option<String>,
}

/// What a traced rule gave.
#[derive(Debug)]
pub enum TraceNodeValue {
    Scalar {
        dtype: DType,
        /// The value, rounded.
        value: ScalarValue,
        /// The rounding that the rule declares.
        rounding: Option<RoundingMode>,
        /// The value before rounding, where rounding moved it.
        pre_rounding_value: Option<ScalarValue>,
    },
    Judgment { outcome: JudgmentOutcome },
}

/// How a rule came to its value.
#[derive(Debug)]
pub struct DerivedTraceNode {
    pub name: String,
    pub id: Option<String>,
    /// The entity that the rule was evaluated for.
    pub entity_id: String,
    pub unit: Option<String>,
    pub value: TraceNodeValue,
    pub source: Option<String>,
    pub source_url: Option<String>,
    /// The formula that was executed.
    pub executed_expression: String,
    pub parameter_reads: Vec<TraceParameterRead>,
    /// The rules that were evaluated for it, by their keys in the trace.
    pub dependencies: Vec<String>,
    pub not_evaluated_dependencies: Vec<NotEvaluatedDependency>,
}

/// The model of a [`TraceParameterRead`].
pub ghost struct ReadView {
    pub parameter: Seq<char>,
    pub name: Seq<char>,
    pub id: Option<Seq<char>>,
    pub index: i64,
    pub value: ScalarValue,
    pub unit: Option<Seq<char>>,
    pub effective_from: Date,
    pub effective_to: Option<Date>,
    pub source: Option<Seq<char>>,
    pub source_url: Option<Seq<char>>,
}

impl TraceParameterRead {
    pub open spec fn view(&self) -> ReadView {
        ReadView {
            parameter: self.parameter@,
            name: self.name@,
            id: opt_text(self.id),
            index: self.index,
            value: self.value,
            unit: opt_text(self.unit),
            effective_from: self.effective_from,
            effective_to: self.effective_to,
            source: opt_text(self.source),
            source_url: opt_text(self.source_url),
        }
    }
}

impl NotEvaluatedDependency {
    pub open spec fn view(&self) -> (Seq<char>, NotEvaluatedReason) {
        (self.dependency@, self.reason)
    }
}

/// The model of a [`DerivedTraceNode`].
pub ghost struct NodeView {
    pub name: Seq<char>,
    pub id: Option<Seq<char>>,
    pub entity_id: Seq<char>,
    pub unit: Option<Seq<char>>,
    pub value: TraceNodeValue,
    pub source: Option<Seq<char>>,
    pub source_url: Option<Seq<char>>,
    pub executed_expression: Seq<char>,
    pub parameter_reads: Seq<ReadView>,
    pub dependencies: Seq<Seq<char>>,
    pub not_evaluated_dependencies: Seq<(Seq<char>, NotEvaluatedReason)>,
}

pub open spec fn read_views(v: Seq<TraceParameterRead>) -> Seq<ReadView> {
    v.map_values(|r: TraceParameterRead| r@)
}

pub open spec fn skipped_views(v: Seq<NotEvaluatedDependency>) -> Seq<
    (Seq<char>, NotEvaluatedReason),
> {
    v.map_values(|d: NotEvaluatedDependency| d@)
}

impl DerivedTraceNode {
    pub open spec fn view(&self) -> NodeView {
        NodeView {
            name: self.name@,
            id: opt_text(self.id),
            entity_id: self.entity_id@,
            unit: opt_text(self.unit),
            value: self.value,
            source: opt_text(self.source),
            source_url: opt_text(self.source_url),
            executed_expression: self.executed_expression@,
            parameter_reads: read_views(self.parameter_reads@),
            dependencies: texts(self.dependencies@),
            not_evaluated_dependencies: skipped_views(self.not_evaluated_dependencies@),
        }
    }
}

/// The answer to a query.
#[derive(Debug)]
pub struct QueryResult {
    pub entity_id: String,
    pub period: Period,
    pub assessment_date: Option<Date>,
    pub outputs: Vec<Keyed<OutputValue>>,
    pub trace: Vec<Keyed<DerivedTraceNode>>,
}

/// The answers to the queries of a request.
#[derive(Debug)]
pub struct ExecutionResponse {
    pub metadata: ExecutionMetadata,
    pub results: Vec<QueryResult>,
}

impl ExecutionResponse {
    pub fn with_metadata(self, metadata: ExecutionMetadata) -> (r: ExecutionResponse)
        ensures
            r.metadata == metadata,
            r.results == self.results,
    {
        ExecutionResponse { metadata, results: self.results }
    }
}

/// Why a request is not answered.
#[derive(Debug)]
pub enum ApiError {
    Eval(EvalError),
    AssessmentDateBeforePeriodStart { assessment_date: Date, period_start: Date },
    Pin(PinError),
    /// The program declares what no program may.
    Spec(CompileError),
}

/// The first of the first `n` queries that is assessed before its period starts.
pub open spec fn early_assessment(queries: Seq<ExecutionQuery>, n: nat) -> Option<nat>
    decreases n,
{
    if n == 0 || n > queries.len() {
        None
    } else {
        match early_assessment(queries, (n - 1) as nat) {
            Some(i) => Some(i),
            None => match queries[n - 1].assessment_date {
                Some(date) => if date.number() < queries[n - 1].period.start.number() {
                    Some((n - 1) as nat)
                } else {
                    None
                },
                None => None,
            },
        }
    }
}

proof fn early_stays(queries: Seq<ExecutionQuery>, n: nat, m: nat)
    requires
        n <= m <= queries.len(),
        early_assessment(queries, n) is Some,
    ensures
        early_assessment(queries, m) == early_assessment(queries, n),
    decreases m,
{
    if n < m {
        early_stays(queries, n, (m - 1) as nat);
    }
}

/// Rejects queries that are assessed before the period that they assess starts.
pub fn validate_assessment_dates(queries: &Vec<ExecutionQuery>) -> (r: Result<(), ApiError>)
    ensures
        match early_assessment(queries@, queries@.len()) {
            None => r is Ok,
            Some(i) => match r {
                Err(
                    ApiError::AssessmentDateBeforePeriodStart { assessment_date, period_start },
                ) => Some(assessment_date) == queries@[i as int].assessment_date && period_start
                    == queries@[i as int].period.start,
                _ => false,
            },
        },
{
    let mut i: usize = 0;
    while i < queries.len()
        invariant
            i <= queries@.len(),
            early_assessment(queries@, i as nat) is None,
        decreases queries@.len() - i,
    {
        if let Some(date) = &queries[i].assessment_date {
            if date.before(&queries[i].period.start) {
                proof {
                    assert(early_assessment(queries@, (i + 1) as nat) == Some(i as nat));
                    early_stays(queries@, (i + 1) as nat, queries@.len());
                }
                return Err(
                    ApiError::AssessmentDateBeforePeriodStart {
                        assessment_date: *date,
                        period_start: queries[i].period.start,
                    },
                );
            }
        }
        i = i + 1;
    }
    Ok(())
}

/// An item put under its key in an ascending list, in place of the one that is there.
pub open spec fn put<V>(list: Seq<(Seq<char>, V)>, key: Seq<char>, item: V) -> Seq<(Seq<char>, V)>
    decreases list.len(),
{
    if list.len() == 0 {
        seq![(key, item)]
    } else if list[0].0 == key {
        seq![(key, item)] + list.drop_first()
    } else if text_lt(key, list[0].0) {
        seq![(key, item)] + list
    } else {
        seq![list[0]] + put(list.drop_first(), key, item)
    }
}

pub open spec fn output_entries(v: Seq<Keyed<OutputValue>>) -> Seq<(Seq<char>, OutputView)> {
    v.map_values(|e: Keyed<OutputValue>| (e.key@, e.item@))
}

pub open spec fn trace_entries(v: Seq<Keyed<DerivedTraceNode>>) -> Seq<(Seq<char>, NodeView)> {
    v.map_values(|e: Keyed<DerivedTraceNode>| (e.key@, e.item@))
}

/// The place of a key: where it is, or where it belongs.
fn place_of<T>(v: &Vec<Keyed<T>>, key: &str) -> (r: (usize, bool))
    ensures
        r.0 <= v@.len(),
        forall|j: int| 0 <= j < r.0 ==> (#[trigger] v@[j]).key@ != key@ && !text_lt(key@, v@[j].key@),
        r.1 ==> r.0 < v@.len() && v@[r.0 as int].key@ == key@,
        !r.1 && r.0 < v@.len() ==> v@[r.0 as int].key@ != key@ && text_lt(
            key@,
            v@[r.0 as int].key@,
        ),
{
    let mut i: usize = 0;
    while i < v.len()
        invariant
            i <= v@.len(),
            forall|j: int|
                0 <= j < i ==> (#[trigger] v@[j]).key@ != key@ && !text_lt(key@, v@[j].key@),
        decreases v@.len() - i,
    {
        if same(v[i].key.as_str(), key) {
            return (i, true);
        }
        if precedes(key, v[i].key.as_str()) {
            return (i, false);
        }
        i = i + 1;
    }
    (i, false)
}

proof fn put_at<V>(list: Seq<(Seq<char>, V)>, key: Seq<char>, item: V, at: nat, found: bool)
    requires
        at <= list.len(),
        forall|j: int| 0 <= j < at ==> (#[trigger] list[j]).0 != key && !text_lt(key, list[j].0),
        found ==> at < list.len() && list[at as int].0 == key,
        !found && at < list.len() ==> list[at as int].0 != key && text_lt(key, list[at as int].0),
    ensures
        put(list, key, item) == if found {
            list.update(at as int, (key, item))
        } else {
            list.insert(at as int, (key, item))
        },
    decreases at,
{
    if at == 0 {
        if found {
            assert(put(list, key, item) =~= list.update(0, (key, item)));
        } else {
            assert(put(list, key, item) =~= list.insert(0, (key, item)));
        }
    } else {
        let rest = list.drop_first();
        assert forall|j: int| 0 <= j < at - 1 implies (#[trigger] rest[j]).0 != key && !text_lt(
            key,
            rest[j].0,
        ) by {
            assert(rest[j] == list[j + 1]);
        }
        if at < list.len() {
            assert(rest[at - 1] == list[at as int]);
        }
        put_at(rest, key, item, (at - 1) as nat, found);
        assert(list[0].0 != key && !text_lt(key, list[0].0));
        if found {
            assert(put(list, key, item) =~= list.update(at as int, (key, item)));
        } else {
            assert(put(list, key, item) =~= list.insert(at as int, (key, item)));
        }
    }
}

pub(crate) fn put_output(v: &mut Vec<Keyed<OutputValue>>, key: String, item: OutputValue)
    ensures
        output_entries(final(v)@) == put(output_entries(old(v)@), key@, item@),
{
    let ghost before = output_entries(v@);
    let ghost (k, x) = (key@, item@);
    let (at, found) = place_of(v, key.as_str());
    proof {
        assert forall|j: int| 0 <= j < at implies (#[trigger] before[j]).0 != k && !text_lt(
            k,
            before[j].0,
        ) by {
            assert(before[j].0 == v@[j].key@);
        }
        put_at(before, k, x, at as nat, found);
    }
    if found {
        v.set(at, Keyed { key, item });
        assert(output_entries(v@) =~= before.update(at as int, (k, x)));
    } else {
        v.insert(at, Keyed { key, item });
        assert(output_entries(v@) =~= before.insert(at as int, (k, x)));
    }
}

fn put_node(v: &mut Vec<Keyed<DerivedTraceNode>>, key: String, item: DerivedTraceNode)
    ensures
        trace_entries(final(v)@) == put(trace_entries(old(v)@), key@, item@),
{
    let ghost before = trace_entries(v@);
    let ghost (k, x) = (key@, item@);
    let (at, found) = place_of(v, key.as_str());
    proof {
        assert forall|j: int| 0 <= j < at implies (#[trigger] before[j]).0 != k && !text_lt(
            k,
            before[j].0,
        ) by {
            assert(before[j].0 == v@[j].key@);
        }
        put_at(before, k, x, at as nat, found);
    }
    if found {
        v.set(at, Keyed { key, item });
        assert(trace_entries(v@) =~= before.update(at as int, (k, x)));
    } else {
        v.insert(at, Keyed { key, item });
        assert(trace_entries(v@) =~= before.insert(at as int, (k, x)));
    }
}

/// The type of a value.
pub open spec fn type_of(value: ScalarValue) -> DType {
    match value {
        ScalarValue::Bool(_) => DType::Bool,
        ScalarValue::Integer(_) => DType::Integer,
        ScalarValue::Decimal(_) => DType::Decimal,
        ScalarValue::Text(_) => DType::Text,
        ScalarValue::Date(_) => DType::Date,
    }
}

fn value_type(value: &ScalarValue) -> (r: DType)
    ensures
        r == type_of(*value),
{
    match value {
        ScalarValue::Bool(_) => DType::Bool,
        ScalarValue::Integer(_) => DType::Integer,
        ScalarValue::Decimal(_) => DType::Decimal,
        ScalarValue::Text(_) => DType::Text,
        ScalarValue::Date(_) => DType::Date,
    }
}

/// The value of a parameter that has no index.
pub open spec fn parameter_answer(cx: Facts, name: Seq<char>) -> Result<ScalarValue, ErrorView> {
    match cx.program.parameter(name) {
        None => Err(ErrorView::UnknownParameter(name)),
        Some(parameter) => if parameter.indexed_by is Some {
            Err(
                ErrorView::TypeMismatch(
                    "parameter `"@ + name + "` is indexed; query it through a derived rule"@,
                ),
            )
        } else {
            parameter_read(cx, name, 0).value
        },
    }
}

/// The answer to a reference that names no rule: a parameter can be asked for too.
pub open spec fn parameter_output(cx: Facts, reference: Seq<char>) -> Result<
    (Seq<char>, OutputView),
    ErrorView,
> {
    match parameter_named(cx.program, reference) {
        None => Err(ErrorView::UnknownDerived(reference)),
        Some(name) => match cx.program.parameter(name) {
            None => Err(ErrorView::UnknownDerived(reference)),
            Some(parameter) => match parameter_answer(cx, name) {
                Err(error) => Err(error),
                Ok(value) => Ok(
                    (
                        match parameter.id {
                            Some(id) => id@,
                            None => name,
                        },
                        OutputView::Scalar {
                            name: parameter.name@,
                            id: opt_text(parameter.id),
                            dtype: type_of(value),
                            unit: opt_text(parameter.unit),
                            value,
                        },
                    ),
                ),
            },
        },
    }
}

/// The answer to a reference: its key and the output.
pub open spec fn output_answer(cx: Facts, ent: Seq<char>, reference: Seq<char>) -> Result<
    (Seq<char>, OutputView),
    ErrorView,
> {
    match derived_named(cx.program, reference) {
        None => parameter_output(cx, reference),
        Some(name) => match cx.program.rule(name) {
            None => Err(ErrorView::UnknownDerived(reference)),
            Some(d) => {
                let key = match d.id {
                    Some(id) => id@,
                    None => name,
                };
                match d.formula_at(cx.period.start) {
                    None => Err(
                        ErrorView::MissingDerivedFormulaVersion {
                            derived: name,
                            at: cx.period.start,
                        },
                    ),
                    Some(DerivedSemantics::Scalar(_)) => match scalar_meaning(cx, name, ent).value {
                        Err(error) => Err(error),
                        Ok(value) => Ok(
                            (
                                key,
                                OutputView::Scalar {
                                    name: d.name@,
                                    id: opt_text(d.id),
                                    dtype: d.dtype,
                                    unit: opt_text(d.unit),
                                    value,
                                },
                            ),
                        ),
                    },
                    Some(DerivedSemantics::Judgment(_)) => match judgment_meaning(
                        cx,
                        name,
                        ent,
                    ).value {
                        Err(error) => Err(error),
                        Ok(outcome) => Ok(
                            (
                                key,
                                OutputView::Judgment {
                                    name: d.name@,
                                    id: opt_text(d.id),
                                    unit: opt_text(d.unit),
                                    outcome,
                                },
                            ),
                        ),
                    },
                }
            },
        },
    }
}

/// Whether the references of the rule that is asked for end.
pub open spec fn output_ends(cx: Facts, ent: Seq<char>, reference: Seq<char>) -> bool {
    derived_named(cx.program, reference) matches Some(name) ==> scalar_terminates(cx, name, ent)
        && judgment_terminates(cx, name, ent)
}

/// The outputs of the first `n` references, or the first error.
pub open spec fn outputs_among(
    cx: Facts,
    ent: Seq<char>,
    references: Seq<Seq<char>>,
    n: nat,
) -> Result<Seq<(Seq<char>, OutputView)>, ErrorView>
    decreases n,
{
    if n == 0 || n > references.len() {
        Ok(Seq::empty())
    } else {
        match outputs_among(cx, ent, references, (n - 1) as nat) {
            Err(error) => Err(error),
            Ok(before) => match output_answer(cx, ent, references[n - 1]) {
                Err(error) => Err(error),
                Ok((key, output)) => Ok(put(before, key, output)),
            },
        }
    }
}

pub open spec fn query_facts(p: Program, data: DataSet, query: ExecutionQuery) -> Facts {
    Facts { program: p, data: data@, period: query.period@ }
}

/// The outputs of a query.
pub open spec fn query_outputs(p: Program, data: DataSet, query: ExecutionQuery) -> Result<
    Seq<(Seq<char>, OutputView)>,
    ErrorView,
> {
    outputs_among(
        query_facts(p, data, query),
        query.entity_id@,
        texts(query.outputs@),
        query.outputs@.len(),
    )
}

/// The error of the first of the first `n` queries that has one.
pub open spec fn queries_error(
    p: Program,
    data: DataSet,
    queries: Seq<ExecutionQuery>,
    n: nat,
) -> Option<ErrorView>
    decreases n,
{
    if n == 0 || n > queries.len() {
        None
    } else {
        match queries_error(p, data, queries, (n - 1) as nat) {
            Some(error) => Some(error),
            None => match query_outputs(p, data, queries[n - 1]) {
                Err(error) => Some(error),
                Ok(_) => None,
            },
        }
    }
}

proof fn queries_error_stays(
    p: Program,
    data: DataSet,
    queries: Seq<ExecutionQuery>,
    n: nat,
    m: nat,
)
    requires
        n <= m <= queries.len(),
        queries_error(p, data, queries, n) is Some,
    ensures
        queries_error(p, data, queries, m) == queries_error(p, data, queries, n),
    decreases m,
{
    if n < m {
        queries_error_stays(p, data, queries, n, (m - 1) as nat);
    }
}

proof fn outputs_error_stays(
    cx: Facts,
    ent: Seq<char>,
    references: Seq<Seq<char>>,
    n: nat,
    m: nat,
)
    requires
        n <= m <= references.len(),
        outputs_among(cx, ent, references, n) is Err,
    ensures
        outputs_among(cx, ent, references, m) == outputs_among(cx, ent, references, n),
    decreases m,
{
    if n < m {
        outputs_error_stays(cx, ent, references, n, (m - 1) as nat);
    }
}

/// A byte as two hexadecimal digits.
pub open spec fn hex_digit(n: u8) -> char {
    if n < 10 {
        (48 + n) as char
    } else {
        (87 + n) as char
    }
}

/// The first `n` bytes as hexadecimal digits.
pub open spec fn hex_text(bytes: Seq<u8>, n: nat) -> Seq<char>
    decreases n,
{
    if n == 0 || n > bytes.len() {
        Seq::empty()
    } else {
        hex_text(bytes, (n - 1) as nat).push(hex_digit(bytes[n - 1] / 16)).push(
            hex_digit(bytes[n - 1] % 16),
        )
    }
}

/// The key of a rule in a trace: its public name, and for an entity other than that of the
/// query the entity's id, in hexadecimal digits of its bytes.
pub open spec fn trace_key(p: Program, key: RuleKey, root: Seq<char>) -> Seq<char> {
    if key.entity_id == root {
        rule_text(p, key.derived)
    } else {
        let bytes = vstd::utf8::encode_utf8(key.entity_id);
        rule_text(p, key.derived) + "@entity:"@ + hex_text(bytes, bytes.len())
    }
}

fn hex_char(n: u8) -> (r: char)
    requires
        n < 16,
    ensures
        r == hex_digit(n),
{
    if n < 10 {
        (48 + n) as char
    } else {
        (87 + n) as char
    }
}

/// The key of a rule in a trace.
pub fn trace_instance_key(program: &Program, key: &CacheKey, query_entity_id: &str) -> (r: String)
    ensures
        r@ == trace_key(*program, key@, query_entity_id@),
{
    let mut text = program.public_derived_key(key.derived.as_str());
    if same(key.entity_id.as_str(), query_entity_id) {
        return text;
    }
    text.append("@entity:");
    let bytes = key.entity_id.as_str().as_bytes();
    let ghost start = text@;
    let mut i: usize = 0;
    assert(text@ =~= start + hex_text(bytes@, 0));
    while i < bytes.len()
        invariant
            i <= bytes@.len(),
            text@ == start + hex_text(bytes@, i as nat),
        decreases bytes@.len() - i,
    {
        let byte: u8 = bytes[i];
        text.push(hex_char(byte / 16));
        text.push(hex_char(byte % 16));
        assert(text@ =~= start + hex_text(bytes@, (i + 1) as nat));
        i = i + 1;
    }
    text
}

pub open spec fn skip_reason(reason: TraceSkipReason) -> NotEvaluatedReason {
    match reason {
        TraceSkipReason::ShortCircuit => NotEvaluatedReason::ShortCircuit,
        TraceSkipReason::BranchNotSelected => NotEvaluatedReason::BranchNotSelected,
    }
}

fn trace_skip_reason(reason: TraceSkipReason) -> (r: NotEvaluatedReason)
    ensures
        r == skip_reason(reason),
{
    match reason {
        TraceSkipReason::ShortCircuit => NotEvaluatedReason::ShortCircuit,
        TraceSkipReason::BranchNotSelected => NotEvaluatedReason::BranchNotSelected,
    }
}

/// A skipped rule or parameter as a node shows it.
pub open spec fn shown_skip(p: Program, root: Seq<char>, event: TraceEvent) -> (
    Seq<char>,
    NotEvaluatedReason,
) {
    match event {
        TraceEvent::SkippedRule { key, reason } => (trace_key(p, key, root), skip_reason(reason)),
        TraceEvent::SkippedParameter { parameter, reason } => (
            parameter_text(p, parameter),
            skip_reason(reason),
        ),
        _ => arbitrary(),
    }
}

/// A parameter read as a node shows it; nothing where the parameter is not declared.
pub open spec fn shown_read(p: Program, event: TraceEvent) -> Option<ReadView> {
    match event {
        TraceEvent::Read { parameter, index, value, effective_from, effective_to } => {
            match p.parameter(parameter) {
                Some(declared) => Some(
                    ReadView {
                        parameter: parameter_text(p, parameter),
                        name: declared.name@,
                        id: opt_text(declared.id),
                        index,
                        value,
                        unit: opt_text(declared.unit),
                        effective_from,
                        effective_to,
                        source: opt_text(declared.source),
                        source_url: opt_text(declared.source_url),
                    },
                ),
                None => None,
            }
        },
        _ => None,
    }
}

/// The first `n` parameter reads as a node shows them.
pub open spec fn shown_reads(p: Program, events: Seq<TraceEvent>, n: nat) -> Seq<ReadView>
    decreases n,
{
    if n == 0 || n > events.len() {
        Seq::empty()
    } else {
        match shown_read(p, events[n - 1]) {
            Some(read) => shown_reads(p, events, (n - 1) as nat).push(read),
            None => shown_reads(p, events, (n - 1) as nat),
        }
    }
}

pub open spec fn shown_keys(p: Program, root: Seq<char>, keys: Seq<RuleKey>) -> Seq<Seq<char>> {
    keys.map_values(|key: RuleKey| trace_key(p, key, root))
}

pub open spec fn shown_skips(p: Program, root: Seq<char>, events: Seq<TraceEvent>) -> Seq<
    (Seq<char>, NotEvaluatedReason),
> {
    events.map_values(|event: TraceEvent| shown_skip(p, root, event))
}

/// The node of an evaluated rule. There is none where the kind of its value is not that of
/// its formula.
pub open spec fn instance_node(
    p: Program,
    root: Seq<char>,
    period: PeriodView,
    instance: EvaluatedTraceInstance,
) -> Option<NodeView> {
    match p.rule(instance.key@.derived) {
        None => None,
        Some(d) => match d.formula_at(period.start) {
            None => None,
            Some(formula) => {
                let shown = match (instance.value, formula) {
                    (
                        EvaluatedTraceValue::Scalar { value, pre_rounding_value },
                        DerivedSemantics::Scalar(e),
                    ) => Some(
                        (
                            TraceNodeValue::Scalar {
                                dtype: d.dtype,
                                value,
                                rounding: match d.rounding {
                                    Some(rounding) => Some(rounding.mode),
                                    None => None,
                                },
                                pre_rounding_value,
                            },
                            scalar_text(p, e),
                        ),
                    ),
                    (EvaluatedTraceValue::Judgment(outcome), DerivedSemantics::Judgment(e)) => Some(
                        (TraceNodeValue::Judgment { outcome }, judgment_text(p, e)),
                    ),
                    _ => None,
                };
                match shown {
                    None => None,
                    Some((value, expression)) => Some(
                        NodeView {
                            name: d.name@,
                            id: opt_text(d.id),
                            entity_id: instance.key@.entity_id,
                            unit: opt_text(d.unit),
                            value,
                            source: opt_text(d.source),
                            source_url: opt_text(d.source_url),
                            executed_expression: expression,
                            parameter_reads: shown_reads(
                                p,
                                instance.execution@.reads,
                                instance.execution@.reads.len(),
                            ),
                            dependencies: shown_keys(p, root, instance.execution@.dependencies),
                            not_evaluated_dependencies: shown_skips(
                                p,
                                root,
                                instance.execution@.skipped,
                            ),
                        },
                    ),
                }
            },
        },
    }
}

/// The trace of the first `n` evaluated rules.
pub open spec fn trace_among(
    p: Program,
    root: Seq<char>,
    period: PeriodView,
    instances: Seq<EvaluatedTraceInstance>,
    n: nat,
) -> Seq<(Seq<char>, NodeView)>
    decreases n,
{
    if n == 0 || n > instances.len() {
        Seq::empty()
    } else {
        let before = trace_among(p, root, period, instances, (n - 1) as nat);
        match instance_node(p, root, period, instances[n - 1]) {
            Some(node) => put(before, trace_key(p, instances[n - 1].key@, root), node),
            None => before,
        }
    }
}

/// Whether the list has the rules that belong to the trace of the root entity, ascending.
pub open spec fn is_evaluated<'a>(
    engine: Engine<'a>,
    root: Seq<char>,
    period: PeriodView,
    list: Seq<EvaluatedTraceInstance>,
) -> bool {
    &&& instances_ascend(instance_keys(list))
    &&& forall|k: int| 0 <= k < list.len() ==> engine.states(#[trigger] list[k])
    &&& forall|key: RuleKey| #[trigger]
        instance_keys(list).contains(key) <==> engine.is_trace_instance(period, root, key)
}

/// Whether a trace is that of the root entity over a period.
pub open spec fn is_trace<'a>(
    engine: Engine<'a>,
    root: Seq<char>,
    period: PeriodView,
    trace: Seq<(Seq<char>, NodeView)>,
) -> bool {
    exists|list: Seq<EvaluatedTraceInstance>| #[trigger]
        is_evaluated(engine, root, period, list) && trace == trace_among(
            engine.program_view(),
            root,
            period,
            list,
            list.len(),
        )
}

fn show_keys(program: &Program, keys: &Vec<CacheKey>, root: &str) -> (r: Vec<String>)
    ensures
        texts(r@) == shown_keys(*program, root@, keys@.map_values(|k: CacheKey| k@)),
{
    let ghost views = keys@.map_values(|k: CacheKey| k@);
    let ghost all = shown_keys(*program, root@, views);
    let mut out: Vec<String> = Vec::new();
    let mut i: usize = 0;
    while i < keys.len()
        invariant
            i <= keys@.len(),
            views == keys@.map_values(|k: CacheKey| k@),
            all == shown_keys(*program, root@, views),
            texts(out@) =~= all.take(i as int),
        decreases keys@.len() - i,
    {
        let ghost before = out@;
        out.push(trace_instance_key(program, &keys[i], root));
        proof {
            assert(views[i as int] == keys@[i as int]@);
            assert(texts(out@) =~= texts(before).push(all[i as int]));
            assert(all.take(i + 1) =~= all.take(i as int).push(all[i as int]));
        }
        i = i + 1;
    }
    assert(all.take(i as int) =~= all);
    out
}

fn show_skips(program: &Program, skips: &Vec<SkippedTraceDependency>, root: &str) -> (r: Vec<
    NotEvaluatedDependency,
>)
    ensures
        skipped_views(r@) == shown_skips(
            *program,
            root@,
            skips@.map_values(|d: SkippedTraceDependency| d@),
        ),
{
    let ghost views = skips@.map_values(|d: SkippedTraceDependency| d@);
    let ghost all = shown_skips(*program, root@, views);
    let mut out: Vec<NotEvaluatedDependency> = Vec::new();
    let mut i: usize = 0;
    while i < skips.len()
        invariant
            i <= skips@.len(),
            views == skips@.map_values(|d: SkippedTraceDependency| d@),
            all == shown_skips(*program, root@, views),
            skipped_views(out@) =~= all.take(i as int),
        decreases skips@.len() - i,
    {
        let ghost before = out@;
        let shown = match &skips[i] {
            SkippedTraceDependency::Derived { key, reason } => NotEvaluatedDependency {
                dependency: trace_instance_key(program, key, root),
                reason: trace_skip_reason(*reason),
            },
            SkippedTraceDependency::Parameter { parameter, reason } => NotEvaluatedDependency {
                dependency: public_parameter_key(program, parameter.as_str()),
                reason: trace_skip_reason(*reason),
            },
        };
        out.push(shown);
        proof {
            assert(views[i as int] == skips@[i as int]@);
            assert(skipped_views(out@) =~= skipped_views(before).push(all[i as int]));
            assert(all.take(i + 1) =~= all.take(i as int).push(all[i as int]));
        }
        i = i + 1;
    }
    assert(all.take(i as int) =~= all);
    out
}

fn show_reads(program: &Program, reads: &Vec<ParameterTraceRead>) -> (r: Vec<TraceParameterRead>)
    ensures
        read_views(r@) == shown_reads(
            *program,
            reads@.map_values(|r: ParameterTraceRead| r@),
            reads@.len(),
        ),
{
    let ghost views = reads@.map_values(|r: ParameterTraceRead| r@);
    let mut out: Vec<TraceParameterRead> = Vec::new();
    let mut i: usize = 0;
    assert(read_views(out@) =~= shown_reads(*program, views, 0));
    while i < reads.len()
        invariant
            i <= reads@.len(),
            views == reads@.map_values(|r: ParameterTraceRead| r@),
            read_views(out@) == shown_reads(*program, views, i as nat),
        decreases reads@.len() - i,
    {
        let read = &reads[i];
        assert(views[i as int] == read@);
        if let Some(parameter) = find_named(&program.parameters, read.parameter.as_str()) {
            let ghost before = out@;
            let shown = TraceParameterRead {
                parameter: public_parameter_key(program, read.parameter.as_str()),
                name: parameter.name.clone(),
                id: parameter.id.clone(),
                index: read.index,
                value: read.value.duplicate(),
                unit: parameter.unit.clone(),
                effective_from: read.effective_from,
                effective_to: read.effective_to,
                source: parameter.source.clone(),
                source_url: parameter.source_url.clone(),
            };
            out.push(shown);
            assert(read_views(out@) =~= read_views(before).push(shown@));
        }
        i = i + 1;
    }
    out
}

fn node_of(
    program: &Program,
    root: &str,
    period: &Period,
    instance: EvaluatedTraceInstance,
) -> (r: Option<DerivedTraceNode>)
    ensures
        instance_node(*program, root@, period@, instance) == match r {
            Some(node) => Some(node@),
            None => None,
        },
{
    let derived = match find_named(&program.derived, instance.key.derived.as_str()) {
        Some(derived) => derived,
        None => {
            return None;
        },
    };
    let semantics = match derived.semantics_at(period) {
        Some(semantics) => semantics,
        None => {
            return None;
        },
    };
    let (value, executed_expression) = match (instance.value, semantics) {
        (
            EvaluatedTraceValue::Scalar { value, pre_rounding_value },
            DerivedSemantics::Scalar(e),
        ) => {
            let rounding = match &derived.rounding {
                Some(rounding) => Some(rounding.mode),
                None => None,
            };
            (
                TraceNodeValue::Scalar { dtype: derived.dtype, value, rounding, pre_rounding_value },
                format_scalar_expression(program, e),
            )
        },
        (EvaluatedTraceValue::Judgment(outcome), DerivedSemantics::Judgment(e)) => (
            TraceNodeValue::Judgment { outcome },
            format_judgment_expression(program, e),
        ),
        _ => {
            return None;
        },
    };
    let execution = &instance.execution;
    let node = DerivedTraceNode {
        name: derived.name.clone(),
        id: derived.id.clone(),
        entity_id: instance.key.entity_id.clone(),
        unit: derived.unit.clone(),
        value,
        source: derived.source.clone(),
        source_url: derived.source_url.clone(),
        executed_expression,
        parameter_reads: show_reads(program, &execution.parameter_reads),
        dependencies: show_keys(program, &execution.dependencies, root),
        not_evaluated_dependencies: show_skips(
            program,
            &execution.not_evaluated_dependencies,
            root,
        ),
    };
    Some(node)
}

/// The trace of an entity over a period: the rules that were evaluated for it, and those
/// that they led to.
pub fn collect_trace<'a>(
    program: &Program,
    engine: &Engine<'a>,
    entity_id: &str,
    period: &Period,
) -> (r: Vec<Keyed<DerivedTraceNode>>)
    requires
        engine.program_view() == *program,
    ensures
        is_trace(*engine, entity_id@, period@, trace_entries(r@)),
{
    let mut instances = engine.evaluated_trace_instances(period, entity_id);
    let ghost list = instances@;
    let mut trace: Vec<Keyed<DerivedTraceNode>> = Vec::new();
    let mut i: usize = 0;
    proof {
        assert(is_evaluated(*engine, entity_id@, period@, list));
        assert(trace_entries(trace@) =~= trace_among(*program, entity_id@, period@, list, 0));
    }
    while i < instances.len()
        invariant
            i <= list.len(),
            instances@.len() == list.len(),
            forall|k: int| i <= k < list.len() ==> instances@[k] == list[k],
            trace_entries(trace@) == trace_among(
                *program,
                entity_id@,
                period@,
                list,
                i as nat,
            ),
        decreases list.len() - i,
    {
        let mut instance = EvaluatedTraceInstance {
            key: CacheKey::new("", "", period),
            value: EvaluatedTraceValue::Judgment(JudgmentOutcome::Undetermined),
            execution: crate::trace::NodeExecutionTrace::new(),
        };
        instances.set_and_swap(i, &mut instance);
        assert(instance == list[i as int]);
        let key = trace_instance_key(program, &instance.key, entity_id);
        if let Some(node) = node_of(program, entity_id, period, instance) {
            put_node(&mut trace, key, node);
        }
        i = i + 1;
    }
    trace
}

pub open spec fn answer_of(r: Result<(String, OutputValue), EvalError>) -> Result<
    (Seq<char>, OutputView),
    ErrorView,
> {
    match r {
        Ok((key, output)) => Ok((key@, output@)),
        Err(error) => Err(error@),
    }
}

fn answer_parameter<'a>(
    program: &Program,
    engine: &mut Engine<'a>,
    period: &Period,
    reference: &str,
) -> (r: Result<(String, OutputValue), EvalError>)
    requires
        old(engine).program_view() == *program,
    ensures
        *final(engine) == *old(engine),
        answer_of(r) == parameter_output(old(engine).facts(period@), reference@),
{
    let name = match program.resolve_parameter_name(reference) {
        Some(name) => name,
        None => {
            return Err(EvalError::UnknownDerived(owned(reference)));
        },
    };
    let parameter = match find_named(&program.parameters, name.as_str()) {
        Some(parameter) => parameter,
        None => {
            return Err(EvalError::UnknownDerived(owned(reference)));
        },
    };
    let value = match engine.evaluate_parameter(name.as_str(), period) {
        Ok(value) => value,
        Err(error) => {
            return Err(error);
        },
    };
    let key = match &parameter.id {
        Some(id) => id.clone(),
        None => name,
    };
    let output = OutputValue::Scalar {
        name: parameter.name.clone(),
        id: parameter.id.clone(),
        dtype: value_type(&value),
        unit: parameter.unit.clone(),
        value,
    };
    Ok((key, output))
}

/// Whether the engine remembers the rule that was asked for.
pub open spec fn remembers<'a>(
    engine: Engine<'a>,
    ent: Seq<char>,
    period: PeriodView,
    reference: Seq<char>,
) -> bool {
    derived_named(engine.program_view(), reference) matches Some(name) ==> engine.is_remembered(
        RuleKey { derived: name, entity_id: ent, period },
    )
}

fn answer_output<'a>(
    program: &Program,
    engine: &mut Engine<'a>,
    entity_id: &str,
    period: &Period,
    reference: &str,
) -> (r: Result<(String, OutputValue), EvalError>)
    requires
        old(engine).well_formed(),
        old(engine).program_view() == *program,
        output_ends(old(engine).facts(period@), entity_id@, reference@),
    ensures
        final(engine).extends(old(engine)),
        answer_of(r) == output_answer(old(engine).facts(period@), entity_id@, reference@),
        r is Ok ==> remembers(*final(engine), entity_id@, period@, reference@),
        r is Ok ==> match asked_rule(*program, entity_id@, period@, reference@) {
            Some(rule) => final(engine).grown(old(engine), rule),
            None => *final(engine) == *old(engine),
        },
{
    let name = match program.resolve_derived_name(reference) {
        Some(name) => name,
        None => {
            return answer_parameter(program, engine, period, reference);
        },
    };
    let derived = match find_named(&program.derived, name.as_str()) {
        Some(derived) => derived,
        None => {
            return Err(EvalError::UnknownDerived(owned(reference)));
        },
    };
    let key = match &derived.id {
        Some(id) => id.clone(),
        None => name.clone(),
    };
    match derived.semantics_at(period) {
        None => Err(EvalError::MissingDerivedFormulaVersion { derived: name, at: period.start }),
        Some(DerivedSemantics::Scalar(_)) => {
            match engine.evaluate_scalar(name.as_str(), entity_id, period) {
                Err(error) => Err(error),
                Ok(value) => {
                    let output = OutputValue::Scalar {
                        name: derived.name.clone(),
                        id: derived.id.clone(),
                        dtype: derived.dtype,
                        unit: derived.unit.clone(),
                        value,
                    };
                    Ok((key, output))
                },
            }
        },
        Some(DerivedSemantics::Judgment(_)) => {
            match engine.evaluate_judgment(name.as_str(), entity_id, period) {
                Err(error) => Err(error),
                Ok(outcome) => {
                    let output = OutputValue::Judgment {
                        name: derived.name.clone(),
                        id: derived.id.clone(),
                        unit: derived.unit.clone(),
                        outcome,
                    };
                    Ok((key, output))
                },
            }
        },
    }
}

/// The rule that a reference asks for.
pub open spec fn asked_rule(
    p: Program,
    ent: Seq<char>,
    period: PeriodView,
    reference: Seq<char>,
) -> Option<RuleKey> {
    match derived_named(p, reference) {
        Some(name) => Some(RuleKey { derived: name, entity_id: ent, period }),
        None => None,
    }
}

/// Whether the outputs of a query reach a rule.
pub open spec fn asks_for(p: Program, data: DataSet, query: ExecutionQuery, key: RuleKey) -> bool {
    asks_for_among(p, data, query, query.outputs@.len(), key)
}

/// Whether the first `n` outputs of a query reach a rule.
pub open spec fn asks_for_among(
    p: Program,
    data: DataSet,
    query: ExecutionQuery,
    n: nat,
    key: RuleKey,
) -> bool {
    exists|k: int| #![trigger texts(query.outputs@)[k]]
        0 <= k < n && (asked_rule(
            p,
            query.entity_id@,
            query.period@,
            texts(query.outputs@)[k],
        ) matches Some(rule) && reaches(p, data, rule, key))
}

/// Whether the first `n` queries reach a rule.
pub open spec fn is_asked(
    p: Program,
    data: DataSet,
    queries: Seq<ExecutionQuery>,
    n: nat,
    key: RuleKey,
) -> bool {
    exists|j: int| 0 <= j < n && #[trigger] asks_for(p, data, queries[j], key)
}

/// Whether an engine that evaluated what the first queries ask for, and nothing else, gives the
/// trace of a query.
pub open spec fn is_query_trace<'a>(
    engine: Engine<'a>,
    p: Program,
    data: DataSet,
    queries: Seq<ExecutionQuery>,
    i: int,
    trace: Seq<(Seq<char>, NodeView)>,
) -> bool {
    &&& engine.well_formed()
    &&& engine.program_view() == p
    &&& engine.data_view() == data
    &&& forall|key: RuleKey| #[trigger]
        engine.is_remembered(key) <==> is_asked(p, data, queries, (i + 1) as nat, key)
    &&& is_trace(engine, queries[i].entity_id@, queries[i].period@, trace)
}

/// Whether a result answers a query: with its outputs, and with the trace of an engine
/// that evaluated what this query and those before it ask for.
pub open spec fn answers<'a>(
    engine: Engine<'a>,
    p: Program,
    data: DataSet,
    queries: Seq<ExecutionQuery>,
    i: int,
    result: QueryResult,
) -> bool {
    &&& states_answer(p, data, queries[i], result)
    &&& is_query_trace(engine, p, data, queries, i, trace_entries(result.trace@))
}

/// Whether a result states the outputs of a query.
pub open spec fn states_answer(
    p: Program,
    data: DataSet,
    query: ExecutionQuery,
    result: QueryResult,
) -> bool {
    &&& result.entity_id@ == query.entity_id@
    &&& result.period@ == query.period@
    &&& result.assessment_date == query.assessment_date
    &&& query_outputs(p, data, query) == Ok::<Seq<(Seq<char>, OutputView)>, ErrorView>(
        output_entries(result.outputs@),
    )
}

/// Whether a result answers one of the queries.
pub open spec fn is_answer(
    p: Program,
    data: DataSet,
    queries: Seq<ExecutionQuery>,
    i: int,
    result: QueryResult,
) -> bool {
    exists|engine: Engine<'static>| #[trigger] answers(engine, p, data, queries, i, result)
}

/// Whether the references of every rule that is asked for end.
pub open spec fn queries_end(p: Program, data: DataSet, queries: Seq<ExecutionQuery>) -> bool {
    forall|i: int, k: int|
        0 <= i < queries.len() && 0 <= k < queries[i].outputs@.len() ==> #[trigger] output_ends(
            query_facts(p, data, queries[i]),
            queries[i].entity_id@,
            texts(queries[i].outputs@)[k],
        )
}

/// Where the references of a program end, those of every query do.
pub proof fn ending_references_answer_queries(
    p: Program,
    data: DataSet,
    queries: Seq<ExecutionQuery>,
)
    requires
        references_end(p),
    ensures
        queries_end(p, data, queries),
{
    assert forall|i: int, k: int|
        0 <= i < queries.len() && 0 <= k < queries[i].outputs@.len() implies #[trigger] output_ends(
        query_facts(p, data, queries[i]),
        queries[i].entity_id@,
        texts(queries[i].outputs@)[k],
    ) by {
        if let Some(name) = derived_named(p, texts(queries[i].outputs@)[k]) {
            ending_references_give_values(
                query_facts(p, data, queries[i]),
                name,
                queries[i].entity_id@,
            );
        }
    }
}

/// What comes of explaining queries.
pub open spec fn explained(
    p: Program,
    data: DataSet,
    queries: Seq<ExecutionQuery>,
    metadata: ExecutionMetadata,
    r: Result<ExecutionResponse, ApiError>,
) -> bool {
    match queries_error(p, data, queries, queries.len()) {
        Some(error) => match r {
            Err(ApiError::Eval(e)) => e@ == error,
            _ => false,
        },
        None => match r {
            Ok(response) => {
                &&& response.metadata == metadata
                &&& response.results@.len() == queries.len()
                &&& forall|i: int|
                    0 <= i < queries.len() ==> is_answer(
                        p,
                        data,
                        queries,
                        i,
                        #[trigger] response.results@[i],
                    )
            },
            Err(_) => false,
        },
    }
}

fn explain_query<'a>(program: &Program, engine: &mut Engine<'a>, query: &ExecutionQuery) -> (r:
    Result<QueryResult, EvalError>)
    requires
        old(engine).well_formed(),
        old(engine).program_view() == *program,
        forall|k: int|
            0 <= k < query.outputs@.len() ==> #[trigger] output_ends(
                query_facts(*program, old(engine).data_view(), *query),
                query.entity_id@,
                texts(query.outputs@)[k],
            ),
    ensures
        final(engine).extends(old(engine)),
        match query_outputs(*program, old(engine).data_view(), *query) {
            Err(error) => match r {
                Err(e) => e@ == error,
                Ok(_) => false,
            },
            Ok(_) => match r {
                Ok(result) => {
                    &&& states_answer(*program, old(engine).data_view(), *query, result)
                    &&& is_trace(
                        *final(engine),
                        query.entity_id@,
                        query.period@,
                        trace_entries(result.trace@),
                    )
                    &&& forall|key: RuleKey| #[trigger]
                        final(engine).is_remembered(key) <==> old(engine).is_remembered(key)
                            || asks_for(*program, old(engine).data_view(), *query, key)
                },
                Err(_) => false,
            },
        },
{
    let ghost data = engine.data_view();
    let ghost cx = query_facts(*program, data, *query);
    let ghost ent = query.entity_id@;
    let ghost references = texts(query.outputs@);
    let period = &query.period;
    let mut outputs: Vec<Keyed<OutputValue>> = Vec::new();
    let mut i: usize = 0;
    assert(output_entries(outputs@) =~= Seq::empty());
    while i < query.outputs.len()
        invariant
            i <= query.outputs@.len(),
            *period == query.period,
            references == texts(query.outputs@),
            references.len() == query.outputs@.len(),
            data == old(engine).data_view(),
            cx == query_facts(*program, data, *query),
            ent == query.entity_id@,
            engine.extends(old(engine)),
            engine.program_view() == *program,
            engine.data_view() == data,
            forall|k: int|
                0 <= k < query.outputs@.len() ==> #[trigger] output_ends(cx, ent, references[k]),
            forall|k: int|
                0 <= k < i ==> remembers(*engine, ent, period@, #[trigger] references[k]),
            forall|key: RuleKey| #[trigger]
                engine.is_remembered(key) ==> old(engine).is_remembered(key) || asks_for_among(
                    *program,
                    data,
                    *query,
                    i as nat,
                    key,
                ),
            outputs_among(cx, ent, references, i as nat) == Ok::<
                Seq<(Seq<char>, OutputView)>,
                ErrorView,
            >(output_entries(outputs@)),
        decreases query.outputs@.len() - i,
    {
        let ghost before = *engine;
        assert(references[i as int] == query.outputs@[i as int]@);
        assert(output_ends(cx, ent, references[i as int]));
        match answer_output(
            program,
            engine,
            query.entity_id.as_str(),
            period,
            query.outputs[i].as_str(),
        ) {
            Ok((key, output)) => {
                put_output(&mut outputs, key, output);
            },
            Err(error) => {
                proof {
                    assert(outputs_among(cx, ent, references, (i + 1) as nat) == Err::<
                        Seq<(Seq<char>, OutputView)>,
                        ErrorView,
                    >(error@));
                    outputs_error_stays(cx, ent, references, (i + 1) as nat, references.len());
                }
                return Err(error);
            },
        }
        assert forall|k: int| 0 <= k < i + 1 implies remembers(
            *engine,
            ent,
            period@,
            #[trigger] references[k],
        ) by {
            if k < i {
                assert(remembers(before, ent, period@, references[k]));
            }
        }
        proof {
            reveal(Engine::grown);
            assert forall|key: RuleKey| #[trigger] engine.is_remembered(key) implies old(
                engine,
            ).is_remembered(key) || asks_for_among(*program, data, *query, (i + 1) as nat, key) by {
                let rule = asked_rule(*program, ent, period@, references[i as int]);
                if before.is_remembered(key) {
                    if !old(engine).is_remembered(key) {
                        assert(asks_for_among(*program, data, *query, i as nat, key));
                    }
                } else {
                    assert(rule is Some);
                    assert(reaches(*program, data, rule->Some_0, key));
                    assert(texts(query.outputs@)[i as int] == references[i as int]);
                }
            }
        }
        i = i + 1;
    }
    let trace = collect_trace(program, engine, query.entity_id.as_str(), period);
    let result = QueryResult {
        entity_id: query.entity_id.clone(),
        period: query.period.duplicate(),
        assessment_date: query.assessment_date,
        outputs,
        trace,
    };
    proof {
        assert forall|key: RuleKey| #[trigger] engine.is_remembered(key) <==> old(
            engine,
        ).is_remembered(key) || asks_for(*program, data, *query, key) by {
            if asks_for(*program, data, *query, key) {
                let k = choose|k: int| #![trigger texts(query.outputs@)[k]]
                    0 <= k < query.outputs@.len() && (asked_rule(
                        *program,
                        ent,
                        period@,
                        texts(query.outputs@)[k],
                    ) matches Some(rule) && reaches(*program, data, rule, key));
                assert(remembers(*engine, ent, period@, references[k]));
                let rule = asked_rule(*program, ent, period@, references[k])->Some_0;
                engine.remembered_is_reached(rule, key);
            }
        }
    }
    Ok(result)
}

/// Answers queries rule by rule, with a trace. The rules that are asked for have values or
/// errors: their references end.
pub fn execute_explain(
    program: &Program,
    dataset: &DataSet,
    queries: &Vec<ExecutionQuery>,
    metadata: ExecutionMetadata,
) -> (r: Result<ExecutionResponse, ApiError>)
    requires
        queries_end(*program, *dataset, queries@),
    ensures
        explained(*program, *dataset, queries@, metadata, r),
{
    let mut engine = Engine::new(program, dataset);
    proof {
        assert forall|key: RuleKey| !#[trigger] engine.is_remembered(key) by {
            assert(engine.scalar_at(key) is None && engine.judgment_at(key) is None);
        }
    }
    let mut results: Vec<QueryResult> = Vec::new();
    let mut i: usize = 0;
    while i < queries.len()
        invariant
            i <= queries@.len(),
            engine.well_formed(),
            engine.program_view() == *program,
            engine.data_view() == *dataset,
            queries_end(*program, *dataset, queries@),
            queries_error(*program, *dataset, queries@, i as nat) is None,
            results@.len() == i,
            forall|key: RuleKey| #[trigger]
                engine.is_remembered(key) <==> is_asked(
                    *program,
                    *dataset,
                    queries@,
                    i as nat,
                    key,
                ),
            forall|k: int|
                0 <= k < i ==> is_answer(
                    *program,
                    *dataset,
                    queries@,
                    k,
                    #[trigger] results@[k],
                ),
        decreases queries@.len() - i,
    {
        let ghost before = engine;
        match explain_query(program, &mut engine, &queries[i]) {
            Ok(result) => {
                proof {
                    assert forall|key: RuleKey| #[trigger] engine.is_remembered(key) <==> is_asked(
                        *program,
                        *dataset,
                        queries@,
                        (i + 1) as nat,
                        key,
                    ) by {
                        if is_asked(*program, *dataset, queries@, (i + 1) as nat, key) {
                            let j = choose|j: int|
                                0 <= j < i + 1 && #[trigger] asks_for(
                                    *program,
                                    *dataset,
                                    queries@[j],
                                    key,
                                );
                            if j < i {
                                assert(is_asked(*program, *dataset, queries@, i as nat, key));
                                assert(before.is_remembered(key));
                            }
                        }
                        if engine.is_remembered(key) {
                            if before.is_remembered(key) {
                                let j = choose|j: int|
                                    0 <= j < i && #[trigger] asks_for(
                                        *program,
                                        *dataset,
                                        queries@[j],
                                        key,
                                    );
                                assert(asks_for(*program, *dataset, queries@[j], key));
                            } else {
                                assert(asks_for(*program, *dataset, queries@[i as int], key));
                            }
                        }
                    }
                    assert(answers(engine, *program, *dataset, queries@, i as int, result));
                }
                results.push(result);
            },
            Err(error) => {
                proof {
                    assert(queries_error(*program, *dataset, queries@, (i + 1) as nat) == Some(
                        error@,
                    ));
                    queries_error_stays(
                        *program,
                        *dataset,
                        queries@,
                        (i + 1) as nat,
                        queries@.len(),
                    );
                }
                return Err(ApiError::Eval(error));
            },
        }
        i = i + 1;
    }
    Ok(ExecutionResponse { metadata, results })
}

/// Whether a list has an item under a key.
pub open spec fn has_key<V>(list: Seq<(Seq<char>, V)>, key: Seq<char>) -> bool {
    exists|i: int| 0 <= i < list.len() && (#[trigger] list[i]).0 == key
}

proof fn put_has_key<V>(list: Seq<(Seq<char>, V)>, key: Seq<char>, item: V)
    ensures
        has_key(put(list, key, item), key),
        forall|other: Seq<char>| #[trigger]
            has_key(list, other) ==> has_key(put(list, key, item), other),
    decreases list.len(),
{
    let after = put(list, key, item);
    if list.len() == 0 || list[0].0 == key || text_lt(key, list[0].0) {
        assert(after[0].0 == key);
        assert forall|other: Seq<char>| #[trigger] has_key(list, other) implies has_key(
            after,
            other,
        ) by {
            let i = choose|i: int| 0 <= i < list.len() && (#[trigger] list[i]).0 == other;
            if list[0].0 == key {
                if i > 0 {
                    assert(after[i] == list[i]);
                } else {
                    assert(after[0].0 == other);
                }
            } else {
                assert(after[i + 1] == list[i]);
            }
        }
    } else {
        let rest = list.drop_first();
        let put_rest = put(rest, key, item);
        put_has_key(rest, key, item);
        let k = choose|k: int| 0 <= k < put_rest.len() && (#[trigger] put_rest[k]).0 == key;
        assert(after[k + 1].0 == key);
        assert forall|other: Seq<char>| #[trigger] has_key(list, other) implies has_key(
            after,
            other,
        ) by {
            let i = choose|i: int| 0 <= i < list.len() && (#[trigger] list[i]).0 == other;
            if i == 0 {
                assert(after[0] == list[0]);
            } else {
                assert(rest[i - 1] == list[i]);
                assert(has_key(rest, other));
                let j = choose|j: int|
                    0 <= j < put_rest.len() && (#[trigger] put_rest[j]).0 == other;
                assert(after[j + 1] == put_rest[j]);
            }
        }
    }
}

proof fn trace_has_node(
    p: Program,
    root: Seq<char>,
    period: PeriodView,
    list: Seq<EvaluatedTraceInstance>,
    n: nat,
    k: int,
)
    requires
        0 <= k < n <= list.len(),
        instance_node(p, root, period, list[k]) is Some,
    ensures
        has_key(trace_among(p, root, period, list, n), trace_key(p, list[k].key@, root)),
    decreases n,
{
    let before = trace_among(p, root, period, list, (n - 1) as nat);
    if k < n - 1 {
        trace_has_node(p, root, period, list, (n - 1) as nat, k);
    }
    if let Some(node) = instance_node(p, root, period, list[n - 1]) {
        put_has_key(before, trace_key(p, list[n - 1].key@, root), node);
    }
}

/// An evaluated rule has a node: its value is of the kind of its formula.
proof fn instance_has_node<'a>(
    engine: Engine<'a>,
    root: Seq<char>,
    instance: EvaluatedTraceInstance,
)
    requires
        engine.well_formed(),
        engine.states(instance),
        engine.is_remembered(instance.key@),
    ensures
        instance_node(
            engine.program_view(),
            root,
            instance.key@.period,
            instance,
        ) is Some,
{
    let key = instance.key@;
    let cx = engine.facts(key.period);
    engine.remembered_is_meaning(key);
    if engine.scalar_at(key) is Some {
        let f = choose|f: nat| #[trigger]
            rule_scalar(cx, f, key.derived, key.entity_id) is Some;
        scalar_meaning_at(cx, f, key.derived, key.entity_id);
        assert(rule_unrounded(cx, f, key.derived, key.entity_id)->0.value is Ok);
    } else {
        let f = choose|f: nat| #[trigger]
            rule_judgment(cx, f, key.derived, key.entity_id) is Some;
        judgment_meaning_at(cx, f, key.derived, key.entity_id);
        assert(rule_judgment(cx, f, key.derived, key.entity_id)->0.value is Ok);
    }
}

/// Every rule that a node of a trace says was evaluated has a node in the trace.
pub proof fn trace_dependencies_resolve<'a>(
    engine: Engine<'a>,
    root: Seq<char>,
    period: PeriodView,
    list: Seq<EvaluatedTraceInstance>,
    k: int,
    dependency: RuleKey,
)
    requires
        engine.well_formed(),
        is_evaluated(engine, root, period, list),
        0 <= k < list.len(),
        list[k].execution@.dependencies.contains(dependency),
    ensures
        has_key(
            trace_among(engine.program_view(), root, period, list, list.len()),
            trace_key(engine.program_view(), dependency, root),
        ),
{
    let key = list[k].key@;
    let keys = instance_keys(list);
    assert(keys[k] == key);
    assert(keys.contains(key));
    assert(engine.states(list[k]));
    assert(engine.led_to(key, dependency));
    engine.remembered_is_closed(key, dependency);
    engine.reached_on(period, root, key, dependency);
    assert(engine.is_trace_instance(period, root, dependency));
    assert(keys.contains(dependency));
    let j = keys.index_of(dependency);
    assert(list[j].key@ == dependency);
    assert(engine.states(list[j]));
    instance_has_node(engine, root, list[j]);
    trace_has_node(engine.program_view(), root, period, list, list.len(), j);
}

/// Whether a list has this item under a key.
pub open spec fn has_entry<V>(list: Seq<(Seq<char>, V)>, key: Seq<char>, item: V) -> bool {
    exists|i: int| 0 <= i < list.len() && (#[trigger] list[i]) == (key, item)
}

proof fn put_has_entry<V>(list: Seq<(Seq<char>, V)>, key: Seq<char>, item: V)
    ensures
        has_entry(put(list, key, item), key, item),
        forall|other: Seq<char>, old_item: V|
            other != key && #[trigger] has_entry(list, other, old_item) ==> has_entry(
                put(list, key, item),
                other,
                old_item,
            ),
    decreases list.len(),
{
    let after = put(list, key, item);
    if list.len() == 0 || list[0].0 == key || text_lt(key, list[0].0) {
        assert(after[0] == (key, item));
        assert forall|other: Seq<char>, old_item: V|
            other != key && #[trigger] has_entry(list, other, old_item) implies has_entry(
            after,
            other,
            old_item,
        ) by {
            let i = choose|i: int| 0 <= i < list.len() && (#[trigger] list[i]) == (other, old_item);
            if list[0].0 == key {
                assert(after[i] == list[i]);
            } else {
                assert(after[i + 1] == list[i]);
            }
        }
    } else {
        let rest = list.drop_first();
        let put_rest = put(rest, key, item);
        put_has_entry(rest, key, item);
        let k = choose|k: int| 0 <= k < put_rest.len() && (#[trigger] put_rest[k]) == (key, item);
        assert(after[k + 1] == (key, item));
        assert forall|other: Seq<char>, old_item: V|
            other != key && #[trigger] has_entry(list, other, old_item) implies has_entry(
            after,
            other,
            old_item,
        ) by {
            let i = choose|i: int| 0 <= i < list.len() && (#[trigger] list[i]) == (other, old_item);
            if i == 0 {
                assert(after[0] == list[0]);
            } else {
                assert(rest[i - 1] == list[i]);
                assert(has_entry(rest, other, old_item));
                let m = choose|m: int|
                    0 <= m < put_rest.len() && (#[trigger] put_rest[m]) == (other, old_item);
                assert(after[m + 1] == put_rest[m]);
            }
        }
    }
}

proof fn trace_has_entry(
    p: Program,
    root: Seq<char>,
    period: PeriodView,
    list: Seq<EvaluatedTraceInstance>,
    n: nat,
    k: int,
    node: NodeView,
)
    requires
        0 <= k < n <= list.len(),
        instance_node(p, root, period, list[k]) == Some(node),
        forall|m: int|
            k < m < list.len() ==> trace_key(p, (#[trigger] list[m]).key@, root) != trace_key(
                p,
                list[k].key@,
                root,
            ),
    ensures
        has_entry(
            trace_among(p, root, period, list, n),
            trace_key(p, list[k].key@, root),
            node,
        ),
    decreases n,
{
    let before = trace_among(p, root, period, list, (n - 1) as nat);
    if k < n - 1 {
        trace_has_entry(p, root, period, list, (n - 1) as nat, k, node);
    }
    if let Some(last) = instance_node(p, root, period, list[n - 1]) {
        put_has_entry(before, trace_key(p, list[n - 1].key@, root), last);
    }
}

/// Whether a node shows the value that a rule has.
pub open spec fn shows_value(cx: Facts, key: RuleKey, node: NodeView) -> bool {
    match node.value {
        TraceNodeValue::Scalar { value, .. } => scalar_meaning(
            cx,
            key.derived,
            key.entity_id,
        ).value == Ok::<ScalarValue, ErrorView>(value),
        TraceNodeValue::Judgment { outcome } => judgment_meaning(
            cx,
            key.derived,
            key.entity_id,
        ).value == Ok::<JudgmentOutcome, ErrorView>(outcome),
    }
}

/// A rule that a query asks for has a node in the query's trace, under its id or its name, with
/// the value that the rule has, where no other rule of the trace goes by that id or name.
pub proof fn an_asked_rule_is_traced<'a>(
    engine: Engine<'a>,
    p: Program,
    data: DataSet,
    queries: Seq<ExecutionQuery>,
    i: int,
    trace: Seq<(Seq<char>, NodeView)>,
    k: int,
    rule: RuleKey,
)
    requires
        0 <= i < queries.len(),
        is_query_trace(engine, p, data, queries, i, trace),
        0 <= k < queries[i].outputs@.len(),
        asked_rule(
            p,
            queries[i].entity_id@,
            queries[i].period@,
            texts(queries[i].outputs@)[k],
        ) == Some(rule),
        forall|other: RuleKey| #[trigger]
            engine.is_trace_instance(rule.period, rule.entity_id, other) && other != rule
                ==> trace_key(p, other, rule.entity_id) != trace_key(p, rule, rule.entity_id),
    ensures
        exists|node: NodeView| #[trigger]
            has_entry(trace, rule_text(p, rule.derived), node) && shows_value(
                query_facts(p, data, queries[i]),
                rule,
                node,
            ),
{
    let (root, period) = (rule.entity_id, rule.period);
    let cx = query_facts(p, data, queries[i]);
    reaches_itself(p, data, rule);
    assert(texts(queries[i].outputs@)[k] == texts(queries[i].outputs@)[k]);
    assert(asks_for(p, data, queries[i], rule));
    assert(is_asked(p, data, queries, (i + 1) as nat, rule));
    assert(engine.is_remembered(rule));
    let list = choose|list: Seq<EvaluatedTraceInstance>| #[trigger]
        is_evaluated(engine, root, period, list) && trace == trace_among(
            p,
            root,
            period,
            list,
            list.len(),
        );
    let path = seq![rule];
    assert(engine.is_trace_path(period, root, path) && path.last() == rule);
    assert(engine.is_trace_instance(period, root, rule));
    let keys = instance_keys(list);
    assert(keys.contains(rule));
    let at = keys.index_of(rule);
    assert(list[at].key@ == rule);
    assert(engine.states(list[at]));
    instance_has_node(engine, root, list[at]);
    let node = instance_node(p, root, period, list[at])->Some_0;
    assert forall|m: int| at < m < list.len() implies trace_key(
        p,
        (#[trigger] list[m]).key@,
        root,
    ) != trace_key(p, list[at].key@, root) by {
        assert(keys[m] == list[m].key@);
        assert(keys.contains(keys[m]));
        assert(engine.is_trace_instance(period, root, keys[m]));
        assert(instance_lt(keys[at], keys[m]));
        if keys[m] == rule {
            text_lt_irreflexive(rule.entity_id);
        }
    }
    trace_has_entry(p, root, period, list, list.len(), at, node);
    engine.remembered_is_meaning(rule);
    assert(shows_value(cx, rule, node));
    assert(has_entry(trace, rule_text(p, rule.derived), node));
}

/// Lists of rules that ascend and hold the same rules are the same.
proof fn ascending_lists_agree(a: Seq<RuleKey>, b: Seq<RuleKey>)
    requires
        instances_ascend(a),
        instances_ascend(b),
        forall|key: RuleKey| #[trigger] a.contains(key) <==> b.contains(key),
    ensures
        a == b,
    decreases a.len(),
{
    if a.len() == 0 {
        if b.len() > 0 {
            assert(b.contains(b[0]));
            assert(a.contains(b[0]));
        }
        assert(a =~= b);
    } else {
        let x = a.last();
        assert(a.contains(x));
        assert(b.len() > 0) by {
            assert(b.contains(x));
        }
        let y = b.last();
        assert(b.contains(y));
        assert(x == y) by {
            let i = a.index_of(y);
            let j = b.index_of(x);
            assert(a.contains(y) && b.contains(x));
            if x != y {
                assert(instance_lt(a[i], a[a.len() - 1]));
                assert(instance_lt(b[j], b[b.len() - 1]));
                assert(instance_lt(y, x) && instance_lt(x, y));
                never_both(x, y);
            }
        }
        let (c, d) = (a.drop_last(), b.drop_last());
        assert forall|key: RuleKey| #[trigger] c.contains(key) <==> d.contains(key) by {
            if c.contains(key) {
                let i = c.index_of(key);
                assert(a[i] == key);
                assert(a.contains(key));
                let j = b.index_of(key);
                assert(instance_lt(a[i], a[a.len() - 1]));
                if j == b.len() - 1 {
                    never_both(key, key);
                }
                assert(d[j] == key);
            }
            if d.contains(key) {
                let i = d.index_of(key);
                assert(b[i] == key);
                assert(b.contains(key));
                assert(a.contains(key));
                let j = a.index_of(key);
                assert(instance_lt(b[i], b[b.len() - 1]));
                if j == a.len() - 1 {
                    never_both(key, key);
                }
                assert(c[j] == key);
            }
        }
        assert forall|i: int, j: int| 0 <= i < j < c.len() implies instance_lt(
            #[trigger] c[i],
            #[trigger] c[j],
        ) by {
            assert(instance_lt(a[i], a[j]));
        }
        assert forall|i: int, j: int| 0 <= i < j < d.len() implies instance_lt(
            #[trigger] d[i],
            #[trigger] d[j],
        ) by {
            assert(instance_lt(b[i], b[j]));
        }
        ascending_lists_agree(c, d);
        assert(a =~= c.push(x));
        assert(b =~= d.push(y));
    }
}

proof fn never_both(a: RuleKey, b: RuleKey)
    ensures
        !(instance_lt(a, b) && instance_lt(b, a)),
{
    if instance_lt(a, b) && instance_lt(b, a) {
        if a.derived != b.derived {
            text_lt_transitive(a.derived, b.derived, a.derived);
            text_lt_irreflexive(a.derived);
        } else {
            text_lt_transitive(a.entity_id, b.entity_id, a.entity_id);
            text_lt_irreflexive(a.entity_id);
        }
    }
}

/// Engines that remember the same rules reach the same.
proof fn same_paths<'a, 'b>(
    a: Engine<'a>,
    b: Engine<'b>,
    period: PeriodView,
    root: Seq<char>,
    path: Seq<RuleKey>,
    i: int,
)
    requires
        remember_alike(a, b),
        a.is_trace_path(period, root, path),
        0 <= i < path.len(),
    ensures
        a.is_remembered(path[i]),
        i > 0 ==> b.led_to(path[i - 1], path[i]),
    decreases i,
{
    if i > 0 {
        same_paths(a, b, period, root, path, i - 1);
        let (from, to) = (path[i - 1], path[i]);
        assert(a.led_to(from, to));
        a.leads_is_led_to(from, to);
        assert(b.is_remembered(from));
        b.leads_is_led_to(from, to);
        a.remembered_is_closed(from, to);
    }
}

/// Whether two engines evaluate the same and remember the same rules.
spec fn remember_alike<'a, 'b>(a: Engine<'a>, b: Engine<'b>) -> bool {
    &&& a.well_formed()
    &&& b.well_formed()
    &&& a.program_view() == b.program_view()
    &&& a.data_view()@ == b.data_view()@
    &&& forall|key: RuleKey| #[trigger] a.is_remembered(key) <==> b.is_remembered(key)
}

proof fn same_instances<'a, 'b>(
    a: Engine<'a>,
    b: Engine<'b>,
    period: PeriodView,
    root: Seq<char>,
    key: RuleKey,
)
    requires
        remember_alike(a, b),
        a.is_trace_instance(period, root, key),
    ensures
        b.is_trace_instance(period, root, key),
{
    let path = choose|path: Seq<RuleKey>| #[trigger]
        a.is_trace_path(period, root, path) && path.last() == key;
    assert forall|i: int| 0 < i < path.len() implies b.led_to(path[i - 1], #[trigger] path[i]) by {
        same_paths(a, b, period, root, path, i);
    }
    assert(b.is_remembered(path[0]));
    assert(b.is_remembered(key));
    assert(b.is_trace_path(period, root, path));
}

/// What two engines state of a rule is the same.
proof fn same_statements<'a, 'b>(
    a: Engine<'a>,
    b: Engine<'b>,
    x: EvaluatedTraceInstance,
    y: EvaluatedTraceInstance,
)
    requires
        remember_alike(a, b),
        a.states(x),
        b.states(y),
        x.key@ == y.key@,
        a.is_remembered(x.key@),
    ensures
        x.value == y.value,
        x.execution@ == y.execution@,
{
    let key = x.key@;
    let cx = a.facts(key.period);
    a.remembered_is_meaning(key);
    b.remembered_is_meaning(key);
    assert(b.is_remembered(key));
    if scalar_terminates(cx, key.derived, key.entity_id) && scalar_meaning(
        cx,
        key.derived,
        key.entity_id,
    ).value is Ok && judgment_terminates(cx, key.derived, key.entity_id) {
        let f = choose|f: nat| #[trigger] rule_scalar(cx, f, key.derived, key.entity_id) is Some;
        let g = choose|g: nat| #[trigger] rule_judgment(cx, g, key.derived, key.entity_id) is Some;
        scalar_meaning_at(cx, f, key.derived, key.entity_id);
        judgment_meaning_at(cx, g, key.derived, key.entity_id);
        assert(rule_unrounded(cx, f, key.derived, key.entity_id)->0.value is Ok);
        assert(rule_judgment(cx, g, key.derived, key.entity_id)->0.value is Err);
    }
}

proof fn same_traces_among<'a, 'b>(
    a: Engine<'a>,
    b: Engine<'b>,
    root: Seq<char>,
    period: PeriodView,
    x: Seq<EvaluatedTraceInstance>,
    y: Seq<EvaluatedTraceInstance>,
    n: nat,
)
    requires
        remember_alike(a, b),
        is_evaluated(a, root, period, x),
        is_evaluated(b, root, period, y),
        instance_keys(x) == instance_keys(y),
        n <= x.len(),
    ensures
        trace_among(a.program_view(), root, period, x, n) == trace_among(
            b.program_view(),
            root,
            period,
            y,
            n,
        ),
    decreases n,
{
    assert(instance_keys(x).len() == x.len() && instance_keys(y).len() == y.len());
    if n > 0 {
        same_traces_among(a, b, root, period, x, y, (n - 1) as nat);
        let k = n - 1;
        assert(instance_keys(x)[k] == x[k].key@);
        assert(instance_keys(y)[k] == y[k].key@);
        assert(instance_keys(x).contains(x[k].key@));
        assert(a.is_trace_instance(period, root, x[k].key@));
        assert(a.states(x[k]) && b.states(y[k]));
        same_statements(a, b, x[k], y[k]);
    }
}

/// Engines that remember the same rules give the same trace.
pub proof fn a_trace_is_fixed<'a, 'b>(
    a: Engine<'a>,
    b: Engine<'b>,
    root: Seq<char>,
    period: PeriodView,
    s: Seq<(Seq<char>, NodeView)>,
    t: Seq<(Seq<char>, NodeView)>,
)
    requires
        a.well_formed(),
        b.well_formed(),
        a.program_view() == b.program_view(),
        a.data_view()@ == b.data_view()@,
        forall|key: RuleKey| #[trigger] a.is_remembered(key) <==> b.is_remembered(key),
        is_trace(a, root, period, s),
        is_trace(b, root, period, t),
    ensures
        s == t,
{
    let x = choose|list: Seq<EvaluatedTraceInstance>| #[trigger]
        is_evaluated(a, root, period, list) && s == trace_among(
            a.program_view(),
            root,
            period,
            list,
            list.len(),
        );
    let y = choose|list: Seq<EvaluatedTraceInstance>| #[trigger]
        is_evaluated(b, root, period, list) && t == trace_among(
            b.program_view(),
            root,
            period,
            list,
            list.len(),
        );
    assert(remember_alike(a, b) && remember_alike(b, a));
    assert forall|key: RuleKey| #[trigger] instance_keys(x).contains(key) <==> instance_keys(
        y,
    ).contains(key) by {
        if a.is_trace_instance(period, root, key) {
            same_instances(a, b, period, root, key);
        }
        if b.is_trace_instance(period, root, key) {
            same_instances(b, a, period, root, key);
        }
    }
    ascending_lists_agree(instance_keys(x), instance_keys(y));
    assert(instance_keys(x).len() == x.len() && instance_keys(y).len() == y.len());
    same_traces_among(a, b, root, period, x, y, x.len());
}

/// Whether queries differ in their assessment dates at most.
pub open spec fn differ_in_dates(a: Seq<ExecutionQuery>, b: Seq<ExecutionQuery>) -> bool {
    &&& a.len() == b.len()
    &&& forall|i: int| #![trigger a[i], b[i]]
        0 <= i < a.len() ==> a[i].entity_id@ == b[i].entity_id@ && a[i].period@ == b[i].period@
            && texts(a[i].outputs@) == texts(b[i].outputs@)
}

pub proof fn dates_keep_errors(
    p: Program,
    data: DataSet,
    a: Seq<ExecutionQuery>,
    b: Seq<ExecutionQuery>,
    n: nat,
)
    requires
        differ_in_dates(a, b),
        n <= a.len(),
    ensures
        queries_error(p, data, a, n) == queries_error(p, data, b, n),
    decreases n,
{
    if n > 0 {
        dates_keep_errors(p, data, a, b, (n - 1) as nat);
        let (x, y) = (a[n - 1], b[n - 1]);
        assert(texts(x.outputs@).len() == x.outputs@.len());
        assert(texts(y.outputs@).len() == y.outputs@.len());
    }
}

pub proof fn dates_keep_asking(
    p: Program,
    data: DataSet,
    a: Seq<ExecutionQuery>,
    b: Seq<ExecutionQuery>,
    n: nat,
    key: RuleKey,
)
    requires
        differ_in_dates(a, b),
        n <= a.len(),
        is_asked(p, data, a, n, key),
    ensures
        is_asked(p, data, b, n, key),
{
    let j = choose|j: int| 0 <= j < n && #[trigger] asks_for(p, data, a[j], key);
    let (x, y) = (a[j], b[j]);
    assert(texts(x.outputs@).len() == x.outputs@.len());
    assert(texts(y.outputs@).len() == y.outputs@.len());
    let k = choose|k: int| #![trigger texts(x.outputs@)[k]]
        0 <= k < x.outputs@.len() && (asked_rule(
            p,
            x.entity_id@,
            x.period@,
            texts(x.outputs@)[k],
        ) matches Some(rule) && reaches(p, data, rule, key));
    assert(texts(y.outputs@)[k] == texts(x.outputs@)[k]);
    assert(asks_for(p, data, y, key));
}

/// An answer to one of several queries answers the query in its place among queries that differ
/// in their dates at most, once it has the date of that one.
pub proof fn dates_keep_answers(
    p: Program,
    data: DataSet,
    a: Seq<ExecutionQuery>,
    b: Seq<ExecutionQuery>,
    i: int,
    u: QueryResult,
    v: QueryResult,
)
    requires
        differ_in_dates(a, b),
        0 <= i < a.len(),
        is_answer(p, data, a, i, u),
        v == (QueryResult { assessment_date: b[i].assessment_date, ..u }),
    ensures
        is_answer(p, data, b, i, v),
{
    let e = choose|engine: Engine<'static>| #[trigger] answers(engine, p, data, a, i, u);
    assert(texts(a[i].outputs@).len() == a[i].outputs@.len());
    assert(texts(b[i].outputs@).len() == b[i].outputs@.len());
    assert(query_outputs(p, data, a[i]) == query_outputs(p, data, b[i]));
    let n = (i + 1) as nat;
    assert forall|key: RuleKey| #[trigger] e.is_remembered(key) <==> is_asked(p, data, b, n, key) by {
        if is_asked(p, data, a, (i + 1) as nat, key) {
            dates_keep_asking(p, data, a, b, (i + 1) as nat, key);
        }
        if is_asked(p, data, b, (i + 1) as nat, key) {
            dates_keep_asking(p, data, b, a, (i + 1) as nat, key);
        }
    }
    assert(answers(e, p, data, b, i, v));
}

/// The assessment dates of queries are echoed, and have no other effect: queries that differ in
/// nothing else are answered alike, with the same outputs and the same traces, or fail alike.
pub proof fn assessment_date_has_no_effect(
    p: Program,
    data: DataSet,
    a: Seq<ExecutionQuery>,
    b: Seq<ExecutionQuery>,
    metadata: ExecutionMetadata,
    r: Result<ExecutionResponse, ApiError>,
    s: Result<ExecutionResponse, ApiError>,
)
    requires
        differ_in_dates(a, b),
        explained(p, data, a, metadata, r),
        explained(p, data, b, metadata, s),
    ensures
        match (r, s) {
            (Ok(x), Ok(y)) => {
                &&& x.metadata == y.metadata
                &&& x.results@.len() == a.len() && y.results@.len() == a.len()
                &&& forall|i: int| #![trigger x.results@[i], y.results@[i]]
                    0 <= i < a.len() ==> {
                        let (u, v) = (x.results@[i], y.results@[i]);
                        &&& u.entity_id@ == v.entity_id@
                        &&& u.period@ == v.period@
                        &&& output_entries(u.outputs@) == output_entries(v.outputs@)
                        &&& trace_entries(u.trace@) == trace_entries(v.trace@)
                        &&& u.assessment_date == a[i].assessment_date
                        &&& v.assessment_date == b[i].assessment_date
                    }
            },
            (Err(ApiError::Eval(e)), Err(ApiError::Eval(f))) => e@ == f@,
            _ => false,
        },
{
    dates_keep_errors(p, data, a, b, a.len());
    if let (Ok(x), Ok(y)) = (r, s) {
        assert forall|i: int| #![trigger x.results@[i], y.results@[i]] 0 <= i < a.len() implies {
            let (u, v) = (x.results@[i], y.results@[i]);
            &&& u.entity_id@ == v.entity_id@
            &&& u.period@ == v.period@
            &&& output_entries(u.outputs@) == output_entries(v.outputs@)
            &&& trace_entries(u.trace@) == trace_entries(v.trace@)
            &&& u.assessment_date == a[i].assessment_date
            &&& v.assessment_date == b[i].assessment_date
        } by {
            let (u, v) = (x.results@[i], y.results@[i]);
            assert(is_answer(p, data, a, i, u) && is_answer(p, data, b, i, v));
            let e = choose|engine: Engine<'static>| #[trigger] answers(engine, p, data, a, i, u);
            let f = choose|engine: Engine<'static>| #[trigger] answers(engine, p, data, b, i, v);
            assert(texts(a[i].outputs@).len() == a[i].outputs@.len());
            assert(texts(b[i].outputs@).len() == b[i].outputs@.len());
            assert(query_outputs(p, data, a[i]) == query_outputs(p, data, b[i]));
            assert forall|key: RuleKey| #[trigger] e.is_remembered(key) <==> f.is_remembered(
                key,
            ) by {
                if is_asked(p, data, a, (i + 1) as nat, key) {
                    dates_keep_asking(p, data, a, b, (i + 1) as nat, key);
                }
                if is_asked(p, data, b, (i + 1) as nat, key) {
                    dates_keep_asking(p, data, b, a, (i + 1) as nat, key);
                }
            }
            a_trace_is_fixed(
                e,
                f,
                a[i].entity_id@,
                a[i].period@,
                trace_entries(u.trace@),
                trace_entries(v.trace@),
            );
        }
    }
}

} // verus!
