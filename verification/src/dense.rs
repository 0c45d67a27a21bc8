//! Dense programs: rules compiled against positions, evaluated over columns.
//!
//! A program is compiled for one root entity. Names become positions in tables
//! of inputs, parameters, relations and rules; a rule refers only to rules
//! before it. This module holds the compiled form and what it gives for each
//! row; the executor computes it a column at a time.
use crate::column::{
    between_cell, binary_cell, compare_cell, connective_item, connective_outcome, connective_start,
    counted, dated, extremum_cell, if_cell, integral_cell, no_match_cell, normal, numbered,
    parameter_cell, rounded_cell, shift_cell, sum_cell, BinaryOp, ColumnKind, ConnectiveState,
    DenseColumn, MatchLabels, ShiftUnit,
};
use crate::date::Date;
use crate::decimal::Decimal;
use crate::error::ErrorView;
use crate::model::{
    ComparisonOp, IndexedParameter, JudgmentOutcome, OverPeriodsKind, Rounding, ScalarValue,
};
use crate::semantics::{as_decimal_value, capped};
use crate::text::same;
use vstd::prelude::*;

verus! {

/// A relation as seen from one of its slots.
#[derive(Debug)]
pub struct DenseRelationKey {
    pub name: String,
    pub current_slot: usize,
    pub related_slot: usize,
}

/// The model of a [`DenseRelationKey`].
pub ghost struct RelationKeyView {
    pub name: Seq<char>,
    pub current_slot: nat,
    pub related_slot: nat,
}

impl DenseRelationKey {
    pub open spec fn view(&self) -> RelationKeyView {
        RelationKeyView {
            name: self.name@,
            current_slot: self.current_slot as nat,
            related_slot: self.related_slot as nat,
        }
    }

    pub fn same_key(&self, other: &DenseRelationKey) -> (r: bool)
        ensures
            r == (self@ == other@),
    {
        same(self.name.as_str(), other.name.as_str()) && self.current_slot == other.current_slot
            && self.related_slot == other.related_slot
    }

    pub fn duplicate(&self) -> (r: DenseRelationKey)
        ensures
            r == *self,
    {
        DenseRelationKey {
            name: self.name.clone(),
            current_slot: self.current_slot,
            related_slot: self.related_slot,
        }
    }
}

/// A relation of a compiled program: the relation that supplies its rows, the
/// inputs read of the related rows and, for a derived relation, its filter.
#[derive(Debug)]
pub struct DenseRelationSchema {
    pub key: DenseRelationKey,
    pub related_inputs: Vec<String>,
    pub current_entity: Option<String>,
    pub related_entity: Option<String>,
    pub parent_relation: Option<usize>,
    pub filter: Option<CompiledRelatedJudgmentExpr>,
}

/// A scalar formula over the root rows.
#[allow(inconsistent_fields)]
#[derive(Debug)]
pub enum CompiledScalarExpr {
    Literal(ScalarValue),
    Input(usize),
    InputOrElse { input: usize, default: ScalarValue },
    Derived(usize),
    ParameterLookup { parameter: usize, index: Box<CompiledScalarExpr> },
    Add(Vec<CompiledScalarExpr>),
    Sub(Box<CompiledScalarExpr>, Box<CompiledScalarExpr>),
    Mul(Box<CompiledScalarExpr>, Box<CompiledScalarExpr>),
    Div(Box<CompiledScalarExpr>, Box<CompiledScalarExpr>),
    Max(Vec<CompiledScalarExpr>),
    Min(Vec<CompiledScalarExpr>),
    Ceil(Box<CompiledScalarExpr>),
    Floor(Box<CompiledScalarExpr>),
    PeriodStart,
    PeriodEnd,
    DateShift { unit: ShiftUnit, date: Box<CompiledScalarExpr>, count: Box<CompiledScalarExpr> },
    DaysBetween { from: Box<CompiledScalarExpr>, to: Box<CompiledScalarExpr> },
    CountRelated { relation: usize, predicate: Option<Box<CompiledRelatedJudgmentExpr>> },
    SumRelated {
        relation: usize,
        value: Box<CompiledRelatedScalarExpr>,
        predicate: Option<Box<CompiledRelatedJudgmentExpr>>,
    },
    If {
        condition: Box<CompiledJudgmentExpr>,
        then_expr: Box<CompiledScalarExpr>,
        else_expr: Box<CompiledScalarExpr>,
    },
    /// The fallback of a `match` without `_`. `placeholder` is the last arm's
    /// value, evaluated for no rows, so that the column has the arms' dtype.
    NoMatch {
        subject: Box<CompiledScalarExpr>,
        placeholder: Box<CompiledScalarExpr>,
        labels: MatchLabels,
    },
    /// A reduction over periods, evaluated by lifetime execution only.
    OverPeriods {
        kind: OverPeriodsKind,
        value: Box<CompiledScalarExpr>,
        n: Option<Box<CompiledScalarExpr>>,
    },
}

/// A scalar formula over the related rows of a relation.
#[allow(inconsistent_fields)]
#[derive(Debug)]
pub enum CompiledRelatedScalarExpr {
    Literal(ScalarValue),
    Input(usize),
    InputOrElse { input: usize, default: ScalarValue },
    /// A formula over the root row that owns the related row.
    RootScalar(Box<CompiledScalarExpr>),
    ParameterLookup { parameter: usize, index: Box<CompiledRelatedScalarExpr> },
    Add(Vec<CompiledRelatedScalarExpr>),
    Sub(Box<CompiledRelatedScalarExpr>, Box<CompiledRelatedScalarExpr>),
    Mul(Box<CompiledRelatedScalarExpr>, Box<CompiledRelatedScalarExpr>),
    Div(Box<CompiledRelatedScalarExpr>, Box<CompiledRelatedScalarExpr>),
    Max(Vec<CompiledRelatedScalarExpr>),
    Min(Vec<CompiledRelatedScalarExpr>),
    Ceil(Box<CompiledRelatedScalarExpr>),
    Floor(Box<CompiledRelatedScalarExpr>),
    PeriodStart,
    PeriodEnd,
    DateShift {
        unit: ShiftUnit,
        date: Box<CompiledRelatedScalarExpr>,
        count: Box<CompiledRelatedScalarExpr>,
    },
    DaysBetween { from: Box<CompiledRelatedScalarExpr>, to: Box<CompiledRelatedScalarExpr> },
    If {
        condition: Box<CompiledRelatedJudgmentExpr>,
        then_expr: Box<CompiledRelatedScalarExpr>,
        else_expr: Box<CompiledRelatedScalarExpr>,
    },
    NoMatch {
        subject: Box<CompiledRelatedScalarExpr>,
        placeholder: Box<CompiledRelatedScalarExpr>,
        labels: MatchLabels,
    },
}

/// A test on the related rows of a relation. It holds or does not.
#[derive(Debug)]
pub enum CompiledRelatedJudgmentExpr {
    Literal(bool),
    Comparison {
        left: CompiledRelatedScalarExpr,
        op: ComparisonOp,
        right: CompiledRelatedScalarExpr,
    },
    /// A judgment on the root row that owns the related row.
    RootJudgment(Box<CompiledJudgmentExpr>),
    And(Vec<CompiledRelatedJudgmentExpr>),
    Or(Vec<CompiledRelatedJudgmentExpr>),
    Not(Box<CompiledRelatedJudgmentExpr>),
}

/// A judgment formula over the root rows.
#[derive(Debug)]
pub enum CompiledJudgmentExpr {
    Comparison { left: CompiledScalarExpr, op: ComparisonOp, right: CompiledScalarExpr },
    Derived(usize),
    And(Vec<CompiledJudgmentExpr>),
    Or(Vec<CompiledJudgmentExpr>),
    Not(Box<CompiledJudgmentExpr>),
}

#[derive(Debug)]
pub enum CompiledSemantics {
    Scalar(CompiledScalarExpr),
    Judgment(CompiledJudgmentExpr),
}

/// A compiled rule.
#[derive(Debug)]
pub struct CompiledDerived {
    pub name: String,
    /// How errors that leave the rule name it: by its id where it has one.
    pub label: String,
    pub semantics: CompiledSemantics,
    pub rounding: Option<Rounding>,
    /// Commencement date of the single version that the rule was compiled from.
    pub effective_from: Option<Date>,
}

#[derive(Debug)]
pub struct CompiledParameter {
    pub parameter: IndexedParameter,
}

/// A program compiled for one root entity.
#[derive(Debug)]
pub struct DenseCompiledProgram {
    pub root_entity: String,
    pub root_inputs: Vec<String>,
    pub relations: Vec<DenseRelationSchema>,
    pub parameters: Vec<CompiledParameter>,
    pub derived: Vec<CompiledDerived>,
}

/// The related rows of a relation, grouped by the root row that owns them.
#[derive(Debug)]
pub struct DenseRelationBatch {
    /// The related rows of root row `r` are `offsets[r]..offsets[r + 1]`.
    pub offsets: Vec<usize>,
    pub related_count: usize,
    /// The root row that owns each related row.
    pub owners: Vec<usize>,
    /// `None` is an input that was not supplied: it fails the rows that read it.
    pub inputs: Vec<Option<DenseColumn>>,
}

/// Input columns in the order of the compiled program's tables.
#[derive(Debug)]
pub struct DenseBoundBatch {
    pub row_count: usize,
    /// `None` is an input that was not supplied: it fails the rows that read it.
    pub inputs: Vec<Option<DenseColumn>>,
    pub relations: Vec<DenseRelationBatch>,
}

/// The model of a column: its dtype and its values.
pub ghost struct ColumnView {
    pub dtype: ColumnKind,
    pub cells: Seq<ScalarValue>,
}

impl ColumnView {
    pub open spec fn rows(self) -> nat {
        self.cells.len()
    }

    pub open spec fn cell(self, row: int) -> ScalarValue {
        self.cells[row]
    }

    pub open spec fn kind(self) -> ColumnKind {
        self.dtype
    }
}

/// The model of a column.
pub open spec fn column_view(column: DenseColumn) -> ColumnView {
    ColumnView {
        dtype: column.kind(),
        cells: Seq::new(column.rows(), |row: int| column.cell(row)),
    }
}

/// The model of a supplied or missing column.
pub open spec fn supplied_view(column: Option<DenseColumn>) -> Option<ColumnView> {
    match column {
        Some(c) => Some(column_view(c)),
        None => None,
    }
}

pub open spec fn supplied_views(columns: Seq<Option<DenseColumn>>) -> Seq<Option<ColumnView>> {
    columns.map_values(|c: Option<DenseColumn>| supplied_view(c))
}

/// The model of a [`DenseRelationBatch`].
pub ghost struct RelationBatchView {
    pub offsets: Seq<usize>,
    pub related_count: nat,
    pub inputs: Seq<Option<ColumnView>>,
}

/// The model of a [`DenseBoundBatch`].
pub ghost struct BatchView {
    pub row_count: nat,
    pub inputs: Seq<Option<ColumnView>>,
    pub relations: Seq<RelationBatchView>,
}

/// The group that an item falls into: the last of the first `n` that starts at or
/// before it.
pub open spec fn group_of(offsets: Seq<usize>, n: nat, k: int) -> int
    decreases n,
{
    if n == 0 || n > offsets.len() {
        0
    } else if offsets[n - 1] <= k {
        n - 1
    } else {
        group_of(offsets, (n - 1) as nat, k)
    }
}

impl RelationBatchView {
    /// The groups of related rows follow each other without gaps.
    pub open spec fn well_formed(self, row_count: nat) -> bool {
        &&& self.offsets.len() == row_count + 1
        &&& self.offsets[0] == 0
        &&& forall|i: int, j: int|
            0 <= i <= j < self.offsets.len() ==> #[trigger] self.offsets[i]
                <= #[trigger] self.offsets[j]
        &&& self.offsets[row_count as int] == self.related_count
    }
}

impl DenseRelationBatch {
    pub open spec fn view(&self) -> RelationBatchView {
        RelationBatchView {
            offsets: self.offsets@,
            related_count: self.related_count as nat,
            inputs: supplied_views(self.inputs@),
        }
    }

    /// The owners are those of the groups.
    pub open spec fn owners_known(&self, row_count: nat) -> bool {
        &&& self.owners@.len() == self.related_count
        &&& forall|k: int|
            0 <= k < self.related_count ==> #[trigger] self.owners@[k] == group_of(
                self.offsets@,
                row_count,
                k,
            )
    }
}

impl DenseBoundBatch {
    pub open spec fn view(&self) -> BatchView {
        BatchView {
            row_count: self.row_count as nat,
            inputs: supplied_views(self.inputs@),
            relations: self.relations@.map_values(|r: DenseRelationBatch| r@),
        }
    }

    pub open spec fn owners_known(&self) -> bool {
        forall|i: int|
            0 <= i < self.relations@.len() ==> (#[trigger] self.relations@[i]).owners_known(
                self.row_count as nat,
            )
    }
}

/// A compiled program with the columns and the period that it is evaluated on.
pub ghost struct DenseFacts {
    pub program: DenseCompiledProgram,
    pub start: Date,
    pub end: Date,
    pub batch: BatchView,
    /// Whether a rule fails before its commencement date.
    pub enforce_commencement: bool,
}

/// Whether the positions in a root formula exist: rules below `bound`, and
/// aggregations only from `level` two on.
pub open spec fn scalar_fits(
    p: DenseCompiledProgram,
    bound: nat,
    level: nat,
    e: CompiledScalarExpr,
) -> bool
    decreases e, 1int, 0int,
{
    match e {
        CompiledScalarExpr::Literal(_) => true,
        CompiledScalarExpr::Input(i) => i < p.root_inputs@.len(),
        CompiledScalarExpr::InputOrElse { input, .. } => input < p.root_inputs@.len(),
        CompiledScalarExpr::Derived(i) => i < bound,
        CompiledScalarExpr::ParameterLookup { parameter, index } => parameter < p.parameters@.len()
            && scalar_fits(p, bound, level, *index),
        CompiledScalarExpr::Add(items) => scalars_fit(p, bound, level, items@, items@.len()),
        CompiledScalarExpr::Max(items) => scalars_fit(p, bound, level, items@, items@.len()),
        CompiledScalarExpr::Min(items) => scalars_fit(p, bound, level, items@, items@.len()),
        CompiledScalarExpr::Sub(a, b) => scalar_fits(p, bound, level, *a) && scalar_fits(
            p,
            bound,
            level,
            *b,
        ),
        CompiledScalarExpr::Mul(a, b) => scalar_fits(p, bound, level, *a) && scalar_fits(
            p,
            bound,
            level,
            *b,
        ),
        CompiledScalarExpr::Div(a, b) => scalar_fits(p, bound, level, *a) && scalar_fits(
            p,
            bound,
            level,
            *b,
        ),
        CompiledScalarExpr::Ceil(a) => scalar_fits(p, bound, level, *a),
        CompiledScalarExpr::Floor(a) => scalar_fits(p, bound, level, *a),
        CompiledScalarExpr::PeriodStart => true,
        CompiledScalarExpr::PeriodEnd => true,
        CompiledScalarExpr::DateShift { date, count, .. } => scalar_fits(p, bound, level, *date)
            && scalar_fits(p, bound, level, *count),
        CompiledScalarExpr::DaysBetween { from, to } => scalar_fits(p, bound, level, *from)
            && scalar_fits(p, bound, level, *to),
        CompiledScalarExpr::CountRelated { relation, predicate } => {
            &&& level >= 2
            &&& relation < p.relations@.len()
            &&& match predicate {
                Some(w) => related_judgment_fits(p, bound, level, relation as nat, *w),
                None => true,
            }
        },
        CompiledScalarExpr::SumRelated { relation, value, predicate } => {
            &&& level >= 2
            &&& relation < p.relations@.len()
            &&& related_scalar_fits(p, bound, level, relation as nat, *value)
            &&& match predicate {
                Some(w) => related_judgment_fits(p, bound, level, relation as nat, *w),
                None => true,
            }
        },
        CompiledScalarExpr::If { condition, then_expr, else_expr } => judgment_fits(
            p,
            bound,
            level,
            *condition,
        ) && scalar_fits(p, bound, level, *then_expr) && scalar_fits(p, bound, level, *else_expr),
        CompiledScalarExpr::NoMatch { subject, placeholder, .. } => scalar_fits(
            p,
            bound,
            level,
            *subject,
        ) && scalar_fits(p, bound, level, *placeholder),
        CompiledScalarExpr::OverPeriods { value, n, .. } => {
            &&& scalar_fits(p, bound, level, *value)
            &&& match n {
                Some(n) => scalar_fits(p, bound, level, *n),
                None => true,
            }
        },
    }
}

pub open spec fn related_scalar_fits(
    p: DenseCompiledProgram,
    bound: nat,
    level: nat,
    rel: nat,
    e: CompiledRelatedScalarExpr,
) -> bool
    decreases e, 1int, 0int,
{
    match e {
        CompiledRelatedScalarExpr::Literal(_) => true,
        CompiledRelatedScalarExpr::Input(i) => i < p.relations@[rel as int].related_inputs@.len(),
        CompiledRelatedScalarExpr::InputOrElse { input, .. } => input
            < p.relations@[rel as int].related_inputs@.len(),
        CompiledRelatedScalarExpr::RootScalar(e) => scalar_fits(p, bound, level, *e),
        CompiledRelatedScalarExpr::ParameterLookup { parameter, index } => parameter
            < p.parameters@.len() && related_scalar_fits(p, bound, level, rel, *index),
        CompiledRelatedScalarExpr::Add(items) => related_scalars_fit(p, bound, level, rel, items@, items@.len()),
        CompiledRelatedScalarExpr::Max(items) => related_scalars_fit(p, bound, level, rel, items@, items@.len()),
        CompiledRelatedScalarExpr::Min(items) => related_scalars_fit(p, bound, level, rel, items@, items@.len()),
        CompiledRelatedScalarExpr::Sub(a, b) => related_scalar_fits(p, bound, level, rel, *a)
            && related_scalar_fits(p, bound, level, rel, *b),
        CompiledRelatedScalarExpr::Mul(a, b) => related_scalar_fits(p, bound, level, rel, *a)
            && related_scalar_fits(p, bound, level, rel, *b),
        CompiledRelatedScalarExpr::Div(a, b) => related_scalar_fits(p, bound, level, rel, *a)
            && related_scalar_fits(p, bound, level, rel, *b),
        CompiledRelatedScalarExpr::Ceil(a) => related_scalar_fits(p, bound, level, rel, *a),
        CompiledRelatedScalarExpr::Floor(a) => related_scalar_fits(p, bound, level, rel, *a),
        CompiledRelatedScalarExpr::PeriodStart => true,
        CompiledRelatedScalarExpr::PeriodEnd => true,
        CompiledRelatedScalarExpr::DateShift { date, count, .. } => related_scalar_fits(
            p,
            bound,
            level,
            rel,
            *date,
        ) && related_scalar_fits(p, bound, level, rel, *count),
        CompiledRelatedScalarExpr::DaysBetween { from, to } => related_scalar_fits(
            p,
            bound,
            level,
            rel,
            *from,
        ) && related_scalar_fits(p, bound, level, rel, *to),
        CompiledRelatedScalarExpr::If { condition, then_expr, else_expr } => related_judgment_fits(
            p,
            bound,
            level,
            rel,
            *condition,
        ) && related_scalar_fits(p, bound, level, rel, *then_expr) && related_scalar_fits(
            p,
            bound,
            level,
            rel,
            *else_expr,
        ),
        CompiledRelatedScalarExpr::NoMatch { subject, placeholder, .. } => related_scalar_fits(
            p,
            bound,
            level,
            rel,
            *subject,
        ) && related_scalar_fits(p, bound, level, rel, *placeholder),
    }
}

pub open spec fn related_judgment_fits(
    p: DenseCompiledProgram,
    bound: nat,
    level: nat,
    rel: nat,
    e: CompiledRelatedJudgmentExpr,
) -> bool
    decreases e, 1int, 0int,
{
    match e {
        CompiledRelatedJudgmentExpr::Literal(_) => true,
        CompiledRelatedJudgmentExpr::Comparison { left, right, .. } => related_scalar_fits(
            p,
            bound,
            level,
            rel,
            left,
        ) && related_scalar_fits(p, bound, level, rel, right),
        CompiledRelatedJudgmentExpr::RootJudgment(e) => judgment_fits(p, bound, level, *e),
        CompiledRelatedJudgmentExpr::And(items) => related_judgments_fit(p, bound, level, rel, items@, items@.len()),
        CompiledRelatedJudgmentExpr::Or(items) => related_judgments_fit(p, bound, level, rel, items@, items@.len()),
        CompiledRelatedJudgmentExpr::Not(e) => related_judgment_fits(p, bound, level, rel, *e),
    }
}

pub open spec fn judgment_fits(
    p: DenseCompiledProgram,
    bound: nat,
    level: nat,
    e: CompiledJudgmentExpr,
) -> bool
    decreases e, 1int, 0int,
{
    match e {
        CompiledJudgmentExpr::Comparison { left, right, .. } => scalar_fits(p, bound, level, left)
            && scalar_fits(p, bound, level, right),
        CompiledJudgmentExpr::Derived(i) => i < bound,
        CompiledJudgmentExpr::And(items) => judgments_fit(p, bound, level, items@, items@.len()),
        CompiledJudgmentExpr::Or(items) => judgments_fit(p, bound, level, items@, items@.len()),
        CompiledJudgmentExpr::Not(e) => judgment_fits(p, bound, level, *e),
    }
}

/// Whether the first `n` items fit.
pub open spec fn scalars_fit(
    p: DenseCompiledProgram,
    bound: nat,
    level: nat,
    items: Seq<CompiledScalarExpr>,
    n: nat,
) -> bool
    decreases items, 0int, n,
{
    n == 0 || n > items.len() || (scalars_fit(p, bound, level, items, (n - 1) as nat) && scalar_fits(
        p,
        bound,
        level,
        items[n - 1],
    ))
}

pub proof fn scalars_fit_each(
    p: DenseCompiledProgram,
    bound: nat,
    level: nat,
    items: Seq<CompiledScalarExpr>,
    n: nat,
    i: int,
)
    requires
        scalars_fit(p, bound, level, items, n),
        0 <= i < n <= items.len(),
    ensures
        scalar_fits(p, bound, level, items[i]),
    decreases n,
{
    if i < n - 1 {
        scalars_fit_each(p, bound, level, items, (n - 1) as nat, i);
    }
}

/// Whether the first `n` items fit.
pub open spec fn judgments_fit(
    p: DenseCompiledProgram,
    bound: nat,
    level: nat,
    items: Seq<CompiledJudgmentExpr>,
    n: nat,
) -> bool
    decreases items, 0int, n,
{
    n == 0 || n > items.len() || (judgments_fit(p, bound, level, items, (n - 1) as nat) && judgment_fits(
        p,
        bound,
        level,
        items[n - 1],
    ))
}

pub proof fn judgments_fit_each(
    p: DenseCompiledProgram,
    bound: nat,
    level: nat,
    items: Seq<CompiledJudgmentExpr>,
    n: nat,
    i: int,
)
    requires
        judgments_fit(p, bound, level, items, n),
        0 <= i < n <= items.len(),
    ensures
        judgment_fits(p, bound, level, items[i]),
    decreases n,
{
    if i < n - 1 {
        judgments_fit_each(p, bound, level, items, (n - 1) as nat, i);
    }
}

/// Whether the first `n` items fit.
pub open spec fn related_scalars_fit(
    p: DenseCompiledProgram,
    bound: nat,
    level: nat,
    rel: nat,
    items: Seq<CompiledRelatedScalarExpr>,
    n: nat,
) -> bool
    decreases items, 0int, n,
{
    n == 0 || n > items.len() || (related_scalars_fit(p, bound, level, rel, items, (n - 1) as nat) && related_scalar_fits(
        p,
        bound,
        level,
        rel,
        items[n - 1],
    ))
}

pub proof fn related_scalars_fit_each(
    p: DenseCompiledProgram,
    bound: nat,
    level: nat,
    rel: nat,
    items: Seq<CompiledRelatedScalarExpr>,
    n: nat,
    i: int,
)
    requires
        related_scalars_fit(p, bound, level, rel, items, n),
        0 <= i < n <= items.len(),
    ensures
        related_scalar_fits(p, bound, level, rel, items[i]),
    decreases n,
{
    if i < n - 1 {
        related_scalars_fit_each(p, bound, level, rel, items, (n - 1) as nat, i);
    }
}

/// Whether the first `n` items fit.
pub open spec fn related_judgments_fit(
    p: DenseCompiledProgram,
    bound: nat,
    level: nat,
    rel: nat,
    items: Seq<CompiledRelatedJudgmentExpr>,
    n: nat,
) -> bool
    decreases items, 0int, n,
{
    n == 0 || n > items.len() || (related_judgments_fit(p, bound, level, rel, items, (n - 1) as nat) && related_judgment_fits(
        p,
        bound,
        level,
        rel,
        items[n - 1],
    ))
}

pub proof fn related_judgments_fit_each(
    p: DenseCompiledProgram,
    bound: nat,
    level: nat,
    rel: nat,
    items: Seq<CompiledRelatedJudgmentExpr>,
    n: nat,
    i: int,
)
    requires
        related_judgments_fit(p, bound, level, rel, items, n),
        0 <= i < n <= items.len(),
    ensures
        related_judgment_fits(p, bound, level, rel, items[i]),
    decreases n,
{
    if i < n - 1 {
        related_judgments_fit_each(p, bound, level, rel, items, (n - 1) as nat, i);
    }
}

impl DenseCompiledProgram {
    /// Every rule refers to rules before it, every derived relation to a relation
    /// before it that has the same rows, and every position exists.
    pub open spec fn well_formed(self) -> bool {
        &&& forall|i: int| #![trigger self.derived@[i]]
            0 <= i < self.derived@.len() ==> match self.derived@[i].semantics {
                CompiledSemantics::Scalar(e) => scalar_fits(self, i as nat, 2, e),
                CompiledSemantics::Judgment(e) => judgment_fits(self, i as nat, 2, e),
            }
        &&& forall|i: int| #![trigger self.relations@[i]]
            0 <= i < self.relations@.len() ==> {
                &&& self.relations@[i].parent_relation matches Some(parent) ==> {
                    &&& parent < i
                    &&& self.relations@[parent as int].key@ == self.relations@[i].key@
                }
                &&& self.relations@[i].filter matches Some(filter) ==> related_judgment_fits(
                    self,
                    0,
                    0,
                    i as nat,
                    filter,
                )
            }
    }
}

impl DenseFacts {
    /// The columns are those that the program's tables call for.
    pub open spec fn bound_well(self) -> bool {
        let p = self.program;
        let b = self.batch;
        &&& p.well_formed()
        &&& b.row_count < usize::MAX
        &&& b.inputs.len() == p.root_inputs@.len()
        &&& forall|i: int| #![trigger b.inputs[i]]
            0 <= i < b.inputs.len() ==> (b.inputs[i] matches Some(c) ==> c.rows() == b.row_count)
        &&& b.relations.len() == p.relations@.len()
        &&& forall|i: int| #![trigger b.relations[i]]
            0 <= i < b.relations.len() ==> {
                &&& b.relations[i].well_formed(b.row_count)
                &&& b.relations[i].inputs.len() == p.relations@[i].related_inputs@.len()
                &&& forall|j: int| #![trigger b.relations[i].inputs[j]]
                    0 <= j < b.relations[i].inputs.len() ==> (b.relations[i].inputs[j] matches
                        Some(c) ==> c.rows() == b.relations[i].related_count)
                &&& p.relations@[i].parent_relation matches Some(parent) ==> {
                    &&& b.relations[parent as int].related_count == b.relations[i].related_count
                    &&& b.relations[parent as int].offsets == b.relations[i].offsets
                }
            }
    }

    /// The root row that owns a related row.
    pub open spec fn owner(self, rel: nat, k: int) -> int {
        group_of(self.batch.relations[rel as int].offsets, self.batch.row_count, k)
    }

    /// The first related row of a root row.
    pub open spec fn first_of(self, rel: nat, row: int) -> int {
        self.batch.relations[rel as int].offsets[row] as int
    }

    /// The end of the related rows of a root row.
    pub open spec fn end_of(self, rel: nat, row: int) -> int {
        self.batch.relations[rel as int].offsets[row + 1] as int
    }
}

/// The value of a supplied input, or the error that it is missing.
pub open spec fn input_cell(
    column: Option<ColumnView>,
    name: Seq<char>,
    entity: Seq<char>,
    start: Date,
    end: Date,
    row: int,
) -> Result<ScalarValue, ErrorView> {
    match column {
        Some(c) => Ok(c.cell(row)),
        None => Err(
            ErrorView::MissingInput {
                name,
                entity_id: entity,
                period_start: start,
                period_end: end,
            },
        ),
    }
}

/// The error of a rule before its commencement date.
pub open spec fn commencement_error(cx: DenseFacts, i: nat) -> Option<ErrorView> {
    let d = cx.program.derived@[i as int];
    match d.effective_from {
        Some(from) if cx.enforce_commencement && cx.start.number() < from.number() => Some(
            ErrorView::MissingDerivedFormulaVersion { derived: d.name@, at: cx.start },
        ),
        _ => None,
    }
}

/// A rule's result as it leaves the rule.
pub open spec fn left_rule<T>(label: Seq<char>, value: Result<T, ErrorView>) -> Result<
    T,
    ErrorView,
> {
    match value {
        Ok(v) => Ok(v),
        Err(error) => Err(error.within(label)),
    }
}

/// The value of a rule for a row.
pub open spec fn rule_cell(cx: DenseFacts, i: nat, row: int) -> Result<ScalarValue, ErrorView>
    decreases i, 3nat, cx, 0int, 0int,
{
    let d = cx.program.derived@[i as int];
    match d.semantics {
        CompiledSemantics::Judgment(_) => Err(ErrorView::ExpectedScalar(d.name@)),
        CompiledSemantics::Scalar(e) => match commencement_error(cx, i) {
            Some(error) => Err(error),
            None => {
                let value = left_rule(d.label@, root_cell(cx, i, 2, e, row));
                match d.rounding {
                    Some(rounding) => rounded_cell(rounding, value),
                    None => value,
                }
            },
        },
    }
}

/// The judgment of a rule for a row.
pub open spec fn rule_outcome(cx: DenseFacts, i: nat, row: int) -> Result<
    JudgmentOutcome,
    ErrorView,
>
    decreases i, 3nat, cx, 0int, 0int,
{
    let d = cx.program.derived@[i as int];
    match d.semantics {
        CompiledSemantics::Scalar(_) => Err(ErrorView::ExpectedJudgment(d.name@)),
        CompiledSemantics::Judgment(e) => match commencement_error(cx, i) {
            Some(error) => Err(error),
            None => left_rule(d.label@, root_outcome(cx, i, 2, e, row)),
        },
    }
}

/// The value of a root formula for a row.
#[verifier::opaque]
pub open spec fn root_cell(
    cx: DenseFacts,
    bound: nat,
    level: nat,
    e: CompiledScalarExpr,
    row: int,
) -> Result<ScalarValue, ErrorView>
    decreases bound, level, e, 3int, 0int,
{
    root_step(cx, bound, level, e, row)
}

/// The value of a root formula over the values of its parts.
pub open spec fn root_step(
    cx: DenseFacts,
    bound: nat,
    level: nat,
    e: CompiledScalarExpr,
    row: int,
) -> Result<ScalarValue, ErrorView>
    decreases bound, level, e, 2int, 0int,
{
    match e {
        CompiledScalarExpr::Literal(value) => Ok(normal(value)),
        CompiledScalarExpr::Input(i) => input_cell(
            cx.batch.inputs[i as int],
            cx.program.root_inputs@[i as int]@,
            cx.program.root_entity@,
            cx.start,
            cx.end,
            row,
        ),
        CompiledScalarExpr::InputOrElse { input, default } => Ok(
            match cx.batch.inputs[input as int] {
                Some(c) => c.cell(row),
                None => normal(default),
            },
        ),
        CompiledScalarExpr::Derived(i) => if i < bound {
            rule_cell(cx, i as nat, row)
        } else {
            Err(ErrorView::DivisionByZero)
        },
        CompiledScalarExpr::ParameterLookup { parameter, index } => parameter_cell(
            cx.program.parameters@[parameter as int].parameter,
            cx.start,
            root_cell(cx, bound, level, *index, row),
        ),
        CompiledScalarExpr::Add(items) => as_decimal_value(
            root_sum(cx, bound, level, items@, items@.len(), row),
        ),
        CompiledScalarExpr::Sub(a, b) => binary_cell(
            BinaryOp::Sub,
            numbered(root_cell(cx, bound, level, *a, row)),
            numbered(root_cell(cx, bound, level, *b, row)),
            false,
        ),
        CompiledScalarExpr::Mul(a, b) => binary_cell(
            BinaryOp::Mul,
            numbered(root_cell(cx, bound, level, *a, row)),
            numbered(root_cell(cx, bound, level, *b, row)),
            false,
        ),
        CompiledScalarExpr::Div(a, b) => binary_cell(
            BinaryOp::Div,
            nonzero(numbered(root_cell(cx, bound, level, *b, row))),
            numbered(root_cell(cx, bound, level, *a, row)),
            true,
        ),
        CompiledScalarExpr::Max(items) => if items@.len() == 0 {
            Err(ErrorView::TypeMismatch("max() requires at least one operand"@))
        } else {
            as_decimal_value(root_extremum(cx, bound, level, items@, items@.len(), true, row))
        },
        CompiledScalarExpr::Min(items) => if items@.len() == 0 {
            Err(ErrorView::TypeMismatch("min() requires at least one operand"@))
        } else {
            as_decimal_value(root_extremum(cx, bound, level, items@, items@.len(), false, row))
        },
        CompiledScalarExpr::Ceil(a) => integral_cell(
            true,
            numbered(root_cell(cx, bound, level, *a, row)),
        ),
        CompiledScalarExpr::Floor(a) => integral_cell(
            false,
            numbered(root_cell(cx, bound, level, *a, row)),
        ),
        CompiledScalarExpr::PeriodStart => Ok(ScalarValue::Date(cx.start)),
        CompiledScalarExpr::PeriodEnd => Ok(ScalarValue::Date(cx.end)),
        CompiledScalarExpr::DateShift { unit, date, count } => shift_cell(
            unit,
            dated(root_cell(cx, bound, level, *date, row), unit.date_message()),
            counted(root_cell(cx, bound, level, *count, row), unit.count_message()),
        ),
        CompiledScalarExpr::DaysBetween { from, to } => between_cell(
            dated(
                root_cell(cx, bound, level, *from, row),
                "days_between expects a date for `from`"@,
            ),
            dated(
                root_cell(cx, bound, level, *to, row),
                "days_between expects a date for `to`"@,
            ),
        ),
        CompiledScalarExpr::CountRelated { relation, .. } => if level < 2 {
            Err(ErrorView::DivisionByZero)
        } else {
            let rel = relation as nat;
            let (lo, hi) = (cx.first_of(rel, row), cx.end_of(rel, row));
            match member_failure(cx, rel, row) {
                Some(error) => Err(error),
                None => match kept_failure(cx, bound, level, e, lo, hi) {
                    Some(error) => Err(error),
                    None => Ok(
                        ScalarValue::Decimal(
                            Decimal::of_int(
                                capped(kept_count(cx, bound, level, e, lo, hi)) as int,
                            ),
                        ),
                    ),
                },
            }
        },
        CompiledScalarExpr::SumRelated { relation, .. } => if level < 2 {
            Err(ErrorView::DivisionByZero)
        } else {
            let rel = relation as nat;
            let (lo, hi) = (cx.first_of(rel, row), cx.end_of(rel, row));
            match member_failure(cx, rel, row) {
                Some(error) => Err(error),
                None => match kept_failure(cx, bound, level, e, lo, hi) {
                    Some(error) => Err(error),
                    None => as_decimal_value(kept_total(cx, bound, level, e, lo, hi)),
                },
            }
        },
        CompiledScalarExpr::If { condition, then_expr, else_expr } => if_cell(
            root_outcome(cx, bound, level, *condition, row),
            root_cell(cx, bound, level, *then_expr, row),
            root_cell(cx, bound, level, *else_expr, row),
        ),
        CompiledScalarExpr::NoMatch { subject, labels, .. } => no_match_cell(
            labels,
            root_cell(cx, bound, level, *subject, row),
        ),
        CompiledScalarExpr::OverPeriods { kind, .. } => Err(
            ErrorView::OverPeriodsOutsideLifetime(kind.call_name()),
        ),
    }
}

/// A divisor: zero is an error.
pub open spec fn nonzero(divisor: Result<Decimal, ErrorView>) -> Result<Decimal, ErrorView> {
    match divisor {
        Ok(d) => if d.magnitude() == 0 {
            Err(ErrorView::DivisionByZero)
        } else {
            Ok(d)
        },
        Err(error) => Err(error),
    }
}

/// The sum of the first `n` items for a row.
pub open spec fn root_sum(
    cx: DenseFacts,
    bound: nat,
    level: nat,
    items: Seq<CompiledScalarExpr>,
    n: nat,
    row: int,
) -> Result<Decimal, ErrorView>
    decreases bound, level, items, 0int, n,
{
    if n == 0 || n > items.len() {
        Ok(Decimal::zero_value())
    } else {
        sum_cell(
            root_sum(cx, bound, level, items, (n - 1) as nat, row),
            numbered(root_cell(cx, bound, level, items[n - 1], row)),
        )
    }
}

/// The largest or smallest of the first `n` items for a row.
pub open spec fn root_extremum(
    cx: DenseFacts,
    bound: nat,
    level: nat,
    items: Seq<CompiledScalarExpr>,
    n: nat,
    largest: bool,
    row: int,
) -> Result<Decimal, ErrorView>
    decreases bound, level, items, 0int, n,
{
    if n <= 1 || n > items.len() {
        if items.len() > 0 {
            numbered(root_cell(cx, bound, level, items[0], row))
        } else {
            Ok(Decimal::zero_value())
        }
    } else {
        extremum_cell(
            largest,
            root_extremum(cx, bound, level, items, (n - 1) as nat, largest, row),
            numbered(root_cell(cx, bound, level, items[n - 1], row)),
        )
    }
}

/// The judgment of a root formula for a row.
#[verifier::opaque]
pub open spec fn root_outcome(
    cx: DenseFacts,
    bound: nat,
    level: nat,
    e: CompiledJudgmentExpr,
    row: int,
) -> Result<JudgmentOutcome, ErrorView>
    decreases bound, level, e, 3int, 0int,
{
    root_outcome_step(cx, bound, level, e, row)
}

/// The judgment of a root formula over the values of its parts.
pub open spec fn root_outcome_step(
    cx: DenseFacts,
    bound: nat,
    level: nat,
    e: CompiledJudgmentExpr,
    row: int,
) -> Result<JudgmentOutcome, ErrorView>
    decreases bound, level, e, 2int, 0int,
{
    match e {
        CompiledJudgmentExpr::Comparison { left, op, right } => compare_cell(
            root_cell(cx, bound, level, left, row),
            op,
            root_cell(cx, bound, level, right, row),
        ),
        CompiledJudgmentExpr::Derived(i) => if i < bound {
            rule_outcome(cx, i as nat, row)
        } else {
            Err(ErrorView::DivisionByZero)
        },
        CompiledJudgmentExpr::And(items) => connective_outcome(
            JudgmentOutcome::NotHolds,
            root_connective(cx, bound, level, items@, items@.len(), JudgmentOutcome::NotHolds, row),
        ),
        CompiledJudgmentExpr::Or(items) => connective_outcome(
            JudgmentOutcome::Holds,
            root_connective(cx, bound, level, items@, items@.len(), JudgmentOutcome::Holds, row),
        ),
        CompiledJudgmentExpr::Not(item) => match root_outcome(cx, bound, level, *item, row) {
            Ok(o) => Ok(o.negated()),
            Err(error) => Err(error),
        },
    }
}

/// The state of `and` or `or` after the first `n` items for a row.
pub open spec fn root_connective(
    cx: DenseFacts,
    bound: nat,
    level: nat,
    items: Seq<CompiledJudgmentExpr>,
    n: nat,
    decisive: JudgmentOutcome,
    row: int,
) -> Result<ConnectiveState, ErrorView>
    decreases bound, level, items, 0int, n,
{
    if n == 0 || n > items.len() {
        connective_start()
    } else {
        connective_item(
            decisive,
            root_connective(cx, bound, level, items, (n - 1) as nat, decisive, row),
            root_outcome(cx, bound, level, items[n - 1], row),
        )
    }
}

/// The value of a related formula for a related row.
#[verifier::opaque]
pub open spec fn related_cell(
    cx: DenseFacts,
    bound: nat,
    level: nat,
    rel: nat,
    e: CompiledRelatedScalarExpr,
    k: int,
) -> Result<ScalarValue, ErrorView>
    decreases bound, level, e, 3int, 0int,
{
    related_step(cx, bound, level, rel, e, k)
}

/// The value of a related formula over the values of its parts.
pub open spec fn related_step(
    cx: DenseFacts,
    bound: nat,
    level: nat,
    rel: nat,
    e: CompiledRelatedScalarExpr,
    k: int,
) -> Result<ScalarValue, ErrorView>
    decreases bound, level, e, 2int, 0int,
{
    match e {
        CompiledRelatedScalarExpr::Literal(value) => Ok(normal(value)),
        CompiledRelatedScalarExpr::Input(i) => input_cell(
            cx.batch.relations[rel as int].inputs[i as int],
            cx.program.relations@[rel as int].related_inputs@[i as int]@,
            cx.program.relations@[rel as int].key.name@,
            cx.start,
            cx.end,
            k,
        ),
        CompiledRelatedScalarExpr::InputOrElse { input, default } => Ok(
            match cx.batch.relations[rel as int].inputs[input as int] {
                Some(c) => c.cell(k),
                None => normal(default),
            },
        ),
        CompiledRelatedScalarExpr::RootScalar(e) => root_cell(
            cx,
            bound,
            level,
            *e,
            cx.owner(rel, k),
        ),
        CompiledRelatedScalarExpr::ParameterLookup { parameter, index } => parameter_cell(
            cx.program.parameters@[parameter as int].parameter,
            cx.start,
            related_cell(cx, bound, level, rel, *index, k),
        ),
        CompiledRelatedScalarExpr::Add(items) => as_decimal_value(
            related_sum(cx, bound, level, rel, items@, items@.len(), k),
        ),
        CompiledRelatedScalarExpr::Sub(a, b) => binary_cell(
            BinaryOp::Sub,
            numbered(related_cell(cx, bound, level, rel, *a, k)),
            numbered(related_cell(cx, bound, level, rel, *b, k)),
            false,
        ),
        CompiledRelatedScalarExpr::Mul(a, b) => binary_cell(
            BinaryOp::Mul,
            numbered(related_cell(cx, bound, level, rel, *a, k)),
            numbered(related_cell(cx, bound, level, rel, *b, k)),
            false,
        ),
        CompiledRelatedScalarExpr::Div(a, b) => binary_cell(
            BinaryOp::Div,
            nonzero(numbered(related_cell(cx, bound, level, rel, *b, k))),
            numbered(related_cell(cx, bound, level, rel, *a, k)),
            true,
        ),
        CompiledRelatedScalarExpr::Max(items) => if items@.len() == 0 {
            Err(ErrorView::TypeMismatch("max() requires at least one operand"@))
        } else {
            as_decimal_value(
                related_extremum(cx, bound, level, rel, items@, items@.len(), true, k),
            )
        },
        CompiledRelatedScalarExpr::Min(items) => if items@.len() == 0 {
            Err(ErrorView::TypeMismatch("min() requires at least one operand"@))
        } else {
            as_decimal_value(
                related_extremum(cx, bound, level, rel, items@, items@.len(), false, k),
            )
        },
        CompiledRelatedScalarExpr::Ceil(a) => integral_cell(
            true,
            numbered(related_cell(cx, bound, level, rel, *a, k)),
        ),
        CompiledRelatedScalarExpr::Floor(a) => integral_cell(
            false,
            numbered(related_cell(cx, bound, level, rel, *a, k)),
        ),
        CompiledRelatedScalarExpr::PeriodStart => Ok(ScalarValue::Date(cx.start)),
        CompiledRelatedScalarExpr::PeriodEnd => Ok(ScalarValue::Date(cx.end)),
        CompiledRelatedScalarExpr::DateShift { unit, date, count } => shift_cell(
            unit,
            dated(related_cell(cx, bound, level, rel, *date, k), unit.date_message()),
            counted(related_cell(cx, bound, level, rel, *count, k), unit.count_message()),
        ),
        CompiledRelatedScalarExpr::DaysBetween { from, to } => between_cell(
            dated(
                related_cell(cx, bound, level, rel, *from, k),
                "days_between expects a date for `from`"@,
            ),
            dated(
                related_cell(cx, bound, level, rel, *to, k),
                "days_between expects a date for `to`"@,
            ),
        ),
        CompiledRelatedScalarExpr::If { condition, then_expr, else_expr } => if_cell(
            related_outcome(cx, bound, level, rel, *condition, k),
            related_cell(cx, bound, level, rel, *then_expr, k),
            related_cell(cx, bound, level, rel, *else_expr, k),
        ),
        CompiledRelatedScalarExpr::NoMatch { subject, labels, .. } => no_match_cell(
            labels,
            related_cell(cx, bound, level, rel, *subject, k),
        ),
    }
}

/// The sum of the first `n` items for a related row.
pub open spec fn related_sum(
    cx: DenseFacts,
    bound: nat,
    level: nat,
    rel: nat,
    items: Seq<CompiledRelatedScalarExpr>,
    n: nat,
    k: int,
) -> Result<Decimal, ErrorView>
    decreases bound, level, items, 0int, n,
{
    if n == 0 || n > items.len() {
        Ok(Decimal::zero_value())
    } else {
        sum_cell(
            related_sum(cx, bound, level, rel, items, (n - 1) as nat, k),
            numbered(related_cell(cx, bound, level, rel, items[n - 1], k)),
        )
    }
}

/// The largest or smallest of the first `n` items for a related row.
pub open spec fn related_extremum(
    cx: DenseFacts,
    bound: nat,
    level: nat,
    rel: nat,
    items: Seq<CompiledRelatedScalarExpr>,
    n: nat,
    largest: bool,
    k: int,
) -> Result<Decimal, ErrorView>
    decreases bound, level, items, 0int, n,
{
    if n <= 1 || n > items.len() {
        if items.len() > 0 {
            numbered(related_cell(cx, bound, level, rel, items[0], k))
        } else {
            Ok(Decimal::zero_value())
        }
    } else {
        extremum_cell(
            largest,
            related_extremum(cx, bound, level, rel, items, (n - 1) as nat, largest, k),
            numbered(related_cell(cx, bound, level, rel, items[n - 1], k)),
        )
    }
}

/// The outcome of a related test for a related row: it holds or does not.
#[verifier::opaque]
pub open spec fn related_outcome(
    cx: DenseFacts,
    bound: nat,
    level: nat,
    rel: nat,
    e: CompiledRelatedJudgmentExpr,
    k: int,
) -> Result<JudgmentOutcome, ErrorView>
    decreases bound, level, e, 3int, 0int,
{
    related_outcome_step(cx, bound, level, rel, e, k)
}

/// The outcome of a related test over the values of its parts.
pub open spec fn related_outcome_step(
    cx: DenseFacts,
    bound: nat,
    level: nat,
    rel: nat,
    e: CompiledRelatedJudgmentExpr,
    k: int,
) -> Result<JudgmentOutcome, ErrorView>
    decreases bound, level, e, 2int, 0int,
{
    match e {
        CompiledRelatedJudgmentExpr::Literal(b) => Ok(JudgmentOutcome::of_bool(b)),
        CompiledRelatedJudgmentExpr::Comparison { left, op, right } => compare_cell(
            related_cell(cx, bound, level, rel, left, k),
            op,
            related_cell(cx, bound, level, rel, right, k),
        ),
        CompiledRelatedJudgmentExpr::RootJudgment(e) => match root_outcome(
            cx,
            bound,
            level,
            *e,
            cx.owner(rel, k),
        ) {
            Ok(o) => Ok(JudgmentOutcome::of_bool(o is Holds)),
            Err(error) => Err(error),
        },
        CompiledRelatedJudgmentExpr::And(items) => connective_outcome(
            JudgmentOutcome::NotHolds,
            related_connective(
                cx,
                bound,
                level,
                rel,
                items@,
                items@.len(),
                JudgmentOutcome::NotHolds,
                k,
            ),
        ),
        CompiledRelatedJudgmentExpr::Or(items) => connective_outcome(
            JudgmentOutcome::Holds,
            related_connective(
                cx,
                bound,
                level,
                rel,
                items@,
                items@.len(),
                JudgmentOutcome::Holds,
                k,
            ),
        ),
        CompiledRelatedJudgmentExpr::Not(item) => match related_outcome(
            cx,
            bound,
            level,
            rel,
            *item,
            k,
        ) {
            Ok(o) => Ok(o.negated()),
            Err(error) => Err(error),
        },
    }
}

/// The state of `and` or `or` after the first `n` items for a related row.
pub open spec fn related_connective(
    cx: DenseFacts,
    bound: nat,
    level: nat,
    rel: nat,
    items: Seq<CompiledRelatedJudgmentExpr>,
    n: nat,
    decisive: JudgmentOutcome,
    k: int,
) -> Result<ConnectiveState, ErrorView>
    decreases bound, level, items, 0int, n,
{
    if n == 0 || n > items.len() {
        connective_start()
    } else {
        connective_item(
            decisive,
            related_connective(cx, bound, level, rel, items, (n - 1) as nat, decisive, k),
            related_outcome(cx, bound, level, rel, items[n - 1], k),
        )
    }
}

/// Whether a related row is a member of a relation: of its parent and of its filter.
pub open spec fn is_member(cx: DenseFacts, rel: nat, k: int) -> bool
    decreases 0nat, 1nat, cx, 2 * rel, 0int,
{
    let schema = cx.program.relations@[rel as int];
    &&& match schema.parent_relation {
        Some(parent) => parent < rel && is_member(cx, parent as nat, k),
        None => true,
    }
    &&& match schema.filter {
        Some(filter) => related_outcome(cx, 0, 0, rel, filter, k) matches Ok(o) && o is Holds,
        None => true,
    }
}

/// The error of a relation's own filter for a related row that its parent keeps.
pub open spec fn filter_error(cx: DenseFacts, rel: nat, k: int) -> Option<ErrorView>
    decreases 0nat, 1nat, cx, 2 * rel, 1int,
{
    let schema = cx.program.relations@[rel as int];
    let reached = match schema.parent_relation {
        Some(parent) => parent < rel && is_member(cx, parent as nat, k),
        None => true,
    };
    match schema.filter {
        Some(filter) => match related_outcome(cx, 0, 0, rel, filter, k) {
            Err(error) if reached => Some(error),
            _ => None,
        },
        None => None,
    }
}

/// The first error of a relation's own filter from related row `lo` to `hi`.
pub open spec fn filter_failure(cx: DenseFacts, rel: nat, lo: int, hi: int) -> Option<ErrorView>
    decreases 0nat, 1nat, cx, 2 * rel, hi - lo + 2,
{
    if lo >= hi {
        None
    } else {
        match filter_failure(cx, rel, lo, hi - 1) {
            Some(error) => Some(error),
            None => filter_error(cx, rel, hi - 1),
        }
    }
}

/// The error that ends finding the members of a relation for a root row: that of
/// the parent first, then that of the relation's own filter.
pub open spec fn member_failure(cx: DenseFacts, rel: nat, row: int) -> Option<ErrorView>
    decreases 0nat, 1nat, cx, 2 * rel + 1, 0int,
{
    let own = filter_failure(cx, rel, cx.first_of(rel, row), cx.end_of(rel, row));
    match cx.program.relations@[rel as int].parent_relation {
        Some(parent) => if parent < rel {
            match member_failure(cx, parent as nat, row) {
                Some(error) => Some(error),
                None => own,
            }
        } else {
            own
        },
        None => own,
    }
}

/// Whether an aggregation's `where` clause keeps a related row, or its error.
pub open spec fn kept_test(
    cx: DenseFacts,
    bound: nat,
    level: nat,
    e: CompiledScalarExpr,
    k: int,
) -> Result<bool, ErrorView>
    decreases bound, level, e, 0int, 0int,
{
    match e {
        CompiledScalarExpr::CountRelated { relation, predicate: Some(w) } => match related_outcome(
            cx,
            bound,
            level,
            relation as nat,
            *w,
            k,
        ) {
            Ok(o) => Ok(o is Holds),
            Err(error) => Err(error),
        },
        CompiledScalarExpr::SumRelated { relation, predicate: Some(w), .. } => {
            match related_outcome(cx, bound, level, relation as nat, *w, k) {
                Ok(o) => Ok(o is Holds),
                Err(error) => Err(error),
            }
        },
        _ => Ok(true),
    }
}

/// The number that a sum reads of a related row.
pub open spec fn kept_number(
    cx: DenseFacts,
    bound: nat,
    level: nat,
    e: CompiledScalarExpr,
    k: int,
) -> Result<Decimal, ErrorView>
    decreases bound, level, e, 0int, 0int,
{
    match e {
        CompiledScalarExpr::SumRelated { relation, value, .. } => numbered(
            related_cell(cx, bound, level, relation as nat, *value, k),
        ),
        _ => Ok(Decimal::zero_value()),
    }
}

/// The relation of an aggregation.
pub open spec fn relation_of(e: CompiledScalarExpr) -> nat {
    match e {
        CompiledScalarExpr::CountRelated { relation, .. } => relation as nat,
        CompiledScalarExpr::SumRelated { relation, .. } => relation as nat,
        _ => 0,
    }
}

/// The error of one member of an aggregation: of its `where` clause, else of the
/// number that is read where the clause keeps it.
pub open spec fn member_error(
    cx: DenseFacts,
    bound: nat,
    level: nat,
    e: CompiledScalarExpr,
    k: int,
) -> Option<ErrorView>
    decreases bound, level, e, 1int, 0int,
{
    match kept_test(cx, bound, level, e, k) {
        Err(error) => Some(error),
        Ok(kept) => if kept {
            match kept_number(cx, bound, level, e, k) {
                Err(error) => Some(error),
                Ok(_) => None,
            }
        } else {
            None
        },
    }
}

/// The first error of the members of an aggregation from `lo` to `hi`.
pub open spec fn kept_failure(
    cx: DenseFacts,
    bound: nat,
    level: nat,
    e: CompiledScalarExpr,
    lo: int,
    hi: int,
) -> Option<ErrorView>
    decreases bound, level, e, 1int, hi - lo + 1,
{
    if level < 2 || lo >= hi {
        None
    } else {
        match kept_failure(cx, bound, level, e, lo, hi - 1) {
            Some(error) => Some(error),
            None => if is_member(cx, relation_of(e), hi - 1) {
                member_error(cx, bound, level, e, hi - 1)
            } else {
                None
            },
        }
    }
}

/// How many members from `lo` to `hi` the `where` clause keeps.
pub open spec fn kept_count(
    cx: DenseFacts,
    bound: nat,
    level: nat,
    e: CompiledScalarExpr,
    lo: int,
    hi: int,
) -> nat
    decreases bound, level, e, 1int, hi - lo + 1,
{
    if level < 2 || lo >= hi {
        0
    } else {
        kept_count(cx, bound, level, e, lo, hi - 1) + if is_member(cx, relation_of(e), hi - 1)
            && kept_test(cx, bound, level, e, hi - 1) == Ok::<bool, ErrorView>(true) {
            1nat
        } else {
            0nat
        }
    }
}

/// The sum over the members from `lo` to `hi` that the `where` clause keeps.
pub open spec fn kept_total(
    cx: DenseFacts,
    bound: nat,
    level: nat,
    e: CompiledScalarExpr,
    lo: int,
    hi: int,
) -> Result<Decimal, ErrorView>
    decreases bound, level, e, 1int, hi - lo + 1,
{
    if level < 2 || lo >= hi {
        Ok(Decimal::zero_value())
    } else {
        let before = kept_total(cx, bound, level, e, lo, hi - 1);
        if is_member(cx, relation_of(e), hi - 1) && kept_test(cx, bound, level, e, hi - 1) == Ok::<
            bool,
            ErrorView,
        >(true) {
            sum_cell(before, kept_number(cx, bound, level, e, hi - 1))
        } else {
            before
        }
    }
}

} // verus!
