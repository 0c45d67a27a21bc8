//! Columns of values and the operations of the columnar evaluator on them.
//!
//! A node of a formula is evaluated to a column of values and the errors of the
//! rows that failed. The operations here take the columns of a node's parts and
//! give the column of the node. What each gives for a row is stated by the
//! function of that row alone.
use crate::date::Date;
use crate::decimal::{decimal_sum, Decimal};
use crate::engine::{
    compare_scalar_values, shift_calendar_days, shift_calendar_months, shift_calendar_years,
};
use crate::error::{
    checked_add, checked_div, checked_mul, checked_sub, divided, in_range, outcome, ErrorView,
    EvalError,
};
use crate::format::{format_value_label, value_label};
use crate::lazy::{RowErrors, RowMask};
use crate::mixing::{apart, rows_of};
use crate::model::{
    ComparisonOp, DType, IndexedParameter, JudgmentOutcome, Rounding, ScalarValue,
};
use crate::semantics::{
    as_decimal_value, better, shifted_days, shifted_months, shifted_years, values_compare,
};
use crate::text::owned;
use std::collections::BTreeMap;
use vstd::prelude::*;
use vstd::string::*;

verus! {

broadcast use vstd::std_specs::btree::group_btree_axioms;

/// The dtype of a column.
#[derive(Clone, Copy, Debug, PartialEq, Eq, Structural)]
pub enum ColumnKind {
    Bool,
    Integer,
    Decimal,
    Text,
    Date,
}

/// A value per row, all of one dtype.
#[derive(Debug)]
pub enum DenseColumn {
    Bool(Vec<bool>),
    Integer(Vec<i64>),
    Decimal(Vec<Decimal>),
    Text(Vec<String>),
    Date(Vec<Date>),
}

impl DenseColumn {
    /// Number of rows.
    pub open spec fn rows(self) -> nat {
        match self {
            DenseColumn::Bool(values) => values@.len(),
            DenseColumn::Integer(values) => values@.len(),
            DenseColumn::Decimal(values) => values@.len(),
            DenseColumn::Text(values) => values@.len(),
            DenseColumn::Date(values) => values@.len(),
        }
    }

    /// The value of a row. Integers read as numbers, as arithmetic reads them.
    pub open spec fn cell(self, row: int) -> ScalarValue {
        match self {
            DenseColumn::Bool(values) => ScalarValue::Bool(values@[row]),
            DenseColumn::Integer(values) => ScalarValue::Decimal(
                Decimal::of_int(values@[row] as int),
            ),
            DenseColumn::Decimal(values) => ScalarValue::Decimal(values@[row]),
            DenseColumn::Text(values) => ScalarValue::Text(values@[row]),
            DenseColumn::Date(values) => ScalarValue::Date(values@[row]),
        }
    }

    pub open spec fn kind(self) -> ColumnKind {
        match self {
            DenseColumn::Bool(_) => ColumnKind::Bool,
            DenseColumn::Integer(_) => ColumnKind::Integer,
            DenseColumn::Decimal(_) => ColumnKind::Decimal,
            DenseColumn::Text(_) => ColumnKind::Text,
            DenseColumn::Date(_) => ColumnKind::Date,
        }
    }

    /// The same rows, values and dtype.
    pub open spec fn same_as(self, other: DenseColumn) -> bool {
        &&& self.kind() == other.kind()
        &&& self.rows() == other.rows()
        &&& forall|row: int|
            0 <= row < self.rows() ==> #[trigger] self.cell(row) == other.cell(row)
    }

    pub fn len(&self) -> (r: usize)
        ensures
            r == self.rows(),
    {
        match self {
            DenseColumn::Bool(values) => values.len(),
            DenseColumn::Integer(values) => values.len(),
            DenseColumn::Decimal(values) => values.len(),
            DenseColumn::Text(values) => values.len(),
            DenseColumn::Date(values) => values.len(),
        }
    }

    /// The value of a row under the declared type: an integer column is read as
    /// integers for an integer rule and as decimals otherwise.
    pub fn scalar_value_at(&self, index: usize, dtype: &DType) -> (r: ScalarValue)
        requires
            index < self.rows(),
        ensures
            r == match (*self, *dtype) {
                (DenseColumn::Integer(values), DType::Integer) => ScalarValue::Integer(
                    values@[index as int],
                ),
                _ => self.cell(index as int),
            },
    {
        match self {
            DenseColumn::Bool(values) => ScalarValue::Bool(values[index]),
            DenseColumn::Integer(values) => match dtype {
                DType::Integer => ScalarValue::Integer(values[index]),
                _ => ScalarValue::Decimal(Decimal::from_i64(values[index])),
            },
            DenseColumn::Decimal(values) => ScalarValue::Decimal(values[index]),
            DenseColumn::Text(values) => ScalarValue::Text(values[index].clone()),
            DenseColumn::Date(values) => ScalarValue::Date(values[index]),
        }
    }

    /// The value of a row.
    pub(crate) fn value_at(&self, row: usize) -> (r: ScalarValue)
        requires
            row < self.rows(),
        ensures
            r == self.cell(row as int),
    {
        match self {
            DenseColumn::Bool(values) => ScalarValue::Bool(values[row]),
            DenseColumn::Integer(values) => ScalarValue::Decimal(Decimal::from_i64(values[row])),
            DenseColumn::Decimal(values) => ScalarValue::Decimal(values[row]),
            DenseColumn::Text(values) => ScalarValue::Text(values[row].clone()),
            DenseColumn::Date(values) => ScalarValue::Date(values[row]),
        }
    }

    pub fn duplicate(&self) -> (r: DenseColumn)
        ensures
            r.same_as(*self),
    {
        match self {
            DenseColumn::Bool(values) => DenseColumn::Bool(copied(values)),
            DenseColumn::Integer(values) => DenseColumn::Integer(copied(values)),
            DenseColumn::Decimal(values) => DenseColumn::Decimal(copied(values)),
            DenseColumn::Text(values) => DenseColumn::Text(copied_texts(values)),
            DenseColumn::Date(values) => DenseColumn::Date(copied(values)),
        }
    }
}

/// A copy of a list of plain values.
pub(crate) fn copied<T: Copy>(values: &Vec<T>) -> (r: Vec<T>)
    ensures
        r@ == values@,
{
    let mut r: Vec<T> = Vec::new();
    let mut i: usize = 0;
    while i < values.len()
        invariant
            i <= values@.len(),
            r@ =~= values@.take(i as int),
        decreases values@.len() - i,
    {
        r.push(values[i]);
        i = i + 1;
    }
    r
}

pub(crate) fn copied_texts(values: &Vec<String>) -> (r: Vec<String>)
    ensures
        r@ == values@,
{
    let mut r: Vec<String> = Vec::new();
    let mut i: usize = 0;
    while i < values.len()
        invariant
            i <= values@.len(),
            r@ =~= values@.take(i as int),
        decreases values@.len() - i,
    {
        r.push(values[i].clone());
        i = i + 1;
    }
    r
}

/// `len` copies of a plain value.
pub(crate) fn repeated<T: Copy>(value: T, len: usize) -> (r: Vec<T>)
    ensures
        r@ == Seq::new(len as nat, |i: int| value),
{
    let mut r: Vec<T> = Vec::new();
    let mut i: usize = 0;
    while i < len
        invariant
            i <= len,
            r@ =~= Seq::new(i as nat, |j: int| value),
        decreases len - i,
    {
        r.push(value);
        i = i + 1;
    }
    r
}

fn repeated_text(value: &String, len: usize) -> (r: Vec<String>)
    ensures
        r@ == Seq::new(len as nat, |i: int| *value),
{
    let mut r: Vec<String> = Vec::new();
    let mut i: usize = 0;
    while i < len
        invariant
            i <= len,
            r@ =~= Seq::new(i as nat, |j: int| *value),
        decreases len - i,
    {
        r.push(value.clone());
        i = i + 1;
    }
    r
}

/// A literal as arithmetic reads it: an integer is a number.
pub open spec fn normal(value: ScalarValue) -> ScalarValue {
    match value {
        ScalarValue::Integer(i) => ScalarValue::Decimal(Decimal::of_int(i as int)),
        _ => value,
    }
}

/// The dtype of a column of a value.
pub open spec fn value_column_kind(value: ScalarValue) -> ColumnKind {
    match value {
        ScalarValue::Bool(_) => ColumnKind::Bool,
        ScalarValue::Integer(_) => ColumnKind::Integer,
        ScalarValue::Decimal(_) => ColumnKind::Decimal,
        ScalarValue::Text(_) => ColumnKind::Text,
        ScalarValue::Date(_) => ColumnKind::Date,
    }
}

/// A column with the same value in every row.
pub(crate) fn broadcast_scalar_literal(value: &ScalarValue, length: usize) -> (r: DenseColumn)
    ensures
        r.rows() == length,
        r.kind() == value_column_kind(*value),
        forall|row: int| 0 <= row < length ==> #[trigger] r.cell(row) == normal(*value),
{
    match value {
        ScalarValue::Bool(value) => DenseColumn::Bool(repeated(*value, length)),
        ScalarValue::Integer(value) => DenseColumn::Integer(repeated(*value, length)),
        ScalarValue::Decimal(value) => DenseColumn::Decimal(repeated(*value, length)),
        ScalarValue::Text(value) => DenseColumn::Text(repeated_text(value, length)),
        ScalarValue::Date(value) => DenseColumn::Date(repeated(*value, length)),
    }
}

/// Whether a column and its errors are what `f` gives for the rows of `mask`.
pub open spec fn column_is(
    column: DenseColumn,
    errors: RowErrors,
    mask: RowMask,
    f: spec_fn(int) -> Result<ScalarValue, ErrorView>,
) -> bool {
    &&& column.rows() == mask@.len()
    &&& forall|row: int| #[trigger]
        mask.has(row) ==> match f(row) {
            Ok(value) => errors.at(row) is None && column.cell(row) == value,
            Err(error) => errors.at(row) == Some(error),
        }
    &&& forall|row: int| #![trigger errors.at(row)] !mask.has(row) ==> errors.at(row) is None
}

/// Whether values, the rows that still live and the errors are what `f` gives
/// for the rows of `mask`.
pub open spec fn staged<T>(
    values: Seq<T>,
    live: RowMask,
    errors: RowErrors,
    mask: RowMask,
    f: spec_fn(int) -> Result<T, ErrorView>,
) -> bool {
    &&& values.len() == mask@.len()
    &&& live@.len() == mask@.len()
    &&& forall|row: int| #[trigger]
        mask.has(row) ==> match f(row) {
            Ok(value) => live.has(row) && errors.at(row) is None && values[row] == value,
            Err(error) => !live.has(row) && errors.at(row) == Some(error),
        }
    &&& forall|row: int| #[trigger] live.has(row) ==> mask.has(row)
    &&& forall|row: int| #![trigger errors.at(row)] !mask.has(row) ==> errors.at(row) is None
}

/// A value as a number.
pub open spec fn numbered(value: Result<ScalarValue, ErrorView>) -> Result<Decimal, ErrorView> {
    match value {
        Ok(v) => match v.number() {
            Some(number) => Ok(number),
            None => Err(ErrorView::TypeMismatch("expected decimal-compatible dense column"@)),
        },
        Err(error) => Err(error),
    }
}

/// A value as a day.
pub open spec fn dated(value: Result<ScalarValue, ErrorView>, message: Seq<char>) -> Result<
    Date,
    ErrorView,
> {
    match value {
        Ok(v) => match v.day() {
            Some(day) => Ok(day),
            None => Err(ErrorView::TypeMismatch(message)),
        },
        Err(error) => Err(error),
    }
}

/// A value as an exact integer.
pub open spec fn counted(value: Result<ScalarValue, ErrorView>, message: Seq<char>) -> Result<
    i64,
    ErrorView,
> {
    match value {
        Ok(v) => match v.index() {
            Some(count) => Ok(count),
            None => Err(ErrorView::TypeMismatch(message)),
        },
        Err(error) => Err(error),
    }
}

/// Reads a column as numbers. A live row of a column that is not numeric fails;
/// such a column reads as zeros.
pub(crate) fn numeric_values(column: &DenseColumn, live: &RowMask, errors: &mut RowErrors) -> (r:
    Vec<Decimal>)
    requires
        column.rows() == live@.len(),
    ensures
        r@.len() == column.rows(),
        forall|row: int| #[trigger]
            live.has(row) ==> (match column.cell(row).number() {
                Some(number) => r@[row] == number && final(errors).at(row) == old(errors).at(row),
                None => final(errors).at(row) == match old(errors).at(row) {
                    Some(error) => Some(error),
                    None => Some(
                        ErrorView::TypeMismatch("expected decimal-compatible dense column"@),
                    ),
                },
            }),
        forall|row: int|
            #![trigger final(errors).at(row)]
            !live.has(row) ==> final(errors).at(row) == old(errors).at(row),
{
    match column {
        DenseColumn::Integer(values) => {
            let mut r: Vec<Decimal> = Vec::new();
            let mut i: usize = 0;
            while i < values.len()
                invariant
                    i <= values@.len(),
                    r@.len() == i,
                    forall|row: int|
                        0 <= row < i ==> #[trigger] r@[row] == Decimal::of_int(values@[row] as int),
                decreases values@.len() - i,
            {
                r.push(Decimal::from_i64(values[i]));
                i = i + 1;
            }
            r
        },
        DenseColumn::Decimal(values) => copied(values),
        _ => {
            errors.record_all(
                live,
                &EvalError::TypeMismatch(owned("expected decimal-compatible dense column")),
            );
            repeated(Decimal::zero(), column.len())
        },
    }
}

/// Reads an evaluated operand as numbers.
pub(crate) fn numeric_operand(
    column: &DenseColumn,
    errors: &mut RowErrors,
    mask: &RowMask,
    Ghost(f): Ghost<spec_fn(int) -> Result<ScalarValue, ErrorView>>,
) -> (r: (Vec<Decimal>, RowMask))
    requires
        column_is(*column, *old(errors), *mask, f),
    ensures
        staged(r.0@, r.1, *final(errors), *mask, |row: int| numbered(f(row))),
{
    let live = mask.without(errors);
    let values = numeric_values(column, &live, errors);
    let still = live.without(errors);
    (values, still)
}

/// Reads an evaluated operand as days.
pub(crate) fn date_operand(
    column: &DenseColumn,
    errors: &mut RowErrors,
    mask: &RowMask,
    message: &str,
    Ghost(f): Ghost<spec_fn(int) -> Result<ScalarValue, ErrorView>>,
) -> (r: (Vec<Date>, RowMask))
    requires
        column_is(*column, *old(errors), *mask, f),
    ensures
        staged(r.0@, r.1, *final(errors), *mask, |row: int| dated(f(row), message@)),
{
    let live = mask.without(errors);
    match column {
        DenseColumn::Date(values) => (copied(values), live),
        _ => {
            errors.record_all(&live, &EvalError::TypeMismatch(owned(message)));
            (repeated(Date::epoch(), column.len()), live.without(errors))
        },
    }
}

/// A row's value as an exact integer key or count: an integer, or a decimal
/// without fraction that fits.
pub(crate) fn index_at(column: &DenseColumn, row: usize) -> (r: Option<i64>)
    requires
        row < column.rows(),
    ensures
        r == column.cell(row as int).index(),
{
    match column {
        DenseColumn::Integer(values) => {
            proof {
                Decimal::int_as_index(values@[row as int]);
            }
            Some(values[row])
        },
        DenseColumn::Decimal(values) => values[row].to_index(),
        _ => None,
    }
}

/// Reads an evaluated operand as exact integers.
pub(crate) fn index_operand(
    column: &DenseColumn,
    errors: &mut RowErrors,
    mask: &RowMask,
    message: &str,
    Ghost(f): Ghost<spec_fn(int) -> Result<ScalarValue, ErrorView>>,
) -> (r: (Vec<i64>, RowMask))
    requires
        column_is(*column, *old(errors), *mask, f),
    ensures
        staged(r.0@, r.1, *final(errors), *mask, |row: int| counted(f(row), message@)),
{
    let live = mask.without(errors);
    let ghost e0 = *errors;
    let mut indices: Vec<i64> = Vec::new();
    let len = column.len();
    let mut i: usize = 0;
    while i < len
        invariant
            i <= len,
            len == column.rows(),
            live@.len() == len,
            indices@.len() == i,
            forall|row: int| #[trigger]
                live.has(row) && row < i ==> match column.cell(row).index() {
                    Some(count) => indices@[row] == count && errors.at(row) == e0.at(row),
                    None => errors.at(row) == match e0.at(row) {
                        Some(error) => Some(error),
                        None => Some(ErrorView::TypeMismatch(message@)),
                    },
                },
            forall|row: int|
                #![trigger errors.at(row)]
                !live.has(row) || row >= i ==> errors.at(row) == e0.at(row),
        decreases len - i,
    {
        let mut index: i64 = 0;
        if live.contains(i) {
            match index_at(column, i) {
                Some(count) => {
                    index = count;
                },
                None => {
                    errors.record(i, EvalError::TypeMismatch(owned(message)));
                },
            }
        }
        indices.push(index);
        i = i + 1;
    }
    let still = live.without(errors);
    (indices, still)
}

/// An arithmetic operation on two numbers.
#[derive(Clone, Copy, Debug, PartialEq, Eq, Structural)]
pub enum BinaryOp {
    Sub,
    Mul,
    Div,
}

pub open spec fn binary_value(op: BinaryOp, a: Decimal, b: Decimal) -> Result<Decimal, ErrorView> {
    match op {
        BinaryOp::Sub => in_range(crate::decimal::decimal_difference(a, b)),
        BinaryOp::Mul => in_range(crate::decimal::decimal_product(a, b)),
        BinaryOp::Div => divided(a, b),
    }
}

fn binary(op: BinaryOp, a: Decimal, b: Decimal) -> (r: Result<Decimal, EvalError>)
    ensures
        outcome(r) == binary_value(op, a, b),
{
    match op {
        BinaryOp::Sub => checked_sub(a, b),
        BinaryOp::Mul => checked_mul(a, b),
        BinaryOp::Div => checked_div(a, b),
    }
}

/// `first`, then `second`, then the operation; the operands may be in either order.
pub open spec fn binary_cell(
    op: BinaryOp,
    first: Result<Decimal, ErrorView>,
    second: Result<Decimal, ErrorView>,
    swapped: bool,
) -> Result<ScalarValue, ErrorView> {
    match first {
        Err(error) => Err(error),
        Ok(a) => match second {
            Err(error) => Err(error),
            Ok(b) => as_decimal_value(
                if swapped {
                    binary_value(op, b, a)
                } else {
                    binary_value(op, a, b)
                },
            ),
        },
    }
}

/// The operation on two read operands, the second read for the rows that the
/// first left alive.
pub(crate) fn combine_binary(
    op: BinaryOp,
    swapped: bool,
    first: (Vec<Decimal>, RowMask, RowErrors),
    second: (Vec<Decimal>, RowMask, RowErrors),
    mask: &RowMask,
    Ghost(f): Ghost<spec_fn(int) -> Result<Decimal, ErrorView>>,
    Ghost(g): Ghost<spec_fn(int) -> Result<Decimal, ErrorView>>,
) -> (r: (DenseColumn, RowErrors))
    requires
        staged(first.0@, first.1, first.2, *mask, f),
        staged(second.0@, second.1, second.2, first.1, g),
    ensures
        r.0.kind() == ColumnKind::Decimal,
        column_is(
            r.0,
            r.1,
            *mask,
            |row: int| binary_cell(op, f(row), g(row), swapped),
        ),
{
    let (a, live, mut errors) = first;
    let (b, still, more) = second;
    errors.absorb(more);
    let ghost e0 = errors;
    let mut values: Vec<Decimal> = Vec::new();
    let len = a.len();
    let mut i: usize = 0;
    while i < len
        invariant
            i <= len,
            len == a@.len(),
            len == b@.len(),
            still@.len() == len,
            values@.len() == i,
            forall|row: int| #[trigger]
                still.has(row) && row < i ==> match (if swapped {
                    binary_value(op, b@[row], a@[row])
                } else {
                    binary_value(op, a@[row], b@[row])
                }) {
                    Ok(value) => values@[row] == value && errors.at(row) == e0.at(row),
                    Err(error) => errors.at(row) == match e0.at(row) {
                        Some(earlier) => Some(earlier),
                        None => Some(error),
                    },
                },
            forall|row: int|
                #![trigger errors.at(row)]
                !still.has(row) || row >= i ==> errors.at(row) == e0.at(row),
        decreases len - i,
    {
        let mut value = Decimal::zero();
        if still.contains(i) {
            let result = if swapped {
                binary(op, b[i], a[i])
            } else {
                binary(op, a[i], b[i])
            };
            match result {
                Ok(v) => {
                    value = v;
                },
                Err(error) => {
                    errors.record(i, error);
                },
            }
        }
        values.push(value);
        i = i + 1;
    }
    (DenseColumn::Decimal(values), errors)
}

/// A total so far and a further number.
pub open spec fn sum_cell(total: Result<Decimal, ErrorView>, number: Result<Decimal, ErrorView>)
    -> Result<Decimal, ErrorView> {
    match total {
        Err(error) => Err(error),
        Ok(t) => match number {
            Err(error) => Err(error),
            Ok(n) => in_range(decimal_sum(t, n)),
        },
    }
}

/// The best so far and a further number.
pub open spec fn extremum_cell(
    largest: bool,
    best: Result<Decimal, ErrorView>,
    number: Result<Decimal, ErrorView>,
) -> Result<Decimal, ErrorView> {
    match best {
        Err(error) => Err(error),
        Ok(b) => match number {
            Err(error) => Err(error),
            Ok(n) => Ok(better(largest, b, n)),
        },
    }
}

/// Adds an evaluated item, for the rows still alive, to the totals.
pub(crate) fn add_item(
    total: (Vec<Decimal>, RowMask, RowErrors),
    item: (DenseColumn, RowErrors),
    mask: &RowMask,
    Ghost(f): Ghost<spec_fn(int) -> Result<Decimal, ErrorView>>,
    Ghost(g): Ghost<spec_fn(int) -> Result<ScalarValue, ErrorView>>,
) -> (r: (Vec<Decimal>, RowMask, RowErrors))
    requires
        staged(total.0@, total.1, total.2, *mask, f),
        column_is(item.0, item.1, total.1, g),
    ensures
        staged(r.0@, r.1, r.2, *mask, |row: int| sum_cell(f(row), numbered(g(row)))),
{
    let (mut totals, live, mut errors) = total;
    let (column, mut item_errors) = item;
    let (numbers, next) = numeric_operand(&column, &mut item_errors, &live, Ghost(g));
    errors.absorb(item_errors);
    let ghost t0 = totals@;
    let ghost e0 = errors;
    let len = totals.len();
    let mut i: usize = 0;
    while i < len
        invariant
            i <= len,
            len == t0.len(),
            totals@.len() == len,
            numbers@.len() == len,
            next@.len() == len,
            forall|row: int| #[trigger]
                next.has(row) && row < i ==> match in_range(decimal_sum(t0[row], numbers@[row])) {
                    Ok(value) => totals@[row] == value && errors.at(row) == e0.at(row),
                    Err(error) => errors.at(row) == match e0.at(row) {
                        Some(earlier) => Some(earlier),
                        None => Some(error),
                    },
                },
            forall|row: int|
                0 <= row < len && (!next.has(row) || row >= i) ==> #[trigger] totals@[row]
                    == t0[row],
            forall|row: int|
                #![trigger errors.at(row)]
                !next.has(row) || row >= i ==> errors.at(row) == e0.at(row),
        decreases len - i,
    {
        if next.contains(i) {
            match checked_add(totals[i], numbers[i]) {
                Ok(sum) => {
                    totals.set(i, sum);
                },
                Err(error) => {
                    errors.record(i, error);
                },
            }
        }
        i = i + 1;
    }
    let still = next.without(&errors);
    (totals, still, errors)
}

/// Compares an evaluated item, for the rows still alive, with the best so far.
pub(crate) fn extremum_item(
    largest: bool,
    best: (Vec<Decimal>, RowMask, RowErrors),
    item: (DenseColumn, RowErrors),
    mask: &RowMask,
    Ghost(f): Ghost<spec_fn(int) -> Result<Decimal, ErrorView>>,
    Ghost(g): Ghost<spec_fn(int) -> Result<ScalarValue, ErrorView>>,
) -> (r: (Vec<Decimal>, RowMask, RowErrors))
    requires
        staged(best.0@, best.1, best.2, *mask, f),
        column_is(item.0, item.1, best.1, g),
    ensures
        staged(
            r.0@,
            r.1,
            r.2,
            *mask,
            |row: int| extremum_cell(largest, f(row), numbered(g(row))),
        ),
{
    let (mut bests, live, mut errors) = best;
    let (column, mut item_errors) = item;
    let (numbers, next) = numeric_operand(&column, &mut item_errors, &live, Ghost(g));
    errors.absorb(item_errors);
    let ghost b0 = bests@;
    let len = bests.len();
    let mut i: usize = 0;
    while i < len
        invariant
            i <= len,
            len == b0.len(),
            bests@.len() == len,
            numbers@.len() == len,
            next@.len() == len,
            forall|row: int| #[trigger]
                next.has(row) && row < i ==> bests@[row] == better(
                    largest,
                    b0[row],
                    numbers@[row],
                ),
            forall|row: int|
                0 <= row < len && (!next.has(row) || row >= i) ==> #[trigger] bests@[row]
                    == b0[row],
        decreases len - i,
    {
        if next.contains(i) {
            let replaces = if largest {
                bests[i].is_below(&numbers[i])
            } else {
                numbers[i].is_below(&bests[i])
            };
            if replaces {
                bests.set(i, numbers[i]);
            }
        }
        i = i + 1;
    }
    (bests, next, errors)
}

/// Numbers as a column.
pub(crate) fn number_column(
    staged_values: (Vec<Decimal>, RowMask, RowErrors),
    mask: &RowMask,
    Ghost(f): Ghost<spec_fn(int) -> Result<Decimal, ErrorView>>,
) -> (r: (DenseColumn, RowErrors))
    requires
        staged(staged_values.0@, staged_values.1, staged_values.2, *mask, f),
    ensures
        r.0.kind() == ColumnKind::Decimal,
        column_is(r.0, r.1, *mask, |row: int| as_decimal_value(f(row))),
{
    let (values, _, errors) = staged_values;
    (DenseColumn::Decimal(values), errors)
}

/// The number brought to an integer.
pub open spec fn integral_cell(upward: bool, number: Result<Decimal, ErrorView>) -> Result<
    ScalarValue,
    ErrorView,
> {
    match number {
        Err(error) => Err(error),
        Ok(n) => Ok(
            ScalarValue::Decimal(
                if upward {
                    n.ceil_value()
                } else {
                    n.floor_value()
                },
            ),
        ),
    }
}

/// `ceil` or `floor` of a read operand.
pub(crate) fn integral_column(
    upward: bool,
    operand: (Vec<Decimal>, RowMask, RowErrors),
    mask: &RowMask,
    Ghost(f): Ghost<spec_fn(int) -> Result<Decimal, ErrorView>>,
) -> (r: (DenseColumn, RowErrors))
    requires
        staged(operand.0@, operand.1, operand.2, *mask, f),
    ensures
        r.0.kind() == ColumnKind::Decimal,
        column_is(r.0, r.1, *mask, |row: int| integral_cell(upward, f(row))),
{
    let (numbers, live, errors) = operand;
    let mut values: Vec<Decimal> = Vec::new();
    let len = numbers.len();
    let mut i: usize = 0;
    while i < len
        invariant
            i <= len,
            len == numbers@.len(),
            live@.len() == len,
            values@.len() == i,
            forall|row: int| #[trigger]
                live.has(row) && row < i ==> values@[row] == if upward {
                    numbers@[row].ceil_value()
                } else {
                    numbers@[row].floor_value()
                },
        decreases len - i,
    {
        let mut value = Decimal::zero();
        if live.contains(i) {
            value =
            if upward {
                numbers[i].ceil()
            } else {
                numbers[i].floor()
            };
        }
        values.push(value);
        i = i + 1;
    }
    (DenseColumn::Decimal(values), errors)
}

/// The unit by which a date is shifted.
#[derive(Clone, Copy, Debug, PartialEq, Eq, Structural)]
pub enum ShiftUnit {
    Days,
    Months,
    Years,
}

impl ShiftUnit {
    pub open spec fn date_message(self) -> Seq<char> {
        match self {
            ShiftUnit::Days => "date_add_days expects a date on the left"@,
            ShiftUnit::Months => "date_add_months expects a date on the left"@,
            ShiftUnit::Years => "date_add_years expects a date on the left"@,
        }
    }

    pub open spec fn count_message(self) -> Seq<char> {
        match self {
            ShiftUnit::Days => "date_add_days expects an integer day count on the right"@,
            ShiftUnit::Months => "date_add_months expects an integer month count on the right"@,
            ShiftUnit::Years => "date_add_years expects an integer year count on the right"@,
        }
    }

    pub open spec fn shifted(self, date: Date, count: i64) -> Result<Date, ErrorView> {
        match self {
            ShiftUnit::Days => shifted_days(date, count),
            ShiftUnit::Months => shifted_months(date, count),
            ShiftUnit::Years => shifted_years(date, count),
        }
    }

    pub fn date_error(self) -> (r: &'static str)
        ensures
            r@ == self.date_message(),
    {
        match self {
            ShiftUnit::Days => "date_add_days expects a date on the left",
            ShiftUnit::Months => "date_add_months expects a date on the left",
            ShiftUnit::Years => "date_add_years expects a date on the left",
        }
    }

    pub fn count_error(self) -> (r: &'static str)
        ensures
            r@ == self.count_message(),
    {
        match self {
            ShiftUnit::Days => "date_add_days expects an integer day count on the right",
            ShiftUnit::Months => "date_add_months expects an integer month count on the right",
            ShiftUnit::Years => "date_add_years expects an integer year count on the right",
        }
    }

    pub fn shift(self, date: Date, count: i64) -> (r: Result<Date, EvalError>)
        ensures
            outcome(r) == self.shifted(date, count),
    {
        match self {
            ShiftUnit::Days => shift_calendar_days(date, count),
            ShiftUnit::Months => shift_calendar_months(date, count),
            ShiftUnit::Years => shift_calendar_years(date, count),
        }
    }
}

/// The date, then the count, then the shift.
pub open spec fn shift_cell(
    unit: ShiftUnit,
    date: Result<Date, ErrorView>,
    count: Result<i64, ErrorView>,
) -> Result<ScalarValue, ErrorView> {
    match date {
        Err(error) => Err(error),
        Ok(d) => match count {
            Err(error) => Err(error),
            Ok(n) => match unit.shifted(d, n) {
                Ok(shifted) => Ok(ScalarValue::Date(shifted)),
                Err(error) => Err(error),
            },
        },
    }
}

/// Dates shifted by counts.
pub(crate) fn combine_shift(
    unit: ShiftUnit,
    first: (Vec<Date>, RowMask, RowErrors),
    second: (Vec<i64>, RowMask, RowErrors),
    mask: &RowMask,
    Ghost(f): Ghost<spec_fn(int) -> Result<Date, ErrorView>>,
    Ghost(g): Ghost<spec_fn(int) -> Result<i64, ErrorView>>,
) -> (r: (DenseColumn, RowErrors))
    requires
        staged(first.0@, first.1, first.2, *mask, f),
        staged(second.0@, second.1, second.2, first.1, g),
    ensures
        r.0.kind() == ColumnKind::Date,
        column_is(r.0, r.1, *mask, |row: int| shift_cell(unit, f(row), g(row))),
{
    let (dates, live, mut errors) = first;
    let (counts, still, more) = second;
    errors.absorb(more);
    let ghost e0 = errors;
    let mut values: Vec<Date> = Vec::new();
    let len = dates.len();
    let mut i: usize = 0;
    while i < len
        invariant
            i <= len,
            len == dates@.len(),
            len == counts@.len(),
            still@.len() == len,
            values@.len() == i,
            forall|row: int| #[trigger]
                still.has(row) && row < i ==> match unit.shifted(dates@[row], counts@[row]) {
                    Ok(value) => values@[row] == value && errors.at(row) == e0.at(row),
                    Err(error) => errors.at(row) == match e0.at(row) {
                        Some(earlier) => Some(earlier),
                        None => Some(error),
                    },
                },
            forall|row: int|
                #![trigger errors.at(row)]
                !still.has(row) || row >= i ==> errors.at(row) == e0.at(row),
        decreases len - i,
    {
        let mut value = Date::epoch();
        if still.contains(i) {
            match unit.shift(dates[i], counts[i]) {
                Ok(date) => {
                    value = date;
                },
                Err(error) => {
                    errors.record(i, error);
                },
            }
        }
        values.push(value);
        i = i + 1;
    }
    (DenseColumn::Date(values), errors)
}

/// The days from one date to another.
pub open spec fn between_cell(from: Result<Date, ErrorView>, to: Result<Date, ErrorView>) -> Result<
    ScalarValue,
    ErrorView,
> {
    match from {
        Err(error) => Err(error),
        Ok(a) => match to {
            Err(error) => Err(error),
            Ok(b) => Ok(ScalarValue::Decimal(Decimal::of_int(b.number() - a.number()))),
        },
    }
}

/// Days between dates.
pub(crate) fn combine_between(
    first: (Vec<Date>, RowMask, RowErrors),
    second: (Vec<Date>, RowMask, RowErrors),
    mask: &RowMask,
    Ghost(f): Ghost<spec_fn(int) -> Result<Date, ErrorView>>,
    Ghost(g): Ghost<spec_fn(int) -> Result<Date, ErrorView>>,
) -> (r: (DenseColumn, RowErrors))
    requires
        staged(first.0@, first.1, first.2, *mask, f),
        staged(second.0@, second.1, second.2, first.1, g),
    ensures
        r.0.kind() == ColumnKind::Integer,
        column_is(r.0, r.1, *mask, |row: int| between_cell(f(row), g(row))),
{
    let (from, live, mut errors) = first;
    let (to, still, more) = second;
    errors.absorb(more);
    let mut values: Vec<i64> = Vec::new();
    let len = from.len();
    let mut i: usize = 0;
    while i < len
        invariant
            i <= len,
            len == from@.len(),
            len == to@.len(),
            values@.len() == i,
            forall|row: int|
                0 <= row < i ==> #[trigger] values@[row] == to@[row].number() - from@[row].number(),
        decreases len - i,
    {
        values.push(from[i].days_until(&to[i]));
        i = i + 1;
    }
    (DenseColumn::Integer(values), errors)
}

/// The outcome of a comparison of two values.
pub open spec fn compare_cell(
    left: Result<ScalarValue, ErrorView>,
    op: ComparisonOp,
    right: Result<ScalarValue, ErrorView>,
) -> Result<JudgmentOutcome, ErrorView> {
    match left {
        Err(error) => Err(error),
        Ok(a) => match right {
            Err(error) => Err(error),
            Ok(b) => match values_compare(a, op, b) {
                Ok(holds) => Ok(JudgmentOutcome::of_bool(holds)),
                Err(error) => Err(error),
            },
        },
    }
}

/// Whether outcomes and errors are what `f` gives for the rows of `mask`.
pub open spec fn judged(
    outcomes: Seq<JudgmentOutcome>,
    errors: RowErrors,
    mask: RowMask,
    f: spec_fn(int) -> Result<JudgmentOutcome, ErrorView>,
) -> bool {
    &&& outcomes.len() == mask@.len()
    &&& forall|row: int| #[trigger]
        mask.has(row) ==> match f(row) {
            Ok(value) => errors.at(row) is None && outcomes[row] == value,
            Err(error) => errors.at(row) == Some(error),
        }
    &&& forall|row: int| #![trigger errors.at(row)] !mask.has(row) ==> errors.at(row) is None
}

/// Compares two columns, the right one evaluated for the rows that the left one
/// left alive.
pub(crate) fn compare_dense(
    left: (DenseColumn, RowErrors),
    op: ComparisonOp,
    right: (DenseColumn, RowErrors),
    mask: &RowMask,
    live: &RowMask,
    Ghost(f): Ghost<spec_fn(int) -> Result<ScalarValue, ErrorView>>,
    Ghost(g): Ghost<spec_fn(int) -> Result<ScalarValue, ErrorView>>,
) -> (r: (Vec<JudgmentOutcome>, RowErrors))
    requires
        column_is(left.0, left.1, *mask, f),
        live@.len() == mask@.len(),
        forall|row: int| #[trigger] live.has(row) <==> mask.has(row) && !left.1.failed(row),
        column_is(right.0, right.1, *live, g),
    ensures
        judged(r.0@, r.1, *mask, |row: int| compare_cell(f(row), op, g(row))),
{
    let (left, mut errors) = left;
    let (right, right_errors) = right;
    let still = live.without(&right_errors);
    errors.absorb(right_errors);
    let ghost e0 = errors;
    let mut outcomes: Vec<JudgmentOutcome> = Vec::new();
    let len = left.len();
    let mut i: usize = 0;
    while i < len
        invariant
            i <= len,
            len == left.rows(),
            len == right.rows(),
            still@.len() == len,
            outcomes@.len() == i,
            forall|row: int| #[trigger]
                still.has(row) && row < i ==> match values_compare(
                    left.cell(row),
                    op,
                    right.cell(row),
                ) {
                    Ok(holds) => outcomes@[row] == JudgmentOutcome::of_bool(holds) && errors.at(row)
                        == e0.at(row),
                    Err(error) => errors.at(row) == match e0.at(row) {
                        Some(earlier) => Some(earlier),
                        None => Some(error),
                    },
                },
            forall|row: int|
                #![trigger errors.at(row)]
                !still.has(row) || row >= i ==> errors.at(row) == e0.at(row),
        decreases len - i,
    {
        let mut held = JudgmentOutcome::NotHolds;
        if still.contains(i) {
            match compare_scalar_values(&left.value_at(i), op, &right.value_at(i)) {
                Ok(holds) => {
                    held = JudgmentOutcome::from_bool(holds);
                },
                Err(error) => {
                    errors.record(i, error);
                },
            }
        }
        outcomes.push(held);
        i = i + 1;
    }
    proof {
        assert forall|row: int| #[trigger] mask.has(row) implies live.has(row) == (f(row) is Ok)
            && still.has(row) == (f(row) is Ok && g(row) is Ok) by {
            assert(live.has(row) == (f(row) is Ok));
        }
    }
    (outcomes, errors)
}

/// Whether a dtype is numeric.
pub open spec fn numeric_kind(kind: ColumnKind) -> bool {
    kind == ColumnKind::Integer || kind == ColumnKind::Decimal
}

/// The dtype of a choice between two columns: one dtype is kept, two numeric
/// ones become decimal, and others do not combine.
pub open spec fn combined_kind(a: ColumnKind, b: ColumnKind) -> Option<ColumnKind> {
    if a == b {
        Some(a)
    } else if numeric_kind(a) && numeric_kind(b) {
        Some(ColumnKind::Decimal)
    } else {
        None
    }
}

/// Whether two values are there and have dtypes that do not combine.
pub open spec fn differ(
    a: Result<ScalarValue, ErrorView>,
    b: Result<ScalarValue, ErrorView>,
) -> bool {
    a matches Ok(x) && b matches Ok(y) && combined_kind(
        value_column_kind(x),
        value_column_kind(y),
    ) is None
}

/// Puts the rows of `source` named by `rows` into `target`.
pub(crate) fn assign_rows<T: Copy>(target: &mut Vec<T>, source: &Vec<T>, rows: &RowMask)
    requires
        old(target)@.len() == source@.len(),
        rows@.len() == source@.len(),
    ensures
        final(target)@.len() == source@.len(),
        forall|row: int|
            0 <= row < source@.len() ==> #[trigger] final(target)@[row] == if rows.has(row) {
                source@[row]
            } else {
                old(target)@[row]
            },
{
    let mut i: usize = 0;
    while i < source.len()
        invariant
            i <= source@.len(),
            target@.len() == source@.len(),
            old(target)@.len() == source@.len(),
            rows@.len() == source@.len(),
            forall|row: int|
                0 <= row < source@.len() ==> #[trigger] target@[row] == if row < i && rows.has(
                    row,
                ) {
                    source@[row]
                } else {
                    old(target)@[row]
                },
        decreases source@.len() - i,
    {
        if rows.contains(i) {
            target.set(i, source[i]);
        }
        i = i + 1;
    }
}

fn assign_text_rows(target: &mut Vec<String>, source: &Vec<String>, rows: &RowMask)
    requires
        old(target)@.len() == source@.len(),
        rows@.len() == source@.len(),
    ensures
        final(target)@.len() == source@.len(),
        forall|row: int|
            0 <= row < source@.len() ==> #[trigger] final(target)@[row] == if rows.has(row) {
                source@[row]
            } else {
                old(target)@[row]
            },
{
    let mut i: usize = 0;
    while i < source.len()
        invariant
            i <= source@.len(),
            target@.len() == source@.len(),
            old(target)@.len() == source@.len(),
            rows@.len() == source@.len(),
            forall|row: int|
                0 <= row < source@.len() ==> #[trigger] target@[row] == if row < i && rows.has(
                    row,
                ) {
                    source@[row]
                } else {
                    old(target)@[row]
                },
        decreases source@.len() - i,
    {
        if rows.contains(i) {
            target.set(i, source[i].clone());
        }
        i = i + 1;
    }
}

fn is_numeric(column: &DenseColumn) -> (r: bool)
    ensures
        r == numeric_kind(column.kind()),
{
    matches!(column, DenseColumn::Integer(_) | DenseColumn::Decimal(_))
}

/// The rows of `then_rows` from one column and those of `else_rows` from the
/// other. Dtypes that do not combine are an error only where both have rows.
pub(crate) fn select_dense(
    then_rows: &RowMask,
    then_values: DenseColumn,
    else_rows: &RowMask,
    else_values: DenseColumn,
) -> (r: Result<DenseColumn, EvalError>)
    requires
        then_values.rows() == else_values.rows(),
        then_rows@.len() == then_values.rows(),
        else_rows@.len() == then_values.rows(),
        forall|row: int| !(#[trigger] then_rows.has(row) && else_rows.has(row)),
    ensures
        match r {
            Ok(column) => {
                &&& column.rows() == then_values.rows()
                &&& forall|row: int| #[trigger]
                    then_rows.has(row) ==> column.cell(row) == then_values.cell(row)
                &&& forall|row: int| #[trigger]
                    else_rows.has(row) ==> column.cell(row) == else_values.cell(row)
                &&& match combined_kind(then_values.kind(), else_values.kind()) {
                    Some(kind) => column.kind() == kind,
                    None => then_rows.vacant() || else_rows.vacant(),
                }
            },
            Err(error) => {
                &&& combined_kind(then_values.kind(), else_values.kind()) is None
                &&& !then_rows.vacant()
                &&& !else_rows.vacant()
                &&& error@ == ErrorView::TypeMismatch(
                    "dense if() branches must have the same dtype"@,
                )
            },
        },
{
    match (then_values, else_values) {
        (DenseColumn::Bool(mut target), DenseColumn::Bool(source)) => {
            assign_rows(&mut target, &source, else_rows);
            Ok(DenseColumn::Bool(target))
        },
        (DenseColumn::Integer(mut target), DenseColumn::Integer(source)) => {
            assign_rows(&mut target, &source, else_rows);
            Ok(DenseColumn::Integer(target))
        },
        (DenseColumn::Text(mut target), DenseColumn::Text(source)) => {
            assign_text_rows(&mut target, &source, else_rows);
            Ok(DenseColumn::Text(target))
        },
        (DenseColumn::Date(mut target), DenseColumn::Date(source)) => {
            assign_rows(&mut target, &source, else_rows);
            Ok(DenseColumn::Date(target))
        },
        (then_values, else_values) => {
            if is_numeric(&then_values) && is_numeric(&else_values) {
                let mut unused = RowErrors::new();
                let mut numbers = numeric_values(&then_values, then_rows, &mut unused);
                let others = numeric_values(&else_values, else_rows, &mut unused);
                assign_rows(&mut numbers, &others, else_rows);
                Ok(DenseColumn::Decimal(numbers))
            } else if then_rows.is_empty() {
                Ok(else_values)
            } else if else_rows.is_empty() {
                Ok(then_values)
            } else {
                Err(
                    EvalError::TypeMismatch(owned("dense if() branches must have the same dtype")),
                )
            }
        },
    }
}

/// Whether a table has values and all of them are of one dtype.
pub open spec fn table_of(values: Map<i64, ScalarValue>, kind: ColumnKind) -> bool {
    &&& exists|k: i64| #[trigger] values.contains_key(k)
    &&& forall|k: i64| #[trigger]
        values.contains_key(k) ==> value_column_kind(values[k]) == kind
}

/// The dtype of a parameter lookup: that of the table's values where they have
/// one other than decimal, else decimal. It does not depend on the keys.
pub open spec fn table_kind_of(values: Map<i64, ScalarValue>) -> ColumnKind {
    if table_of(values, ColumnKind::Integer) {
        ColumnKind::Integer
    } else if table_of(values, ColumnKind::Bool) {
        ColumnKind::Bool
    } else if table_of(values, ColumnKind::Text) {
        ColumnKind::Text
    } else if table_of(values, ColumnKind::Date) {
        ColumnKind::Date
    } else {
        ColumnKind::Decimal
    }
}

fn value_kind(value: &ScalarValue) -> (r: ColumnKind)
    ensures
        r == value_column_kind(*value),
{
    match value {
        ScalarValue::Bool(_) => ColumnKind::Bool,
        ScalarValue::Integer(_) => ColumnKind::Integer,
        ScalarValue::Decimal(_) => ColumnKind::Decimal,
        ScalarValue::Text(_) => ColumnKind::Text,
        ScalarValue::Date(_) => ColumnKind::Date,
    }
}

fn is_table_of(values: &BTreeMap<i64, ScalarValue>, kind: ColumnKind) -> (r: bool)
    ensures
        r == table_of(values@, kind),
{
    let mut any = false;
    let mut uniform = true;
    for entry in it: values.iter()
        invariant
            any == (it.index() > 0),
            any ==> exists|k: i64| #[trigger] values@.contains_key(k),
            forall|k: i64| #[trigger]
                values@.contains_key(k) ==> exists|i: int|
                    0 <= i < it.seq().len() && #[trigger] it.seq()[i] == (&k, &values@[k]),
            forall|i: int|
                0 <= i < it.seq().len() ==> values@.contains_key(*(#[trigger] it.seq()[i]).0)
                    && values@[*it.seq()[i].0] == *it.seq()[i].1,
            uniform ==> forall|i: int|
                0 <= i < it.index() ==> value_column_kind(*(#[trigger] it.seq()[i]).1) == kind,
            !uniform ==> exists|k: i64| #[trigger]
                values@.contains_key(k) && value_column_kind(values@[k]) != kind,
    {
        any = true;
        assert(values@.contains_key(*entry.0));
        if value_kind(entry.1) != kind {
            uniform = false;
        }
    }
    any && uniform
}

/// The dtype of a parameter lookup.
pub fn table_kind(values: &BTreeMap<i64, ScalarValue>) -> (r: ColumnKind)
    ensures
        r == table_kind_of(values@),
{
    if is_table_of(values, ColumnKind::Integer) {
        ColumnKind::Integer
    } else if is_table_of(values, ColumnKind::Bool) {
        ColumnKind::Bool
    } else if is_table_of(values, ColumnKind::Text) {
        ColumnKind::Text
    } else if is_table_of(values, ColumnKind::Date) {
        ColumnKind::Date
    } else {
        ColumnKind::Decimal
    }
}

/// A table's value as its column holds it: in a decimal column only numbers.
pub open spec fn table_cell(values: Map<i64, ScalarValue>, key: i64) -> Result<
    ScalarValue,
    ErrorView,
> {
    let value = values[key];
    if table_kind_of(values) == ColumnKind::Decimal {
        match value.number() {
            Some(number) => Ok(ScalarValue::Decimal(number)),
            None => Err(
                ErrorView::TypeMismatch("parameter values must be numeric in dense mode"@),
            ),
        }
    } else {
        Ok(normal(value))
    }
}

pub open spec fn key_message(parameter: Seq<char>) -> Seq<char> {
    "parameter key for `"@ + parameter + "` must be an integer"@
}

/// A parameter at a key: a key that is no integer and a missing value fail.
pub open spec fn parameter_cell(
    parameter: IndexedParameter,
    at: Date,
    key: Result<ScalarValue, ErrorView>,
) -> Result<ScalarValue, ErrorView> {
    match counted(key, key_message(parameter.name@)) {
        Err(error) => Err(error),
        Ok(k) => match parameter.version_at(at) {
            Some(version) if version.values@.contains_key(k) => table_cell(version.values@, k),
            _ => Err(
                ErrorView::MissingParameterValue { parameter: parameter.name@, key: k, at },
            ),
        },
    }
}

/// The dtype of a parameter at a date.
pub open spec fn parameter_kind(parameter: IndexedParameter, at: Date) -> ColumnKind {
    match parameter.version_at(at) {
        Some(version) => table_kind_of(version.values@),
        None => ColumnKind::Decimal,
    }
}

/// Whether a value can stand in a column of a dtype.
spec fn fits(value: ScalarValue, kind: ColumnKind) -> bool {
    value_column_kind(value) == kind || (kind == ColumnKind::Decimal && value.number() is Some)
}

/// Values as a column of a dtype; rows without a value hold a placeholder.
fn column_of(kind: ColumnKind, values: &Vec<Option<ScalarValue>>) -> (r: DenseColumn)
    ensures
        r.kind() == kind,
        r.rows() == values@.len(),
        forall|row: int|
            0 <= row < values@.len() ==> ((#[trigger] values@[row]) matches Some(v) ==> (
                    fits(v, kind) ==> r.cell(row) == normal(v))),
{
    let len = values.len();
    match kind {
        ColumnKind::Bool => {
            let mut cells: Vec<bool> = Vec::new();
            let mut i: usize = 0;
            while i < len
                invariant
                    i <= len,
                    len == values@.len(),
                    cells@.len() == i,
                    forall|row: int|
                        0 <= row < i ==> ((#[trigger] values@[row]) matches Some(v) ==> (
                    fits(v, kind) ==> v == ScalarValue::Bool(cells@[row]))),
                    kind == ColumnKind::Bool,
                decreases len - i,
            {
                let cell = match &values[i] {
                    Some(ScalarValue::Bool(b)) => *b,
                    _ => false,
                };
                cells.push(cell);
                i = i + 1;
            }
            DenseColumn::Bool(cells)
        },
        ColumnKind::Integer => {
            let mut cells: Vec<i64> = Vec::new();
            let mut i: usize = 0;
            while i < len
                invariant
                    i <= len,
                    len == values@.len(),
                    cells@.len() == i,
                    forall|row: int|
                        0 <= row < i ==> ((#[trigger] values@[row]) matches Some(v) ==> (
                    fits(v, kind) ==> v == ScalarValue::Integer(cells@[row]))),
                    kind == ColumnKind::Integer,
                decreases len - i,
            {
                let cell = match &values[i] {
                    Some(ScalarValue::Integer(n)) => *n,
                    _ => 0,
                };
                cells.push(cell);
                i = i + 1;
            }
            DenseColumn::Integer(cells)
        },
        ColumnKind::Text => {
            let mut cells: Vec<String> = Vec::new();
            let mut i: usize = 0;
            while i < len
                invariant
                    i <= len,
                    len == values@.len(),
                    cells@.len() == i,
                    forall|row: int|
                        0 <= row < i ==> ((#[trigger] values@[row]) matches Some(v) ==> (
                    fits(v, kind) ==> v == ScalarValue::Text(cells@[row]))),
                    kind == ColumnKind::Text,
                decreases len - i,
            {
                let cell = match &values[i] {
                    Some(ScalarValue::Text(t)) => t.clone(),
                    _ => String::new(),
                };
                cells.push(cell);
                i = i + 1;
            }
            DenseColumn::Text(cells)
        },
        ColumnKind::Date => {
            let mut cells: Vec<Date> = Vec::new();
            let mut i: usize = 0;
            while i < len
                invariant
                    i <= len,
                    len == values@.len(),
                    cells@.len() == i,
                    forall|row: int|
                        0 <= row < i ==> ((#[trigger] values@[row]) matches Some(v) ==> (
                    fits(v, kind) ==> v == ScalarValue::Date(cells@[row]))),
                    kind == ColumnKind::Date,
                decreases len - i,
            {
                let cell = match &values[i] {
                    Some(ScalarValue::Date(d)) => *d,
                    _ => Date::epoch(),
                };
                cells.push(cell);
                i = i + 1;
            }
            DenseColumn::Date(cells)
        },
        ColumnKind::Decimal => {
            let mut cells: Vec<Decimal> = Vec::new();
            let mut i: usize = 0;
            while i < len
                invariant
                    i <= len,
                    len == values@.len(),
                    cells@.len() == i,
                    forall|row: int|
                        0 <= row < i ==> ((#[trigger] values@[row]) matches Some(v) ==> (
                    fits(v, kind) ==> v.number() == Some(cells@[row]))),
                    kind == ColumnKind::Decimal,
                decreases len - i,
            {
                let cell = match &values[i] {
                    Some(value) => match value.as_decimal() {
                        Some(number) => number,
                        None => Decimal::zero(),
                    },
                    None => Decimal::zero(),
                };
                cells.push(cell);
                i = i + 1;
            }
            DenseColumn::Decimal(cells)
        },
    }
}

/// Looks a parameter up at the keys of the rows.
pub(crate) fn lookup_parameter_dense(
    parameter: &IndexedParameter,
    keys: (DenseColumn, RowErrors),
    mask: &RowMask,
    at: Date,
    Ghost(f): Ghost<spec_fn(int) -> Result<ScalarValue, ErrorView>>,
) -> (r: (DenseColumn, RowErrors))
    requires
        column_is(keys.0, keys.1, *mask, f),
    ensures
        r.0.kind() == parameter_kind(*parameter, at),
        column_is(r.0, r.1, *mask, |row: int| parameter_cell(*parameter, at, f(row))),
{
    let (column, mut errors) = keys;
    let mut message = owned("parameter key for `");
    message.append(parameter.name.as_str());
    message.append("` must be an integer");
    let (indices, live) = index_operand(&column, &mut errors, mask, message.as_str(), Ghost(f));
    let version = parameter.version_on(at);
    let kind = match version {
        Some(version) => table_kind(&version.values),
        None => ColumnKind::Decimal,
    };
    let ghost e0 = errors;
    let mut values: Vec<Option<ScalarValue>> = Vec::new();
    let len = indices.len();
    let mut i: usize = 0;
    while i < len
        invariant
            i <= len,
            len == indices@.len(),
            live@.len() == len,
            values@.len() == i,
            parameter.version_at(at) == match version {
                Some(v) => Some(*v),
                None => None,
            },
            kind == parameter_kind(*parameter, at),
            forall|row: int| #[trigger]
                live.has(row) && row < i ==> match parameter.version_at(at) {
                    Some(v) if v.values@.contains_key(indices@[row]) => match table_cell(
                        v.values@,
                        indices@[row],
                    ) {
                        Ok(_) => values@[row] == Some(v.values@[indices@[row]]) && errors.at(row)
                            == e0.at(row),
                        Err(error) => errors.at(row) == match e0.at(row) {
                            Some(earlier) => Some(earlier),
                            None => Some(error),
                        },
                    },
                    _ => errors.at(row) == match e0.at(row) {
                        Some(earlier) => Some(earlier),
                        None => Some(
                            ErrorView::MissingParameterValue {
                                parameter: parameter.name@,
                                key: indices@[row],
                                at,
                            },
                        ),
                    },
                },
            forall|row: int|
                #![trigger errors.at(row)]
                !live.has(row) || row >= i ==> errors.at(row) == e0.at(row),
        decreases len - i,
    {
        let mut found: Option<ScalarValue> = None;
        if live.contains(i) {
            let key = indices[i];
            let value = match version {
                Some(version) => version.values.get(&key),
                None => None,
            };
            match value {
                Some(value) => {
                    if kind == ColumnKind::Decimal && value.as_decimal().is_none() {
                        errors.record(
                            i,
                            EvalError::TypeMismatch(
                                owned("parameter values must be numeric in dense mode"),
                            ),
                        );
                    } else {
                        found = Some(value.duplicate());
                    }
                },
                None => {
                    errors.record(
                        i,
                        EvalError::MissingParameterValue {
                            parameter: parameter.name.clone(),
                            key,
                            at,
                        },
                    );
                },
            }
        }
        values.push(found);
        i = i + 1;
    }
    let cells = column_of(kind, &values);
    proof {
        let p = *parameter;
        assert forall|row: int| #[trigger] mask.has(row) implies match parameter_cell(
            p,
            at,
            f(row),
        ) {
            Ok(value) => errors.at(row) is None && cells.cell(row) == value,
            Err(error) => errors.at(row) == Some(error),
        } by {
            if live.has(row) {
                if let Some(v) = p.version_at(at) {
                    if v.values@.contains_key(indices@[row]) {
                        let value = v.values@[indices@[row]];
                        if table_cell(v.values@, indices@[row]) is Ok {
                            assert(values@[row] == Some(value));
                            assert(fits(value, kind));
                        }
                    }
                }
            }
        }
    }
    (cells, errors)
}

/// How a failed `match` names its rule, subject and arms.
#[derive(Debug)]
pub struct MatchLabels {
    /// The rule whose formula holds the `match`; empty where the rule that
    /// evaluates the expression names itself.
    pub rule: String,
    pub subject: String,
    pub patterns: String,
}

/// A `match` that reached its fallback with a subject value.
pub open spec fn no_match_cell(labels: MatchLabels, subject: Result<ScalarValue, ErrorView>) -> Result<
    ScalarValue,
    ErrorView,
> {
    match subject {
        Err(error) => Err(error),
        Ok(value) => Err(
            ErrorView::NoMatchingArm {
                rule: labels.rule@,
                subject: labels.subject@,
                value: value_label(value),
                patterns: labels.patterns@,
            },
        ),
    }
}

/// Fails every row that reached the fallback of a `match`. `placeholder` gives
/// the dtype.
pub(crate) fn no_match_column(
    labels: &MatchLabels,
    placeholder: DenseColumn,
    subject: (DenseColumn, RowErrors),
    mask: &RowMask,
    Ghost(f): Ghost<spec_fn(int) -> Result<ScalarValue, ErrorView>>,
) -> (r: (DenseColumn, RowErrors))
    requires
        placeholder.rows() == mask@.len(),
        column_is(subject.0, subject.1, *mask, f),
    ensures
        r.0.kind() == placeholder.kind(),
        column_is(r.0, r.1, *mask, |row: int| no_match_cell(*labels, f(row))),
{
    let (column, mut errors) = subject;
    let live = mask.without(&errors);
    let ghost e0 = errors;
    let len = column.len();
    let mut i: usize = 0;
    while i < len
        invariant
            i <= len,
            len == column.rows(),
            live@.len() == len,
            forall|row: int| #[trigger]
                live.has(row) && row < i ==> errors.at(row) == match e0.at(row) {
                    Some(earlier) => Some(earlier),
                    None => Some(
                        ErrorView::NoMatchingArm {
                            rule: labels.rule@,
                            subject: labels.subject@,
                            value: value_label(column.cell(row)),
                            patterns: labels.patterns@,
                        },
                    ),
                },
            forall|row: int|
                #![trigger errors.at(row)]
                !live.has(row) || row >= i ==> errors.at(row) == e0.at(row),
        decreases len - i,
    {
        if live.contains(i) {
            errors.record(
                i,
                EvalError::NoMatchingArm {
                    rule: labels.rule.clone(),
                    subject: labels.subject.clone(),
                    value: format_value_label(&column.value_at(i)),
                    patterns: labels.patterns.clone(),
                },
            );
        }
        i = i + 1;
    }
    proof {
        assert forall|row: int| #[trigger] mask.has(row) implies errors.at(row) == match f(row) {
            Err(error) => Some(error),
            Ok(value) => Some(no_match_cell(*labels, Ok(value))->Err_0),
        } by {
            assert(live.has(row) == (f(row) is Ok));
        }
    }
    (placeholder, errors)
}

/// A value after output rounding.
pub open spec fn rounded_cell(rounding: Rounding, value: Result<ScalarValue, ErrorView>) -> Result<
    ScalarValue,
    ErrorView,
> {
    match value {
        Ok(ScalarValue::Decimal(d)) => Ok(ScalarValue::Decimal(rounding.applied(d))),
        other => other,
    }
}

/// The dtype of a column after output rounding.
pub open spec fn rounded_kind(kind: ColumnKind) -> ColumnKind {
    if numeric_kind(kind) {
        ColumnKind::Decimal
    } else {
        kind
    }
}

/// Rounds the numbers of a column; another column passes through.
pub(crate) fn round_dense_column(column: DenseColumn, rounding: Rounding) -> (r: DenseColumn)
    ensures
        r.kind() == rounded_kind(column.kind()),
        r.rows() == column.rows(),
        forall|row: int|
            0 <= row < column.rows() ==> Ok::<ScalarValue, ErrorView>(#[trigger] r.cell(row))
                == rounded_cell(rounding, Ok(column.cell(row))),
{
    match column {
        DenseColumn::Integer(values) => {
            let mut cells: Vec<Decimal> = Vec::new();
            let mut i: usize = 0;
            while i < values.len()
                invariant
                    i <= values@.len(),
                    cells@.len() == i,
                    forall|row: int|
                        0 <= row < i ==> #[trigger] cells@[row] == rounding.applied(
                            Decimal::of_int(values@[row] as int),
                        ),
                decreases values@.len() - i,
            {
                cells.push(rounding.apply(Decimal::from_i64(values[i])));
                i = i + 1;
            }
            DenseColumn::Decimal(cells)
        },
        DenseColumn::Decimal(values) => {
            let mut cells: Vec<Decimal> = Vec::new();
            let mut i: usize = 0;
            while i < values.len()
                invariant
                    i <= values@.len(),
                    cells@.len() == i,
                    forall|row: int|
                        0 <= row < i ==> #[trigger] cells@[row] == rounding.applied(values@[row]),
                decreases values@.len() - i,
            {
                cells.push(rounding.apply(values[i]));
                i = i + 1;
            }
            DenseColumn::Decimal(cells)
        },
        other => other,
    }
}

/// A column of placeholders with the same error on every row of `mask`.
pub(crate) fn fail_all(placeholder: DenseColumn, mask: &RowMask, error: EvalError) -> (r: (
    DenseColumn,
    RowErrors,
))
    requires
        placeholder.rows() == mask@.len(),
    ensures
        r.0 == placeholder,
        column_is(r.0, r.1, *mask, |row: int| Err(error@)),
{
    let mut errors = RowErrors::new();
    errors.record_all(mask, &error);
    (placeholder, errors)
}

/// A column of zeros with the same error on every row of `mask`.
pub(crate) fn fail_numeric(mask: &RowMask, error: EvalError) -> (r: (DenseColumn, RowErrors))
    ensures
        r.0.kind() == ColumnKind::Decimal,
        column_is(r.0, r.1, *mask, |row: int| Err(error@)),
{
    fail_all(DenseColumn::Decimal(repeated(Decimal::zero(), mask.len())), mask, error)
}

/// The value of the branch that a condition selects.
pub open spec fn if_cell(
    condition: Result<JudgmentOutcome, ErrorView>,
    then_value: Result<ScalarValue, ErrorView>,
    else_value: Result<ScalarValue, ErrorView>,
) -> Result<ScalarValue, ErrorView> {
    match condition {
        Err(error) => Err(error),
        Ok(outcome) => if outcome is Holds {
            then_value
        } else {
            else_value
        },
    }
}

/// The rows whose condition holds. An undetermined condition takes the else branch.
pub(crate) fn holding_rows(outcomes: &Vec<JudgmentOutcome>, live: &RowMask) -> (r: RowMask)
    requires
        outcomes@.len() == live@.len(),
    ensures
        r@.len() == live@.len(),
        forall|row: int| #[trigger] r.has(row) <==> live.has(row) && outcomes@[row] is Holds,
{
    let mut kept: Vec<bool> = Vec::new();
    let mut i: usize = 0;
    while i < outcomes.len()
        invariant
            i <= outcomes@.len(),
            kept@.len() == i,
            forall|row: int| 0 <= row < i ==> #[trigger] kept@[row] == (outcomes@[row] is Holds),
        decreases outcomes@.len() - i,
    {
        kept.push(outcomes[i].is_holds());
        i = i + 1;
    }
    live.keeping(&kept)
}

/// Joins the branches of an `if`, each evaluated for the rows that select it.
pub(crate) fn combine_if(
    condition_errors: RowErrors,
    then_rows: &RowMask,
    then_part: (DenseColumn, RowErrors),
    else_rows: &RowMask,
    else_part: (DenseColumn, RowErrors),
    mask: &RowMask,
    Ghost(c): Ghost<spec_fn(int) -> Result<JudgmentOutcome, ErrorView>>,
    Ghost(f): Ghost<spec_fn(int) -> Result<ScalarValue, ErrorView>>,
    Ghost(g): Ghost<spec_fn(int) -> Result<ScalarValue, ErrorView>>,
) -> (r: Result<(DenseColumn, RowErrors), EvalError>)
    requires
        then_rows@.len() == mask@.len(),
        else_rows@.len() == mask@.len(),
        forall|row: int| #[trigger]
            mask.has(row) ==> match c(row) {
                Err(error) => condition_errors.at(row) == Some(error) && !then_rows.has(row)
                    && !else_rows.has(row),
                Ok(outcome) => condition_errors.at(row) is None && then_rows.has(row) == (
                outcome is Holds) && else_rows.has(row) == !(outcome is Holds),
            },
        forall|row: int|
            #![trigger condition_errors.at(row)]
            !mask.has(row) ==> condition_errors.at(row) is None,
        forall|row: int| #[trigger] then_rows.has(row) ==> mask.has(row),
        forall|row: int| #[trigger] else_rows.has(row) ==> mask.has(row),
        column_is(then_part.0, then_part.1, *then_rows, f),
        column_is(else_part.0, else_part.1, *else_rows, g),
    ensures
        match r {
            Ok((column, errors)) => {
                &&& column_is(
                    column,
                    errors,
                    *mask,
                    |row: int| if_cell(c(row), f(row), g(row)),
                )
                &&& combined_kind(then_part.0.kind(), else_part.0.kind()) matches Some(kind)
                    ==> column.kind() == kind
                &&& !apart(rows_of(*then_rows), f, rows_of(*else_rows), g)
            },
            Err(error) => {
                &&& combined_kind(then_part.0.kind(), else_part.0.kind()) is None
                &&& apart(rows_of(*then_rows), f, rows_of(*else_rows), g)
                &&& error@ == ErrorView::TypeMismatch(
                    "dense if() branches must have the same dtype"@,
                )
            },
        },
{
    let (then_values, then_errors) = then_part;
    let (else_values, else_errors) = else_part;
    let then_live = then_rows.without(&then_errors);
    let else_live = else_rows.without(&else_errors);
    let mut errors = condition_errors;
    errors.absorb(then_errors);
    errors.absorb(else_errors);
    proof {
        assert forall|row: int| !(#[trigger] then_live.has(row) && else_live.has(row)) by {
            if then_live.has(row) && else_live.has(row) {
                assert(then_rows.has(row));
                assert(else_rows.has(row));
                assert(mask.has(row));
            }
        }
    }
    match select_dense(&then_live, then_values, &else_live, else_values) {
        Ok(column) => {
            proof {
                assert forall|row: int| #[trigger] mask.has(row) implies match if_cell(
                    c(row),
                    f(row),
                    g(row),
                ) {
                    Ok(value) => errors.at(row) is None && column.cell(row) == value,
                    Err(error) => errors.at(row) == Some(error),
                } by {
                    assert(then_live.has(row) == (then_rows.has(row) && f(row) is Ok));
                    assert(else_live.has(row) == (else_rows.has(row) && g(row) is Ok));
                }
                if apart(rows_of(*then_rows), f, rows_of(*else_rows), g) {
                    let (r, s) = choose|r: int, s: int|
                        #[trigger] rows_of(*then_rows).contains(r) && #[trigger] rows_of(
                            *else_rows,
                        ).contains(s) && differ(f(r), g(s));
                    assert(then_rows.has(r) && else_rows.has(s));
                    assert(then_live.has(r) && else_live.has(s));
                    assert(then_part.0.cell(r) == f(r)->Ok_0);
                    assert(else_part.0.cell(s) == g(s)->Ok_0);
                }
            }
            Ok((column, errors))
        },
        Err(error) => {
            proof {
                let r = choose|row: int| #[trigger] then_live.has(row);
                let s = choose|row: int| #[trigger] else_live.has(row);
                assert(then_live.has(r) && else_live.has(s));
                assert(then_rows.has(r) && else_rows.has(s));
                assert(then_part.0.cell(r) == f(r)->Ok_0);
                assert(else_part.0.cell(s) == g(s)->Ok_0);
                assert(differ(f(r), g(s)));
                assert(rows_of(*then_rows).contains(r) && rows_of(*else_rows).contains(s));
            }
            Err(error)
        },
    }
}

/// What a row's `and` or `or` has come to: decided, or else whether an item was
/// undetermined.
pub ghost struct ConnectiveState {
    pub decided: bool,
    pub undetermined: bool,
}

/// The state after one more item.
pub open spec fn connective_item(
    decisive: JudgmentOutcome,
    state: Result<ConnectiveState, ErrorView>,
    item: Result<JudgmentOutcome, ErrorView>,
) -> Result<ConnectiveState, ErrorView> {
    match state {
        Err(error) => Err(error),
        Ok(s) => if s.decided {
            Ok(s)
        } else {
            match item {
                Err(error) => Err(error),
                Ok(o) => if o == decisive {
                    Ok(ConnectiveState { decided: true, undetermined: s.undetermined })
                } else {
                    Ok(
                        ConnectiveState {
                            decided: false,
                            undetermined: s.undetermined || o is Undetermined,
                        },
                    )
                },
            }
        },
    }
}

/// The state before the first item.
pub open spec fn connective_start() -> Result<ConnectiveState, ErrorView> {
    Ok(ConnectiveState { decided: false, undetermined: false })
}

/// The outcome of a state after the last item.
pub open spec fn connective_outcome(
    decisive: JudgmentOutcome,
    state: Result<ConnectiveState, ErrorView>,
) -> Result<JudgmentOutcome, ErrorView> {
    match state {
        Err(error) => Err(error),
        Ok(s) => Ok(
            if s.decided {
                decisive
            } else if s.undetermined {
                JudgmentOutcome::Undetermined
            } else {
                decisive.negated()
            },
        ),
    }
}

/// Whether the pending rows, the undetermined marks and the errors are what `f`
/// gives for the rows of `mask`.
pub open spec fn connective_is(
    pending: RowMask,
    undetermined: Seq<bool>,
    errors: RowErrors,
    mask: RowMask,
    f: spec_fn(int) -> Result<ConnectiveState, ErrorView>,
) -> bool {
    &&& pending@.len() == mask@.len()
    &&& undetermined.len() == mask@.len()
    &&& forall|row: int| #[trigger]
        mask.has(row) ==> match f(row) {
            Err(error) => !pending.has(row) && errors.at(row) == Some(error),
            Ok(s) => pending.has(row) == !s.decided && errors.at(row) is None && (!s.decided
                ==> undetermined[row] == s.undetermined),
        }
    &&& forall|row: int| #[trigger] pending.has(row) ==> mask.has(row)
    &&& forall|row: int| #![trigger errors.at(row)] !mask.has(row) ==> errors.at(row) is None
}

/// Takes one more item, evaluated for the pending rows.
pub(crate) fn short_circuit_item(
    decisive: JudgmentOutcome,
    state: (RowMask, Vec<bool>, RowErrors),
    item: (Vec<JudgmentOutcome>, RowErrors),
    mask: &RowMask,
    Ghost(f): Ghost<spec_fn(int) -> Result<ConnectiveState, ErrorView>>,
    Ghost(g): Ghost<spec_fn(int) -> Result<JudgmentOutcome, ErrorView>>,
) -> (r: (RowMask, Vec<bool>, RowErrors))
    requires
        connective_is(state.0, state.1@, state.2, *mask, f),
        judged(item.0@, item.1, state.0, g),
    ensures
        connective_is(
            r.0,
            r.1@,
            r.2,
            *mask,
            |row: int| connective_item(decisive, f(row), g(row)),
        ),
{
    let (pending, mut undetermined, mut errors) = state;
    let (outcomes, item_errors) = item;
    let live = pending.without(&item_errors);
    errors.absorb(item_errors);
    let ghost u0 = undetermined@;
    let mut kept: Vec<bool> = Vec::new();
    let len = outcomes.len();
    let mut i: usize = 0;
    while i < len
        invariant
            i <= len,
            len == outcomes@.len(),
            live@.len() == len,
            undetermined@.len() == len,
            u0.len() == len,
            kept@.len() == i,
            forall|row: int|
                0 <= row < i ==> #[trigger] kept@[row] == (outcomes@[row] != decisive),
            forall|row: int|
                0 <= row < len ==> #[trigger] undetermined@[row] == (u0[row] || (row < i
                    && live.has(row) && outcomes@[row] != decisive
                    && outcomes@[row] is Undetermined)),
        decreases len - i,
    {
        let open = outcomes[i] != decisive;
        kept.push(open);
        if open && live.contains(i) && outcomes[i] == JudgmentOutcome::Undetermined {
            undetermined.set(i, true);
        }
        i = i + 1;
    }
    let next = live.keeping(&kept);
    proof {
        assert forall|row: int| #[trigger] mask.has(row) implies match connective_item(
            decisive,
            f(row),
            g(row),
        ) {
            Err(error) => !next.has(row) && errors.at(row) == Some(error),
            Ok(s) => next.has(row) == !s.decided && errors.at(row) is None && (!s.decided
                ==> undetermined@[row] == s.undetermined),
        } by {
            assert(live.has(row) == (pending.has(row) && g(row) is Ok));
            if pending.has(row) {
                assert(0 <= row < len);
            }
        }
    }
    (next, undetermined, errors)
}

/// The outcomes after the last item.
pub(crate) fn short_circuit_end(
    decisive: JudgmentOutcome,
    state: (RowMask, Vec<bool>, RowErrors),
    mask: &RowMask,
    Ghost(f): Ghost<spec_fn(int) -> Result<ConnectiveState, ErrorView>>,
) -> (r: (Vec<JudgmentOutcome>, RowErrors))
    requires
        connective_is(state.0, state.1@, state.2, *mask, f),
    ensures
        judged(r.0@, r.1, *mask, |row: int| connective_outcome(decisive, f(row))),
{
    let (pending, undetermined, errors) = state;
    let mut outcomes: Vec<JudgmentOutcome> = Vec::new();
    let len = undetermined.len();
    let mut i: usize = 0;
    while i < len
        invariant
            i <= len,
            len == undetermined@.len(),
            pending@.len() == len,
            outcomes@.len() == i,
            forall|row: int|
                0 <= row < i ==> #[trigger] outcomes@[row] == if !pending.has(row) {
                    decisive
                } else if undetermined@[row] {
                    JudgmentOutcome::Undetermined
                } else {
                    decisive.negated()
                },
        decreases len - i,
    {
        let held = if !pending.contains(i) {
            decisive
        } else if undetermined[i] {
            JudgmentOutcome::Undetermined
        } else {
            decisive.negate()
        };
        outcomes.push(held);
        i = i + 1;
    }
    (outcomes, errors)
}

/// The outcomes of the negated judgment.
pub(crate) fn negate(values: Vec<JudgmentOutcome>) -> (r: Vec<JudgmentOutcome>)
    ensures
        r@ == values@.map_values(|o: JudgmentOutcome| o.negated()),
{
    let mut r: Vec<JudgmentOutcome> = Vec::new();
    let mut i: usize = 0;
    while i < values.len()
        invariant
            i <= values@.len(),
            r@.len() == i,
            forall|k: int| 0 <= k < i ==> #[trigger] r@[k] == values@[k].negated(),
        decreases values@.len() - i,
    {
        r.push(values[i].negate());
        i = i + 1;
    }
    assert(r@ =~= values@.map_values(|o: JudgmentOutcome| o.negated()));
    r
}

} // verus!
