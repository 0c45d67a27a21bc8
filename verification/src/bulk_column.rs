//! Columns of the bulk evaluator: one value per query row.
use crate::column::repeated;
use crate::decimal::Decimal;
use crate::error::{ErrorView, EvalError};
use crate::engine::compare_scalar_values;
use crate::lazy::{RowErrors, RowMask};
use crate::model::{ComparisonOp, JudgmentOutcome, Rounding, ScalarValue};
use crate::semantics::{as_number, output_rounded, values_compare};
use crate::text::owned;
use vstd::prelude::*;

verus! {

/// Values of a formula for every row. Rows that were not evaluated, or failed, hold some
/// value.
#[derive(Debug)]
pub enum ScalarColumn {
    Bool(Vec<bool>),
    Integer(Vec<i64>),
    Decimal(Vec<Decimal>),
    Text(Vec<String>),
    /// Values of several kinds.
    Mixed(Vec<ScalarValue>),
}

#[derive(Clone, Copy, PartialEq, Eq, Structural)]
enum ValueKind {
    Bool,
    Integer,
    Decimal,
    Text,
}

spec fn kind_of_value(value: ScalarValue) -> Option<ValueKind> {
    match value {
        ScalarValue::Bool(_) => Some(ValueKind::Bool),
        ScalarValue::Integer(_) => Some(ValueKind::Integer),
        ScalarValue::Decimal(_) => Some(ValueKind::Decimal),
        ScalarValue::Text(_) => Some(ValueKind::Text),
        ScalarValue::Date(_) => None,
    }
}

fn value_kind(value: &ScalarValue) -> (r: Option<ValueKind>)
    ensures
        r == kind_of_value(*value),
{
    match value {
        ScalarValue::Bool(_) => Some(ValueKind::Bool),
        ScalarValue::Integer(_) => Some(ValueKind::Integer),
        ScalarValue::Decimal(_) => Some(ValueKind::Decimal),
        ScalarValue::Text(_) => Some(ValueKind::Text),
        ScalarValue::Date(_) => None,
    }
}

fn same_value_kind(a: Option<ValueKind>, b: Option<ValueKind>) -> (r: bool)
    ensures
        r == (a == b),
{
    match (a, b) {
        (Some(x), Some(y)) => x == y,
        (None, None) => true,
        _ => false,
    }
}

/// Whether an entry has a value of the kind, or none.
spec fn entry_fits(entry: Option<ScalarValue>, kind: Option<ValueKind>) -> bool {
    entry matches Some(v) ==> kind_of_value(v) == kind
}

pub open spec fn not_numeric_error() -> ErrorView {
    ErrorView::TypeMismatch("expected numeric scalar"@)
}

fn not_numeric() -> (r: EvalError)
    ensures
        r@ == not_numeric_error(),
{
    EvalError::TypeMismatch(owned("expected numeric scalar"))
}

impl ScalarColumn {
    /// The number of rows.
    pub open spec fn rows(self) -> nat {
        match self {
            ScalarColumn::Bool(v) => v@.len(),
            ScalarColumn::Integer(v) => v@.len(),
            ScalarColumn::Decimal(v) => v@.len(),
            ScalarColumn::Text(v) => v@.len(),
            ScalarColumn::Mixed(v) => v@.len(),
        }
    }

    /// The value of a row.
    pub open spec fn cell(self, row: int) -> ScalarValue {
        match self {
            ScalarColumn::Bool(v) => ScalarValue::Bool(v@[row]),
            ScalarColumn::Integer(v) => ScalarValue::Integer(v@[row]),
            ScalarColumn::Decimal(v) => ScalarValue::Decimal(v@[row]),
            ScalarColumn::Text(v) => ScalarValue::Text(v@[row]),
            ScalarColumn::Mixed(v) => v@[row],
        }
    }

    pub fn placeholder(len: usize) -> (r: ScalarColumn)
        ensures
            r.rows() == len,
    {
        ScalarColumn::Integer(repeated(0i64, len))
    }

    pub fn len(&self) -> (r: usize)
        ensures
            r == self.rows(),
    {
        match self {
            ScalarColumn::Bool(v) => v.len(),
            ScalarColumn::Integer(v) => v.len(),
            ScalarColumn::Decimal(v) => v.len(),
            ScalarColumn::Text(v) => v.len(),
            ScalarColumn::Mixed(v) => v.len(),
        }
    }

    pub fn value_at(&self, row: usize) -> (r: ScalarValue)
        requires
            row < self.rows(),
        ensures
            r == self.cell(row as int),
    {
        match self {
            ScalarColumn::Bool(v) => ScalarValue::Bool(v[row]),
            ScalarColumn::Integer(v) => ScalarValue::Integer(v[row]),
            ScalarColumn::Decimal(v) => ScalarValue::Decimal(v[row]),
            ScalarColumn::Text(v) => ScalarValue::Text(v[row].clone()),
            ScalarColumn::Mixed(v) => v[row].duplicate(),
        }
    }

    fn from_bools(entries: &Vec<Option<ScalarValue>>) -> (r: ScalarColumn)
        requires
            forall|i: int| 0 <= i < entries@.len() ==> entry_fits(
                #[trigger] entries@[i],
                Some(ValueKind::Bool),
            ),
        ensures
            holds_entries(r, entries@),
    {
        let mut values: Vec<bool> = Vec::new();
        let mut i: usize = 0;
        while i < entries.len()
            invariant
                i <= entries@.len(),
                values@.len() == i,
                forall|j: int| 0 <= j < entries@.len() ==> entry_fits(
                    #[trigger] entries@[j],
                    Some(ValueKind::Bool),
                ),
                forall|j: int|
                    0 <= j < i ==> ((#[trigger] entries@[j]) matches Some(v) ==> v
                        == ScalarValue::Bool(values@[j])),
            decreases entries@.len() - i,
        {
            let value = match &entries[i] {
                Some(ScalarValue::Bool(v)) => *v,
                _ => false,
            };
            values.push(value);
            i = i + 1;
        }
        ScalarColumn::Bool(values)
    }

    fn from_integers(entries: &Vec<Option<ScalarValue>>) -> (r: ScalarColumn)
        requires
            forall|i: int| 0 <= i < entries@.len() ==> entry_fits(
                #[trigger] entries@[i],
                Some(ValueKind::Integer),
            ),
        ensures
            holds_entries(r, entries@),
    {
        let mut values: Vec<i64> = Vec::new();
        let mut i: usize = 0;
        while i < entries.len()
            invariant
                i <= entries@.len(),
                values@.len() == i,
                forall|j: int| 0 <= j < entries@.len() ==> entry_fits(
                    #[trigger] entries@[j],
                    Some(ValueKind::Integer),
                ),
                forall|j: int|
                    0 <= j < i ==> ((#[trigger] entries@[j]) matches Some(v) ==> v
                        == ScalarValue::Integer(values@[j])),
            decreases entries@.len() - i,
        {
            let value: i64 = match &entries[i] {
                Some(ScalarValue::Integer(v)) => *v,
                _ => 0,
            };
            values.push(value);
            i = i + 1;
        }
        ScalarColumn::Integer(values)
    }

    fn from_decimals(entries: &Vec<Option<ScalarValue>>) -> (r: ScalarColumn)
        requires
            forall|i: int| 0 <= i < entries@.len() ==> entry_fits(
                #[trigger] entries@[i],
                Some(ValueKind::Decimal),
            ),
        ensures
            holds_entries(r, entries@),
    {
        let mut values: Vec<Decimal> = Vec::new();
        let mut i: usize = 0;
        while i < entries.len()
            invariant
                i <= entries@.len(),
                values@.len() == i,
                forall|j: int| 0 <= j < entries@.len() ==> entry_fits(
                    #[trigger] entries@[j],
                    Some(ValueKind::Decimal),
                ),
                forall|j: int|
                    0 <= j < i ==> ((#[trigger] entries@[j]) matches Some(v) ==> v
                        == ScalarValue::Decimal(values@[j])),
            decreases entries@.len() - i,
        {
            let value = match &entries[i] {
                Some(ScalarValue::Decimal(v)) => *v,
                _ => Decimal::zero(),
            };
            values.push(value);
            i = i + 1;
        }
        ScalarColumn::Decimal(values)
    }

    fn from_texts(entries: &Vec<Option<ScalarValue>>) -> (r: ScalarColumn)
        requires
            forall|i: int| 0 <= i < entries@.len() ==> entry_fits(
                #[trigger] entries@[i],
                Some(ValueKind::Text),
            ),
        ensures
            holds_entries(r, entries@),
    {
        let mut values: Vec<String> = Vec::new();
        let mut i: usize = 0;
        while i < entries.len()
            invariant
                i <= entries@.len(),
                values@.len() == i,
                forall|j: int| 0 <= j < entries@.len() ==> entry_fits(
                    #[trigger] entries@[j],
                    Some(ValueKind::Text),
                ),
                forall|j: int|
                    0 <= j < i ==> ((#[trigger] entries@[j]) matches Some(v) ==> v
                        == ScalarValue::Text(values@[j])),
            decreases entries@.len() - i,
        {
            let value = match &entries[i] {
                Some(ScalarValue::Text(v)) => v.clone(),
                _ => String::new(),
            };
            values.push(value);
            i = i + 1;
        }
        ScalarColumn::Text(values)
    }

    fn from_mixed(entries: &Vec<Option<ScalarValue>>) -> (r: ScalarColumn)
        ensures
            holds_entries(r, entries@),
    {
        let mut values: Vec<ScalarValue> = Vec::new();
        let mut i: usize = 0;
        while i < entries.len()
            invariant
                i <= entries@.len(),
                values@.len() == i,
                forall|j: int|
                    0 <= j < i ==> ((#[trigger] entries@[j]) matches Some(v) ==> v == values@[j]),
            decreases entries@.len() - i,
        {
            let value = match &entries[i] {
                Some(v) => v.duplicate(),
                None => ScalarValue::Integer(0),
            };
            values.push(value);
            i = i + 1;
        }
        ScalarColumn::Mixed(values)
    }

    /// A column of the values of the rows that have one: of their kind, or mixed.
    pub fn from_entries(entries: &Vec<Option<ScalarValue>>) -> (r: ScalarColumn)
        ensures
            holds_entries(r, entries@),
    {
        let mut kind: Option<ValueKind> = None;
        let mut seen = false;
        let mut i: usize = 0;
        while i < entries.len()
            invariant
                i <= entries@.len(),
                forall|j: int| 0 <= j < i ==> entry_fits(#[trigger] entries@[j], kind),
                !seen ==> forall|j: int| 0 <= j < i ==> #[trigger] entries@[j] is None,
            decreases entries@.len() - i,
        {
            if let Some(value) = &entries[i] {
                let own = value_kind(value);
                if !seen {
                    kind = own;
                    seen = true;
                } else if !same_value_kind(own, kind) {
                    return Self::from_mixed(entries);
                }
            }
            i = i + 1;
        }
        match kind {
            None => {
                if seen {
                    Self::from_mixed(entries)
                } else {
                    Self::placeholder(entries.len())
                }
            },
            Some(ValueKind::Bool) => Self::from_bools(entries),
            Some(ValueKind::Integer) => Self::from_integers(entries),
            Some(ValueKind::Decimal) => Self::from_decimals(entries),
            Some(ValueKind::Text) => Self::from_texts(entries),
        }
    }

    /// The same value on every row.
    pub fn broadcast(value: &ScalarValue, len: usize) -> (r: ScalarColumn)
        ensures
            r.rows() == len,
            forall|row: int| 0 <= row < len ==> #[trigger] r.cell(row) == *value,
    {
        match value {
            ScalarValue::Bool(v) => ScalarColumn::Bool(repeated(*v, len)),
            ScalarValue::Integer(v) => ScalarColumn::Integer(repeated(*v, len)),
            ScalarValue::Decimal(v) => ScalarColumn::Decimal(repeated(*v, len)),
            ScalarValue::Text(v) => {
                let mut values: Vec<String> = Vec::new();
                while values.len() < len
                    invariant
                        values@.len() <= len,
                        forall|j: int| 0 <= j < values@.len() ==> #[trigger] values@[j] == *v,
                    decreases len - values@.len(),
                {
                    values.push(v.clone());
                }
                ScalarColumn::Text(values)
            },
            ScalarValue::Date(v) => {
                let mut values: Vec<ScalarValue> = Vec::new();
                while values.len() < len
                    invariant
                        values@.len() <= len,
                        forall|j: int|
                            0 <= j < values@.len() ==> #[trigger] values@[j] == ScalarValue::Date(
                                *v,
                            ),
                    decreases len - values@.len(),
                {
                    values.push(ScalarValue::Date(*v));
                }
                ScalarColumn::Mixed(values)
            },
        }
    }

    pub fn duplicate(&self) -> (r: ScalarColumn)
        ensures
            r.rows() == self.rows(),
            forall|row: int| 0 <= row < self.rows() ==> #[trigger] r.cell(row) == self.cell(row),
    {
        let mut entries: Vec<Option<ScalarValue>> = Vec::new();
        let n = self.len();
        let mut i: usize = 0;
        while i < n
            invariant
                i <= n,
                n == self.rows(),
                entries@.len() == i,
                forall|j: int| 0 <= j < i ==> #[trigger] entries@[j] == Some(self.cell(j)),
            decreases n - i,
        {
            entries.push(Some(self.value_at(i)));
            i = i + 1;
        }
        let r = Self::from_entries(&entries);
        assert forall|row: int| 0 <= row < self.rows() implies #[trigger] r.cell(row) == self.cell(
            row,
        ) by {
            assert(entries@[row] == Some(self.cell(row)));
        }
        r
    }

    /// The active rows as numbers. A row that holds no number fails.
    pub fn decimals(&self, live: &RowMask, errors: &mut RowErrors) -> (r: Vec<Decimal>)
        requires
            live@.len() == self.rows(),
        ensures
            r@.len() == self.rows(),
            forall|row: int| #[trigger]
                live.has(row) ==> match as_number(self.cell(row)) {
                    Ok(d) => r@[row] == d && final(errors).at(row) == old(errors).at(row),
                    Err(_) => final(errors).at(row) == with_failure(
                        old(errors).at(row),
                        not_numeric_error(),
                    ),
                },
            forall|row: int|
                !#[trigger] live.has(row) ==> final(errors).at(row) == old(errors).at(row),
    {
        let n = self.len();
        let mut numbers: Vec<Decimal> = Vec::new();
        let mut i: usize = 0;
        while i < n
            invariant
                i <= n,
                n == self.rows(),
                live@.len() == self.rows(),
                numbers@.len() == i,
                forall|row: int| #[trigger]
                    live.has(row) && row < i ==> match as_number(self.cell(row)) {
                        Ok(d) => numbers@[row] == d && errors.at(row) == old(errors).at(row),
                        Err(_) => errors.at(row) == with_failure(
                            old(errors).at(row),
                            not_numeric_error(),
                        ),
                    },
                forall|row: int|
                    !live.has(row) || row >= i ==> #[trigger] errors.at(row) == old(errors).at(row),
            decreases n - i,
        {
            let number = if live.contains(i) {
                match self.value_at(i).as_decimal() {
                    Some(d) => d,
                    None => {
                        let ghost before = *errors;
                        errors.record(i, not_numeric());
                        assert forall|row: int| row != i implies #[trigger] errors.at(row)
                            == before.at(row) by {}
                        Decimal::zero()
                    },
                }
            } else {
                Decimal::zero()
            };
            numbers.push(number);
            i = i + 1;
        }
        numbers
    }

    /// The column with the values of another on some rows.
    pub fn assigned(&self, source: &ScalarColumn, rows: &RowMask) -> (r: ScalarColumn)
        requires
            self.rows() == source.rows(),
            rows@.len() == self.rows(),
        ensures
            r.rows() == self.rows(),
            forall|row: int|
                0 <= row < self.rows() ==> #[trigger] r.cell(row) == if rows.has(row) {
                    source.cell(row)
                } else {
                    self.cell(row)
                },
    {
        let mut entries: Vec<Option<ScalarValue>> = Vec::new();
        let n = self.len();
        let mut i: usize = 0;
        while i < n
            invariant
                i <= n,
                n == self.rows(),
                n == source.rows(),
                entries@.len() == i,
                forall|j: int|
                    0 <= j < i ==> #[trigger] entries@[j] == Some(
                        if rows.has(j) {
                            source.cell(j)
                        } else {
                            self.cell(j)
                        },
                    ),
            decreases n - i,
        {
            if rows.contains(i) {
                entries.push(Some(source.value_at(i)));
            } else {
                entries.push(Some(self.value_at(i)));
            }
            i = i + 1;
        }
        let r = Self::from_entries(&entries);
        assert forall|row: int| 0 <= row < self.rows() implies #[trigger] r.cell(row)
            == if rows.has(row) {
            source.cell(row)
        } else {
            self.cell(row)
        } by {
            assert(entries@[row] is Some);
        }
        r
    }

    /// The values of an `if`: of one branch or the other, by row.
    pub fn select(
        then_rows: &RowMask,
        then_values: ScalarColumn,
        else_rows: &RowMask,
        else_values: ScalarColumn,
    ) -> (r: ScalarColumn)
        requires
            then_values.rows() == else_values.rows(),
            then_rows@.len() == then_values.rows(),
            else_rows@.len() == then_values.rows(),
            forall|row: int| #[trigger] then_rows.has(row) ==> !else_rows.has(row),
        ensures
            r.rows() == then_values.rows(),
            forall|row: int| #[trigger] then_rows.has(row) ==> r.cell(row) == then_values.cell(row),
            forall|row: int| #[trigger] else_rows.has(row) ==> r.cell(row) == else_values.cell(row),
    {
        if then_rows.is_empty() {
            return else_values;
        }
        if else_rows.is_empty() {
            return then_values;
        }
        then_values.assigned(&else_values, else_rows)
    }

    /// The values, with decimals rounded as a rule declares.
    pub fn rounded(&self, rounding: Rounding) -> (r: ScalarColumn)
        ensures
            r.rows() == self.rows(),
            forall|row: int|
                0 <= row < self.rows() ==> #[trigger] r.cell(row) == output_rounded(
                    Some(rounding),
                    self.cell(row),
                ),
    {
        let mut entries: Vec<Option<ScalarValue>> = Vec::new();
        let n = self.len();
        let mut i: usize = 0;
        while i < n
            invariant
                i <= n,
                n == self.rows(),
                entries@.len() == i,
                forall|j: int|
                    0 <= j < i ==> #[trigger] entries@[j] == Some(
                        output_rounded(Some(rounding), self.cell(j)),
                    ),
            decreases n - i,
        {
            let value = match self.value_at(i) {
                ScalarValue::Decimal(amount) => ScalarValue::Decimal(rounding.apply(amount)),
                other => other,
            };
            entries.push(Some(value));
            i = i + 1;
        }
        let r = Self::from_entries(&entries);
        assert forall|row: int| 0 <= row < self.rows() implies #[trigger] r.cell(row)
            == output_rounded(Some(rounding), self.cell(row)) by {
            assert(entries@[row] is Some);
        }
        r
    }
}

/// The error of a row that fails: the one that it has already, or this one.
pub open spec fn with_failure(earlier: Option<ErrorView>, error: ErrorView) -> Option<ErrorView> {
    match earlier {
        Some(e) => Some(e),
        None => Some(error),
    }
}

/// Whether a column has the values of the rows that have one.
pub open spec fn holds_entries(column: ScalarColumn, entries: Seq<Option<ScalarValue>>) -> bool {
    &&& column.rows() == entries.len()
    &&& forall|i: int|
        0 <= i < entries.len() ==> ((#[trigger] entries[i]) matches Some(v) ==> column.cell(i) == v)
}

/// Compares two columns on the active rows. A row whose values do not compare fails.
pub fn compare_columns(
    left: &ScalarColumn,
    op: ComparisonOp,
    right: &ScalarColumn,
    live: &RowMask,
    errors: &mut RowErrors,
) -> (r: Vec<JudgmentOutcome>)
    requires
        left.rows() == right.rows(),
        live@.len() == left.rows(),
    ensures
        r@.len() == left.rows(),
        forall|row: int| #[trigger]
            live.has(row) ==> match values_compare(left.cell(row), op, right.cell(row)) {
                Ok(holds) => r@[row] == JudgmentOutcome::of_bool(holds) && final(errors).at(row)
                    == old(errors).at(row),
                Err(e) => final(errors).at(row) == with_failure(old(errors).at(row), e),
            },
        forall|row: int| !#[trigger] live.has(row) ==> final(errors).at(row) == old(errors).at(row),
{
    let n = left.len();
    let mut outcomes: Vec<JudgmentOutcome> = Vec::new();
    let mut i: usize = 0;
    while i < n
        invariant
            i <= n,
            n == left.rows(),
            n == right.rows(),
            live@.len() == left.rows(),
            outcomes@.len() == i,
            forall|row: int| #[trigger]
                live.has(row) && row < i ==> match values_compare(
                    left.cell(row),
                    op,
                    right.cell(row),
                ) {
                    Ok(holds) => outcomes@[row] == JudgmentOutcome::of_bool(holds) && errors.at(row)
                        == old(errors).at(row),
                    Err(e) => errors.at(row) == with_failure(old(errors).at(row), e),
                },
            forall|row: int|
                !live.has(row) || row >= i ==> #[trigger] errors.at(row) == old(errors).at(row),
        decreases n - i,
    {
        let result = if live.contains(i) {
            match compare_scalar_values(&left.value_at(i), op, &right.value_at(i)) {
                Ok(holds) => JudgmentOutcome::from_bool(holds),
                Err(error) => {
                    let ghost before = *errors;
                    errors.record(i, error);
                    assert forall|row: int| row != i implies #[trigger] errors.at(row)
                        == before.at(row) by {}
                    JudgmentOutcome::NotHolds
                },
            }
        } else {
            JudgmentOutcome::NotHolds
        };
        outcomes.push(result);
        i = i + 1;
    }
    outcomes
}

} // verus!
