//! Laws of the columns that a lifetime's answer is written in.
use crate::batch::DenseOutputValue;
use crate::column::ColumnKind;
use crate::lifetime_api::{type_fault, value_written, LifetimeColumn, LifetimeOutputColumn};
use crate::model::DType;
use vstd::prelude::*;

verus! {

/// Whether a column of a dtype can be written as declared: under its own type, or whole numbers as
/// decimals.
pub open spec fn can_be_written(kind: ColumnKind, declared: DType) -> bool {
    match kind {
        ColumnKind::Bool => declared is Bool,
        ColumnKind::Integer => declared is Integer || declared is Decimal,
        ColumnKind::Decimal => declared is Decimal,
        ColumnKind::Text => declared is Text,
        ColumnKind::Date => declared is Date,
    }
}

/// An output is written exactly where its column can be written as its rule declares; judgments are
/// written for judgments only.
pub proof fn an_output_is_written_as_declared(value: DenseOutputValue, declared: DType)
    ensures
        type_fault(value, declared) is None <==> match value {
            DenseOutputValue::Scalar(column) => can_be_written(column.kind(), declared),
            DenseOutputValue::Judgment(_) => declared is Judgment,
        },
{
}

/// What is written has the declared type, and as many rows as what was evaluated.
pub proof fn what_is_written_has_the_declared_type(
    out: LifetimeOutputColumn,
    value: DenseOutputValue,
    declared: DType,
)
    requires
        value_written(out, value, declared),
    ensures
        match (out, value) {
            (LifetimeOutputColumn::Scalar(o), DenseOutputValue::Scalar(column)) => {
                &&& o.rows() == column.rows()
                &&& match o {
                    LifetimeColumn::Bool { .. } => declared is Bool,
                    LifetimeColumn::Integer { .. } => declared is Integer,
                    LifetimeColumn::Decimal { .. } => declared is Decimal,
                    LifetimeColumn::Text { .. } => declared is Text,
                    LifetimeColumn::Date { .. } => declared is Date,
                }
            },
            (
                LifetimeOutputColumn::Judgment { values, .. },
                DenseOutputValue::Judgment(outcomes),
            ) => values@ == outcomes@,
            _ => false,
        },
{
}

} // verus!
