//! Laws of batches: which are bound to a compiled program, and what the program reads of them.
use crate::batch::{
    bound_batch, bound_relation, bound_relations, column_named, columns_named, is_listed,
    is_requested, non_decreasing, outputs_are, period_facts, related_length_error,
    relation_batch_from, requested_rule, requested_value, root_length_error, unknown_output,
    DenseBatchSpec, DenseOutput, DenseOutputValue, DenseRelationBatchSpec, NamedColumn, RuleValue,
};
use crate::dense::{
    BatchView, DenseCompiledProgram, DenseRelationSchema, RelationBatchView, RelationKeyView,
};
use crate::error::ErrorView;
use crate::model::{item_named, position_from_meaning, Period};
use vstd::prelude::*;

verus! {

proof fn root_lengths(spec: DenseBatchSpec, n: nat)
    requires
        n <= spec.inputs@.len(),
    ensures
        root_length_error(spec, n) is None <==> forall|i: int|
            0 <= i < n ==> (#[trigger] spec.inputs@[i]).column.rows() == spec.row_count,
    decreases n,
{
    if n > 0 {
        root_lengths(spec, (n - 1) as nat);
    }
}

proof fn related_lengths(
    names: Seq<String>,
    relation: Seq<char>,
    inputs: Seq<NamedColumn>,
    count: nat,
    n: nat,
)
    requires
        n <= names.len(),
    ensures
        related_length_error(names, relation, inputs, count, n) is None <==> forall|i: int|
            0 <= i < n ==> (column_named(inputs, (#[trigger] names[i])@) matches Some(column)
                ==> column.rows() == count),
    decreases n,
{
    if n > 0 {
        related_lengths(names, relation, inputs, count, (n - 1) as nat);
    }
}

proof fn first_batch(relations: Seq<DenseRelationBatchSpec>, key: RelationKeyView, from: nat)
    ensures
        match relation_batch_from(relations, key, from) {
            Some(batch) => exists|i: int|
                from <= i < relations.len() && batch == #[trigger] relations[i] && batch.key@ == key
                    && forall|j: int| from <= j < i ==> (#[trigger] relations[j]).key@ != key,
            None => forall|i: int|
                from <= i < relations.len() ==> (#[trigger] relations[i]).key@ != key,
        },
    decreases relations.len() - from,
{
    if from < relations.len() {
        if relations[from as int].key@ == key {
            assert(relations[from as int] == relation_batch_from(relations, key, from)->0);
        } else {
            first_batch(relations, key, from + 1);
        }
    }
}

proof fn offsets_rise(offsets: Seq<usize>, i: int, j: int)
    requires
        non_decreasing(offsets),
        0 <= i <= j < offsets.len(),
    ensures
        offsets[i] <= offsets[j],
    decreases j - i,
{
    if i < j {
        offsets_rise(offsets, i, j - 1);
        assert(offsets[j - 1] <= offsets[j]);
    }
}

/// Whether rows are supplied for a relation: for each row of the batch an offset at which its
/// related rows begin, from zero on and never back, and one at which the last of them ends; and each
/// column that is read has as many values as there are related rows.
pub open spec fn supplies(
    batch: DenseRelationBatchSpec,
    schema: DenseRelationSchema,
    rows: nat,
) -> bool {
    let offsets = batch.offsets@;
    &&& batch.key@ == schema.key@
    &&& offsets.len() == rows + 1
    &&& offsets[0] == 0
    &&& forall|i: int, j: int|
        0 <= i <= j < offsets.len() ==> #[trigger] offsets[i] <= #[trigger] offsets[j]
    &&& forall|i: int|
        0 <= i < schema.related_inputs@.len() ==> (column_named(
            batch.inputs@,
            (#[trigger] schema.related_inputs@[i])@,
        ) matches Some(column) ==> column.rows() == offsets[rows as int])
}

/// The rows of a relation are bound exactly where some are supplied for it, and the first that are
/// supplied are in order; what is bound are their offsets, their number and their columns.
pub proof fn related_rows_are_bound_where_they_are_supplied(
    root: Seq<char>,
    schema: DenseRelationSchema,
    spec: DenseBatchSpec,
)
    ensures
        ({
            let bound = bound_relation(root, schema, spec);
            &&& bound is Ok <==> exists|i: int|
                {
                    &&& 0 <= i < spec.relations@.len()
                    &&& supplies(#[trigger] spec.relations@[i], schema, spec.row_count as nat)
                    &&& forall|j: int|
                        0 <= j < i ==> (#[trigger] spec.relations@[j]).key@ != schema.key@
                }
            &&& bound matches Ok(relation) ==> exists|i: int|
                {
                    let batch = #[trigger] spec.relations@[i];
                    &&& 0 <= i < spec.relations@.len()
                    &&& batch.key@ == schema.key@
                    &&& relation.offsets == batch.offsets@
                    &&& relation.related_count == batch.offsets@.last()
                    &&& relation.inputs == columns_named(batch.inputs@, schema.related_inputs@)
                }
        }),
{
    let bound = bound_relation(root, schema, spec);
    first_batch(spec.relations@, schema.key@, 0);
    if let Some(batch) = relation_batch_from(spec.relations@, schema.key@, 0) {
        let i = choose|i: int|
            0 <= i < spec.relations@.len() && batch == #[trigger] spec.relations@[i] && batch.key@
                == schema.key@ && forall|j: int|
                0 <= j < i ==> (#[trigger] spec.relations@[j]).key@ != schema.key@;
        let offsets = batch.offsets@;
        let rows = spec.row_count as nat;
        if offsets.len() == rows + 1 {
            related_lengths(
                schema.related_inputs@,
                schema.key.name@,
                batch.inputs@,
                offsets[offsets.len() - 1] as nat,
                schema.related_inputs@.len(),
            );
            if non_decreasing(offsets) {
                assert forall|a: int, b: int| 0 <= a <= b < offsets.len() implies
                    #[trigger] offsets[a] <= #[trigger] offsets[b] by {
                    offsets_rise(offsets, a, b);
                }
            } else {
                let a = choose|a: int|
                    #![trigger offsets[a]]
                    0 <= a < offsets.len() - 1 && !(offsets[a] <= offsets[a + 1]);
                assert(!supplies(batch, schema, rows));
            }
        }
        assert(bound is Ok <==> supplies(spec.relations@[i], schema, rows));
        if exists|k: int|
            {
                &&& 0 <= k < spec.relations@.len()
                &&& supplies(#[trigger] spec.relations@[k], schema, rows)
                &&& forall|j: int| 0 <= j < k ==> (#[trigger] spec.relations@[j]).key@ != schema.key@
            } {
            let k = choose|k: int|
                {
                    &&& 0 <= k < spec.relations@.len()
                    &&& supplies(#[trigger] spec.relations@[k], schema, rows)
                    &&& forall|j: int|
                        0 <= j < k ==> (#[trigger] spec.relations@[j]).key@ != schema.key@
                };
            assert(k == i);
        }
    }
}

proof fn relations_bound(p: DenseCompiledProgram, spec: DenseBatchSpec, n: nat)
    requires
        n <= p.relations@.len(),
    ensures
        match bound_relations(p, spec, n) {
            Ok(list) => list.len() == n && forall|i: int|
                0 <= i < n ==> bound_relation(p.root_entity@, #[trigger] p.relations@[i], spec)
                    == Ok::<RelationBatchView, ErrorView>(list[i]),
            Err(error) => exists|i: int|
                0 <= i < n && bound_relation(p.root_entity@, #[trigger] p.relations@[i], spec)
                    == Err::<RelationBatchView, ErrorView>(error),
        },
    decreases n,
{
    if n > 0 {
        relations_bound(p, spec, (n - 1) as nat);
        match bound_relations(p, spec, (n - 1) as nat) {
            Ok(before) => {
                let last = bound_relation(p.root_entity@, p.relations@[n - 1], spec);
                if let Err(error) = last {
                    assert(bound_relation(p.root_entity@, p.relations@[n - 1], spec) == Err::<
                        RelationBatchView,
                        ErrorView,
                    >(error));
                }
            },
            Err(_) => {},
        }
    }
}

/// A batch is bound exactly where every column of it has a value for each row and the rows of every
/// relation of the program are bound. What is bound are its rows, for each input that the program
/// reads the column of that name, and the relations in their order.
pub proof fn a_batch_is_bound_where_its_columns_fit(p: DenseCompiledProgram, spec: DenseBatchSpec)
    ensures
        ({
            let bound = bound_batch(p, spec);
            &&& bound is Ok <==> {
                &&& forall|i: int|
                    0 <= i < spec.inputs@.len() ==> (#[trigger] spec.inputs@[i]).column.rows()
                        == spec.row_count
                &&& forall|i: int|
                    0 <= i < p.relations@.len() ==> bound_relation(
                        p.root_entity@,
                        #[trigger] p.relations@[i],
                        spec,
                    ) is Ok
            }
            &&& bound matches Ok(batch) ==> {
                &&& batch.row_count == spec.row_count
                &&& batch.inputs == columns_named(spec.inputs@, p.root_inputs@)
                &&& batch.relations.len() == p.relations@.len()
                &&& forall|i: int|
                    0 <= i < p.relations@.len() ==> bound_relation(
                        p.root_entity@,
                        #[trigger] p.relations@[i],
                        spec,
                    ) == Ok::<RelationBatchView, ErrorView>(batch.relations[i])
            }
        }),
{
    root_lengths(spec, spec.inputs@.len());
    relations_bound(p, spec, p.relations@.len());
}

/// The column of an input is the first that is supplied under its name; an input for which none is
/// supplied has none.
pub proof fn a_column_is_found_by_its_name(inputs: Seq<NamedColumn>, name: Seq<char>)
    ensures
        match item_named(inputs, name) {
            Some(c) => column_named(inputs, name) == Some(c.column) && exists|i: int|
                0 <= i < inputs.len() && c == #[trigger] inputs[i] && c.name@ == name && forall|j: int|
                    0 <= j < i ==> (#[trigger] inputs[j]).name@ != name,
            None => column_named(inputs, name) is None && forall|i: int|
                0 <= i < inputs.len() ==> (#[trigger] inputs[i]).name@ != name,
        },
{
    position_from_meaning(inputs, name, 0);
    if let Some(c) = item_named(inputs, name) {
        let i = crate::model::position_of(inputs, name)->0;
        assert(c == inputs[i as int]);
        assert forall|j: int| 0 <= j < i implies (#[trigger] inputs[j]).name@ != name by {
            assert(crate::model::Named::label_of(&inputs[j]) != name);
        }
    } else {
        assert forall|j: int| 0 <= j < inputs.len() implies (#[trigger] inputs[j]).name@ != name by {
            assert(crate::model::Named::label_of(&inputs[j]) != name);
        }
    }
}

proof fn unknown_is(p: DenseCompiledProgram, outputs: Seq<String>, n: nat)
    requires
        n <= outputs.len(),
    ensures
        match unknown_output(p, outputs, n) {
            Some(name) => exists|j: int|
                0 <= j < n && (#[trigger] outputs[j])@ == name && crate::batch::requested_rule(
                    p,
                    name,
                ) is None,
            None => forall|j: int|
                0 <= j < n ==> crate::batch::requested_rule(p, (#[trigger] outputs[j])@) is Some,
        },
    decreases n,
{
    if n > 0 {
        unknown_is(p, outputs, (n - 1) as nat);
        if unknown_output(p, outputs, (n - 1) as nat) is None {
            assert(outputs[n - 1]@ == outputs[n - 1]@);
        }
    }
}

/// Outputs are refused exactly where one of them is no rule of the compiled program.
pub proof fn unknown_outputs_are_refused(p: DenseCompiledProgram, outputs: Seq<String>)
    ensures
        match unknown_output(p, outputs, outputs.len()) {
            Some(name) => exists|j: int|
                0 <= j < outputs.len() && (#[trigger] outputs[j])@ == name && forall|i: int|
                    0 <= i < p.derived@.len() ==> (#[trigger] p.derived@[i]).name@ != name,
            None => forall|j: int|
                0 <= j < outputs.len() ==> exists|i: int|
                    0 <= i < p.derived@.len() && (#[trigger] p.derived@[i]).name@ == (
                    #[trigger] outputs[j])@,
        },
{
    unknown_is(p, outputs, outputs.len());
    assert forall|name: Seq<char>| #[trigger]
        crate::batch::requested_rule(p, name) is None <==> forall|i: int|
            0 <= i < p.derived@.len() ==> (#[trigger] p.derived@[i]).name@ != name by {
        position_from_meaning(p.derived@, name, 0);
        if crate::batch::requested_rule(p, name) is None {
            assert forall|i: int| 0 <= i < p.derived@.len() implies (
            #[trigger] p.derived@[i]).name@ != name by {
                assert(crate::model::Named::label_of(&p.derived@[i]) != name);
            }
        }
    }
}

/// In a period, a requested rule is the one of that name; where it commences after the first day of
/// the period, each row fails for want of a formula on that day.
pub proof fn a_rule_has_no_value_before_it_commences(
    p: DenseCompiledProgram,
    period: Period,
    batch: BatchView,
    outputs: Seq<String>,
    j: int,
    row: int,
)
    requires
        requested_rule(p, outputs[j]@) is Some,
    ensures
        ({
            let i = requested_rule(p, outputs[j]@)->Some_0 as int;
            let d = p.derived@[i];
            &&& 0 <= i < p.derived@.len() && d.name@ == outputs[j]@
            &&& d.effective_from matches Some(from) ==> period.start.number() < from.number()
                ==> requested_value(period_facts(p, period, batch), outputs, j, row).failure()
                == Some(
                ErrorView::MissingDerivedFormulaVersion {
                    derived: outputs[j]@,
                    at: period.start,
                },
            )
        }),
{
    position_from_meaning(p.derived@, outputs[j]@, 0);
}

/// The outputs of a batch are listed once under the name of each rule that is requested, and of no
/// other; what is listed has, on each row, what the rule gives there.
pub proof fn an_output_has_the_values_of_its_rule(
    listed: Seq<DenseOutput>,
    outputs: Seq<String>,
    rows: nat,
    f: spec_fn(int, int) -> RuleValue,
    j: int,
)
    requires
        outputs_are(listed, outputs, rows, f),
        0 <= j < outputs.len(),
    ensures
        exists|k: int|
            0 <= k < listed.len() && (#[trigger] listed[k]).name@ == outputs[j]@ && (forall|row: int|
                0 <= row < rows ==> match listed[k].value {
                    DenseOutputValue::Scalar(column) => #[trigger] f(j, row) == RuleValue::Scalar(
                        Ok(column.cell(row)),
                    ),
                    DenseOutputValue::Judgment(outcomes) => f(j, row) == RuleValue::Judgment(
                        Ok(outcomes@[row]),
                    ),
                }) && forall|other: int|
                0 <= other < listed.len() && other != k ==> (#[trigger] listed[other]).name@
                    != outputs[j]@,
        forall|k: int|
            0 <= k < listed.len() ==> exists|i: int|
                0 <= i < outputs.len() && (#[trigger] outputs[i])@ == (#[trigger] listed[k]).name@,
{
    assert(is_listed(listed, outputs, rows, f, j));
    let k = choose|k: int|
        0 <= k < listed.len() && (#[trigger] listed[k]).name@ == outputs[j]@
            && listed[k].value.gives(rows, f, j);
    assert(listed[k].value.gives(rows, f, j));
    assert forall|other: int| 0 <= other < listed.len() && other != k implies (
    #[trigger] listed[other]).name@ != outputs[j]@ by {
        if other < k {
            assert(listed[other].name@ != listed[k].name@);
        } else {
            assert(listed[k].name@ != listed[other].name@);
        }
    }
    assert forall|k: int| 0 <= k < listed.len() implies exists|i: int|
        0 <= i < outputs.len() && (#[trigger] outputs[i])@ == (#[trigger] listed[k]).name@ by {
        assert(is_requested(outputs, listed[k].name@, 0));
    }
}

} // verus!
