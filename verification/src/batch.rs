//! Binding of input batches to compiled programs, and per-period execution.
use crate::column::{differ, DenseColumn};
use crate::date::Date;
use crate::dense::{
    column_view, rule_cell, rule_outcome, supplied_view, supplied_views, BatchView, ColumnView,
    CompiledDerived, CompiledSemantics, DenseBoundBatch, DenseCompiledProgram, DenseFacts,
    DenseRelationBatch, DenseRelationKey, DenseRelationSchema, RelationBatchView, RelationKeyView,
};
use crate::error::{ErrorView, EvalError};
use crate::executor::{group_rows, grouped, DenseExecutor};
use crate::kinds::{mixed_branches, rule_kind, rule_typed};
use crate::lazy::{RowErrors, RowMask};
use crate::mixing::{all_rows, fresh, rows_of, rule_judgment_work, rule_work, Worked};
use crate::model::{find_index, find_named, item_named, position_of, JudgmentOutcome, Named, Period, ScalarValue};
use crate::text::{int_text, owned, usize_text};
use vstd::prelude::*;
use vstd::string::*;

verus! {

/// A column with the name of the input that it supplies.
#[derive(Debug)]
pub struct NamedColumn {
    pub name: String,
    pub column: DenseColumn,
}

impl Named for NamedColumn {
    open spec fn label_of(&self) -> Seq<char> {
        self.name@
    }

    fn name_of(&self) -> (r: &str) {
        self.name.as_str()
    }
}

impl Named for CompiledDerived {
    open spec fn label_of(&self) -> Seq<char> {
        self.name@
    }

    fn name_of(&self) -> (r: &str) {
        self.name.as_str()
    }
}

/// The related rows that a caller supplies for a relation. Of two columns with one
/// name the first counts.
#[derive(Debug)]
pub struct DenseRelationBatchSpec {
    pub key: DenseRelationKey,
    pub offsets: Vec<usize>,
    pub inputs: Vec<NamedColumn>,
}

/// The rows that a caller supplies. Of two columns with one name, and of two
/// batches for one relation, the first counts.
#[derive(Debug)]
pub struct DenseBatchSpec {
    pub row_count: usize,
    pub inputs: Vec<NamedColumn>,
    pub relations: Vec<DenseRelationBatchSpec>,
}

/// The supplied column of an input.
pub open spec fn column_named(inputs: Seq<NamedColumn>, name: Seq<char>) -> Option<DenseColumn> {
    match item_named(inputs, name) {
        Some(c) => Some(c.column),
        None => None,
    }
}

/// The supplied columns of the first `n` inputs.
pub open spec fn columns_named(inputs: Seq<NamedColumn>, names: Seq<String>) -> Seq<
    Option<ColumnView>,
> {
    Seq::new(names.len(), |i: int| supplied_view(column_named(inputs, names[i]@)))
}

/// The batch of a relation among the first `n`.
pub open spec fn relation_batch_from(
    relations: Seq<DenseRelationBatchSpec>,
    key: RelationKeyView,
    from: nat,
) -> Option<DenseRelationBatchSpec>
    decreases relations.len() - from,
{
    if from >= relations.len() {
        None
    } else if relations[from as int].key@ == key {
        Some(relations[from as int])
    } else {
        relation_batch_from(relations, key, from + 1)
    }
}

/// The error of the first root input among the first `n` whose column has the
/// wrong length.
pub open spec fn root_length_error(spec: DenseBatchSpec, n: nat) -> Option<ErrorView>
    decreases n,
{
    if n == 0 || n > spec.inputs@.len() {
        None
    } else {
        match root_length_error(spec, (n - 1) as nat) {
            Some(error) => Some(error),
            None => {
                let input = spec.inputs@[n - 1];
                if input.column.rows() != spec.row_count {
                    Some(
                        ErrorView::TypeMismatch(
                            "dense root input `"@ + input.name@ + "` has length "@ + int_text(
                                input.column.rows() as int,
                            ) + " but row_count is "@ + int_text(spec.row_count as int),
                        ),
                    )
                } else {
                    None
                }
            },
        }
    }
}

/// The error of the first input of a relation among the first `n` whose column has
/// the wrong length.
pub open spec fn related_length_error(
    names: Seq<String>,
    relation: Seq<char>,
    inputs: Seq<NamedColumn>,
    count: nat,
    n: nat,
) -> Option<ErrorView>
    decreases n,
{
    if n == 0 || n > names.len() {
        None
    } else {
        match related_length_error(names, relation, inputs, count, (n - 1) as nat) {
            Some(error) => Some(error),
            None => match column_named(inputs, names[n - 1]@) {
                Some(column) if column.rows() != count => Some(
                    ErrorView::TypeMismatch(
                        "dense relation input `"@ + names[n - 1]@ + "` for `"@ + relation
                            + "` has length "@ + int_text(column.rows() as int)
                            + " but related row count is "@ + int_text(count as int),
                    ),
                ),
                _ => None,
            },
        }
    }
}

/// How an unknown relation is named.
pub open spec fn relation_label(key: RelationKeyView, root_entity: Seq<char>) -> Seq<char> {
    key.name + "::"@ + int_text(key.current_slot as int) + "/"@ + int_text(key.related_slot as int)
        + "/"@ + root_entity
}

/// Whether offsets do not decrease.
pub open spec fn non_decreasing(offsets: Seq<usize>) -> bool {
    forall|i: int| #![trigger offsets[i]] 0 <= i < offsets.len() - 1 ==> offsets[i] <= offsets[i + 1]
}

/// The rows of a relation, or the error of what is supplied for it.
pub open spec fn bound_relation(
    root_entity: Seq<char>,
    schema: DenseRelationSchema,
    spec: DenseBatchSpec,
) -> Result<RelationBatchView, ErrorView> {
    let name = schema.key.name@;
    match relation_batch_from(spec.relations@, schema.key@, 0) {
        None => Err(ErrorView::UnknownRelation(relation_label(schema.key@, root_entity))),
        Some(batch) => {
            let offsets = batch.offsets@;
            if offsets.len() != spec.row_count + 1 {
                Err(
                    ErrorView::TypeMismatch(
                        "dense relation `"@ + name + "` offsets must have length "@ + int_text(
                            spec.row_count + 1,
                        ),
                    ),
                )
            } else if offsets[0] != 0 {
                Err(
                    ErrorView::TypeMismatch(
                        "dense relation `"@ + name + "` offsets must start at 0"@,
                    ),
                )
            } else if !non_decreasing(offsets) {
                Err(
                    ErrorView::TypeMismatch(
                        "dense relation `"@ + name + "` offsets must be non-decreasing"@,
                    ),
                )
            } else {
                let count = offsets[offsets.len() - 1] as nat;
                match related_length_error(
                    schema.related_inputs@,
                    name,
                    batch.inputs@,
                    count,
                    schema.related_inputs@.len(),
                ) {
                    Some(error) => Err(error),
                    None => Ok(
                        RelationBatchView {
                            offsets,
                            related_count: count,
                            inputs: columns_named(batch.inputs@, schema.related_inputs@),
                        },
                    ),
                }
            }
        },
    }
}

/// The rows of the first `n` relations, or the first error.
pub open spec fn bound_relations(p: DenseCompiledProgram, spec: DenseBatchSpec, n: nat) -> Result<
    Seq<RelationBatchView>,
    ErrorView,
>
    decreases n,
{
    if n == 0 || n > p.relations@.len() {
        Ok(Seq::empty())
    } else {
        match bound_relations(p, spec, (n - 1) as nat) {
            Err(error) => Err(error),
            Ok(before) => match bound_relation(p.root_entity@, p.relations@[n - 1], spec) {
                Err(error) => Err(error),
                Ok(relation) => Ok(before.push(relation)),
            },
        }
    }
}

/// The columns that a program reads of what is supplied, or the error of it.
pub open spec fn bound_batch(p: DenseCompiledProgram, spec: DenseBatchSpec) -> Result<
    BatchView,
    ErrorView,
> {
    match root_length_error(spec, spec.inputs@.len()) {
        Some(error) => Err(error),
        None => match bound_relations(p, spec, p.relations@.len()) {
            Err(error) => Err(error),
            Ok(relations) => Ok(
                BatchView {
                    row_count: spec.row_count as nat,
                    inputs: columns_named(spec.inputs@, p.root_inputs@),
                    relations,
                },
            ),
        },
    }
}

proof fn bound_relations_each(p: DenseCompiledProgram, spec: DenseBatchSpec, n: nat)
    requires
        n <= p.relations@.len(),
    ensures
        bound_relations(p, spec, n) matches Ok(relations) ==> relations.len() == n && forall|i: int|
            #![trigger relations[i]]
            0 <= i < n ==> bound_relation(p.root_entity@, p.relations@[i], spec) == Ok::<
                RelationBatchView,
                ErrorView,
            >(relations[i]),
    decreases n,
{
    if n > 0 {
        bound_relations_each(p, spec, (n - 1) as nat);
    }
}

proof fn bound_relations_error(p: DenseCompiledProgram, spec: DenseBatchSpec, m: nat, n: nat)
    requires
        m <= n <= p.relations@.len(),
        bound_relations(p, spec, m) is Err,
    ensures
        bound_relations(p, spec, n) == bound_relations(p, spec, m),
    decreases n,
{
    if m < n {
        bound_relations_error(p, spec, m, (n - 1) as nat);
    }
}

proof fn root_length_error_kept(spec: DenseBatchSpec, m: nat, n: nat)
    requires
        m <= n <= spec.inputs@.len(),
    ensures
        root_length_error(spec, m) is Some ==> root_length_error(spec, n) == root_length_error(
            spec,
            m,
        ),
        root_length_error(spec, n) is None ==> forall|i: int|
            0 <= i < n ==> (#[trigger] spec.inputs@[i]).column.rows() == spec.row_count,
    decreases n,
{
    if n > 0 {
        root_length_error_kept(
            spec,
            if m < n {
                m
            } else {
                (n - 1) as nat
            },
            (n - 1) as nat,
        );
    }
}

proof fn related_length_error_kept(
    names: Seq<String>,
    relation: Seq<char>,
    inputs: Seq<NamedColumn>,
    count: nat,
    m: nat,
    n: nat,
)
    requires
        m <= n <= names.len(),
    ensures
        related_length_error(names, relation, inputs, count, m) is Some ==> related_length_error(
            names,
            relation,
            inputs,
            count,
            n,
        ) == related_length_error(names, relation, inputs, count, m),
        related_length_error(names, relation, inputs, count, n) is None ==> forall|i: int|
            0 <= i < n ==> (column_named(inputs, (#[trigger] names[i])@) matches Some(c)
                ==> c.rows() == count),
    decreases n,
{
    if n > 0 {
        related_length_error_kept(
            names,
            relation,
            inputs,
            count,
            if m < n {
                m
            } else {
                (n - 1) as nat
            },
            (n - 1) as nat,
        );
    }
}

/// Steps that do not decrease make a list that does not decrease.
proof fn non_decreasing_apart(offsets: Seq<usize>, i: int, j: int)
    requires
        non_decreasing(offsets),
        0 <= i <= j < offsets.len(),
    ensures
        offsets[i] <= offsets[j],
    decreases j - i,
{
    if i < j {
        non_decreasing_apart(offsets, i, j - 1);
        assert(offsets[j - 1] <= offsets[j - 1 + 1]);
    }
}

/// What binds to a well-formed program fits it.
pub proof fn bound_batch_fits(
    p: DenseCompiledProgram,
    spec: DenseBatchSpec,
    start: Date,
    end: Date,
    enforce_commencement: bool,
)
    requires
        p.well_formed(),
        spec.row_count < usize::MAX,
    ensures
        bound_batch(p, spec) matches Ok(batch) ==> (DenseFacts {
            program: p,
            start,
            end,
            batch,
            enforce_commencement,
        }).bound_well(),
{
    if let Ok(batch) = bound_batch(p, spec) {
        root_length_error_kept(spec, 0, spec.inputs@.len());
        bound_relations_each(p, spec, p.relations@.len());
        assert forall|i: int| #![trigger batch.inputs[i]] 0 <= i < batch.inputs.len() implies (
        batch.inputs[i] matches Some(c) ==> c.rows() == batch.row_count) by {
            crate::model::position_from_meaning(spec.inputs@, p.root_inputs@[i]@, 0);
        }
        assert forall|i: int| #![trigger batch.relations[i]]
            0 <= i < batch.relations.len() implies {
            &&& batch.relations[i].well_formed(batch.row_count)
            &&& batch.relations[i].inputs.len() == p.relations@[i].related_inputs@.len()
            &&& forall|j: int| #![trigger batch.relations[i].inputs[j]]
                0 <= j < batch.relations[i].inputs.len() ==> (batch.relations[i].inputs[j] matches
                    Some(c) ==> c.rows() == batch.relations[i].related_count)
            &&& p.relations@[i].parent_relation matches Some(parent) ==> {
                &&& batch.relations[parent as int].related_count
                    == batch.relations[i].related_count
                &&& batch.relations[parent as int].offsets == batch.relations[i].offsets
            }
        } by {
            let schema = p.relations@[i];
            assert(bound_relation(p.root_entity@, schema, spec) == Ok::<
                RelationBatchView,
                ErrorView,
            >(batch.relations[i]));
            let supplied = relation_batch_from(spec.relations@, schema.key@, 0)->Some_0;
            assert forall|a: int, b: int| 0 <= a <= b < supplied.offsets@.len() implies
                #[trigger] supplied.offsets@[a] <= #[trigger] supplied.offsets@[b] by {
                non_decreasing_apart(supplied.offsets@, a, b);
            }
            related_length_error_kept(
                schema.related_inputs@,
                schema.key.name@,
                supplied.inputs@,
                batch.relations[i].related_count,
                0,
                schema.related_inputs@.len(),
            );
            if let Some(parent) = schema.parent_relation {
                assert(bound_relation(p.root_entity@, p.relations@[parent as int], spec) == Ok::<
                    RelationBatchView,
                    ErrorView,
                >(batch.relations[parent as int]));
            }
        }
    }
}

/// The supplied columns of inputs.
fn bind_columns(inputs: &Vec<NamedColumn>, names: &Vec<String>) -> (r: Vec<Option<DenseColumn>>)
    ensures
        supplied_views(r@) == columns_named(inputs@, names@),
{
    let mut r: Vec<Option<DenseColumn>> = Vec::new();
    let mut i: usize = 0;
    while i < names.len()
        invariant
            i <= names@.len(),
            r@.len() == i,
            forall|j: int|
                0 <= j < i ==> supplied_view(#[trigger] r@[j]) == supplied_view(
                    column_named(inputs@, names@[j]@),
                ),
        decreases names@.len() - i,
    {
        let column = match find_named(inputs, names[i].as_str()) {
            Some(input) => {
                let copy = input.column.duplicate();
                assert(column_view(copy).cells =~= column_view(input.column).cells);
                Some(copy)
            },
            None => None,
        };
        r.push(column);
        i = i + 1;
    }
    assert(supplied_views(r@) =~= columns_named(inputs@, names@));
    r
}

/// Whether offsets do not decrease.
fn is_non_decreasing(offsets: &Vec<usize>) -> (r: bool)
    ensures
        r == non_decreasing(offsets@),
{
    let mut i: usize = 1;
    while i < offsets.len()
        invariant
            1 <= i,
            i <= offsets@.len() || offsets@.len() == 0,
            forall|j: int| #![trigger offsets@[j]] 0 <= j < i - 1 && j < offsets@.len() - 1
                ==> offsets@[j] <= offsets@[j + 1],
        decreases offsets@.len() - i,
    {
        if offsets[i - 1] > offsets[i] {
            assert(offsets@[i - 1] > offsets@[i - 1 + 1]);
            return false;
        }
        i = i + 1;
    }
    true
}

fn relation_message(name: &str, rest: &str) -> (r: EvalError)
    ensures
        r@ == ErrorView::TypeMismatch("dense relation `"@ + name@ + rest@),
{
    let mut message = owned("dense relation `");
    message.append(name);
    message.append(rest);
    EvalError::TypeMismatch(message)
}

/// Binds what is supplied for a relation.
fn bind_relation(root_entity: &str, schema: &DenseRelationSchema, batch: &DenseBatchSpec) -> (r:
    Result<DenseRelationBatch, EvalError>)
    requires
        batch.row_count < usize::MAX,
    ensures
        match r {
            Ok(bound) => bound_relation(root_entity@, *schema, *batch) == Ok::<
                RelationBatchView,
                ErrorView,
            >(bound@) && bound.owners_known(batch.row_count as nat),
            Err(error) => bound_relation(root_entity@, *schema, *batch) == Err::<
                RelationBatchView,
                ErrorView,
            >(error@),
        },
{
    let mut found: Option<&DenseRelationBatchSpec> = None;
    let mut i: usize = 0;
    while i < batch.relations.len() && found.is_none()
        invariant
            i <= batch.relations@.len(),
            match found {
                Some(b) => relation_batch_from(batch.relations@, schema.key@, 0) == Some(*b),
                None => relation_batch_from(batch.relations@, schema.key@, 0)
                    == relation_batch_from(batch.relations@, schema.key@, i as nat),
            },
        decreases batch.relations@.len() - i,
    {
        if batch.relations[i].key.same_key(&schema.key) {
            found = Some(&batch.relations[i]);
        }
        i = i + 1;
    }
    let name = schema.key.name.as_str();
    let supplied = match found {
        Some(supplied) => supplied,
        None => {
            let mut label = owned(name);
            label.append("::");
            label.append(usize_text(schema.key.current_slot).as_str());
            label.append("/");
            label.append(usize_text(schema.key.related_slot).as_str());
            label.append("/");
            label.append(root_entity);
            return Err(EvalError::UnknownRelation(label));
        },
    };
    let offsets = &supplied.offsets;
    if offsets.len() != batch.row_count + 1 {
        let mut message = owned("dense relation `");
        message.append(name);
        message.append("` offsets must have length ");
        message.append(usize_text(batch.row_count + 1).as_str());
        return Err(EvalError::TypeMismatch(message));
    }
    if offsets[0] != 0 {
        return Err(relation_message(name, "` offsets must start at 0"));
    }
    if !is_non_decreasing(offsets) {
        return Err(relation_message(name, "` offsets must be non-decreasing"));
    }
    let related_count = offsets[offsets.len() - 1];
    let names = &schema.related_inputs;
    let mut i: usize = 0;
    while i < names.len()
        invariant
            i <= names@.len(),
            name@ == schema.key.name@,
            *names == schema.related_inputs,
            relation_batch_from(batch.relations@, schema.key@, 0) == Some(*supplied),
            *offsets == supplied.offsets,
            offsets@.len() == batch.row_count + 1,
            offsets@[0] == 0,
            non_decreasing(offsets@),
            related_count == offsets@[offsets@.len() - 1],
            related_length_error(
                names@,
                name@,
                supplied.inputs@,
                related_count as nat,
                i as nat,
            ) is None,
        decreases names@.len() - i,
    {
        if let Some(input) = find_named(&supplied.inputs, names[i].as_str()) {
            let len = input.column.len();
            if len != related_count {
                let mut message = owned("dense relation input `");
                message.append(names[i].as_str());
                message.append("` for `");
                message.append(name);
                message.append("` has length ");
                message.append(usize_text(len).as_str());
                message.append(" but related row count is ");
                message.append(usize_text(related_count).as_str());
                proof {
                    related_length_error_kept(
                        names@,
                        name@,
                        supplied.inputs@,
                        related_count as nat,
                        (i + 1) as nat,
                        names@.len(),
                    );
                }
                return Err(EvalError::TypeMismatch(message));
            }
        }
        i = i + 1;
    }
    let inputs = bind_columns(&supplied.inputs, names);
    proof {
        assert forall|a: int, b: int| 0 <= a <= b < offsets@.len() implies #[trigger] offsets@[a]
            <= #[trigger] offsets@[b] by {
            non_decreasing_apart(offsets@, a, b);
        }
    }
    let owners = group_rows(offsets);
    proof {
        assert forall|k: int| 0 <= k < related_count implies #[trigger] owners@[k]
            == crate::dense::group_of(offsets@, batch.row_count as nat, k) by {
            group_is(offsets@, batch.row_count as nat, owners@[k] as int, k);
        }
    }
    let offsets = crate::column::copied(offsets);
    Ok(DenseRelationBatch { offsets, related_count, owners, inputs })
}

/// The group that holds an item is its group.
proof fn group_is(offsets: Seq<usize>, n: nat, g: int, k: int)
    requires
        grouped(offsets),
        0 <= g < n < offsets.len(),
        offsets[g] <= k < offsets[g + 1],
    ensures
        crate::dense::group_of(offsets, n, k) == g,
    decreases n,
{
    if g < n - 1 {
        assert(offsets[g + 1] <= offsets[n - 1]);
        group_is(offsets, (n - 1) as nat, g, k);
    }
}

impl DenseCompiledProgram {
    /// Binds what a caller supplies to the program's tables. An input that is not
    /// supplied is missing on every row; it fails only the rows that read it.
    pub fn bind_batch(&self, batch: &DenseBatchSpec) -> (r: Result<
        DenseBoundBatch,
        EvalError,
    >)
        requires
            batch.row_count < usize::MAX,
        ensures
            match r {
                Ok(bound) => bound_batch(*self, *batch) == Ok::<BatchView, ErrorView>(bound@)
                    && bound.owners_known(),
                Err(error) => bound_batch(*self, *batch) == Err::<BatchView, ErrorView>(error@),
            },
    {
        let mut i: usize = 0;
        while i < batch.inputs.len()
            invariant
                i <= batch.inputs@.len(),
                root_length_error(*batch, i as nat) is None,
            decreases batch.inputs@.len() - i,
        {
            let input = &batch.inputs[i];
            let len = input.column.len();
            if len != batch.row_count {
                let mut message = owned("dense root input `");
                message.append(input.name.as_str());
                message.append("` has length ");
                message.append(usize_text(len).as_str());
                message.append(" but row_count is ");
                message.append(usize_text(batch.row_count).as_str());
                proof {
                    root_length_error_kept(*batch, (i + 1) as nat, batch.inputs@.len());
                }
                return Err(EvalError::TypeMismatch(message));
            }
            i = i + 1;
        }
        let inputs = bind_columns(&batch.inputs, &self.root_inputs);
        let mut relations: Vec<DenseRelationBatch> = Vec::new();
        assert(relations@.map_values(|r: DenseRelationBatch| r@) =~= Seq::empty());
        let mut i: usize = 0;
        while i < self.relations.len()
            invariant
                i <= self.relations@.len(),
                batch.row_count < usize::MAX,
                root_length_error(*batch, batch.inputs@.len()) is None,
                relations@.len() == i,
                bound_relations(*self, *batch, i as nat) == Ok::<
                    Seq<RelationBatchView>,
                    ErrorView,
                >(relations@.map_values(|r: DenseRelationBatch| r@)),
                forall|j: int|
                    0 <= j < relations@.len() ==> (#[trigger] relations@[j]).owners_known(
                        batch.row_count as nat,
                    ),
            decreases self.relations@.len() - i,
        {
            match bind_relation(self.root_entity.as_str(), &self.relations[i], batch) {
                Ok(relation) => {
                    let ghost before = relations@;
                    relations.push(relation);
                    proof {
                        assert(relations@.map_values(|r: DenseRelationBatch| r@)
                            =~= before.map_values(|r: DenseRelationBatch| r@).push(relation@));
                    }
                },
                Err(error) => {
                    proof {
                        bound_relations_error(
                            *self,
                            *batch,
                            (i + 1) as nat,
                            self.relations@.len(),
                        );
                    }
                    return Err(error);
                },
            }
            i = i + 1;
        }
        Ok(DenseBoundBatch { row_count: batch.row_count, inputs, relations })
    }
}

/// The values of a rule for every row.
#[derive(Debug)]
pub enum DenseOutputValue {
    Scalar(DenseColumn),
    Judgment(Vec<JudgmentOutcome>),
}

/// The values of a requested rule.
#[derive(Debug)]
pub struct DenseOutput {
    pub name: String,
    pub value: DenseOutputValue,
}

/// The values of the requested rules, each once.
#[derive(Debug)]
pub struct DenseExecutionResult {
    pub row_count: usize,
    pub outputs: Vec<DenseOutput>,
}

/// What a rule gives for a row.
pub ghost enum RuleValue {
    Scalar(Result<ScalarValue, ErrorView>),
    Judgment(Result<JudgmentOutcome, ErrorView>),
}

impl RuleValue {
    pub open spec fn failure(self) -> Option<ErrorView> {
        match self {
            RuleValue::Scalar(Err(error)) => Some(error),
            RuleValue::Judgment(Err(error)) => Some(error),
            _ => None,
        }
    }
}

impl DenseOutputValue {
    /// Whether the values are what `f` gives of rule `j` for each of `rows` rows.
    pub open spec fn gives(self, rows: nat, f: spec_fn(int, int) -> RuleValue, j: int) -> bool {
        match self {
            DenseOutputValue::Scalar(column) => column.rows() == rows && forall|row: int|
                #![trigger f(j, row)]
                0 <= row < rows ==> f(j, row) == RuleValue::Scalar(Ok(column.cell(row))),
            DenseOutputValue::Judgment(outcomes) => outcomes@.len() == rows && forall|row: int|
                #![trigger f(j, row)]
                0 <= row < rows ==> f(j, row) == RuleValue::Judgment(Ok(outcomes@[row])),
        }
    }

    /// Whether the errors, and the values of the rows without one, are what `f` gives
    /// of rule `j`.
    pub open spec fn agrees(
        self,
        errors: RowErrors,
        rows: nat,
        f: spec_fn(int, int) -> RuleValue,
        j: int,
    ) -> bool {
        &&& forall|row: int| #[trigger]
            errors.at(row) == if 0 <= row < rows {
                f(j, row).failure()
            } else {
                None
            }
        &&& match self {
            DenseOutputValue::Scalar(column) => column.rows() == rows && forall|row: int|
                #![trigger f(j, row)]
                0 <= row < rows && f(j, row).failure() is None ==> f(j, row) == RuleValue::Scalar(
                    Ok(column.cell(row)),
                ),
            DenseOutputValue::Judgment(outcomes) => outcomes@.len() == rows && forall|row: int|
                #![trigger f(j, row)]
                0 <= row < rows && f(j, row).failure() is None ==> f(j, row)
                    == RuleValue::Judgment(Ok(outcomes@[row])),
        }
    }
}

/// Whether `f` gives the same of two rules.
pub open spec fn same_values(f: spec_fn(int, int) -> RuleValue, i: int, j: int) -> bool {
    forall|row: int| #[trigger] f(i, row) == f(j, row)
}

/// The error of the first of `n` requested rules that fails for a row.
pub open spec fn requested_failure(
    f: spec_fn(int, int) -> RuleValue,
    n: nat,
    row: int,
) -> Option<ErrorView>
    decreases n,
{
    if n == 0 {
        None
    } else {
        match requested_failure(f, (n - 1) as nat, row) {
            Some(error) => Some(error),
            None => f(n - 1, row).failure(),
        }
    }
}

/// The error of a request: that of the lowest failing row, and for that row of the
/// first failing rule in the order of the request.
pub open spec fn request_failure(
    f: spec_fn(int, int) -> RuleValue,
    n: nat,
    rows: nat,
) -> Option<ErrorView>
    decreases rows,
{
    if rows == 0 {
        None
    } else {
        match request_failure(f, n, (rows - 1) as nat) {
            Some(error) => Some(error),
            None => requested_failure(f, n, rows - 1),
        }
    }
}

proof fn requested_failure_first(
    f: spec_fn(int, int) -> RuleValue,
    n: nat,
    row: int,
    first: int,
)
    requires
        0 <= first < n,
        f(first, row).failure() is Some,
        forall|j: int| 0 <= j < first ==> (#[trigger] f(j, row)).failure() is None,
    ensures
        requested_failure(f, n, row) == f(first, row).failure(),
    decreases n,
{
    if first < n - 1 {
        requested_failure_first(f, (n - 1) as nat, row, first);
    } else {
        no_requested_failure(f, first as nat, row);
    }
}

proof fn no_requested_failure(f: spec_fn(int, int) -> RuleValue, n: nat, row: int)
    requires
        forall|j: int| 0 <= j < n ==> (#[trigger] f(j, row)).failure() is None,
    ensures
        requested_failure(f, n, row) is None,
    decreases n,
{
    if n > 0 {
        no_requested_failure(f, (n - 1) as nat, row);
    }
}

proof fn request_failure_first(
    f: spec_fn(int, int) -> RuleValue,
    n: nat,
    rows: nat,
    row: nat,
)
    requires
        row < rows,
        requested_failure(f, n, row as int) is Some,
        forall|r: int| 0 <= r < row ==> #[trigger] requested_failure(f, n, r) is None,
    ensures
        request_failure(f, n, rows) == requested_failure(f, n, row as int),
    decreases rows,
{
    if row < rows - 1 {
        request_failure_first(f, n, (rows - 1) as nat, row);
    } else {
        no_request_failure(f, n, row);
    }
}

proof fn no_request_failure(f: spec_fn(int, int) -> RuleValue, n: nat, rows: nat)
    requires
        forall|r: int| 0 <= r < rows ==> #[trigger] requested_failure(f, n, r) is None,
    ensures
        request_failure(f, n, rows) is None,
    decreases rows,
{
    if rows > 0 {
        no_request_failure(f, n, (rows - 1) as nat);
    }
}

/// A request without an error has none for any rule and row.
proof fn request_failure_covers(f: spec_fn(int, int) -> RuleValue, n: nat, rows: nat, j: int, row: int)
    requires
        request_failure(f, n, rows) is None,
        0 <= j < n,
        0 <= row < rows,
    ensures
        f(j, row).failure() is None,
    decreases rows,
{
    if row < rows - 1 {
        request_failure_covers(f, n, (rows - 1) as nat, j, row);
    } else if f(j, row).failure() is Some {
        requested_failure_covers(f, n, j, row);
    }
}

proof fn requested_failure_covers(f: spec_fn(int, int) -> RuleValue, n: nat, j: int, row: int)
    requires
        0 <= j < n,
        f(j, row).failure() is Some,
    ensures
        requested_failure(f, n, row) is Some,
    decreases n,
{
    if j < n - 1 {
        requested_failure_covers(f, (n - 1) as nat, j, row);
    }
}

/// The error of a request: the lowest failing row, and for that row the first
/// failing rule in the order of the request.
pub(crate) fn first_row_error(
    outputs: &Vec<(DenseOutputValue, RowErrors)>,
    Ghost(f): Ghost<spec_fn(int, int) -> RuleValue>,
    Ghost(rows): Ghost<nat>,
) -> (r: Result<(), EvalError>)
    requires
        forall|j: int| #![trigger outputs@[j]]
            0 <= j < outputs@.len() ==> outputs@[j].0.agrees(
                outputs@[j].1,
                rows,
                f,
                j,
            ),
    ensures
        request_failure(f, outputs@.len(), rows) == match r {
            Ok(_) => None,
            Err(error) => Some(error@),
        },
{
    let mut best: Option<(usize, usize)> = None;
    let mut j: usize = 0;
    while j < outputs.len()
        invariant
            j <= outputs@.len(),
            forall|j: int| #![trigger outputs@[j]]
                0 <= j < outputs@.len() ==> outputs@[j].0.agrees(
                    outputs@[j].1,
                    rows,
                    f,
                    j,
                ),
            match best {
                None => forall|i: int, row: int|
                    0 <= i < j && 0 <= row < rows ==> (#[trigger] f(i, row)).failure() is None,
                Some((row, first)) => {
                    &&& 0 <= row < rows
                    &&& first < j
                    &&& f(first as int, row as int).failure() is Some
                    &&& forall|i: int|
                        0 <= i < first ==> (#[trigger] f(i, row as int)).failure() is None
                    &&& forall|i: int, r: int|
                        0 <= i < j && 0 <= r < row ==> (#[trigger] f(i, r)).failure() is None
                },
            },
        decreases outputs@.len() - j,
    {
        let errors = &outputs[j].1;
        assert(outputs@[j as int].0.agrees(*errors, rows, f, j as int));
        assert forall|row: int| 0 <= row < rows implies #[trigger] f(j as int, row).failure()
            == errors.at(row) by {}
        match errors.first() {
            Some((row, _)) => {
                assert(errors.at(row as int) is Some);
                proof {
                    assert forall|r: int| 0 <= r < row && r < rows implies #[trigger] f(
                        j as int,
                        r,
                    ).failure() is None by {
                        if errors.failed(r) {
                            assert(row <= r);
                        }
                    }
                }
                let better = match best {
                    Some((lowest, _)) => row < lowest,
                    None => true,
                };
                if better {
                    best = Some((row, j));
                }
            },
            None => {
                proof {
                    assert forall|r: int| 0 <= r < rows implies #[trigger] f(
                        j as int,
                        r,
                    ).failure() is None by {
                        assert(!errors.failed(r));
                    }
                }
            },
        }
        j = j + 1;
    }
    match best {
        None => {
            proof {
                assert forall|r: int| 0 <= r < rows implies #[trigger] requested_failure(
                    f,
                    outputs@.len(),
                    r,
                ) is None by {
                    no_requested_failure(f, outputs@.len(), r);
                }
                no_request_failure(f, outputs@.len(), rows);
            }
            Ok(())
        },
        Some((row, first)) => {
            let errors = &outputs[first].1;
            assert(outputs@[first as int].0.agrees(*errors, rows, f, first as int));
            assert(errors.at(row as int) == f(first as int, row as int).failure());
            proof {
                requested_failure_first(f, outputs@.len(), row as int, first as int);
                assert forall|r: int| 0 <= r < row implies #[trigger] requested_failure(
                    f,
                    outputs@.len(),
                    r,
                ) is None by {
                    no_requested_failure(f, outputs@.len(), r);
                }
                request_failure_first(f, outputs@.len(), rows, row as nat);
            }
            match errors.get(row) {
                Some(error) => Err(error.duplicate()),
                None => Ok(()),
            }
        },
    }
}

/// Whether request `j` is listed with the values that `f` gives.
pub open spec fn is_listed(
    listed: Seq<DenseOutput>,
    outputs: Seq<String>,
    rows: nat,
    f: spec_fn(int, int) -> RuleValue,
    j: int,
) -> bool {
    exists|k: int|
        0 <= k < listed.len() && (#[trigger] listed[k]).name@ == outputs[j]@
            && listed[k].value.gives(rows, f, j)
}

/// Whether a name is requested, from request `from` on.
pub open spec fn is_requested(outputs: Seq<String>, name: Seq<char>, from: int) -> bool {
    exists|j: int| from <= j < outputs.len() && (#[trigger] outputs[j])@ == name
}

/// Whether the listed outputs are the requested ones, each once, with the values
/// that `f` gives.
pub open spec fn outputs_are(
    listed: Seq<DenseOutput>,
    outputs: Seq<String>,
    rows: nat,
    f: spec_fn(int, int) -> RuleValue,
) -> bool {
    &&& forall|a: int, b: int|
        0 <= a < b < listed.len() ==> (#[trigger] listed[a]).name@ != (#[trigger] listed[b]).name@
    &&& forall|j: int|
        0 <= j < outputs.len() ==> #[trigger] is_listed(listed, outputs, rows, f, j)
    &&& forall|k: int|
        0 <= k < listed.len() ==> #[trigger] is_requested(outputs, listed[k].name@, 0)
}

/// A result holds no two values of a rule with dtypes that do not combine: a request of a rule
/// that gives two rows such values has no result.
pub proof fn one_dtype_per_output(
    listed: Seq<DenseOutput>,
    outputs: Seq<String>,
    rows: nat,
    f: spec_fn(int, int) -> RuleValue,
    j: int,
    r: int,
    s: int,
)
    requires
        outputs_are(listed, outputs, rows, f),
        0 <= j < outputs.len(),
        0 <= r < rows,
        0 <= s < rows,
    ensures
        f(j, r) matches RuleValue::Scalar(a) ==> (f(j, s) matches RuleValue::Scalar(b) ==> !differ(
            a,
            b,
        )),
{
    assert(is_listed(listed, outputs, rows, f, j));
    let k = choose|k: int|
        0 <= k < listed.len() && (#[trigger] listed[k]).name@ == outputs[j]@
            && listed[k].value.gives(rows, f, j);
    assert(listed[k].value.gives(rows, f, j));
    if let DenseOutputValue::Scalar(column) = listed[k].value {
        assert(f(j, r) == RuleValue::Scalar(Ok(column.cell(r))));
        assert(f(j, s) == RuleValue::Scalar(Ok(column.cell(s))));
    }
}

impl Named for DenseOutput {
    open spec fn label_of(&self) -> Seq<char> {
        self.name@
    }

    fn name_of(&self) -> (r: &str) {
        self.name.as_str()
    }
}

/// Lists the outputs of a request that did not fail.
pub(crate) fn listed_outputs(
    evaluated: Vec<(DenseOutputValue, RowErrors)>,
    outputs: &Vec<String>,
    Ghost(f): Ghost<spec_fn(int, int) -> RuleValue>,
    Ghost(rows): Ghost<nat>,
) -> (r: Vec<DenseOutput>)
    requires
        evaluated@.len() == outputs@.len(),
        forall|j: int| #![trigger evaluated@[j]]
            0 <= j < evaluated@.len() ==> evaluated@[j].0.agrees(
                evaluated@[j].1,
                rows,
                f,
                j,
            ),
        request_failure(f, outputs@.len(), rows) is None,
        forall|i: int, j: int| #![trigger outputs@[i], outputs@[j]]
            0 <= i < outputs@.len() && 0 <= j < outputs@.len() && outputs@[i]@ == outputs@[j]@
                ==> same_values(f, i, j),
    ensures
        outputs_are(r@, outputs@, rows, f),
{
    let mut rest = evaluated;
    let mut r: Vec<DenseOutput> = Vec::new();
    let ghost all = evaluated@;
    let mut n: usize = outputs.len();
    while n > 0
        invariant
            n <= outputs@.len(),
            rest@.len() == n,
            all.len() == outputs@.len(),
            forall|j: int| 0 <= j < n ==> #[trigger] rest@[j] == all[j],
            forall|j: int| #![trigger all[j]]
                0 <= j < all.len() ==> all[j].0.agrees(all[j].1, rows, f, j),
            request_failure(f, outputs@.len(), rows) is None,
            forall|i: int, j: int| #![trigger outputs@[i], outputs@[j]]
                0 <= i < outputs@.len() && 0 <= j < outputs@.len() && outputs@[i]@ == outputs@[j]@
                    ==> same_values(f, i, j),
            forall|a: int, b: int|
                0 <= a < b < r@.len() ==> (#[trigger] r@[a]).name@ != (#[trigger] r@[b]).name@,
            forall|j: int|
                n <= j < outputs@.len() ==> #[trigger] is_listed(r@, outputs@, rows, f, j),
            forall|k: int|
                0 <= k < r@.len() ==> #[trigger] is_requested(outputs@, r@[k].name@, n as int),
        decreases n,
    {
        n = n - 1;
        let name = &outputs[n];
        let ghost before = r@;
        let (value, errors) = match rest.pop() {
            Some(last) => last,
            None => return r,
        };
        proof {
            crate::model::position_from_meaning(before, name@, 0);
            assert((value, errors) == all[n as int]);
            assert(value.gives(rows, f, n as int)) by {
                assert forall|row: int| 0 <= row < rows implies (#[trigger] f(
                    n as int,
                    row,
                )).failure() is None by {
                    request_failure_covers(f, outputs@.len(), rows, n as int, row);
                }
                assert(value.agrees(errors, rows, f, n as int));
            }
        }
        if find_index(&r, name.as_str()).is_none() {
            r.push(DenseOutput { name: name.clone(), value });
            proof {
                assert(r@ == before.push(r@[before.len() as int]));
                assert forall|j: int| n <= j < outputs@.len() implies #[trigger] is_listed(
                    r@,
                    outputs@,
                    rows,
                    f,
                    j,
                ) by {
                    if j > n {
                        assert(is_listed(before, outputs@, rows, f, j));
                        let k = choose|k: int|
                            0 <= k < before.len() && (#[trigger] before[k]).name@ == outputs@[j]@
                                && before[k].value.gives(rows, f, j);
                        assert(r@[k] == before[k]);
                    } else {
                        assert(r@[before.len() as int].name@ == outputs@[j]@);
                    }
                }
                assert forall|k: int| 0 <= k < r@.len() implies #[trigger] is_requested(
                    outputs@,
                    r@[k].name@,
                    n as int,
                ) by {
                    if k < before.len() {
                        assert(is_requested(outputs@, before[k].name@, n + 1));
                    } else {
                        assert(outputs@[n as int]@ == r@[k].name@);
                    }
                }
                assert forall|a: int, b: int| 0 <= a < b < r@.len() implies (
                #[trigger] r@[a]).name@ != (#[trigger] r@[b]).name@ by {
                    if b == before.len() {
                        assert(before[a].label_of() != name@);
                    }
                }
            }
        } else {
            proof {
                let i = position_of(r@, name@)->Some_0 as int;
                assert(r@[i].label_of() == name@);
                assert(is_requested(outputs@, r@[i].name@, n + 1));
                let j = choose|j: int|
                    n + 1 <= j < outputs@.len() && (#[trigger] outputs@[j])@ == r@[i].name@;
                assert(is_listed(r@, outputs@, rows, f, j));
                let k = choose|k: int|
                    0 <= k < r@.len() && (#[trigger] r@[k]).name@ == outputs@[j]@
                        && r@[k].value.gives(rows, f, j);
                assert(outputs@[n as int]@ == outputs@[j]@);
                assert(same_values(f, n as int, j));
                assert(r@[k].value.gives(rows, f, n as int));
                assert(is_listed(r@, outputs@, rows, f, n as int));
                assert forall|k: int| 0 <= k < r@.len() implies #[trigger] is_requested(
                    outputs@,
                    r@[k].name@,
                    n as int,
                ) by {
                    assert(is_requested(outputs@, r@[k].name@, n + 1));
                }
            }
        }
    }
    r
}

/// The rule that a name requests.
pub open spec fn requested_rule(p: DenseCompiledProgram, name: Seq<char>) -> Option<nat> {
    position_of(p.derived@, name)
}

/// The first requested name, among the first `n`, that names no rule.
pub open spec fn unknown_output(p: DenseCompiledProgram, outputs: Seq<String>, n: nat) -> Option<
    Seq<char>,
>
    decreases n,
{
    if n == 0 || n > outputs.len() {
        None
    } else {
        match unknown_output(p, outputs, (n - 1) as nat) {
            Some(name) => Some(name),
            None => if requested_rule(p, outputs[n - 1]@) is None {
                Some(outputs[n - 1]@)
            } else {
                None
            },
        }
    }
}

proof fn unknown_output_kept(p: DenseCompiledProgram, outputs: Seq<String>, m: nat, n: nat)
    requires
        m <= n <= outputs.len(),
        unknown_output(p, outputs, m) is Some,
    ensures
        unknown_output(p, outputs, n) == unknown_output(p, outputs, m),
    decreases n,
{
    if m < n {
        unknown_output_kept(p, outputs, m, (n - 1) as nat);
    }
}

/// What a rule gives for a row.
pub open spec fn rule_value(cx: DenseFacts, i: nat, row: int) -> RuleValue {
    match cx.program.derived@[i as int].semantics {
        CompiledSemantics::Scalar(_) => RuleValue::Scalar(rule_cell(cx, i, row)),
        CompiledSemantics::Judgment(_) => RuleValue::Judgment(rule_outcome(cx, i, row)),
    }
}

/// What the requested rules give for a row.
pub open spec fn requested_value(cx: DenseFacts, outputs: Seq<String>, j: int, row: int) -> RuleValue {
    rule_value(cx, requested_rule(cx.program, outputs[j]@)->Some_0, row)
}

/// Whether the parts of a rule have dtypes.
pub open spec fn rule_well_typed(cx: DenseFacts, i: nat) -> bool {
    match cx.program.derived@[i as int].semantics {
        CompiledSemantics::Scalar(_) => rule_kind(cx, i) is Some,
        CompiledSemantics::Judgment(_) => rule_typed(cx, i),
    }
}

/// Whether the parts of the requested rules have dtypes.
pub open spec fn request_typed(cx: DenseFacts, outputs: Seq<String>) -> bool {
    forall|j: int| #![trigger outputs[j]]
        0 <= j < outputs.len() ==> rule_well_typed(
            cx,
            requested_rule(cx.program, outputs[j]@)->Some_0,
        )
}

/// What a program is evaluated on for a period.
pub open spec fn period_facts(p: DenseCompiledProgram, period: Period, batch: BatchView) -> DenseFacts {
    DenseFacts {
        program: p,
        start: period.start,
        end: period.end,
        batch,
        enforce_commencement: true,
    }
}

/// Evaluates a rule.
pub open spec fn value_work(cx: DenseFacts, i: nat, rows: Set<int>, w: Worked) -> Option<Worked> {
    match cx.program.derived@[i as int].semantics {
        CompiledSemantics::Scalar(_) => rule_work(cx, i, rows, w),
        CompiledSemantics::Judgment(_) => rule_judgment_work(cx, i, rows, w),
    }
}

/// Evaluates the first `n` requested rules for every row, in their order.
pub open spec fn request_work(cx: DenseFacts, outputs: Seq<String>, n: nat) -> Option<Worked>
    decreases n,
{
    if n == 0 || n > outputs.len() {
        Some(fresh(cx.program.derived@.len()))
    } else {
        match request_work(cx, outputs, (n - 1) as nat) {
            None => None,
            Some(w) => value_work(
                cx,
                requested_rule(cx.program, outputs[n - 1]@)->Some_0,
                all_rows(cx.batch.row_count),
                w,
            ),
        }
    }
}

proof fn request_fails(cx: DenseFacts, outputs: Seq<String>, n: nat, m: nat)
    requires
        n <= m <= outputs.len(),
        request_work(cx, outputs, n) is None,
    ensures
        request_work(cx, outputs, m) is None,
    decreases m,
{
    if n < m {
        request_fails(cx, outputs, n, (m - 1) as nat);
    }
}

impl DenseCompiledProgram {
    /// The rules that names request.
    pub fn resolve_outputs(&self, outputs: &Vec<String>) -> (r: Result<Vec<usize>, EvalError>)
        ensures
            match r {
                Ok(indices) => {
                    &&& unknown_output(*self, outputs@, outputs@.len()) is None
                    &&& indices@.len() == outputs@.len()
                    &&& forall|j: int| #![trigger indices@[j]]
                        0 <= j < outputs@.len() ==> indices@[j] < self.derived@.len()
                            && requested_rule(*self, outputs@[j]@) == Some(indices@[j] as nat)
                },
                Err(error) => unknown_output(*self, outputs@, outputs@.len()) matches Some(name)
                    && error@ == ErrorView::UnknownDerived(name),
            },
    {
        let mut indices: Vec<usize> = Vec::new();
        let mut j: usize = 0;
        while j < outputs.len()
            invariant
                j <= outputs@.len(),
                indices@.len() == j,
                unknown_output(*self, outputs@, j as nat) is None,
                forall|i: int| #![trigger indices@[i]]
                    0 <= i < j ==> indices@[i] < self.derived@.len() && requested_rule(
                        *self,
                        outputs@[i]@,
                    ) == Some(indices@[i] as nat),
            decreases outputs@.len() - j,
        {
            match find_index(&self.derived, outputs[j].as_str()) {
                Some(index) => {
                    indices.push(index);
                },
                None => {
                    proof {
                        unknown_output_kept(*self, outputs@, (j + 1) as nat, outputs@.len());
                    }
                    return Err(EvalError::UnknownDerived(outputs[j].clone()));
                },
            }
            j = j + 1;
        }
        Ok(indices)
    }

    /// The requested rules for every row of a batch, each node only for the rows that
    /// reach it. The request fails where evaluating the rules, in the order in which they
    /// are requested, mixes dtypes. Else it fails with the error of the lowest failing
    /// row, and for that row of the first failing rule.
    pub fn execute(&self, period: &Period, batch: &DenseBatchSpec, outputs: &Vec<String>) -> (r:
        Result<DenseExecutionResult, EvalError>)
        requires
            self.well_formed(),
            batch.row_count < usize::MAX,
        ensures
            match unknown_output(*self, outputs@, outputs@.len()) {
                Some(name) => r matches Err(error) && error@ == ErrorView::UnknownDerived(name),
                None => match bound_batch(*self, *batch) {
                    Err(e) => r matches Err(error) && error@ == e,
                    Ok(bound) => {
                        let cx = period_facts(*self, *period, bound);
                        let f = |j: int, row: int| requested_value(cx, outputs@, j, row);
                        let failure = request_failure(f, outputs@.len(), bound.row_count);
                        match r {
                            Ok(result) => {
                                &&& request_work(cx, outputs@, outputs@.len()) is Some
                                &&& failure is None
                                &&& result.row_count == batch.row_count
                                &&& outputs_are(result.outputs@, outputs@, bound.row_count, f)
                            },
                            Err(error) => match request_work(cx, outputs@, outputs@.len()) {
                                None => error@ == mixed_branches() && !request_typed(cx, outputs@),
                                Some(_) => failure == Some(error@),
                            },
                        }
                    },
                },
            },
    {
        let requested = match self.resolve_outputs(outputs) {
            Ok(requested) => requested,
            Err(error) => return Err(error),
        };
        let bound = match self.bind_batch(batch) {
            Ok(bound) => bound,
            Err(error) => return Err(error),
        };
        let row_count = bound.row_count;
        let ghost view = bound@;
        let ghost cx = period_facts(*self, *period, view);
        let ghost f = |j: int, row: int| requested_value(cx, outputs@, j, row);
        proof {
            bound_batch_fits(*self, *batch, period.start, period.end, true);
        }
        let mut executor = DenseExecutor::new(self, period.start, period.end, bound, true);
        let all = RowMask::all(row_count);
        assert(rows_of(all) =~= all_rows(cx.batch.row_count));
        let mut evaluated: Vec<(DenseOutputValue, RowErrors)> = Vec::new();
        let mut j: usize = 0;
        while j < requested.len()
            invariant
                j <= requested@.len(),
                requested@.len() == outputs@.len(),
                executor.ready(),
                executor.facts() == cx,
                cx == period_facts(*self, *period, view),
                unknown_output(*self, outputs@, outputs@.len()) is None,
                bound_batch(*self, *batch) == Ok::<BatchView, ErrorView>(view),
                cx.batch.row_count == row_count,
                all@ == Seq::new(row_count as nat, |i: int| true),
                request_work(cx, outputs@, j as nat) == Some(executor.worked()),
                rows_of(all) == all_rows(cx.batch.row_count),
                evaluated@.len() == j,
                f == (|j: int, row: int| requested_value(cx, outputs@, j, row)),
                forall|i: int| #![trigger requested@[i]]
                    0 <= i < outputs@.len() ==> requested@[i] < self.derived@.len()
                        && requested_rule(*self, outputs@[i]@) == Some(requested@[i] as nat),
                forall|i: int| #![trigger evaluated@[i]]
                    0 <= i < evaluated@.len() ==> evaluated@[i].0.agrees(
                        evaluated@[i].1,
                        row_count as nat,
                        f,
                        i,
                    ),
            decreases requested@.len() - j,
        {
            let index = requested[j];
            let part = match &self.derived[index].semantics {
                CompiledSemantics::Scalar(_) => match executor.evaluate_scalar(index, &all) {
                    Ok((column, errors)) => (DenseOutputValue::Scalar(column), errors),
                    Err(error) => {
                        proof {
                            assert(!rule_well_typed(cx, requested_rule(*self, outputs@[j as int]@)->Some_0));
                            request_fails(cx, outputs@, (j + 1) as nat, outputs@.len());
                        }
                        return Err(error);
                    },
                },
                CompiledSemantics::Judgment(_) => match executor.evaluate_judgment(index, &all) {
                    Ok((values, errors)) => (DenseOutputValue::Judgment(values), errors),
                    Err(error) => {
                        proof {
                            assert(!rule_well_typed(cx, requested_rule(*self, outputs@[j as int]@)->Some_0));
                            request_fails(cx, outputs@, (j + 1) as nat, outputs@.len());
                        }
                        return Err(error);
                    },
                },
            };
            proof {
                assert forall|row: int| #[trigger] all.has(row) <==> 0 <= row < row_count by {}
                assert forall|row: int| #[trigger]
                    part.1.at(row) == if 0 <= row < row_count {
                        f(j as int, row).failure()
                    } else {
                        None
                    } by {
                    assert(all.has(row) <==> 0 <= row < row_count);
                }
                assert forall|row: int| #![trigger f(j as int, row)]
                    0 <= row < row_count && f(j as int, row).failure() is None implies match part.0 {
                    DenseOutputValue::Scalar(column) => f(j as int, row) == RuleValue::Scalar(
                        Ok(column.cell(row)),
                    ),
                    DenseOutputValue::Judgment(outcomes) => f(j as int, row) == RuleValue::Judgment(
                        Ok(outcomes@[row]),
                    ),
                } by {
                    assert(all.has(row));
                }
                assert(part.0.agrees(part.1, row_count as nat, f, j as int));
            }
            evaluated.push(part);
            j = j + 1;
        }
        match first_row_error(&evaluated, Ghost(f), Ghost(row_count as nat)) {
            Ok(()) => {},
            Err(error) => return Err(error),
        }
        proof {
            assert forall|i: int, j: int| #![trigger outputs@[i], outputs@[j]]
                0 <= i < outputs@.len() && 0 <= j < outputs@.len() && outputs@[i]@
                    == outputs@[j]@ implies same_values(f, i, j) by {}
        }
        let outputs = listed_outputs(evaluated, outputs, Ghost(f), Ghost(row_count as nat));
        Ok(DenseExecutionResult { row_count, outputs })
    }

    /// The names of the rules, in the order of evaluation.
    pub fn output_names(&self) -> (r: Vec<String>)
        ensures
            r@.len() == self.derived@.len(),
            forall|i: int| 0 <= i < r@.len() ==> (#[trigger] r@[i])@ == self.derived@[i].name@,
    {
        let mut r: Vec<String> = Vec::new();
        let mut i: usize = 0;
        while i < self.derived.len()
            invariant
                i <= self.derived@.len(),
                r@.len() == i,
                forall|j: int| 0 <= j < i ==> (#[trigger] r@[j])@ == self.derived@[j].name@,
            decreases self.derived@.len() - i,
        {
            r.push(self.derived[i].name.clone());
            i = i + 1;
        }
        r
    }

    pub fn root_entity(&self) -> (r: &str)
        ensures
            r@ == self.root_entity@,
    {
        self.root_entity.as_str()
    }

    pub fn root_inputs(&self) -> (r: &Vec<String>)
        ensures
            *r == self.root_inputs,
    {
        &self.root_inputs
    }

    pub fn relations(&self) -> (r: &Vec<DenseRelationSchema>)
        ensures
            *r == self.relations,
    {
        &self.relations
    }
}

} // verus!
