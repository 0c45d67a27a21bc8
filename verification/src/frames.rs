//! Batches as bindings hand them over: columns and relations by name.
use crate::batch::{column_named, DenseBatchSpec, DenseRelationBatchSpec, NamedColumn};
use crate::dense::{DenseCompiledProgram, DenseRelationKey, DenseRelationSchema, RelationKeyView};
use crate::model::{find_named, item_named, DType, JudgmentOutcome, Named, PeriodKind, PeriodKindView};
use crate::text::{int_text, owned, same, texts, usize_text};
use vstd::prelude::*;
use vstd::string::*;

verus! {

pub open spec fn dtype_text(dtype: DType) -> Seq<char> {
    match dtype {
        DType::Judgment => "judgment"@,
        DType::Bool => "bool"@,
        DType::Integer => "integer"@,
        DType::Decimal => "decimal"@,
        DType::Text => "text"@,
        DType::Date => "date"@,
    }
}

/// The name of a type for bindings.
pub fn dtype_name(dtype: DType) -> (r: &'static str)
    ensures
        r@ == dtype_text(dtype),
{
    match dtype {
        DType::Judgment => "judgment",
        DType::Bool => "bool",
        DType::Integer => "integer",
        DType::Decimal => "decimal",
        DType::Text => "text",
        DType::Date => "date",
    }
}

pub open spec fn period_kind_named(name: Seq<char>) -> PeriodKindView {
    if name == "month"@ {
        PeriodKindView::Month
    } else if name == "benefit_week"@ {
        PeriodKindView::BenefitWeek
    } else if name == "tax_year"@ {
        PeriodKindView::TaxYear
    } else {
        PeriodKindView::Custom(name)
    }
}

/// The kind of period that a name stands for: one of the known, or one of its own.
pub fn parse_period_kind(value: &str) -> (r: PeriodKind)
    ensures
        r@ == period_kind_named(value@),
{
    if same(value, "month") {
        PeriodKind::Month
    } else if same(value, "benefit_week") {
        PeriodKind::BenefitWeek
    } else if same(value, "tax_year") {
        PeriodKind::TaxYear
    } else {
        PeriodKind::Custom(owned(value))
    }
}

/// A relation as a text: its name and the two slots.
pub open spec fn key_text(key: RelationKeyView) -> Seq<char> {
    key.name + ":"@ + int_text(key.current_slot as int) + ":"@ + int_text(key.related_slot as int)
}

/// A relation as a text.
pub fn relation_key(key: &DenseRelationKey) -> (r: String)
    ensures
        r@ == key_text(key@),
{
    let mut text = key.name.clone();
    text.append(":");
    text.append(usize_text(key.current_slot).as_str());
    text.append(":");
    text.append(usize_text(key.related_slot).as_str());
    text
}

/// An outcome as a number: one where it holds, minus one where it does not, else zero.
pub fn judgment_code(outcome: JudgmentOutcome) -> (r: i8)
    ensures
        r == match outcome {
            JudgmentOutcome::Holds => 1i8,
            JudgmentOutcome::NotHolds => -1i8,
            JudgmentOutcome::Undetermined => 0i8,
        },
{
    match outcome {
        JudgmentOutcome::Holds => 1,
        JudgmentOutcome::NotHolds => -1,
        JudgmentOutcome::Undetermined => 0,
    }
}

/// The rows of a relation, as they were handed over.
#[derive(Debug)]
pub struct RelationFrame {
    /// The relation, as [`relation_key`] writes it.
    pub key: String,
    pub offsets: Option<Vec<i64>>,
    pub inputs: Option<Vec<NamedColumn>>,
}

impl Named for RelationFrame {
    open spec fn label_of(&self) -> Seq<char> {
        self.key@
    }

    fn name_of(&self) -> (r: &str) {
        self.key.as_str()
    }
}

/// Whether a number is an offset.
pub open spec fn is_offset(n: i64) -> bool {
    0 <= n <= usize::MAX
}

/// The offsets of a relation's rows, or why there are none.
pub open spec fn frame_offsets(frame: RelationFrame) -> Result<Seq<usize>, Seq<char>> {
    match frame.offsets {
        None => Err("missing dense relation offsets"@),
        Some(list) => if exists|i: int| 0 <= i < list@.len() && !is_offset(#[trigger] list@[i]) {
            Err("dense relation offsets must be non-negative"@)
        } else {
            Ok(list@.map_values(|n: i64| n as usize))
        },
    }
}

pub open spec fn offsets_outcome(r: Result<Vec<usize>, String>) -> Result<Seq<usize>, Seq<char>> {
    match r {
        Ok(offsets) => Ok(offsets@),
        Err(message) => Err(message@),
    }
}

/// The offsets of a relation's rows.
pub fn extract_offsets(frame: &RelationFrame) -> (r: Result<Vec<usize>, String>)
    ensures
        offsets_outcome(r) == frame_offsets(*frame),
{
    let list = match &frame.offsets {
        Some(list) => list,
        None => {
            return Err(owned("missing dense relation offsets"));
        },
    };
    let mut out: Vec<usize> = Vec::new();
    let mut i: usize = 0;
    while i < list.len()
        invariant
            i <= list@.len(),
            frame.offsets == Some(*list),
            out@.len() == i,
            forall|k: int| 0 <= k < i ==> is_offset(#[trigger] list@[k]) && out@[k] == list@[k],
        decreases list@.len() - i,
    {
        let n: i64 = list[i];
        if n < 0 || n as u64 > usize::MAX as u64 {
            assert(!is_offset(list@[i as int]));
            return Err(owned("dense relation offsets must be non-negative"));
        }
        out.push(n as usize);
        i = i + 1;
    }
    assert(out@ =~= list@.map_values(|n: i64| n as usize));
    Ok(out)
}

pub open spec fn frame_named(frames: Option<Vec<RelationFrame>>, key: Seq<char>) -> Option<
    RelationFrame,
> {
    match frames {
        Some(list) => item_named(list@, key),
        None => None,
    }
}

fn find_frame<'a>(frames: &'a Option<Vec<RelationFrame>>, key: &str) -> (r: Option<&'a RelationFrame>)
    ensures
        frame_named(*frames, key@) == match r {
            Some(frame) => Some(*frame),
            None => None,
        },
{
    match frames {
        Some(list) => find_named(list, key),
        None => None,
    }
}

pub open spec fn missing_batch(key: Seq<char>) -> Seq<char> {
    "missing dense relation batch `"@ + key + "`"@
}

fn missing_batch_text(key: &str) -> (r: String)
    ensures
        r@ == missing_batch(key@),
{
    let mut text = owned("missing dense relation batch `");
    text.append(key);
    text.append("`");
    text
}

/// The first of the first `n` names that a column was given for.
pub open spec fn first_given(names: Seq<Seq<char>>, given: Seq<NamedColumn>, n: nat) -> Option<
    Seq<char>,
>
    decreases n,
{
    if n == 0 || n > names.len() {
        None
    } else {
        match first_given(names, given, (n - 1) as nat) {
            Some(name) => Some(name),
            None => if item_named(given, names[n - 1]) is Some {
                Some(names[n - 1])
            } else {
                None
            },
        }
    }
}

proof fn first_given_stays(names: Seq<Seq<char>>, given: Seq<NamedColumn>, n: nat, m: nat)
    requires
        n <= m <= names.len(),
        first_given(names, given, n) is Some,
    ensures
        first_given(names, given, m) == first_given(names, given, n),
    decreases m,
{
    if n < m {
        first_given_stays(names, given, n, (m - 1) as nat);
    }
}

pub open spec fn one_less(n: nat) -> nat {
    if n == 0 {
        0
    } else {
        (n - 1) as nat
    }
}

/// The number of rows: that of the first column that was given, or where there is none
/// that of the first relation.
pub open spec fn frame_rows(
    p: DenseCompiledProgram,
    given: Seq<NamedColumn>,
    frames: Option<Vec<RelationFrame>>,
) -> Result<nat, Seq<char>> {
    let names = texts(p.root_inputs@);
    match first_given(names, given, names.len()) {
        Some(name) => Ok(column_named(given, name)->Some_0.rows()),
        None => if p.relations@.len() == 0 {
            Err("dense compilation produced neither root inputs nor relations"@)
        } else if frames is None {
            Err("dense execution requires relation data"@)
        } else {
            let key = key_text(p.relations@[0].key@);
            match frame_named(frames, key) {
                None => Err(missing_batch(key)),
                Some(frame) => match frame_offsets(frame) {
                    Err(message) => Err(message),
                    Ok(offsets) => Ok(one_less(offsets.len())),
                },
            }
        },
    }
}

pub open spec fn rows_outcome(r: Result<usize, String>) -> Result<nat, Seq<char>> {
    match r {
        Ok(n) => Ok(n as nat),
        Err(message) => Err(message@),
    }
}

fn count_rows(
    compiled: &DenseCompiledProgram,
    given: &Vec<NamedColumn>,
    frames: &Option<Vec<RelationFrame>>,
) -> (r: Result<usize, String>)
    ensures
        rows_outcome(r) == frame_rows(*compiled, given@, *frames),
{
    let inputs = compiled.root_inputs();
    let ghost names = texts(compiled.root_inputs@);
    assert(names.len() == inputs@.len());
    let mut i: usize = 0;
    while i < inputs.len()
        invariant
            i <= inputs@.len(),
            *inputs == compiled.root_inputs,
            names == texts(inputs@),
            names.len() == inputs@.len(),
            first_given(names, given@, i as nat) is None,
        decreases inputs@.len() - i,
    {
        assert(names[i as int] == inputs@[i as int]@);
        if let Some(column) = find_named(given, inputs[i].as_str()) {
            proof {
                assert(first_given(names, given@, (i + 1) as nat) == Some(names[i as int]));
                first_given_stays(names, given@, (i + 1) as nat, names.len());
            }
            return Ok(column.column.len());
        }
        i = i + 1;
    }
    let relations = compiled.relations();
    if relations.len() == 0 {
        return Err(owned("dense compilation produced neither root inputs nor relations"));
    }
    if frames.is_none() {
        return Err(owned("dense execution requires relation data"));
    }
    let key = relation_key(&relations[0].key);
    match find_frame(frames, key.as_str()) {
        None => Err(missing_batch_text(key.as_str())),
        Some(frame) => match extract_offsets(frame) {
            Err(message) => Err(message),
            Ok(offsets) => {
                if offsets.len() == 0 {
                    Ok(0)
                } else {
                    Ok(offsets.len() - 1)
                }
            },
        },
    }
}

/// Those of the first `n` names that a column was given for.
pub open spec fn given_names(names: Seq<Seq<char>>, given: Seq<NamedColumn>, n: nat) -> Seq<Seq<char>>
    decreases n,
{
    if n == 0 || n > names.len() {
        Seq::empty()
    } else if item_named(given, names[n - 1]) is Some {
        given_names(names, given, (n - 1) as nat).push(names[n - 1])
    } else {
        given_names(names, given, (n - 1) as nat)
    }
}

/// Whether columns are those that were given for the names.
pub open spec fn are_columns(
    columns: Seq<NamedColumn>,
    names: Seq<Seq<char>>,
    given: Seq<NamedColumn>,
) -> bool {
    &&& columns.len() == names.len()
    &&& forall|i: int|
        0 <= i < columns.len() ==> (#[trigger] columns[i]).name@ == names[i] && match column_named(
            given,
            names[i],
        ) {
            Some(column) => columns[i].column.same_as(column),
            None => false,
        }
}

fn pick_columns(names: &Vec<String>, given: &Vec<NamedColumn>) -> (r: Vec<NamedColumn>)
    ensures
        are_columns(r@, given_names(texts(names@), given@, names@.len()), given@),
{
    let ghost all = texts(names@);
    let mut out: Vec<NamedColumn> = Vec::new();
    let mut i: usize = 0;
    while i < names.len()
        invariant
            i <= names@.len(),
            all == texts(names@),
            are_columns(out@, given_names(all, given@, i as nat), given@),
        decreases names@.len() - i,
    {
        assert(all[i as int] == names@[i as int]@);
        if let Some(column) = find_named(given, names[i].as_str()) {
            out.push(NamedColumn { name: names[i].clone(), column: column.column.duplicate() });
        }
        i = i + 1;
    }
    out
}

/// The first of the first `n` names that no column was given for.
pub open spec fn first_absent(names: Seq<Seq<char>>, given: Seq<NamedColumn>, n: nat) -> Option<
    Seq<char>,
>
    decreases n,
{
    if n == 0 || n > names.len() {
        None
    } else {
        match first_absent(names, given, (n - 1) as nat) {
            Some(name) => Some(name),
            None => if item_named(given, names[n - 1]) is None {
                Some(names[n - 1])
            } else {
                None
            },
        }
    }
}

proof fn first_absent_stays(names: Seq<Seq<char>>, given: Seq<NamedColumn>, n: nat, m: nat)
    requires
        n <= m <= names.len(),
        first_absent(names, given, n) is Some,
    ensures
        first_absent(names, given, m) == first_absent(names, given, n),
    decreases m,
{
    if n < m {
        first_absent_stays(names, given, n, (m - 1) as nat);
    }
}

pub open spec fn absent_input(name: Seq<char>, key: Seq<char>) -> Seq<char> {
    "missing dense relation input `"@ + name + "` for `"@ + key + "`"@
}

/// Why the rows of a relation cannot be bound.
pub open spec fn relation_fault(
    schema: DenseRelationSchema,
    frames: Option<Vec<RelationFrame>>,
) -> Option<Seq<char>> {
    let key = key_text(schema.key@);
    let names = texts(schema.related_inputs@);
    match frame_named(frames, key) {
        None => Some(missing_batch(key)),
        Some(frame) => match frame_offsets(frame) {
            Err(message) => Some(message),
            Ok(_) => match frame.inputs {
                None => Some("missing dense relation inputs"@),
                Some(inputs) => match first_absent(names, inputs@, names.len()) {
                    Some(name) => Some(absent_input(name, key)),
                    None => None,
                },
            },
        },
    }
}

/// Whether a relation's batch has the rows that were handed over.
pub open spec fn is_relation_batch(
    batch: DenseRelationBatchSpec,
    schema: DenseRelationSchema,
    frames: Option<Vec<RelationFrame>>,
) -> bool {
    match frame_named(frames, key_text(schema.key@)) {
        None => false,
        Some(frame) => {
            &&& batch.key@ == schema.key@
            &&& frame_offsets(frame) == Ok::<Seq<usize>, Seq<char>>(batch.offsets@)
            &&& match frame.inputs {
                Some(inputs) => are_columns(
                    batch.inputs@,
                    texts(schema.related_inputs@),
                    inputs@,
                ),
                None => false,
            }
        },
    }
}

fn bind_relation(schema: &DenseRelationSchema, frames: &Option<Vec<RelationFrame>>) -> (r: Result<
    DenseRelationBatchSpec,
    String,
>)
    ensures
        match relation_fault(*schema, *frames) {
            Some(message) => match r {
                Err(text) => text@ == message,
                Ok(_) => false,
            },
            None => match r {
                Ok(batch) => is_relation_batch(batch, *schema, *frames),
                Err(_) => false,
            },
        },
{
    let key = relation_key(&schema.key);
    let frame = match find_frame(frames, key.as_str()) {
        Some(frame) => frame,
        None => {
            return Err(missing_batch_text(key.as_str()));
        },
    };
    let offsets = match extract_offsets(frame) {
        Ok(offsets) => offsets,
        Err(message) => {
            return Err(message);
        },
    };
    let inputs = match &frame.inputs {
        Some(inputs) => inputs,
        None => {
            return Err(owned("missing dense relation inputs"));
        },
    };
    let related = &schema.related_inputs;
    let ghost names = texts(related@);
    assert(names.len() == related@.len());
    let mut columns: Vec<NamedColumn> = Vec::new();
    let mut i: usize = 0;
    while i < related.len()
        invariant
            i <= related@.len(),
            *related == schema.related_inputs,
            names == texts(related@),
            names.len() == related@.len(),
            key@ == key_text(schema.key@),
            frame_named(*frames, key@) == Some(*frame),
            frame_offsets(*frame) is Ok,
            frame.inputs == Some(*inputs),
            first_absent(names, inputs@, i as nat) is None,
            are_columns(columns@, names.take(i as int), inputs@),
        decreases related@.len() - i,
    {
        let name = related[i].as_str();
        assert(names[i as int] == name@);
        match find_named(inputs, name) {
            Some(column) => {
                columns.push(
                    NamedColumn { name: owned(name), column: column.column.duplicate() },
                );
                assert(names.take(i + 1) =~= names.take(i as int).push(name@));
            },
            None => {
                proof {
                    assert(first_absent(names, inputs@, (i + 1) as nat) == Some(name@));
                    first_absent_stays(names, inputs@, (i + 1) as nat, names.len());
                }
                let mut message = owned("missing dense relation input `");
                message.append(name);
                message.append("` for `");
                message.append(key.as_str());
                message.append("`");
                return Err(message);
            },
        }
        i = i + 1;
    }
    assert(names.take(i as int) =~= names);
    Ok(DenseRelationBatchSpec { key: schema.key.duplicate(), offsets, inputs: columns })
}

/// Why the relations among the first `n` cannot be bound.
pub open spec fn relations_fault(
    schemas: Seq<DenseRelationSchema>,
    frames: Option<Vec<RelationFrame>>,
    n: nat,
) -> Option<Seq<char>>
    decreases n,
{
    if n == 0 || n > schemas.len() {
        None
    } else {
        match relations_fault(schemas, frames, (n - 1) as nat) {
            Some(message) => Some(message),
            None => relation_fault(schemas[n - 1], frames),
        }
    }
}

proof fn relations_fault_stays(
    schemas: Seq<DenseRelationSchema>,
    frames: Option<Vec<RelationFrame>>,
    n: nat,
    m: nat,
)
    requires
        n <= m <= schemas.len(),
        relations_fault(schemas, frames, n) is Some,
    ensures
        relations_fault(schemas, frames, m) == relations_fault(schemas, frames, n),
    decreases m,
{
    if n < m {
        relations_fault_stays(schemas, frames, n, (m - 1) as nat);
    }
}

/// A batch of the columns and relations that were handed over. Columns that the program
/// does not read are left out; one that is absent is for the program to default or to miss.
pub fn build_batch(
    compiled: &DenseCompiledProgram,
    given: &Vec<NamedColumn>,
    frames: &Option<Vec<RelationFrame>>,
) -> (r: Result<DenseBatchSpec, String>)
    ensures
        match frame_rows(*compiled, given@, *frames) {
            Err(message) => match r {
                Err(text) => text@ == message,
                Ok(_) => false,
            },
            Ok(rows) => match relations_fault(
                compiled.relations@,
                *frames,
                compiled.relations@.len(),
            ) {
                Some(message) => match r {
                    Err(text) => text@ == message,
                    Ok(_) => false,
                },
                None => match r {
                    Ok(batch) => {
                        let names = texts(compiled.root_inputs@);
                        &&& batch.row_count == rows
                        &&& are_columns(
                            batch.inputs@,
                            given_names(names, given@, names.len()),
                            given@,
                        )
                        &&& batch.relations@.len() == compiled.relations@.len()
                        &&& forall|i: int|
                            0 <= i < batch.relations@.len() ==> is_relation_batch(
                                #[trigger] batch.relations@[i],
                                compiled.relations@[i],
                                *frames,
                            )
                    },
                    Err(_) => false,
                },
            },
        },
{
    let row_count: usize = match count_rows(compiled, given, frames) {
        Ok(rows) => rows,
        Err(message) => {
            return Err(message);
        },
    };
    let root_inputs = compiled.root_inputs();
    assert(texts(root_inputs@).len() == root_inputs@.len());
    let inputs = pick_columns(root_inputs, given);
    let schemas = compiled.relations();
    let mut relations: Vec<DenseRelationBatchSpec> = Vec::new();
    let mut i: usize = 0;
    while i < schemas.len()
        invariant
            i <= schemas@.len(),
            *schemas == compiled.relations,
            frame_rows(*compiled, given@, *frames) is Ok,
            relations_fault(schemas@, *frames, i as nat) is None,
            relations@.len() == i,
            forall|k: int|
                0 <= k < i ==> is_relation_batch(
                    #[trigger] relations@[k],
                    schemas@[k],
                    *frames,
                ),
        decreases schemas@.len() - i,
    {
        match bind_relation(&schemas[i], frames) {
            Ok(batch) => {
                relations.push(batch);
            },
            Err(message) => {
                proof {
                    assert(relations_fault(schemas@, *frames, (i + 1) as nat) == Some(message@));
                    relations_fault_stays(schemas@, *frames, (i + 1) as nat, schemas@.len());
                }
                return Err(message);
            },
        }
        i = i + 1;
    }
    Ok(DenseBatchSpec { row_count, inputs, relations })
}

} // verus!
