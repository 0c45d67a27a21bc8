//! Laws of lifetime requests: which are admitted, and what of them the answers carry.
use crate::batch::DenseOutputValue;
use crate::catalog::{catalog_of, slot_pairs, CatalogEntry};
use crate::compile::CompiledProgramArtifact;
use crate::compiler::stands_for;
use crate::dense::{ColumnView, DenseCompiledProgram};
use crate::lifetime_api::{
    answered, answered_by, batches_read, byte_length, columns_read, compiled_names, evaluated_as,
    evaluation_is, ids_fault, input_slot, output_answers, output_is, output_rules, period_fault,
    periods_fault, read_names, request_fault, rows_fault, ApiErrorView, Evaluation, InputFacts,
    LifetimeApiError, LifetimeBatch, LifetimeExecutionRequest, LifetimeExecutionResponse,
    LifetimePeriod,
};
use crate::lowering::CompileFacts;
use crate::model::{item_named, Program};
use crate::reductions::{lifetime_request, requested_life};
use crate::text::{opt_text, texts};
use vstd::prelude::*;

verus! {

/// Whether a period stands well in its place: it does not end before it starts, it is of the kind of
/// the first one, it starts after the one before has ended, and its name, if it has one, is neither
/// empty nor too long.
pub open spec fn stands_well(periods: Seq<LifetimePeriod>, i: int) -> bool {
    let period = periods[i];
    &&& period.start_day().number() <= period.end_day().number()
    &&& period.kind() == periods[0].kind()
    &&& i > 0 ==> periods[i - 1].end_day().number() < period.start_day().number()
    &&& period matches LifetimePeriod::Custom { name, .. } ==> name@.len() > 0 && byte_length(name@)
        <= 4096
}

proof fn periods_stand_well(periods: Seq<LifetimePeriod>, n: nat)
    requires
        n <= periods.len(),
    ensures
        periods_fault(periods, n) is None <==> forall|i: int|
            0 <= i < n ==> #[trigger] stands_well(periods, i),
    decreases n,
{
    if n > 0 {
        periods_stand_well(periods, (n - 1) as nat);
        assert(period_fault(periods, n - 1) is None <==> stands_well(periods, n - 1));
    }
}

/// A request is admitted exactly where the name of its entity is not too long, it has one to 512
/// periods, as many batches as periods and one to 256 outputs, its output period is the last
/// period, and its periods stand well: all of one kind, one after the other without overlap.
pub proof fn a_request_is_admitted_where_its_periods_ascend(request: LifetimeExecutionRequest)
    ensures
        request_fault(request) is None <==> {
            let periods = request.periods@;
            &&& byte_length(request.entity@) <= 4096
            &&& 1 <= periods.len() <= 512
            &&& request.batches@.len() == periods.len()
            &&& 1 <= request.outputs@.len() <= 256
            &&& periods.last().kind() == request.output_period.kind()
            &&& periods.last().start_day() == request.output_period.start_day()
            &&& periods.last().end_day() == request.output_period.end_day()
            &&& forall|i: int| 0 <= i < periods.len() ==> #[trigger] stands_well(periods, i)
        },
{
    periods_stand_well(request.periods@, request.periods@.len());
}

/// The periods of an admitted request follow each other: of two periods the one that is listed
/// first has ended before the other starts.
pub proof fn admitted_periods_do_not_overlap(request: LifetimeExecutionRequest, i: int, j: int)
    requires
        request_fault(request) is None,
        0 <= i < j < request.periods@.len(),
    ensures
        request.periods@[i].end_day().number() < request.periods@[j].start_day().number(),
    decreases j,
{
    a_request_is_admitted_where_its_periods_ascend(request);
    assert(stands_well(request.periods@, j));
    assert(stands_well(request.periods@, j - 1));
    if i < j - 1 {
        admitted_periods_do_not_overlap(request, i, j - 1);
    }
}

proof fn ids_are_well(ids: Seq<String>, field: Seq<char>, n: nat)
    requires
        n <= ids.len(),
    ensures
        ids_fault(ids, field, n) is None <==> {
            &&& forall|i: int|
                0 <= i < n ==> (#[trigger] ids[i])@.len() > 0 && byte_length(ids[i]@) <= 4096
            &&& forall|i: int, j: int| 0 <= i < j < n ==> (#[trigger] ids[i])@ != (#[trigger] ids[j])@
        },
    decreases n,
{
    if n > 0 {
        ids_are_well(ids, field, (n - 1) as nat);
        let earlier = texts(ids).take(n - 1);
        if earlier.contains(ids[n - 1]@) {
            let i = earlier.index_of(ids[n - 1]@);
            assert(ids[i]@ == ids[n - 1]@);
        } else {
            assert forall|i: int| 0 <= i < n - 1 implies (#[trigger] ids[i])@ != ids[n - 1]@ by {
                assert(earlier[i] == ids[i]@);
            }
        }
    }
}

/// The rows of a batch are admitted exactly where there are at most 100000 of them and an id for
/// each, the ids are those of the first batch in the same order, each is a nonempty text that is
/// not too long and differs from the others, and there are at most 256 columns.
pub proof fn rows_are_admitted_where_their_ids_are_those_of_the_first_batch(
    batch: LifetimeBatch,
    first: Seq<Seq<char>>,
    field: Seq<char>,
)
    ensures
        rows_fault(batch, first, field) is None <==> {
            let ids = batch.entity_ids@;
            &&& batch.row_count <= 100000
            &&& ids.len() == batch.row_count
            &&& texts(ids) == first
            &&& forall|i: int|
                0 <= i < ids.len() ==> (#[trigger] ids[i])@.len() > 0 && byte_length(ids[i]@) <= 4096
            &&& forall|i: int, j: int|
                0 <= i < j < ids.len() ==> (#[trigger] ids[i])@ != (#[trigger] ids[j])@
            &&& batch.inputs@.len() <= 256
        },
{
    ids_are_well(batch.entity_ids@, field, batch.entity_ids@.len());
}

/// Columns that are read of a batch are one for each column of the batch, in order: each is for the
/// input that its public name stands for, no two are for the same input, each has a value for every
/// row, and their cells are counted, to at most two million.
pub proof fn columns_are_read_for_the_inputs_that_they_name(
    cx: InputFacts,
    batch: LifetimeBatch,
    field: Seq<char>,
    cells: nat,
    n: nat,
)
    requires
        n <= batch.inputs@.len(),
    ensures
        columns_read(cx, batch, field, cells, n) matches Ok(read) ==> {
            &&& read.names.len() == n
            &&& read.columns.len() == n
            &&& read.names.no_duplicates()
            &&& read.cells == cells + n * (batch.row_count as nat)
            &&& n > 0 ==> read.cells <= 2000000
            &&& forall|i: int|
                0 <= i < n ==> {
                    &&& input_slot(cx, batch.inputs@[i]) == Some(#[trigger] read.names[i])
                    &&& batch.inputs@[i].column.rows() == batch.row_count
                    &&& exists|place: Seq<char>| #[trigger]
                        batch.inputs@[i].column.dense(place) == Ok::<
                            ColumnView,
                            ApiErrorView,
                        >(read.columns[i])
                }
        },
    decreases n,
{
    if n > 0 {
        let m = (n - 1) as nat;
        columns_are_read_for_the_inputs_that_they_name(cx, batch, field, cells, m);
        if let Ok(read) = columns_read(cx, batch, field, cells, n) {
            let before = columns_read(cx, batch, field, cells, m)->Ok_0;
            let rows = batch.row_count as nat;
            assert(n * rows == m * rows + rows) by (nonlinear_arith)
                requires
                    n == m + 1,
            ;
            assert forall|i: int| 0 <= i < n implies {
                &&& input_slot(cx, batch.inputs@[i]) == Some(#[trigger] read.names[i])
                &&& batch.inputs@[i].column.rows() == batch.row_count
                &&& exists|place: Seq<char>| #[trigger]
                    batch.inputs@[i].column.dense(place) == Ok::<
                        ColumnView,
                        ApiErrorView,
                    >(read.columns[i])
            } by {
                if i < m {
                    assert(read.names[i] == before.names[i]);
                    assert(read.columns[i] == before.columns[i]);
                }
            }
            assert forall|i: int, j: int|
                0 <= i < n && 0 <= j < n && i != j implies read.names[i] != read.names[j] by {
                if i < m {
                    assert(before.names[i] == read.names[i]);
                    assert(before.names.contains(read.names[i]));
                }
                if j < m {
                    assert(before.names[j] == read.names[j]);
                    assert(before.names.contains(read.names[j]));
                }
            }
        }
    }
}

/// Whether a requested output is the public name of a rule that is compiled.
pub open spec fn is_output_of(
    program: Program,
    rules: Set<Seq<char>>,
    reference: Seq<char>,
    name: Seq<char>,
) -> bool {
    &&& rules.contains(name)
    &&& item_named(program.derived@, name) matches Some(d)
    &&& opt_text(d.id) == Some(reference)
}

/// The rules that a request asks for are one for each output, in order: each is a compiled rule with
/// the output as its public name, and none is asked for twice.
pub proof fn outputs_are_rules_by_their_public_names(
    program: Program,
    rules: Set<Seq<char>>,
    outputs: Seq<String>,
    n: nat,
)
    requires
        n <= outputs.len(),
    ensures
        output_rules(program, rules, outputs, n) matches Ok(names) ==> {
            &&& names.len() == n
            &&& names.no_duplicates()
            &&& forall|i: int|
                0 <= i < n ==> is_output_of(program, rules, outputs[i]@, #[trigger] names[i])
        },
    decreases n,
{
    if n > 0 {
        let m = (n - 1) as nat;
        outputs_are_rules_by_their_public_names(program, rules, outputs, m);
        if let Ok(names) = output_rules(program, rules, outputs, n) {
            let before = output_rules(program, rules, outputs, m)->Ok_0;
            assert forall|i: int| 0 <= i < n implies is_output_of(
                program,
                rules,
                outputs[i]@,
                #[trigger] names[i],
            ) by {
                if i < m {
                    assert(names[i] == before[i]);
                }
            }
            assert forall|i: int, j: int|
                0 <= i < n && 0 <= j < n && i != j implies names[i] != names[j] by {
                if i < m {
                    assert(before[i] == names[i]);
                    assert(before.contains(names[i]));
                }
                if j < m {
                    assert(before[j] == names[j]);
                    assert(before.contains(names[j]));
                }
            }
        }
    }
}

proof fn output_is_of_its_rule(
    r: Result<LifetimeExecutionResponse, LifetimeApiError>,
    dense: DenseCompiledProgram,
    program: Program,
    version: u32,
    request: LifetimeExecutionRequest,
    names: Seq<Seq<char>>,
    v: Evaluation,
    j: int,
)
    requires
        evaluated_as(r, dense, program, version, request, names, v),
        r is Ok,
        0 <= j < names.len(),
    ensures
        ({
            let out = r->Ok_0.outputs@[j];
            let d = item_named(program.derived@, names[j])->Some_0;
            &&& opt_text(d.id) == Some(out.id@)
            &&& out.name@ == d.name@
            &&& out.dtype == d.dtype
            &&& out.unit == d.unit
        }),
{
    let lx = lifetime_request(dense, v.periods, v.batches, v.names)->Ok_0;
    let f = |j: int, row: int| requested_life(lx, v.names, j, row);
    let rows = request.batches@[0].row_count as nat;
    assert(output_answers(r->Ok_0.outputs@[j], program, names[j], rows, f, j));
    let value = choose|value: DenseOutputValue| #[trigger]
        value.gives(rows, f, j) && output_is(
            r->Ok_0.outputs@[j],
            item_named(program.derived@, names[j])->Some_0,
            value,
        );
    assert(output_is(
        r->Ok_0.outputs@[j],
        item_named(program.derived@, names[j])->Some_0,
        value,
    ));
}

/// An answer carries the request's entity, its rows in their order, and its periods, of which the
/// output period is the last; and it has the requested outputs in their order, each under the
/// public name that was asked for, with the name, type and unit of its rule.
pub proof fn an_answer_carries_its_request(
    r: Result<LifetimeExecutionResponse, LifetimeApiError>,
    artifact: CompiledProgramArtifact,
    written: Seq<char>,
    request: LifetimeExecutionRequest,
)
    requires
        answered(r, artifact, written, request),
    ensures
        r matches Ok(response) ==> {
            &&& request_fault(request) is None
            &&& response.entity == request.entity
            &&& texts(response.entity_ids@) == texts(request.batches@[0].entity_ids@)
            &&& response.row_count == request.batches@[0].row_count
            &&& response.periods == request.periods
            &&& response.output_period == request.output_period
            &&& response.reference_period == request.output_period
            &&& response.artifact_format_version == artifact.artifact_format_version
            &&& response.outputs@.len() == request.outputs@.len()
            &&& forall|j: int|
                0 <= j < request.outputs@.len() ==> {
                    let out = #[trigger] response.outputs@[j];
                    &&& out.id@ == request.outputs@[j]@
                    &&& item_named(artifact.program.derived@, out.name@) matches Some(d)
                    &&& out.dtype == d.dtype
                    &&& out.unit == d.unit
                }
        },
{
    if let Ok(response) = r {
        let program = artifact.program;
        let cx = CompileFacts { program, root: request.entity@ };
        let n = request.outputs@.len();
        outputs_are_rules_by_their_public_names(program, compiled_names(cx), request.outputs@, n);
        let names = output_rules(program, compiled_names(cx), request.outputs@, n)->Ok_0;
        let version = artifact.artifact_format_version;
        let catalog = choose|catalog: Seq<CatalogEntry>| #[trigger]
            catalog_of(catalog, slot_pairs(program)) && answered_by(
                r,
                cx,
                catalog,
                version,
                request,
            );
        let inputs = InputFacts { program, inputs: read_names(cx), catalog };
        let read = batches_read(inputs, request.batches@, request.batches@.len())->Ok_0;
        let (dense, v) = choose|dense: DenseCompiledProgram, v: Evaluation|
            dense.well_formed() && #[trigger] stands_for(dense, cx) && #[trigger] evaluation_is(
                v,
                request,
                names,
                read,
            ) && evaluated_as(r, dense, program, version, request, names, v);
        assert forall|j: int| 0 <= j < n implies {
            let out = #[trigger] response.outputs@[j];
            &&& out.id@ == request.outputs@[j]@
            &&& item_named(artifact.program.derived@, out.name@) matches Some(d)
            &&& out.dtype == d.dtype
            &&& out.unit == d.unit
        } by {
            assert(is_output_of(program, compiled_names(cx), request.outputs@[j]@, names[j]));
            output_is_of_its_rule(r, dense, program, version, request, names, v, j);
            let d = item_named(program.derived@, names[j])->Some_0;
            crate::model::position_from_meaning(program.derived@, names[j], 0);
            assert(d.name@ == names[j]);
        }
    }
}

} // verus!
