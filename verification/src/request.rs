//! Requests in either mode, with explain as the fallback of fast.
use crate::agreement::{facts_agree, rules_agree};
use crate::api::{
    dates_keep_answers, dates_keep_errors, differ_in_dates, early_assessment, ending_references_answer_queries, execute_explain, explained, is_answer, output_answer,
    output_ends, output_entries, outputs_among, put_output, queries_end, queries_error,
    query_facts, query_outputs, validate_assessment_dates, ApiError, ExecutionMetadata,
    ExecutionMode, ExecutionQuery, ExecutionResponse, Keyed, OutputValue, OutputView, QueryResult,
};
use crate::bulk::{
    output_holds, unnamed, unsupported_text, BulkEvaluator, EvaluatedOutput, OutputColumn,
};
use crate::catalog::{derived_named, parameter_named};
use crate::compile::{rounding_fault, validate_rounding, CompileErrorView, CompiledProgramArtifact};
use crate::date_use::{comes_after, is_met_first, output_dates, Met};
use crate::engine::{judgment_meaning, judgment_terminates, scalar_meaning, scalar_terminates};
use crate::error::{ErrorView, EvalError};
use crate::error_text::error_text;
use crate::inputs::{
    contradicted_spell, resolution_keeps_values, resolve_inputs_for_period, resolved_inputs,
    spells_agree, validate_input_spells,
};
use crate::lazy::RowMask;
use crate::model::{find_named, DataSet, DerivedSemantics, Program};
use crate::pins::{apply_pins, pinned_with, pins_keep_ending, PinError, RulePin};
use crate::semantics::{input_value, Facts};
use crate::termination::{
    check_rules_end, ending_rule_gives_values, references_end, rule_references_end,
};
use crate::text::{opt_text, owned, same, texts};
use vstd::prelude::*;
use vstd::string::*;

verus! {

/// What the bulk evaluator made of a request.
#[derive(Debug)]
pub enum FastPathResult {
    Executed(ExecutionResponse),
    /// The request is for explain, which decides the outcome.
    Unsupported { reason: String },
}

/// Whether all queries are over the period of the first.
pub open spec fn share_period(queries: Seq<ExecutionQuery>) -> bool {
    forall|i: int| 0 <= i < queries.len() ==> (#[trigger] queries[i]).period@ == queries[0].period@
}

/// The first reference among the first `n` that names no rule.
pub open spec fn unresolved_among(
    p: Program,
    references: Seq<Seq<char>>,
    n: nat,
) -> Option<Seq<char>>
    decreases n,
{
    if n == 0 || n > references.len() {
        None
    } else {
        match unresolved_among(p, references, (n - 1) as nat) {
            Some(reference) => Some(reference),
            None => if derived_named(p, references[n - 1]) is Some {
                None
            } else {
                Some(references[n - 1])
            },
        }
    }
}

/// The first reference of the first `n` queries that names no rule.
pub open spec fn unresolved(p: Program, queries: Seq<ExecutionQuery>, n: nat) -> Option<Seq<char>>
    decreases n,
{
    if n == 0 || n > queries.len() {
        None
    } else {
        match unresolved(p, queries, (n - 1) as nat) {
            Some(reference) => Some(reference),
            None => unresolved_among(
                p,
                texts(queries[n - 1].outputs@),
                queries[n - 1].outputs@.len(),
            ),
        }
    }
}

/// Why a reference that names no rule is for explain.
pub open spec fn unresolved_reason(p: Program, reference: Seq<char>) -> Seq<char> {
    if parameter_named(p, reference) is Some {
        "parameter output `"@ + reference + "` uses the explain path"@
    } else {
        "unknown output `"@ + reference + "`; explain reports it"@
    }
}

pub open spec fn failed_reason(error: ErrorView) -> Seq<char> {
    "bulk evaluation failed ("@ + error_text(error) + "); explain decides the outcome"@
}

/// Whether a query asks for a rule.
pub open spec fn asks_for_rule(p: Program, query: ExecutionQuery, name: Seq<char>) -> bool {
    exists|k: int|
        0 <= k < query.outputs@.len() && derived_named(p, #[trigger] texts(query.outputs@)[k])
            == Some(name)
}

/// The dates that a rule meets first where a query asks for it.
pub open spec fn query_dates(
    p: Program,
    data: DataSet,
    query: ExecutionQuery,
    name: Seq<char>,
) -> Option<Met> {
    if asks_for_rule(p, query, name) {
        output_dates(query_facts(p, data, query), name, query.entity_id@)
    } else {
        None
    }
}

/// The error that a rule gives where a query asks for it.
pub open spec fn query_error(
    p: Program,
    data: DataSet,
    query: ExecutionQuery,
    name: Seq<char>,
) -> Option<ErrorView> {
    if asks_for_rule(p, query, name) {
        rule_error(query_facts(p, data, query), name, query.entity_id@)
    } else {
        None
    }
}

/// Whether evaluating the rules that queries ask for meets dates.
pub open spec fn dates_occur(p: Program, data: DataSet, queries: Seq<ExecutionQuery>) -> bool {
    exists|i: int, name: Seq<char>|
        0 <= i < queries.len() && #[trigger] query_dates(p, data, queries[i], name) is Some
}

/// Whether a query is the one whose dates come first among those that queries meet in a rule
/// that they ask for.
pub open spec fn meets_first(
    p: Program,
    data: DataSet,
    queries: Seq<ExecutionQuery>,
    name: Seq<char>,
    i: int,
) -> bool {
    &&& 0 <= i < queries.len()
    &&& query_dates(p, data, queries[i], name) is Some
    &&& forall|j: int|
        0 <= j < queries.len() ==> comes_after(
            query_dates(p, data, queries[i], name)->0,
            #[trigger] query_dates(p, data, queries[j], name),
        )
}

/// Whether a query is the first for which a rule that it asks for fails.
pub open spec fn fails_first(
    p: Program,
    data: DataSet,
    queries: Seq<ExecutionQuery>,
    name: Seq<char>,
    i: int,
) -> bool {
    &&& 0 <= i < queries.len()
    &&& query_error(p, data, queries[i], name) is Some
    &&& forall|j: int| 0 <= j < i ==> #[trigger] query_error(p, data, queries[j], name) is None
}

/// Whether no query that asks for a rule meets dates in it.
pub open spec fn meets_none(
    p: Program,
    data: DataSet,
    queries: Seq<ExecutionQuery>,
    name: Seq<char>,
) -> bool {
    forall|i: int|
        0 <= i < queries.len() ==> #[trigger] query_dates(p, data, queries[i], name) is None
}

/// Whether a rule has a value for each query that asks for it, and none of them meets dates.
pub open spec fn is_answered(
    p: Program,
    data: DataSet,
    queries: Seq<ExecutionQuery>,
    name: Seq<char>,
) -> bool {
    &&& meets_none(p, data, queries, name)
    &&& forall|i: int|
        0 <= i < queries.len() ==> #[trigger] query_error(p, data, queries[i], name) is None
}

/// The rule that output `k` of query `i` names.
pub open spec fn asked_rule(
    p: Program,
    queries: Seq<ExecutionQuery>,
    i: int,
    k: int,
) -> Seq<char> {
    derived_named(p, texts(queries[i].outputs@)[k])->Some_0
}

/// Whether output `k` of query `i` names the first rule that is not answered, in the order of
/// the queries and of their outputs.
pub open spec fn is_first_unanswered(
    p: Program,
    data: DataSet,
    queries: Seq<ExecutionQuery>,
    i: int,
    k: int,
) -> bool {
    &&& 0 <= i < queries.len()
    &&& 0 <= k < queries[i].outputs@.len()
    &&& !is_answered(p, data, queries, asked_rule(p, queries, i, k))
    &&& forall|j: int, m: int|
        0 <= j <= i && 0 <= m < queries[j].outputs@.len() && (j < i || m < k) ==> is_answered(
            p,
            data,
            queries,
            #[trigger] asked_rule(p, queries, j, m),
        )
}

/// Whether a reason tells why a rule is not answered: the dates that its rows meet first, else
/// the error of its lowest row that fails.
pub open spec fn is_rule_reason(
    p: Program,
    data: DataSet,
    queries: Seq<ExecutionQuery>,
    name: Seq<char>,
    reason: Seq<char>,
) -> bool {
    ||| exists|i: int| #[trigger]
        meets_first(p, data, queries, name, i) && reason == unsupported_text(
            query_dates(p, data, queries[i], name)->0.what,
        )
    ||| meets_none(p, data, queries, name) && queries_error(
        p,
        data,
        queries,
        queries.len(),
    ) is Some && exists|i: int| #[trigger]
        fails_first(p, data, queries, name, i) && tells_of(
            reason,
            query_error(p, data, queries[i], name)->0,
        )
}

/// Whether a reason to leave queries to explain is given: why the first rule, in the order in
/// which they are asked for, is not answered.
pub open spec fn is_fallback_reason(
    p: Program,
    data: DataSet,
    queries: Seq<ExecutionQuery>,
    reason: Seq<char>,
) -> bool {
    exists|i: int, k: int| #[trigger]
        is_first_unanswered(p, data, queries, i, k) && is_rule_reason(
            p,
            data,
            queries,
            asked_rule(p, queries, i, k),
            reason,
        )
}

pub open spec fn is_fast_metadata(metadata: ExecutionMetadata) -> bool {
    &&& metadata.requested_mode == ExecutionMode::Fast
    &&& metadata.actual_mode == ExecutionMode::Fast
    &&& metadata.fallback_reason is None
}

/// Whether a result answers a query, without a trace.
pub open spec fn is_fast_answer(
    p: Program,
    data: DataSet,
    query: ExecutionQuery,
    result: QueryResult,
) -> bool {
    &&& result.entity_id@ == query.entity_id@
    &&& result.period@ == query.period@
    &&& result.assessment_date == query.assessment_date
    &&& query_outputs(p, data, query) == Ok::<Seq<(Seq<char>, OutputView)>, ErrorView>(
        output_entries(result.outputs@),
    )
    &&& result.trace@.len() == 0
}

pub open spec fn is_fast_response(
    p: Program,
    data: DataSet,
    queries: Seq<ExecutionQuery>,
    response: ExecutionResponse,
) -> bool {
    &&& is_fast_metadata(response.metadata)
    &&& response.results@.len() == queries.len()
    &&& forall|i: int|
        0 <= i < queries.len() ==> is_fast_answer(
            p,
            data,
            queries[i],
            #[trigger] response.results@[i],
        )
}

/// What comes of the fast path. The request is executed just where nothing is asked for beyond
/// rules, every rule has a value on every row that asks for it, and no row meets dates.
pub open spec fn fast_path(
    p: Program,
    data: DataSet,
    queries: Seq<ExecutionQuery>,
    r: FastPathResult,
) -> bool {
    if !share_period(queries) {
        match r {
            FastPathResult::Unsupported { reason } => reason@
                == "fast mode currently requires all queries in a batch to share one period"@,
            FastPathResult::Executed(_) => false,
        }
    } else {
        match unresolved(p, queries, queries.len()) {
            Some(reference) => match r {
                FastPathResult::Unsupported { reason } => reason@ == unresolved_reason(p, reference),
                FastPathResult::Executed(_) => false,
            },
            None => match r {
                FastPathResult::Executed(response) => is_fast_response(p, data, queries, response)
                    && !dates_occur(p, data, queries),
                FastPathResult::Unsupported { reason } => is_fallback_reason(
                    p,
                    data,
                    queries,
                    reason@,
                ) && queries.len() > 0,
            },
        }
    }
}

fn fast_mode_metadata() -> (r: ExecutionMetadata)
    ensures
        is_fast_metadata(r),
{
    ExecutionMetadata {
        requested_mode: ExecutionMode::Fast,
        actual_mode: ExecutionMode::Fast,
        fallback_reason: None,
    }
}

fn periods_shared(queries: &Vec<ExecutionQuery>) -> (r: bool)
    ensures
        r == share_period(queries@),
{
    let mut i: usize = 0;
    while i < queries.len()
        invariant
            i <= queries@.len(),
            forall|j: int| 0 <= j < i ==> (#[trigger] queries@[j]).period@ == queries@[0].period@,
        decreases queries@.len() - i,
    {
        if !queries[i].period.same_period(&queries[0].period) {
            assert(queries@[i as int].period@ != queries@[0].period@);
            return false;
        }
        i = i + 1;
    }
    true
}

/// The names of the rules that references name.
pub open spec fn names_of(p: Program, references: Seq<Seq<char>>) -> Seq<Seq<char>> {
    references.map_values(|reference: Seq<char>| derived_named(p, reference)->Some_0)
}

fn reason_for(program: &Program, reference: &str) -> (r: String)
    ensures
        r@ == unresolved_reason(*program, reference@),
{
    if program.resolve_parameter_name(reference).is_some() {
        let mut text = owned("parameter output `");
        text.append(reference);
        text.append("` uses the explain path");
        text
    } else {
        let mut text = owned("unknown output `");
        text.append(reference);
        text.append("`; explain reports it");
        text
    }
}

proof fn unresolved_among_stays(p: Program, references: Seq<Seq<char>>, n: nat, m: nat)
    requires
        n <= m <= references.len(),
        unresolved_among(p, references, n) is Some,
    ensures
        unresolved_among(p, references, m) == unresolved_among(p, references, n),
    decreases m,
{
    if n < m {
        unresolved_among_stays(p, references, n, (m - 1) as nat);
    }
}

proof fn unresolved_stays(p: Program, queries: Seq<ExecutionQuery>, n: nat, m: nat)
    requires
        n <= m <= queries.len(),
        unresolved(p, queries, n) is Some,
    ensures
        unresolved(p, queries, m) == unresolved(p, queries, n),
    decreases m,
{
    if n < m {
        unresolved_stays(p, queries, n, (m - 1) as nat);
    }
}

/// The rules that a query asks for, or why it is for explain.
fn resolve_query(program: &Program, query: &ExecutionQuery) -> (r: Result<Vec<String>, String>)
    ensures
        match unresolved_among(*program, texts(query.outputs@), query.outputs@.len()) {
            Some(reference) => match r {
                Err(reason) => reason@ == unresolved_reason(*program, reference),
                Ok(_) => false,
            },
            None => match r {
                Ok(names) => texts(names@) == names_of(*program, texts(query.outputs@))
                    && forall|k: int|
                    0 <= k < query.outputs@.len() ==> derived_named(
                        *program,
                        #[trigger] texts(query.outputs@)[k],
                    ) is Some,
                Err(_) => false,
            },
        },
{
    let ghost references = texts(query.outputs@);
    let mut names: Vec<String> = Vec::new();
    let mut i: usize = 0;
    assert(references.len() == query.outputs@.len());
    while i < query.outputs.len()
        invariant
            i <= query.outputs@.len(),
            references == texts(query.outputs@),
            references.len() == query.outputs@.len(),
            unresolved_among(*program, references, i as nat) is None,
            texts(names@) =~= names_of(*program, references).take(i as int),
            forall|k: int|
                0 <= k < i ==> derived_named(*program, #[trigger] references[k]) is Some,
        decreases query.outputs@.len() - i,
    {
        assert(references[i as int] == query.outputs@[i as int]@);
        let ghost before = names@;
        match program.resolve_derived_name(query.outputs[i].as_str()) {
            Some(name) => {
                names.push(name);
                proof {
                    let all = names_of(*program, references);
                    assert(texts(names@) =~= texts(before).push(name@));
                    assert(all.take(i + 1) =~= all.take(i as int).push(all[i as int]));
                }
            },
            None => {
                proof {
                    assert(unresolved_among(*program, references, (i + 1) as nat) == Some(
                        references[i as int],
                    ));
                    unresolved_among_stays(
                        *program,
                        references,
                        (i + 1) as nat,
                        references.len(),
                    );
                }
                return Err(reason_for(program, query.outputs[i].as_str()));
            },
        }
        i = i + 1;
    }
    assert(names_of(*program, references).take(i as int) =~= names_of(*program, references));
    Ok(names)
}

/// Whether lists have the names of the rules that the first queries ask for.
pub open spec fn resolved_queries(
    p: Program,
    queries: Seq<ExecutionQuery>,
    lists: Seq<Vec<String>>,
) -> bool {
    &&& lists.len() <= queries.len()
    &&& forall|i: int|
        0 <= i < lists.len() ==> texts((#[trigger] lists[i])@) == names_of(
            p,
            texts(queries[i].outputs@),
        )
    &&& forall|i: int, k: int|
        0 <= i < lists.len() && 0 <= k < queries[i].outputs@.len() ==> derived_named(
            p,
            #[trigger] texts(queries[i].outputs@)[k],
        ) is Some
}

fn resolve_queries(program: &Program, queries: &Vec<ExecutionQuery>) -> (r: Result<
    Vec<Vec<String>>,
    String,
>)
    ensures
        match unresolved(*program, queries@, queries@.len()) {
            Some(reference) => match r {
                Err(reason) => reason@ == unresolved_reason(*program, reference),
                Ok(_) => false,
            },
            None => match r {
                Ok(lists) => lists@.len() == queries@.len() && resolved_queries(
                    *program,
                    queries@,
                    lists@,
                ),
                Err(_) => false,
            },
        },
{
    let mut lists: Vec<Vec<String>> = Vec::new();
    let mut i: usize = 0;
    while i < queries.len()
        invariant
            i <= queries@.len(),
            lists@.len() == i,
            unresolved(*program, queries@, i as nat) is None,
            resolved_queries(*program, queries@, lists@),
        decreases queries@.len() - i,
    {
        match resolve_query(program, &queries[i]) {
            Ok(names) => {
                lists.push(names);
            },
            Err(reason) => {
                proof {
                    assert(unresolved(*program, queries@, (i + 1) as nat) is Some);
                    unresolved_stays(*program, queries@, (i + 1) as nat, queries@.len());
                }
                return Err(reason);
            },
        }
        i = i + 1;
    }
    Ok(lists)
}

/// A rule that was asked for, on the rows that ask for it.
struct Requested {
    name: String,
    rows: RowMask,
    output: EvaluatedOutput,
}

spec fn is_requested(lists: Seq<Vec<String>>, row: int, name: Seq<char>) -> bool {
    0 <= row < lists.len() && texts(lists[row]@).contains(name)
}

/// Whether an evaluated rule has a value on each row that asks for it.
spec fn requested_holds(
    cx: Facts,
    ids: Seq<Seq<char>>,
    lists: Seq<Vec<String>>,
    requested: Requested,
) -> bool {
    &&& output_holds(cx, ids, requested.name@, requested.rows, requested.output)
    &&& forall|row: int| #[trigger]
        requested.rows.has(row) ==> output_dates(cx, requested.name@, ids[row]) is None
    &&& forall|row: int| #[trigger]
        requested.rows.has(row) <==> is_requested(lists, row, requested.name@)
    &&& forall|row: int| !#[trigger] requested.output.errors.failed(row)
}

fn lists_text(list: &Vec<String>, text: &str) -> (r: bool)
    ensures
        r == texts(list@).contains(text@),
{
    crate::schedule::holds_text(list, text)
}

/// The rows that ask for a rule.
fn requesting_rows(lists: &Vec<Vec<String>>, name: &str) -> (r: RowMask)
    ensures
        r@.len() == lists@.len(),
        forall|row: int| #[trigger] r.has(row) <==> is_requested(lists@, row, name@),
{
    let mut bits: Vec<bool> = Vec::new();
    let mut i: usize = 0;
    while i < lists.len()
        invariant
            i <= lists@.len(),
            bits@.len() == i,
            forall|row: int|
                0 <= row < i ==> #[trigger] bits@[row] == texts(lists@[row]@).contains(name@),
        decreases lists@.len() - i,
    {
        bits.push(lists_text(&lists[i], name));
        i = i + 1;
    }
    RowMask::from_bits(bits)
}

fn find_requested(requested: &Vec<Requested>, name: &str) -> (r: Option<usize>)
    ensures
        match r {
            Some(i) => i < requested@.len() && requested@[i as int].name@ == name@,
            None => forall|i: int|
                0 <= i < requested@.len() ==> (#[trigger] requested@[i]).name@ != name@,
        },
{
    let mut i: usize = 0;
    while i < requested.len()
        invariant
            i <= requested@.len(),
            forall|j: int| 0 <= j < i ==> (#[trigger] requested@[j]).name@ != name@,
        decreases requested@.len() - i,
    {
        if same(requested[i].name.as_str(), name) {
            return Some(i);
        }
        i = i + 1;
    }
    None
}

/// What must hold for a rule to be evaluated on the rows that ask for it.
spec fn rows_end(cx: Facts, ids: Seq<Seq<char>>, lists: Seq<Vec<String>>) -> bool {
    &&& ids.len() == lists.len()
    &&& forall|row: int, name: Seq<char>| #[trigger]
        is_requested(lists, row, name) ==> cx.program.rule(name) is Some && scalar_terminates(
            cx,
            name,
            ids[row],
        ) && judgment_terminates(cx, name, ids[row])
}

/// Whether the dates that a row meets in a rule come first among those of the rows that ask
/// for it.
spec fn row_meets_first(
    cx: Facts,
    ids: Seq<Seq<char>>,
    lists: Seq<Vec<String>>,
    name: Seq<char>,
    row: int,
) -> bool {
    &&& is_requested(lists, row, name)
    &&& output_dates(cx, name, ids[row]) is Some
    &&& forall|other: int| #[trigger]
        is_requested(lists, other, name) ==> comes_after(
            output_dates(cx, name, ids[row])->0,
            output_dates(cx, name, ids[other]),
        )
}

/// Whether a row is the lowest of those that ask for a rule for which it fails.
spec fn row_fails_first(
    cx: Facts,
    ids: Seq<Seq<char>>,
    lists: Seq<Vec<String>>,
    name: Seq<char>,
    row: int,
) -> bool {
    &&& is_requested(lists, row, name)
    &&& rule_error(cx, name, ids[row]) is Some
    &&& forall|other: int| #[trigger]
        is_requested(lists, other, name) && other < row ==> rule_error(cx, name, ids[other]) is None
}

/// Why a rule that rows ask for is not evaluated.
spec fn is_row_reason(
    cx: Facts,
    ids: Seq<Seq<char>>,
    lists: Seq<Vec<String>>,
    name: Seq<char>,
    reason: Seq<char>,
) -> bool {
    ||| exists|row: int| #[trigger]
        row_meets_first(cx, ids, lists, name, row) && reason == unsupported_text(
            output_dates(cx, name, ids[row])->0.what,
        )
    ||| (forall|row: int| #[trigger]
        is_requested(lists, row, name) ==> output_dates(cx, name, ids[row]) is None) && exists|
        row: int,
    | #[trigger]
        row_fails_first(cx, ids, lists, name, row) && tells_of(
            reason,
            rule_error(cx, name, ids[row])->0,
        )
}

/// The error that a rule which is asked for gives.
pub open spec fn rule_error(cx: Facts, name: Seq<char>, id: Seq<char>) -> Option<ErrorView> {
    match cx.program.rule(name) {
        None => Some(ErrorView::UnknownDerived(name)),
        Some(d) => match d.formula_at(cx.period.start) {
            None => Some(
                ErrorView::MissingDerivedFormulaVersion { derived: name, at: cx.period.start },
            ),
            Some(DerivedSemantics::Scalar(_)) => scalar_meaning(cx, name, id).value.err(),
            Some(DerivedSemantics::Judgment(_)) => judgment_meaning(cx, name, id).value.err(),
        },
    }
}

/// Whether a text says that a row failed with an error, with or without the name of its rule.
pub open spec fn tells_of(reason: Seq<char>, error: ErrorView) -> bool {
    reason == failed_reason(error) || reason == failed_reason(unnamed(error))
}

fn evaluate_requested<'a>(
    evaluator: &mut BulkEvaluator<'a>,
    lists: &Vec<Vec<String>>,
    name: &str,
) -> (r: Result<Requested, String>)
    requires
        old(evaluator).well_formed(),
        rows_end(old(evaluator).facts(), old(evaluator).ids(), lists@),
        exists|row: int| is_requested(lists@, row, name@),
    ensures
        final(evaluator).continues(old(evaluator)),
        match r {
            Ok(requested) => requested.name@ == name@ && requested_holds(
                old(evaluator).facts(),
                old(evaluator).ids(),
                lists@,
                requested,
            ),
            Err(reason) => is_row_reason(
                old(evaluator).facts(),
                old(evaluator).ids(),
                lists@,
                name@,
                reason@,
            ),
        },
{
    let ghost (cx, ids) = (evaluator.facts(), evaluator.ids());
    let rows = requesting_rows(lists, name);
    proof {
        let row = choose|row: int| is_requested(lists@, row, name@);
        assert(cx.program.rule(name@) is Some);
        assert forall|row: int| #[trigger] rows.has(row) implies scalar_terminates(
            cx,
            name@,
            ids[row],
        ) && judgment_terminates(cx, name@, ids[row]) by {
            assert(is_requested(lists@, row, name@));
        }
    }
    let output = match evaluator.evaluate_output(name, &rows) {
        Ok(output) => output,
        Err(error) => {
            let reason = match error {
                EvalError::TypeMismatch(message) => {
                    proof {
                        let met = |id: Seq<char>| output_dates(cx, name@, id);
                        let row = choose|row: int| #[trigger]
                            is_met_first(ids, rows, met, row) && error@ == ErrorView::TypeMismatch(
                                unsupported_text(met(ids[row])->0.what),
                            );
                        assert(rows.has(row));
                        assert(is_requested(lists@, row, name@));
                        assert forall|other: int| #[trigger]
                            is_requested(lists@, other, name@) implies comes_after(
                            output_dates(cx, name@, ids[row])->0,
                            output_dates(cx, name@, ids[other]),
                        ) by {
                            assert(rows.has(other));
                            assert(met(ids[other]) == output_dates(cx, name@, ids[other]));
                        }
                        assert(row_meets_first(cx, ids, lists@, name@, row));
                    }
                    message
                },
                other => {
                    assert(false);
                    other.to_text()
                },
            };
            return Err(reason);
        },
    };
    if let Some((row, error)) = output.errors.first() {
        let mut reason = owned("bulk evaluation failed (");
        reason.append(error.to_text().as_str());
        reason.append("); explain decides the outcome");
        proof {
            assert(reason@ == failed_reason(error@));
            let k = row as int;
            assert(output.errors.failed(k));
            assert(rows.has(k));
            assert(is_requested(lists@, k, name@));
            assert(rule_error(cx, name@, ids[k]) is Some);
            assert(tells_of(reason@, rule_error(cx, name@, ids[k])->0));
            assert forall|other: int| #[trigger]
                is_requested(lists@, other, name@) && other < k implies rule_error(
                cx,
                name@,
                ids[other],
            ) is None by {
                assert(rows.has(other));
                assert(!output.errors.failed(other));
            }
            assert forall|other: int| #[trigger]
                is_requested(lists@, other, name@) implies output_dates(
                cx,
                name@,
                ids[other],
            ) is None by {
                assert(rows.has(other));
            }
            assert(row_fails_first(cx, ids, lists@, name@, k));
        }
        return Err(reason);
    }
    Ok(Requested { name: owned(name), rows, output })
}

/// The output of a rule on a row.
fn row_output(
    program: &Program,
    requested: &Requested,
    row: usize,
    Ghost(cx): Ghost<Facts>,
    Ghost(ids): Ghost<Seq<Seq<char>>>,
    Ghost(lists): Ghost<Seq<Vec<String>>>,
    Ghost(reference): Ghost<Seq<char>>,
) -> (r: (String, OutputValue))
    requires
        cx.program == *program,
        row < ids.len(),
        requested_holds(cx, ids, lists, *requested),
        is_requested(lists, row as int, requested.name@),
        derived_named(*program, reference) == Some(requested.name@),
    ensures
        output_answer(cx, ids[row as int], reference) == Ok::<
            (Seq<char>, OutputView),
            ErrorView,
        >((r.0@, r.1@)),
{
    let name = requested.name.as_str();
    proof {
        assert(requested.rows.has(row as int));
        assert(!requested.output.errors.failed(row as int));
    }
    match find_named(&program.derived, name) {
        Some(derived) => {
            let key = match &derived.id {
                Some(id) => id.clone(),
                None => owned(name),
            };
            let output = match &requested.output.values {
                OutputColumn::Scalar(column) => OutputValue::Scalar {
                    name: derived.name.clone(),
                    id: derived.id.clone(),
                    dtype: derived.dtype,
                    unit: derived.unit.clone(),
                    value: column.value_at(row),
                },
                OutputColumn::Judgment(outcomes) => OutputValue::Judgment {
                    name: derived.name.clone(),
                    id: derived.id.clone(),
                    unit: derived.unit.clone(),
                    outcome: outcomes[row],
                },
            };
            (key, output)
        },
        None => {
            assert(false);
            let output = OutputValue::Judgment {
                name: String::new(),
                id: None,
                unit: None,
                outcome: crate::model::JudgmentOutcome::Undetermined,
            };
            (String::new(), output)
        },
    }
}

fn ids_of(queries: &Vec<ExecutionQuery>) -> (r: Vec<String>)
    ensures
        r@.len() == queries@.len(),
        forall|i: int| 0 <= i < r@.len() ==> (#[trigger] r@[i])@ == queries@[i].entity_id@,
{
    let mut ids: Vec<String> = Vec::new();
    let mut i: usize = 0;
    while i < queries.len()
        invariant
            i <= queries@.len(),
            ids@.len() == i,
            forall|j: int| 0 <= j < i ==> (#[trigger] ids@[j])@ == queries@[j].entity_id@,
        decreases queries@.len() - i,
    {
        ids.push(queries[i].entity_id.clone());
        i = i + 1;
    }
    ids
}

/// The rows that ask for a rule are the queries that do.
proof fn requests_are_asked(
    p: Program,
    data: DataSet,
    queries: Seq<ExecutionQuery>,
    lists: Seq<Vec<String>>,
    ids: Seq<Seq<char>>,
    name: Seq<char>,
)
    requires
        share_period(queries),
        queries.len() > 0,
        lists.len() == queries.len(),
        resolved_queries(p, queries, lists),
        forall|i: int| 0 <= i < ids.len() ==> #[trigger] ids[i] == queries[i].entity_id@,
        ids.len() == queries.len(),
    ensures
        forall|i: int|
            #![trigger query_dates(p, data, queries[i], name)]
            #![trigger is_requested(lists, i, name)]
            0 <= i < queries.len() ==> query_dates(p, data, queries[i], name) == if is_requested(
                lists,
                i,
                name,
            ) {
                output_dates(query_facts(p, data, queries[0]), name, ids[i])
            } else {
                None
            },
        forall|i: int|
            #![trigger query_error(p, data, queries[i], name)]
            #![trigger is_requested(lists, i, name)]
            0 <= i < queries.len() ==> query_error(p, data, queries[i], name) == if is_requested(
                lists,
                i,
                name,
            ) {
                rule_error(query_facts(p, data, queries[0]), name, ids[i])
            } else {
                None
            },
{
    let cx = query_facts(p, data, queries[0]);
    assert forall|i: int| 0 <= i < queries.len() implies (#[trigger] is_requested(lists, i, name)
        == asks_for_rule(p, queries[i], name)) && query_facts(p, data, queries[i]) == cx
        && ids[i] == queries[i].entity_id@ by {
        let references = texts(queries[i].outputs@);
        let names = texts(lists[i]@);
        assert(names == names_of(p, references));
        assert(names.len() == queries[i].outputs@.len());
        if is_requested(lists, i, name) {
            let k = names.index_of(name);
            assert(names_of(p, references)[k] == name);
            assert(derived_named(p, references[k]) is Some);
        }
        if asks_for_rule(p, queries[i], name) {
            let k = choose|k: int|
                0 <= k < queries[i].outputs@.len() && derived_named(
                    p,
                    #[trigger] texts(queries[i].outputs@)[k],
                ) == Some(name);
            assert(names[k] == name);
        }
        assert(queries[i].period@ == queries[0].period@);
    }
    assert forall|i: int| 0 <= i < queries.len() implies #[trigger] query_dates(
        p,
        data,
        queries[i],
        name,
    ) == if is_requested(lists, i, name) {
        output_dates(cx, name, ids[i])
    } else {
        None
    } by {
        assert(is_requested(lists, i, name) == asks_for_rule(p, queries[i], name));
    }
    assert forall|i: int| 0 <= i < queries.len() implies #[trigger] query_error(
        p,
        data,
        queries[i],
        name,
    ) == if is_requested(lists, i, name) {
        rule_error(cx, name, ids[i])
    } else {
        None
    } by {
        assert(is_requested(lists, i, name) == asks_for_rule(p, queries[i], name));
    }
}

/// A rule that is evaluated on the rows that ask for it is answered.
proof fn evaluated_rules_are_answered(
    p: Program,
    data: DataSet,
    queries: Seq<ExecutionQuery>,
    lists: Seq<Vec<String>>,
    ids: Seq<Seq<char>>,
    requested: Requested,
)
    requires
        share_period(queries),
        queries.len() > 0,
        lists.len() == queries.len(),
        resolved_queries(p, queries, lists),
        forall|i: int| 0 <= i < ids.len() ==> #[trigger] ids[i] == queries[i].entity_id@,
        ids.len() == queries.len(),
        requested_holds(query_facts(p, data, queries[0]), ids, lists, requested),
    ensures
        is_answered(p, data, queries, requested.name@),
{
    let cx = query_facts(p, data, queries[0]);
    let name = requested.name@;
    requests_are_asked(p, data, queries, lists, ids, name);
    assert forall|i: int| 0 <= i < queries.len() implies #[trigger] query_dates(
        p,
        data,
        queries[i],
        name,
    ) is None by {
        if is_requested(lists, i, name) {
            assert(requested.rows.has(i));
        }
    }
    assert forall|i: int| 0 <= i < queries.len() implies #[trigger] query_error(
        p,
        data,
        queries[i],
        name,
    ) is None by {
        if is_requested(lists, i, name) {
            assert(requested.rows.has(i));
            assert(!requested.output.errors.failed(i));
        }
    }
}

proof fn row_reason_is_given(
    p: Program,
    data: DataSet,
    queries: Seq<ExecutionQuery>,
    lists: Seq<Vec<String>>,
    ids: Seq<Seq<char>>,
    name: Seq<char>,
    reason: Seq<char>,
)
    requires
        share_period(queries),
        queries.len() > 0,
        lists.len() == queries.len(),
        resolved_queries(p, queries, lists),
        forall|i: int| 0 <= i < ids.len() ==> #[trigger] ids[i] == queries[i].entity_id@,
        ids.len() == queries.len(),
        is_row_reason(query_facts(p, data, queries[0]), ids, lists, name, reason),
    ensures
        is_rule_reason(p, data, queries, name, reason),
        !is_answered(p, data, queries, name),
{
    let cx = query_facts(p, data, queries[0]);
    requests_are_asked(p, data, queries, lists, ids, name);
    if exists|row: int| #[trigger]
        row_meets_first(cx, ids, lists, name, row) && reason == unsupported_text(
            output_dates(cx, name, ids[row])->0.what,
        ) {
        let row = choose|row: int| #[trigger]
            row_meets_first(cx, ids, lists, name, row) && reason == unsupported_text(
                output_dates(cx, name, ids[row])->0.what,
            );
        assert(query_dates(p, data, queries[row], name) == output_dates(cx, name, ids[row]));
        assert(meets_first(p, data, queries, name, row));
    } else {
        let row = choose|row: int| #[trigger]
            row_fails_first(cx, ids, lists, name, row) && tells_of(
                reason,
                rule_error(cx, name, ids[row])->0,
            );
        assert(query_error(p, data, queries[row], name) == rule_error(cx, name, ids[row]));
        failing_rule_is_error(p, data, queries, lists, row, name);
        assert(fails_first(p, data, queries, name, row));
    }
}

/// Evaluates all rows of a request at once. What it does not answer is for explain, which
/// then decides the outcome: it never returns an evaluation error.
pub fn try_execute(program: &Program, data: &DataSet, queries: &Vec<ExecutionQuery>) -> (r:
    FastPathResult)
    requires
        queries_end(*program, *data, queries@),
    ensures
        fast_path(*program, *data, queries@, r),
{
    if !periods_shared(queries) {
        return FastPathResult::Unsupported {
            reason: owned(
                "fast mode currently requires all queries in a batch to share one period",
            ),
        };
    }
    let lists = match resolve_queries(program, queries) {
        Ok(lists) => lists,
        Err(reason) => {
            return FastPathResult::Unsupported { reason };
        },
    };
    if queries.len() == 0 {
        return FastPathResult::Executed(
            ExecutionResponse { metadata: fast_mode_metadata(), results: Vec::new() },
        );
    }
    let entity_ids = ids_of(queries);
    let ghost cx = query_facts(*program, *data, queries@[0]);
    let ghost ids = texts(entity_ids@);
    proof {
        assert forall|row: int, name: Seq<char>| #[trigger]
            is_requested(lists@, row, name) implies cx.program.rule(name) is Some
            && scalar_terminates(cx, name, ids[row]) && judgment_terminates(
            cx,
            name,
            ids[row],
        ) by {
            request_ends(*program, *data, queries@, lists@, row, name);
            assert(ids[row] == entity_ids@[row]@);
        }
        assert(rows_end(cx, ids, lists@));
    }
    let mut evaluator = BulkEvaluator::new(
        program,
        data,
        queries[0].period.duplicate(),
        entity_ids,
    );
    let mut requested: Vec<Requested> = Vec::new();
    let mut row: usize = 0;
    while row < lists.len()
        invariant
            row <= lists@.len(),
            evaluator.well_formed(),
            evaluator.facts() == cx,
            evaluator.ids() == ids,
            rows_end(cx, ids, lists@),
            lists@.len() == queries@.len(),
            queries@.len() > 0,
            share_period(queries@),
            cx == query_facts(*program, *data, queries@[0]),
            ids.len() == queries@.len(),
            forall|i: int| 0 <= i < ids.len() ==> #[trigger] ids[i] == queries@[i].entity_id@,
            unresolved(*program, queries@, queries@.len()) is None,
            resolved_queries(*program, queries@, lists@),
            forall|i: int|
                0 <= i < requested@.len() ==> requested_holds(
                    cx,
                    ids,
                    lists@,
                    #[trigger] requested@[i],
                ),
            forall|i: int, k: int|
                0 <= i < row && 0 <= k < (#[trigger] lists@[i])@.len() ==> is_evaluated_name(
                    requested@,
                    #[trigger] texts(lists@[i]@)[k],
                ),
        decreases lists@.len() - row,
    {
        let mut k: usize = 0;
        let list = &lists[row];
        while k < list.len()
            invariant
                k <= list@.len(),
                row < lists@.len(),
                *list == lists@[row as int],
                evaluator.well_formed(),
                evaluator.facts() == cx,
                evaluator.ids() == ids,
                rows_end(cx, ids, lists@),
                lists@.len() == queries@.len(),
                queries@.len() > 0,
                share_period(queries@),
                cx == query_facts(*program, *data, queries@[0]),
                ids.len() == queries@.len(),
                forall|i: int| 0 <= i < ids.len() ==> #[trigger] ids[i] == queries@[i].entity_id@,
                unresolved(*program, queries@, queries@.len()) is None,
                resolved_queries(*program, queries@, lists@),
                forall|i: int|
                    0 <= i < requested@.len() ==> requested_holds(
                        cx,
                        ids,
                        lists@,
                        #[trigger] requested@[i],
                    ),
                forall|i: int, j: int|
                    0 <= i < row && 0 <= j < (#[trigger] lists@[i])@.len() ==> is_evaluated_name(
                        requested@,
                        #[trigger] texts(lists@[i]@)[j],
                    ),
                forall|j: int|
                    0 <= j < k ==> is_evaluated_name(requested@, #[trigger] texts(list@)[j]),
            decreases list@.len() - k,
        {
            let name = list[k].as_str();
            assert(texts(list@)[k as int] == name@);
            let ghost before = requested@;
            match find_requested(&requested, name) {
                Some(i) => {
                    assert(is_evaluated_name(requested@, name@));
                },
                None => {
                    assert(texts(list@).contains(name@));
                    assert(is_requested(lists@, row as int, name@));
                    match evaluate_requested(&mut evaluator, &lists, name) {
                        Ok(item) => {
                            requested.push(item);
                            proof {
                                let last = before.len() as int;
                                assert(requested@[last].name@ == name@);
                                assert forall|t: Seq<char>| #[trigger]
                                    is_evaluated_name(before, t) implies is_evaluated_name(
                                    requested@,
                                    t,
                                ) by {
                                    let i = choose|i: int|
                                        0 <= i < before.len() && (#[trigger] before[i]).name@ == t;
                                    assert(requested@[i].name@ == t);
                                }
                                assert(is_evaluated_name(requested@, name@));
                            }
                        },
                        Err(reason) => {
                            proof {
                                row_reason_is_given(
                                    *program,
                                    *data,
                                    queries@,
                                    lists@,
                                    ids,
                                    name@,
                                    reason@,
                                );
                                assert(names_of(*program, texts(queries@[row as int].outputs@))[
                                    k as int
                                ] == asked_rule(*program, queries@, row as int, k as int));
                                assert(name@ == asked_rule(
                                    *program,
                                    queries@,
                                    row as int,
                                    k as int,
                                ));
                                assert forall|j: int, m: int|
                                    0 <= j <= row && 0 <= m < queries@[j].outputs@.len() && (j < row
                                        || m < k) implies is_answered(
                                    *program,
                                    *data,
                                    queries@,
                                    #[trigger] asked_rule(*program, queries@, j, m),
                                ) by {
                                    let references = texts(queries@[j].outputs@);
                                    assert(texts(lists@[j]@) == names_of(*program, references));
                                    assert(texts(lists@[j]@).len() == lists@[j]@.len());
                                    let t = texts(lists@[j]@)[m];
                                    assert(t == asked_rule(*program, queries@, j, m));
                                    assert(is_evaluated_name(requested@, t));
                                    let at = choose|at: int|
                                        0 <= at < requested@.len() && (
                                        #[trigger] requested@[at]).name@ == t;
                                    evaluated_rules_are_answered(
                                        *program,
                                        *data,
                                        queries@,
                                        lists@,
                                        ids,
                                        requested@[at],
                                    );
                                }
                                assert(is_first_unanswered(
                                    *program,
                                    *data,
                                    queries@,
                                    row as int,
                                    k as int,
                                ));
                            }
                            return FastPathResult::Unsupported { reason };
                        },
                    }
                },
            }
            k = k + 1;
        }
        row = row + 1;
    }
    let mut results: Vec<QueryResult> = Vec::new();
    let mut row: usize = 0;
    while row < queries.len()
        invariant
            row <= queries@.len(),
            results@.len() == row,
            lists@.len() == queries@.len(),
            share_period(queries@),
            cx == query_facts(*program, *data, queries@[0]),
            ids.len() == queries@.len(),
            forall|i: int| 0 <= i < ids.len() ==> #[trigger] ids[i] == queries@[i].entity_id@,
            resolved_queries(*program, queries@, lists@),
            forall|i: int|
                0 <= i < requested@.len() ==> requested_holds(
                    cx,
                    ids,
                    lists@,
                    #[trigger] requested@[i],
                ),
            forall|i: int, k: int|
                0 <= i < lists@.len() && 0 <= k < (#[trigger] lists@[i])@.len()
                    ==> is_evaluated_name(requested@, #[trigger] texts(lists@[i]@)[k]),
            forall|i: int|
                0 <= i < row ==> is_fast_answer(
                    *program,
                    *data,
                    queries@[i],
                    #[trigger] results@[i],
                ),
        decreases queries@.len() - row,
    {
        let query = &queries[row];
        let list = &lists[row];
        let ghost references = texts(query.outputs@);
        let ghost ent = query.entity_id@;
        let mut outputs: Vec<Keyed<OutputValue>> = Vec::new();
        let mut k: usize = 0;
        proof {
            assert(output_entries(outputs@) =~= Seq::empty());
            assert(texts(list@) == names_of(*program, references));
            assert(texts(list@).len() == list@.len());
            assert(query_facts(*program, *data, *query) == cx);
        }
        while k < list.len()
            invariant
                k <= list@.len(),
                row < queries@.len(),
                *query == queries@[row as int],
                *list == lists@[row as int],
                lists@.len() == queries@.len(),
                references == texts(query.outputs@),
                references.len() == list@.len(),
                texts(list@) == names_of(*program, references),
                ent == query.entity_id@,
                ids.len() == queries@.len(),
                ids[row as int] == ent,
                cx.program == *program,
                resolved_queries(*program, queries@, lists@),
                forall|i: int|
                    0 <= i < requested@.len() ==> requested_holds(
                        cx,
                        ids,
                        lists@,
                        #[trigger] requested@[i],
                    ),
                forall|j: int|
                    0 <= j < list@.len() ==> is_evaluated_name(
                        requested@,
                        #[trigger] texts(list@)[j],
                    ),
                outputs_among(cx, ent, references, k as nat) == Ok::<
                    Seq<(Seq<char>, OutputView)>,
                    ErrorView,
                >(output_entries(outputs@)),
            decreases list@.len() - k,
        {
            let name = list[k].as_str();
            assert(texts(list@)[k as int] == name@);
            assert(texts(list@).contains(name@));
            assert(is_requested(lists@, row as int, name@));
            assert(is_evaluated_name(requested@, name@));
            let at: usize = match find_requested(&requested, name) {
                Some(at) => at,
                None => {
                    proof {
                        let i = choose|i: int|
                            0 <= i < requested@.len() && (#[trigger] requested@[i]).name@ == name@;
                        assert(false);
                    }
                    0
                },
            };
            assert(derived_named(*program, texts(queries@[row as int].outputs@)[k as int]) is Some);
            let (key, output) = row_output(
                program,
                &requested[at],
                row,
                Ghost(cx),
                Ghost(ids),
                Ghost(lists@),
                Ghost(references[k as int]),
            );
            put_output(&mut outputs, key, output);
            k = k + 1;
        }
        let result = QueryResult {
            entity_id: query.entity_id.clone(),
            period: query.period.duplicate(),
            assessment_date: query.assessment_date,
            outputs,
            trace: Vec::new(),
        };
        assert(is_fast_answer(*program, *data, *query, result));
        results.push(result);
        row = row + 1;
    }
    proof {
        evaluated_meet_no_dates(*program, *data, queries@, lists@, ids, requested@);
    }
    FastPathResult::Executed(ExecutionResponse { metadata: fast_mode_metadata(), results })
}

/// Whether a rule was evaluated.
spec fn is_evaluated_name(requested: Seq<Requested>, name: Seq<char>) -> bool {
    exists|i: int| 0 <= i < requested.len() && (#[trigger] requested[i]).name@ == name
}

/// Where every rule that rows ask for was evaluated, none meets dates.
proof fn evaluated_meet_no_dates(
    p: Program,
    data: DataSet,
    queries: Seq<ExecutionQuery>,
    lists: Seq<Vec<String>>,
    ids: Seq<Seq<char>>,
    requested: Seq<Requested>,
)
    requires
        share_period(queries),
        queries.len() > 0,
        lists.len() == queries.len(),
        resolved_queries(p, queries, lists),
        ids.len() == queries.len(),
        forall|i: int| 0 <= i < ids.len() ==> #[trigger] ids[i] == queries[i].entity_id@,
        forall|i: int|
            0 <= i < requested.len() ==> requested_holds(
                query_facts(p, data, queries[0]),
                ids,
                lists,
                #[trigger] requested[i],
            ),
        forall|i: int, k: int|
            0 <= i < lists.len() && 0 <= k < (#[trigger] lists[i])@.len() ==> is_evaluated_name(
                requested,
                #[trigger] texts(lists[i]@)[k],
            ),
    ensures
        !dates_occur(p, data, queries),
{
    assert forall|i: int, name: Seq<char>| 0 <= i < queries.len() implies #[trigger] query_dates(
        p,
        data,
        queries[i],
        name,
    ) is None by {
        if asks_for_rule(p, queries[i], name) {
            let references = texts(queries[i].outputs@);
            let k = choose|k: int|
                0 <= k < queries[i].outputs@.len() && derived_named(p, #[trigger] references[k])
                    == Some(name);
            assert(texts(lists[i]@) == names_of(p, references));
            assert(texts(lists[i]@).len() == lists[i]@.len());
            assert(texts(lists[i]@)[k] == name);
            assert(texts(lists[i]@).contains(name));
            assert(is_evaluated_name(requested, texts(lists[i]@)[k]));
            let j = choose|j: int|
                0 <= j < requested.len() && (#[trigger] requested[j]).name@ == name;
            assert(is_requested(lists, i, name));
            assert(requested[j].rows.has(i));
            assert(query_facts(p, data, queries[i]) == query_facts(p, data, queries[0]));
        }
    }
}

/// A rule that a row asks for is declared, and its references end.
proof fn request_ends(
    p: Program,
    data: DataSet,
    queries: Seq<ExecutionQuery>,
    lists: Seq<Vec<String>>,
    row: int,
    name: Seq<char>,
)
    requires
        share_period(queries),
        queries.len() > 0,
        queries_end(p, data, queries),
        lists.len() == queries.len(),
        resolved_queries(p, queries, lists),
        is_requested(lists, row, name),
    ensures
        p.rule(name) is Some,
        scalar_terminates(query_facts(p, data, queries[0]), name, queries[row].entity_id@),
        judgment_terminates(query_facts(p, data, queries[0]), name, queries[row].entity_id@),
{
    let references = texts(queries[row].outputs@);
    assert(texts(lists[row]@) == names_of(p, references));
    let k = texts(lists[row]@).index_of(name);
    assert(names_of(p, references)[k] == name);
    assert(derived_named(p, texts(queries[row].outputs@)[k]) is Some);
    assert(query_facts(p, data, queries[row]) == query_facts(p, data, queries[0]));
    assert(output_ends(query_facts(p, data, queries[row]), queries[row].entity_id@, references[k]));
    crate::catalog::derived_named_is_rule(p, references[k]);
}

/// A row that asks for a rule which gives an error makes explain report an error.
proof fn failing_rule_is_error(
    p: Program,
    data: DataSet,
    queries: Seq<ExecutionQuery>,
    lists: Seq<Vec<String>>,
    row: int,
    name: Seq<char>,
)
    requires
        share_period(queries),
        queries.len() > 0,
        lists.len() == queries.len(),
        resolved_queries(p, queries, lists),
        is_requested(lists, row, name),
        rule_error(query_facts(p, data, queries[0]), name, queries[row].entity_id@) is Some,
    ensures
        queries_error(p, data, queries, queries.len()) is Some,
{
    let cx = query_facts(p, data, queries[0]);
    let references = texts(queries[row].outputs@);
    let ent = queries[row].entity_id@;
    assert(texts(lists[row]@) == names_of(p, references));
    let k = texts(lists[row]@).index_of(name);
    assert(names_of(p, references)[k] == name);
    assert(derived_named(p, texts(queries[row].outputs@)[k]) is Some);
    assert(query_facts(p, data, queries[row]) == cx);
    assert(output_answer(cx, ent, references[k]) is Err);
    outputs_have_error(cx, ent, references, k, references.len());
    queries_have_error(p, data, queries, row, queries.len());
}

proof fn outputs_have_error(
    cx: Facts,
    ent: Seq<char>,
    references: Seq<Seq<char>>,
    k: int,
    n: nat,
)
    requires
        0 <= k < n <= references.len(),
        output_answer(cx, ent, references[k]) is Err,
    ensures
        outputs_among(cx, ent, references, n) is Err,
    decreases n,
{
    if k < n - 1 {
        outputs_have_error(cx, ent, references, k, (n - 1) as nat);
    }
}

proof fn queries_have_error(
    p: Program,
    data: DataSet,
    queries: Seq<ExecutionQuery>,
    row: int,
    n: nat,
)
    requires
        0 <= row < n <= queries.len(),
        query_outputs(p, data, queries[row]) is Err,
    ensures
        queries_error(p, data, queries, n) is Some,
    decreases n,
{
    if row < n - 1 {
        queries_have_error(p, data, queries, row, (n - 1) as nat);
    }
}

proof fn answered_queries_have_no_error(
    p: Program,
    data: DataSet,
    queries: Seq<ExecutionQuery>,
    n: nat,
)
    requires
        n <= queries.len(),
        forall|i: int|
            0 <= i < n ==> query_outputs(p, data, #[trigger] queries[i]) is Ok,
    ensures
        queries_error(p, data, queries, n) is None,
    decreases n,
{
    if n > 0 {
        answered_queries_have_no_error(p, data, queries, (n - 1) as nat);
    }
}

/// The fast path answers queries just where they share a period, ask for rules alone, give no
/// error, and no rule that they ask for meets dates.
pub proof fn fast_path_is_decided(
    p: Program,
    data: DataSet,
    queries: Seq<ExecutionQuery>,
    r: FastPathResult,
)
    requires
        fast_path(p, data, queries, r),
    ensures
        r is Executed <==> share_period(queries) && unresolved(p, queries, queries.len()) is None
            && queries_error(p, data, queries, queries.len()) is None && !dates_occur(
            p,
            data,
            queries,
        ),
{
    if let FastPathResult::Executed(response) = r {
        assert forall|i: int| 0 <= i < queries.len() implies query_outputs(
            p,
            data,
            #[trigger] queries[i],
        ) is Ok by {
            assert(is_fast_answer(p, data, queries[i], response.results@[i]));
        }
        answered_queries_have_no_error(p, data, queries, queries.len());
    }
}

/// A request for outputs of a program on facts.
#[derive(Debug)]
pub struct ExecutionRequest {
    pub mode: ExecutionMode,
    pub program: Program,
    pub dataset: DataSet,
    pub queries: Vec<ExecutionQuery>,
}

/// A request for outputs of a compiled program, with pinned rules.
#[derive(Debug)]
pub struct CompiledExecutionRequest {
    pub mode: ExecutionMode,
    pub dataset: DataSet,
    pub queries: Vec<ExecutionQuery>,
    pub pins: Vec<RulePin>,
}

/// Whether the facts are those that the fast path runs on: the ones that hold over the
/// period of the queries, where they share it.
pub open spec fn is_fast_data(fast: DataSet, data: DataSet, queries: Seq<ExecutionQuery>) -> bool {
    if queries.len() > 0 && share_period(queries) {
        fast.inputs@ == resolved_inputs(data.inputs@, queries[0].period@, data.inputs@.len())
            && fast.relations == data.relations
    } else {
        fast == data
    }
}

/// Whether the references of all rules that are asked for end, in either mode.
pub open spec fn request_is_finite(
    p: Program,
    data: DataSet,
    queries: Seq<ExecutionQuery>,
) -> bool {
    &&& queries_end(p, data, queries)
    &&& forall|fast: DataSet| #[trigger]
        is_fast_data(fast, data, queries) ==> queries_end(p, fast, queries)
}

/// Where the references of a program end, those of every request do.
pub proof fn ending_references_answer_requests(
    p: Program,
    data: DataSet,
    queries: Seq<ExecutionQuery>,
)
    requires
        references_end(p),
    ensures
        request_is_finite(p, data, queries),
{
    ending_references_answer_queries(p, data, queries);
    assert forall|fast: DataSet| #[trigger] is_fast_data(fast, data, queries) implies queries_end(
        p,
        fast,
        queries,
    ) by {
        ending_references_answer_queries(p, fast, queries);
    }
}

/// Whether the references of every rule that is asked for do not run in a circle.
pub open spec fn asked_references_end(p: Program, queries: Seq<ExecutionQuery>) -> bool {
    forall|i: int, k: int|
        0 <= i < queries.len() && 0 <= k < queries[i].outputs@.len() ==> #[trigger] is_asked_ending(
            p,
            queries,
            i,
            k,
        )
}

/// Whether the references of a rule that a query asks for do not run in a circle.
pub open spec fn is_asked_ending(
    p: Program,
    queries: Seq<ExecutionQuery>,
    i: int,
    k: int,
) -> bool {
    derived_named(p, queries[i].outputs@[k]@) matches Some(name) ==> rule_references_end(p, name)
}

/// Where the references of the rules that are asked for end, the request has an answer, whatever
/// circles other rules run in.
pub proof fn asked_references_answer_requests(
    p: Program,
    data: DataSet,
    queries: Seq<ExecutionQuery>,
)
    requires
        asked_references_end(p, queries),
    ensures
        request_is_finite(p, data, queries),
{
    asked_references_answer_queries(p, data, queries);
    assert forall|fast: DataSet| #[trigger] is_fast_data(fast, data, queries) implies queries_end(
        p,
        fast,
        queries,
    ) by {
        asked_references_answer_queries(p, fast, queries);
    }
}

proof fn asked_references_answer_queries(p: Program, data: DataSet, queries: Seq<ExecutionQuery>)
    requires
        asked_references_end(p, queries),
    ensures
        queries_end(p, data, queries),
{
    assert forall|i: int, k: int|
        0 <= i < queries.len() && 0 <= k < queries[i].outputs@.len() implies #[trigger] output_ends(
        query_facts(p, data, queries[i]),
        queries[i].entity_id@,
        texts(queries[i].outputs@)[k],
    ) by {
        assert(is_asked_ending(p, queries, i, k));
        if let Some(name) = derived_named(p, texts(queries[i].outputs@)[k]) {
            ending_rule_gives_values(
                query_facts(p, data, queries[i]),
                name,
                queries[i].entity_id@,
            );
        }
    }
}

/// Whether a query asks for a rule.
pub open spec fn is_asked(p: Program, query: ExecutionQuery, name: Seq<char>) -> bool {
    exists|k: int|
        0 <= k < query.outputs@.len() && derived_named(p, (#[trigger] query.outputs@[k])@) == Some(
            name,
        )
}

/// The rules that a query asks for.
fn asked_rules(program: &Program, query: &ExecutionQuery) -> (r: Vec<String>)
    ensures
        forall|k: int|
            0 <= k < query.outputs@.len() ==> (derived_named(
                *program,
                (#[trigger] query.outputs@[k])@,
            ) matches Some(name) ==> texts(r@).contains(name)),
        forall|j: int|
            0 <= j < r@.len() ==> is_asked(*program, *query, #[trigger] texts(r@)[j]),
{
    let mut r: Vec<String> = Vec::new();
    let mut k: usize = 0;
    while k < query.outputs.len()
        invariant
            k <= query.outputs@.len(),
            forall|i: int|
                0 <= i < k ==> (derived_named(
                    *program,
                    (#[trigger] query.outputs@[i])@,
                ) matches Some(name) ==> texts(r@).contains(name)),
            forall|j: int|
                0 <= j < r@.len() ==> is_asked(*program, *query, #[trigger] texts(r@)[j]),
        decreases query.outputs@.len() - k,
    {
        if let Some(name) = program.resolve_derived_name(query.outputs[k].as_str()) {
            let ghost before = r@;
            r.push(name);
            proof {
                assert forall|x: Seq<char>| texts(before).contains(x) implies #[trigger] texts(
                    r@,
                ).contains(x) by {
                    let at = texts(before).index_of(x);
                    assert(texts(r@)[at] == x);
                }
                assert(texts(r@)[r@.len() - 1] == name@);
                assert forall|j: int| 0 <= j < r@.len() implies is_asked(
                    *program,
                    *query,
                    #[trigger] texts(r@)[j],
                ) by {
                    if j < before.len() {
                        assert(texts(r@)[j] == texts(before)[j]);
                    } else {
                        assert(derived_named(*program, query.outputs@[k as int]@) == Some(
                            texts(r@)[j],
                        ));
                    }
                }
            }
        }
        k = k + 1;
    }
    r
}

/// Whether the references of every rule that is asked for do not run in a circle.
pub fn check_asked_references_end(program: &Program, queries: &Vec<ExecutionQuery>) -> (r: bool)
    ensures
        r == asked_references_end(*program, queries@),
{
    let mut i: usize = 0;
    while i < queries.len()
        invariant
            i <= queries@.len(),
            forall|j: int, k: int|
                0 <= j < i && 0 <= k < queries@[j].outputs@.len() ==> #[trigger] is_asked_ending(
                    *program,
                    queries@,
                    j,
                    k,
                ),
        decreases queries@.len() - i,
    {
        let names = asked_rules(program, &queries[i]);
        if !check_rules_end(program, &names) {
            proof {
                let j = choose|j: int|
                    0 <= j < names@.len() && !rule_references_end(
                        *program,
                        #[trigger] texts(names@)[j],
                    );
                assert(is_asked(*program, queries@[i as int], texts(names@)[j]));
                let k = choose|k: int|
                    0 <= k < queries@[i as int].outputs@.len() && derived_named(
                        *program,
                        (#[trigger] queries@[i as int].outputs@[k])@,
                    ) == Some(texts(names@)[j]);
                assert(!is_asked_ending(*program, queries@, i as int, k));
            }
            return false;
        }
        proof {
            assert forall|k: int| 0 <= k < queries@[i as int].outputs@.len() implies
                #[trigger] is_asked_ending(*program, queries@, i as int, k) by {
                if let Some(name) = derived_named(*program, queries@[i as int].outputs@[k]@) {
                    let at = texts(names@).index_of(name);
                    assert(texts(names@).contains(name));
                    assert(rule_references_end(*program, texts(names@)[at]));
                }
            }
        }
        i = i + 1;
    }
    true
}

pub open spec fn is_metadata(
    metadata: ExecutionMetadata,
    requested: ExecutionMode,
    actual: ExecutionMode,
    reason: Option<Seq<char>>,
) -> bool {
    &&& metadata.requested_mode == requested
    &&& metadata.actual_mode == actual
    &&& opt_text(metadata.fallback_reason) == reason
}

/// What comes of a request in fast mode, on the facts that it runs on.
pub open spec fn fast_outcome(
    p: Program,
    fast: DataSet,
    queries: Seq<ExecutionQuery>,
    metadata: ExecutionMetadata,
    path: FastPathResult,
    r: Result<ExecutionResponse, ApiError>,
) -> bool {
    &&& fast_path(p, fast, queries, path)
    &&& match path {
        FastPathResult::Executed(_) => match r {
            Ok(response) => is_fast_response(p, fast, queries, response),
            Err(_) => false,
        },
        FastPathResult::Unsupported { reason } => is_metadata(
            metadata,
            ExecutionMode::Fast,
            ExecutionMode::Explain,
            Some(reason@),
        ) && explained(p, fast, queries, metadata, r),
    }
}

/// Whether a result is that of explain.
pub open spec fn is_explained(
    p: Program,
    data: DataSet,
    queries: Seq<ExecutionQuery>,
    r: Result<ExecutionResponse, ApiError>,
) -> bool {
    exists|metadata: ExecutionMetadata| #[trigger]
        explained(p, data, queries, metadata, r) && is_metadata(
            metadata,
            ExecutionMode::Explain,
            ExecutionMode::Explain,
            None,
        )
}

/// Whether a result is that of the fast mode.
pub open spec fn is_fast(
    p: Program,
    data: DataSet,
    queries: Seq<ExecutionQuery>,
    r: Result<ExecutionResponse, ApiError>,
) -> bool {
    exists|fast: DataSet, metadata: ExecutionMetadata, path: FastPathResult| #[trigger]
        fast_outcome(p, fast, queries, metadata, path, r) && is_fast_data(fast, data, queries)
}

/// What comes of a request.
pub open spec fn executed(
    mode: ExecutionMode,
    p: Program,
    data: DataSet,
    queries: Seq<ExecutionQuery>,
    r: Result<ExecutionResponse, ApiError>,
) -> bool {
    match early_assessment(queries, queries.len()) {
        Some(i) => match r {
            Err(
                ApiError::AssessmentDateBeforePeriodStart { assessment_date, period_start },
            ) => Some(
                assessment_date,
            ) == queries[i as int].assessment_date && period_start
                == queries[i as int].period.start,
            _ => false,
        },
        None => match rounding_fault(p, p.derived@.len()) {
            Some(derived) => match r {
                Err(ApiError::Spec(error)) => error@ == (CompileErrorView::RoundingUnit {
                    derived,
                }),
                _ => false,
            },
            None => match contradicted_spell(data.inputs@, data.inputs@.len()) {
                Some(i) => match r {
                    Err(ApiError::Eval(error)) => error@ == (ErrorView::AmbiguousInput {
                        name: data.inputs@[i as int].name@,
                        entity_id: data.inputs@[i as int].entity_id@,
                        effective_from: data.inputs@[i as int].interval.start,
                    }),
                    _ => false,
                },
                None => match mode {
                    ExecutionMode::Explain => is_explained(p, data, queries, r),
                    ExecutionMode::Fast => is_fast(p, data, queries, r),
                },
            },
        },
    }
}

fn execute_fast(program: &Program, dataset: DataSet, queries: &Vec<ExecutionQuery>) -> (r: Result<
    ExecutionResponse,
    ApiError,
>)
    requires
        request_is_finite(*program, dataset, queries@),
    ensures
        is_fast(*program, dataset, queries@, r),
{
    let fast = if queries.len() > 0 && periods_shared(queries) {
        resolve_inputs_for_period(dataset, &queries[0].period)
    } else {
        dataset
    };
    assert(is_fast_data(fast, dataset, queries@));
    let path = try_execute(program, &fast, queries);
    let ghost found = path;
    match path {
        FastPathResult::Executed(response) => {
            let r: Result<ExecutionResponse, ApiError> = Ok(
                response.with_metadata(fast_mode_metadata()),
            );
            proof {
                assert(fast_outcome(
                    *program,
                    fast,
                    queries@,
                    response.metadata,
                    found,
                    r,
                ));
            }
            r
        },
        FastPathResult::Unsupported { reason } => {
            let metadata = ExecutionMetadata {
                requested_mode: ExecutionMode::Fast,
                actual_mode: ExecutionMode::Explain,
                fallback_reason: Some(reason),
            };
            let ghost given = metadata;
            let r = execute_explain(program, &fast, queries, metadata);
            assert(fast_outcome(*program, fast, queries@, given, found, r));
            r
        },
    }
}

/// Executes a request. The references of the rules that it asks for end.
pub fn execute_request(request: ExecutionRequest) -> (r: Result<ExecutionResponse, ApiError>)
    requires
        request_is_finite(request.program, request.dataset, request.queries@),
    ensures
        executed(request.mode, request.program, request.dataset, request.queries@, r),
{
    match validate_assessment_dates(&request.queries) {
        Ok(()) => {},
        Err(error) => {
            return Err(error);
        },
    }
    match validate_rounding(&request.program) {
        Ok(()) => {},
        Err(error) => {
            return Err(ApiError::Spec(error));
        },
    }
    match validate_input_spells(&request.dataset) {
        Ok(()) => {},
        Err(error) => {
            return Err(ApiError::Eval(error));
        },
    }
    match request.mode {
        ExecutionMode::Explain => {
            let metadata = ExecutionMetadata {
                requested_mode: ExecutionMode::Explain,
                actual_mode: ExecutionMode::Explain,
                fallback_reason: None,
            };
            let ghost given = metadata;
            let r = execute_explain(
                &request.program,
                &request.dataset,
                &request.queries,
                metadata,
            );
            assert(explained(
                request.program,
                request.dataset,
                request.queries@,
                given,
                r,
            ));
            r
        },
        ExecutionMode::Fast => execute_fast(&request.program, request.dataset, &request.queries),
    }
}

/// What comes of a request of a compiled program: of its program with the pins, or the
/// first pin that does not bind.
pub open spec fn executed_with_pins(
    artifact: CompiledProgramArtifact,
    request: CompiledExecutionRequest,
    pinned: Program,
    pinning: Result<(), PinError>,
    states: Seq<Program>,
    r: Result<ExecutionResponse, ApiError>,
) -> bool {
    &&& pinned_with(artifact.program, request.pins@, pinned, pinning, states)
    &&& match pinning {
        Err(error) => match r {
            Err(ApiError::Pin(e)) => e@ == error@,
            _ => false,
        },
        Ok(_) => executed(request.mode, pinned, request.dataset, request.queries@, r),
    }
}

/// Whether the references of the rules that are asked for end, whatever is pinned.
pub open spec fn pinned_request_is_finite(
    artifact: CompiledProgramArtifact,
    request: CompiledExecutionRequest,
) -> bool {
    forall|pinned: Program, pinning: Result<(), PinError>, states: Seq<Program>| #[trigger]
        pinned_with(artifact.program, request.pins@, pinned, pinning, states)
            ==> request_is_finite(pinned, request.dataset, request.queries@)
}

/// Where the references of a compiled program end, those of every request do, whatever it
/// pins.
pub proof fn ending_references_answer_pinned_requests(
    artifact: CompiledProgramArtifact,
    request: CompiledExecutionRequest,
)
    requires
        references_end(artifact.program),
    ensures
        pinned_request_is_finite(artifact, request),
{
    assert forall|pinned: Program, pinning: Result<(), PinError>, states: Seq<Program>| #[trigger]
        pinned_with(
            artifact.program,
            request.pins@,
            pinned,
            pinning,
            states,
        ) implies request_is_finite(pinned, request.dataset, request.queries@) by {
        pins_keep_ending(states, request.pins@, states.len() - 1);
        ending_references_answer_requests(pinned, request.dataset, request.queries@);
    }
}

/// Executes a request of a compiled program.
pub fn execute_compiled_request(
    artifact: CompiledProgramArtifact,
    request: CompiledExecutionRequest,
) -> (r: Result<ExecutionResponse, ApiError>)
    requires
        pinned_request_is_finite(artifact, request),
    ensures
        exists|pinned: Program, pinning: Result<(), PinError>, states: Seq<Program>| #[trigger]
            executed_with_pins(artifact, request, pinned, pinning, states, r),
{
    let mut program = artifact.program;
    let pinning = apply_pins(&mut program, &request.pins);
    let ghost pinned = program;
    let ghost outcome = pinning;
    let ghost states = choose|states: Seq<Program>| #[trigger]
        pinned_with(artifact.program, request.pins@, pinned, outcome, states);
    match pinning {
        Err(error) => {
            let r: Result<ExecutionResponse, ApiError> = Err(ApiError::Pin(error));
            assert(executed_with_pins(artifact, request, pinned, outcome, states, r));
            r
        },
        Ok(()) => {
            let r = execute_request(
                ExecutionRequest {
                    mode: request.mode,
                    program,
                    dataset: request.dataset,
                    queries: request.queries,
                },
            );
            assert(executed_with_pins(artifact, request, pinned, outcome, states, r));
            r
        },
    }
}

proof fn outputs_agree(
    cx: Facts,
    cy: Facts,
    ent: Seq<char>,
    references: Seq<Seq<char>>,
    n: nat,
)
    requires
        facts_agree(cx, cy),
        cx.program == cy.program,
        n <= references.len(),
        forall|k: int| 0 <= k < references.len() ==> #[trigger] output_ends(cx, ent, references[k]),
    ensures
        outputs_among(cx, ent, references, n) == outputs_among(cy, ent, references, n),
    decreases n,
{
    if n > 0 {
        outputs_agree(cx, cy, ent, references, (n - 1) as nat);
        assert(output_ends(cx, ent, references[n - 1]));
        if let Some(name) = derived_named(cx.program, references[n - 1]) {
            rules_agree(cx, cy, name, ent);
        }
    }
}

/// Fast answers as explain does: the facts that hold over the period give every query the
/// outputs, or the error, that all facts give, where no two records contradict each other.
pub proof fn fast_answers_like_explain(
    p: Program,
    data: DataSet,
    fast: DataSet,
    queries: Seq<ExecutionQuery>,
    i: int,
)
    requires
        spells_agree(data.inputs@),
        queries_end(p, data, queries),
        share_period(queries),
        is_fast_data(fast, data, queries),
        0 <= i < queries.len(),
    ensures
        query_outputs(p, fast, queries[i]) == query_outputs(p, data, queries[i]),
{
    let cx = query_facts(p, data, queries[i]);
    let cy = query_facts(p, fast, queries[i]);
    assert forall|name: Seq<char>, id: Seq<char>| #[trigger] input_value(cx, name, id)
        == input_value(cy, name, id) by {
        resolution_keeps_values(cx, cy, name, id);
    }
    let references = texts(queries[i].outputs@);
    assert forall|k: int| 0 <= k < references.len() implies #[trigger] output_ends(
        cx,
        queries[i].entity_id@,
        references[k],
    ) by {}
    outputs_agree(cx, cy, queries[i].entity_id@, references, references.len());
}

/// Whether `s` is the outcome `r` with the assessment dates of queries in its results.
pub open spec fn redated(
    r: Result<ExecutionResponse, ApiError>,
    s: Result<ExecutionResponse, ApiError>,
    queries: Seq<ExecutionQuery>,
) -> bool {
    match (r, s) {
        (Ok(x), Ok(y)) => {
            &&& y.metadata == x.metadata
            &&& y.results@.len() == x.results@.len()
            &&& forall|i: int| #![trigger x.results@[i]] #![trigger y.results@[i]]
                0 <= i < x.results@.len() ==> y.results@[i] == (QueryResult {
                    assessment_date: queries[i].assessment_date,
                    ..x.results@[i]
                })
        },
        (Err(e), Err(f)) => e == f,
        _ => false,
    }
}

pub proof fn dates_keep_resolution(p: Program, a: Seq<ExecutionQuery>, b: Seq<ExecutionQuery>, n: nat)
    requires
        differ_in_dates(a, b),
        n <= a.len(),
    ensures
        unresolved(p, a, n) == unresolved(p, b, n),
    decreases n,
{
    if n > 0 {
        dates_keep_resolution(p, a, b, (n - 1) as nat);
        let (x, y) = (a[n - 1], b[n - 1]);
        assert(texts(x.outputs@).len() == x.outputs@.len());
        assert(texts(y.outputs@).len() == y.outputs@.len());
    }
}

proof fn dates_keep_explanations(
    p: Program,
    data: DataSet,
    a: Seq<ExecutionQuery>,
    b: Seq<ExecutionQuery>,
    metadata: ExecutionMetadata,
    r: Result<ExecutionResponse, ApiError>,
    s: Result<ExecutionResponse, ApiError>,
)
    requires
        differ_in_dates(a, b),
        redated(r, s, b),
        explained(p, data, a, metadata, r),
    ensures
        explained(p, data, b, metadata, s),
{
    dates_keep_errors(p, data, a, b, a.len());
    if let (Ok(x), Ok(y)) = (r, s) {
        assert forall|i: int| 0 <= i < b.len() implies is_answer(
            p,
            data,
            b,
            i,
            #[trigger] y.results@[i],
        ) by {
            assert(is_answer(p, data, a, i, x.results@[i]));
            dates_keep_answers(p, data, a, b, i, x.results@[i], y.results@[i]);
        }
    }
}

/// What a query asks for does not depend on its date.
pub proof fn dates_keep_requests(
    p: Program,
    data: DataSet,
    a: Seq<ExecutionQuery>,
    b: Seq<ExecutionQuery>,
)
    requires
        differ_in_dates(a, b),
    ensures
        forall|i: int, name: Seq<char>| #![trigger query_dates(p, data, a[i], name)]
            #![trigger query_dates(p, data, b[i], name)]
            0 <= i < a.len() ==> query_dates(p, data, a[i], name) == query_dates(
                p,
                data,
                b[i],
                name,
            ),
        forall|i: int, name: Seq<char>| #![trigger query_error(p, data, a[i], name)]
            #![trigger query_error(p, data, b[i], name)]
            0 <= i < a.len() ==> query_error(p, data, a[i], name) == query_error(
                p,
                data,
                b[i],
                name,
            ),
{
    assert forall|i: int, name: Seq<char>| 0 <= i < a.len() implies #[trigger] asks_for_rule(
        p,
        a[i],
        name,
    ) == asks_for_rule(p, b[i], name) && query_facts(p, data, a[i]) == query_facts(p, data, b[i])
        && a[i].entity_id@ == b[i].entity_id@ by {
        let (x, y) = (a[i], b[i]);
        assert(texts(x.outputs@).len() == x.outputs@.len());
        assert(texts(y.outputs@).len() == y.outputs@.len());
        if asks_for_rule(p, x, name) {
            let k = choose|k: int|
                0 <= k < x.outputs@.len() && derived_named(p, #[trigger] texts(x.outputs@)[k])
                    == Some(name);
            assert(derived_named(p, texts(y.outputs@)[k]) == Some(name));
        }
        if asks_for_rule(p, y, name) {
            let k = choose|k: int|
                0 <= k < y.outputs@.len() && derived_named(p, #[trigger] texts(y.outputs@)[k])
                    == Some(name);
            assert(derived_named(p, texts(x.outputs@)[k]) == Some(name));
        }
    }
    assert forall|i: int, name: Seq<char>| 0 <= i < a.len() implies #[trigger] query_dates(
        p,
        data,
        a[i],
        name,
    ) == query_dates(p, data, b[i], name) by {
        assert(asks_for_rule(p, a[i], name) == asks_for_rule(p, b[i], name));
    }
    assert forall|i: int, name: Seq<char>| 0 <= i < a.len() implies #[trigger] query_error(
        p,
        data,
        a[i],
        name,
    ) == query_error(p, data, b[i], name) by {
        assert(asks_for_rule(p, a[i], name) == asks_for_rule(p, b[i], name));
    }
}

proof fn dates_keep_fallback(
    p: Program,
    data: DataSet,
    a: Seq<ExecutionQuery>,
    b: Seq<ExecutionQuery>,
    reason: Seq<char>,
)
    requires
        differ_in_dates(a, b),
        is_fallback_reason(p, data, a, reason),
    ensures
        is_fallback_reason(p, data, b, reason),
{
    dates_keep_errors(p, data, a, b, a.len());
    dates_keep_requests(p, data, a, b);
    let (i, k) = choose|i: int, k: int| #[trigger]
        is_first_unanswered(p, data, a, i, k) && is_rule_reason(
            p,
            data,
            a,
            asked_rule(p, a, i, k),
            reason,
        );
    assert forall|j: int, m: int|
        0 <= j < a.len() && 0 <= m < a[j].outputs@.len() implies b[j].outputs@.len()
        == a[j].outputs@.len() && #[trigger] asked_rule(p, b, j, m) == asked_rule(p, a, j, m) by {
        assert(texts(a[j].outputs@).len() == a[j].outputs@.len());
        assert(texts(b[j].outputs@).len() == b[j].outputs@.len());
    }
    assert forall|name: Seq<char>| #[trigger]
        is_answered(p, data, a, name) == is_answered(p, data, b, name) by {
        dates_keep_answered(p, data, a, b, name);
    }
    assert(asked_rule(p, b, i, k) == asked_rule(p, a, i, k));
    assert forall|j: int, m: int|
        0 <= j <= i && 0 <= m < b[j].outputs@.len() && (j < i || m < k) implies is_answered(
        p,
        data,
        b,
        #[trigger] asked_rule(p, b, j, m),
    ) by {
        assert(texts(a[j].outputs@).len() == a[j].outputs@.len());
        assert(texts(b[j].outputs@).len() == b[j].outputs@.len());
        assert(is_answered(p, data, a, asked_rule(p, a, j, m)));
    }
    assert(is_first_unanswered(p, data, b, i, k));
    dates_keep_reason(p, data, a, b, asked_rule(p, a, i, k), reason);
}

/// Rules that are answered stay so whatever the assessment dates.
proof fn dates_keep_answered(
    p: Program,
    data: DataSet,
    a: Seq<ExecutionQuery>,
    b: Seq<ExecutionQuery>,
    name: Seq<char>,
)
    requires
        differ_in_dates(a, b),
    ensures
        is_answered(p, data, a, name) == is_answered(p, data, b, name),
        meets_none(p, data, a, name) == meets_none(p, data, b, name),
{
    dates_keep_requests(p, data, a, b);
    if meets_none(p, data, a, name) {
        assert forall|i: int| 0 <= i < b.len() implies #[trigger] query_dates(
            p,
            data,
            b[i],
            name,
        ) is None by {
            assert(query_dates(p, data, a[i], name) is None);
        }
    }
    if meets_none(p, data, b, name) {
        assert forall|i: int| 0 <= i < a.len() implies #[trigger] query_dates(
            p,
            data,
            a[i],
            name,
        ) is None by {
            assert(query_dates(p, data, b[i], name) is None);
        }
    }
    if is_answered(p, data, a, name) {
        assert forall|i: int| 0 <= i < b.len() implies #[trigger] query_error(
            p,
            data,
            b[i],
            name,
        ) is None by {
            assert(query_error(p, data, a[i], name) is None);
        }
    }
    if is_answered(p, data, b, name) {
        assert forall|i: int| 0 <= i < a.len() implies #[trigger] query_error(
            p,
            data,
            a[i],
            name,
        ) is None by {
            assert(query_error(p, data, b[i], name) is None);
        }
    }
}

proof fn dates_keep_reason(
    p: Program,
    data: DataSet,
    a: Seq<ExecutionQuery>,
    b: Seq<ExecutionQuery>,
    name: Seq<char>,
    reason: Seq<char>,
)
    requires
        differ_in_dates(a, b),
        is_rule_reason(p, data, a, name, reason),
    ensures
        is_rule_reason(p, data, b, name, reason),
{
    dates_keep_errors(p, data, a, b, a.len());
    dates_keep_requests(p, data, a, b);
    dates_keep_answered(p, data, a, b, name);
    if exists|i: int| #[trigger]
        meets_first(p, data, a, name, i) && reason == unsupported_text(
            query_dates(p, data, a[i], name)->0.what,
        ) {
        let i = choose|i: int| #[trigger]
            meets_first(p, data, a, name, i) && reason == unsupported_text(
                query_dates(p, data, a[i], name)->0.what,
            );
        assert(query_dates(p, data, b[i], name) == query_dates(p, data, a[i], name));
        assert forall|j: int| 0 <= j < b.len() implies comes_after(
            query_dates(p, data, b[i], name)->0,
            #[trigger] query_dates(p, data, b[j], name),
        ) by {
            assert(query_dates(p, data, a[j], name) == query_dates(p, data, b[j], name));
        }
        assert(meets_first(p, data, b, name, i));
    } else {
        let i = choose|i: int| #[trigger]
            fails_first(p, data, a, name, i) && tells_of(
                reason,
                query_error(p, data, a[i], name)->0,
            );
        assert(query_error(p, data, b[i], name) == query_error(p, data, a[i], name));
        assert forall|j: int| 0 <= j < i implies #[trigger] query_error(
            p,
            data,
            b[j],
            name,
        ) is None by {
            assert(query_error(p, data, a[j], name) is None);
        }
        assert(fails_first(p, data, b, name, i));
    }
}

proof fn dates_keep_dates_met(
    p: Program,
    data: DataSet,
    a: Seq<ExecutionQuery>,
    b: Seq<ExecutionQuery>,
)
    requires
        differ_in_dates(a, b),
        dates_occur(p, data, b),
    ensures
        dates_occur(p, data, a),
{
    dates_keep_requests(p, data, a, b);
    let (i, name) = choose|i: int, name: Seq<char>|
        0 <= i < b.len() && #[trigger] query_dates(p, data, b[i], name) is Some;
    assert(query_dates(p, data, a[i], name) is Some);
}

/// The assessment dates of queries are echoed and have no other effect, in either mode: what
/// answers a request answers every request that differs from it in such dates alone, once its
/// results have the dates of that one. Only a date before the start of its period is refused.
pub proof fn assessment_dates_are_echoed_alone(
    mode: ExecutionMode,
    p: Program,
    data: DataSet,
    a: Seq<ExecutionQuery>,
    b: Seq<ExecutionQuery>,
    r: Result<ExecutionResponse, ApiError>,
    s: Result<ExecutionResponse, ApiError>,
)
    requires
        differ_in_dates(a, b),
        early_assessment(a, a.len()) is None,
        early_assessment(b, b.len()) is None,
        redated(r, s, b),
        executed(mode, p, data, a, r),
    ensures
        executed(mode, p, data, b, s),
{
    if rounding_fault(p, p.derived@.len()) is None && contradicted_spell(
        data.inputs@,
        data.inputs@.len(),
    ) is None {
        match mode {
            ExecutionMode::Explain => {
                let metadata = choose|metadata: ExecutionMetadata| #[trigger]
                    explained(p, data, a, metadata, r) && is_metadata(
                        metadata,
                        ExecutionMode::Explain,
                        ExecutionMode::Explain,
                        None,
                    );
                dates_keep_explanations(p, data, a, b, metadata, r, s);
            },
            ExecutionMode::Fast => {
                let (fast, metadata, path) = choose|
                    fast: DataSet,
                    metadata: ExecutionMetadata,
                    path: FastPathResult,
                | #[trigger]
                    fast_outcome(p, fast, a, metadata, path, r) && is_fast_data(fast, data, a);
                dates_keep_resolution(p, a, b, a.len());
                assert forall|i: int| 0 <= i < a.len() implies (#[trigger] a[i]).period@
                    == b[i].period@ by {}
                assert forall|i: int| 0 <= i < b.len() implies (#[trigger] b[i]).period@
                    == a[i].period@ by {}
                if share_period(a) {
                    assert forall|i: int| 0 <= i < b.len() implies (#[trigger] b[i]).period@
                        == b[0].period@ by {
                        assert(a[i].period@ == a[0].period@);
                    }
                }
                if share_period(b) {
                    assert forall|i: int| 0 <= i < a.len() implies (#[trigger] a[i]).period@
                        == a[0].period@ by {
                        assert(b[i].period@ == b[0].period@);
                    }
                }
                assert(share_period(a) == share_period(b));
                assert(is_fast_data(fast, data, b));
                match path {
                    FastPathResult::Executed(_) => {
                        let (x, y) = (r->Ok_0, s->Ok_0);
                        assert forall|i: int| 0 <= i < b.len() implies is_fast_answer(
                            p,
                            fast,
                            b[i],
                            #[trigger] y.results@[i],
                        ) by {
                            assert(is_fast_answer(p, fast, a[i], x.results@[i]));
                            assert(texts(a[i].outputs@).len() == a[i].outputs@.len());
                            assert(texts(b[i].outputs@).len() == b[i].outputs@.len());
                            assert(query_outputs(p, fast, a[i]) == query_outputs(p, fast, b[i]));
                        }
                        if dates_occur(p, fast, b) {
                            dates_keep_dates_met(p, fast, a, b);
                        }
                        assert(fast_outcome(p, fast, b, metadata, FastPathResult::Executed(y), s));
                    },
                    FastPathResult::Unsupported { reason } => {
                        dates_keep_explanations(p, fast, a, b, metadata, r, s);
                        if share_period(a) && unresolved(p, a, a.len()) is None {
                            dates_keep_fallback(p, fast, a, b, reason@);
                        }
                        assert(fast_outcome(p, fast, b, metadata, path, s));
                    },
                }
            },
        }
    }
}

} // verus!
