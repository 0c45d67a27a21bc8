//! What assessment dates change of a request's outcome: they are echoed, one before the start of
//! its period is refused, and nothing else follows from them.
use crate::api::{
    a_trace_is_fixed, answers, dates_keep_asking, dates_keep_errors, differ_in_dates,
    early_assessment, explained, is_answer, is_asked, output_entries, queries_error, query_facts,
    query_outputs, trace_entries, ApiError, ExecutionMetadata, ExecutionQuery, ExecutionResponse,
    ExecutionMode, QueryResult,
};
use crate::bulk::unsupported_text;
use crate::compile::rounding_fault;
use crate::date_use::{comes_after, places_are_in_order};
use crate::engine::{is_way, leads, reaches, Engine};
use crate::error::ErrorView;
use crate::inputs::contradicted_spell;
use crate::model::{DataSet, Program};
use crate::request::{
    asked_rule, dates_keep_requests, dates_keep_resolution, dates_occur, executed, fails_first,
    fast_outcome, is_answered, is_fallback_reason, is_fast, is_fast_answer, is_fast_data,
    is_first_unanswered, is_metadata, is_rule_reason, meets_first, meets_none, query_dates,
    query_error, share_period, tells_of, unresolved, FastPathResult,
};
use crate::semantics::RuleKey;
use crate::text::{opt_text, texts};
use vstd::prelude::*;

verus! {

/// Whether two results say the same, their assessment dates aside.
pub open spec fn results_alike(u: QueryResult, v: QueryResult) -> bool {
    &&& u.entity_id@ == v.entity_id@
    &&& u.period@ == v.period@
    &&& output_entries(u.outputs@) == output_entries(v.outputs@)
    &&& trace_entries(u.trace@) == trace_entries(v.trace@)
}

/// Whether two reasons are the same, or tell of the same `match` without an arm, which may or
/// may not be told by the name of its rule.
pub open spec fn reasons_alike(x: Option<Seq<char>>, y: Option<Seq<char>>) -> bool {
    match (x, y) {
        (Some(x), Some(y)) => x == y || exists|error: ErrorView|
            tell_of_one_match(x, y, error),
        _ => x == y,
    }
}

/// Whether two reasons tell of the same `match` without an arm.
pub open spec fn tell_of_one_match(x: Seq<char>, y: Seq<char>, error: ErrorView) -> bool {
    error is NoMatchingArm && tells_of(x, error) && tells_of(y, error)
}

/// Whether two outcomes are the same, the assessment dates of their results aside.
pub open spec fn outcomes_alike(
    r: Result<ExecutionResponse, ApiError>,
    s: Result<ExecutionResponse, ApiError>,
) -> bool {
    match (r, s) {
        (Ok(x), Ok(y)) => {
            &&& x.metadata.requested_mode == y.metadata.requested_mode
            &&& x.metadata.actual_mode == y.metadata.actual_mode
            &&& reasons_alike(
                opt_text(x.metadata.fallback_reason),
                opt_text(y.metadata.fallback_reason),
            )
            &&& x.results@.len() == y.results@.len()
            &&& forall|i: int| #![trigger x.results@[i]] #![trigger y.results@[i]]
                0 <= i < x.results@.len() ==> results_alike(x.results@[i], y.results@[i])
        },
        (Err(ApiError::Eval(e)), Err(ApiError::Eval(f))) => e@ == f@,
        (Err(ApiError::Spec(e)), Err(ApiError::Spec(f))) => e@ == f@,
        _ => false,
    }
}

/// What is reached depends on the facts alone.
proof fn same_reach(p: Program, d: DataSet, e: DataSet, from: RuleKey, to: RuleKey)
    requires
        d@ == e@,
        reaches(p, d, from, to),
    ensures
        reaches(p, e, from, to),
{
    reveal(reaches);
    let path = choose|path: Seq<RuleKey>| #[trigger]
        is_way(p, d, path) && path[0] == from && path.last() == to;
    assert forall|i: int| 0 < i < path.len() implies leads(
        p,
        e,
        path[i - 1],
        #[trigger] path[i],
    ) by {
        assert(leads(p, d, path[i - 1], path[i]));
    }
    assert(is_way(p, e, path));
}

proof fn same_asked(
    p: Program,
    d: DataSet,
    e: DataSet,
    queries: Seq<ExecutionQuery>,
    n: nat,
    key: RuleKey,
)
    requires
        d@ == e@,
        n <= queries.len(),
        is_asked(p, d, queries, n, key),
    ensures
        is_asked(p, e, queries, n, key),
{
    let j = choose|j: int| 0 <= j < n && #[trigger] crate::api::asks_for(p, d, queries[j], key);
    let query = queries[j];
    let k = choose|k: int| #![trigger texts(query.outputs@)[k]]
        0 <= k < query.outputs@.len() && (crate::api::asked_rule(
            p,
            query.entity_id@,
            query.period@,
            texts(query.outputs@)[k],
        ) matches Some(rule) && reaches(p, d, rule, key));
    let rule = crate::api::asked_rule(p, query.entity_id@, query.period@, texts(query.outputs@)[k]);
    same_reach(p, d, e, rule->Some_0, key);
    assert(crate::api::asks_for(p, e, query, key));
}

proof fn same_errors(p: Program, d: DataSet, e: DataSet, queries: Seq<ExecutionQuery>, n: nat)
    requires
        d@ == e@,
    ensures
        queries_error(p, d, queries, n) == queries_error(p, e, queries, n),
    decreases n,
{
    if n > 0 && n <= queries.len() {
        same_errors(p, d, e, queries, (n - 1) as nat);
        assert(query_facts(p, d, queries[n - 1]) == query_facts(p, e, queries[n - 1]));
    }
}

/// Explaining queries that differ in their dates at most gives the same.
proof fn explanations_alike(
    p: Program,
    d: DataSet,
    e: DataSet,
    a: Seq<ExecutionQuery>,
    b: Seq<ExecutionQuery>,
    metadata: ExecutionMetadata,
    other: ExecutionMetadata,
    r: Result<ExecutionResponse, ApiError>,
    s: Result<ExecutionResponse, ApiError>,
)
    requires
        d@ == e@,
        differ_in_dates(a, b),
        explained(p, d, a, metadata, r),
        explained(p, e, b, other, s),
        metadata.requested_mode == other.requested_mode,
        metadata.actual_mode == other.actual_mode,
        reasons_alike(opt_text(metadata.fallback_reason), opt_text(other.fallback_reason)),
    ensures
        outcomes_alike(r, s),
{
    dates_keep_errors(p, d, a, b, a.len());
    same_errors(p, d, e, b, b.len());
    if queries_error(p, d, a, a.len()) is None {
        let (x, y) = (r->Ok_0, s->Ok_0);
        assert forall|i: int| #![trigger x.results@[i]] #![trigger y.results@[i]]
            0 <= i < x.results@.len() implies results_alike(x.results@[i], y.results@[i]) by {
            let (u, v) = (x.results@[i], y.results@[i]);
            assert(is_answer(p, d, a, i, u) && is_answer(p, e, b, i, v));
            let m = choose|engine: Engine<'static>| #[trigger] answers(engine, p, d, a, i, u);
            let n = choose|engine: Engine<'static>| #[trigger] answers(engine, p, e, b, i, v);
            assert(texts(a[i].outputs@).len() == a[i].outputs@.len());
            assert(texts(b[i].outputs@).len() == b[i].outputs@.len());
            assert(query_facts(p, d, a[i]) == query_facts(p, e, b[i]));
            assert(query_outputs(p, d, a[i]) == query_outputs(p, e, b[i]));
            assert forall|key: RuleKey| #[trigger] m.is_remembered(key) <==> n.is_remembered(
                key,
            ) by {
                let count = (i + 1) as nat;
                if is_asked(p, d, a, count, key) {
                    dates_keep_asking(p, d, a, b, count, key);
                    same_asked(p, d, e, b, count, key);
                }
                if is_asked(p, e, b, count, key) {
                    same_asked(p, e, d, b, count, key);
                    dates_keep_asking(p, d, b, a, count, key);
                }
            }
            a_trace_is_fixed(
                m,
                n,
                a[i].entity_id@,
                a[i].period@,
                trace_entries(u.trace@),
                trace_entries(v.trace@),
            );
        }
    }
}

/// The same is asked, met and failed by queries that differ in their dates at most.
proof fn requests_alike(
    p: Program,
    d: DataSet,
    e: DataSet,
    a: Seq<ExecutionQuery>,
    b: Seq<ExecutionQuery>,
)
    requires
        d@ == e@,
        differ_in_dates(a, b),
    ensures
        forall|i: int, name: Seq<char>|
            #![trigger query_dates(p, d, a[i], name)]
            #![trigger query_dates(p, e, b[i], name)]
            0 <= i < a.len() ==> query_dates(p, d, a[i], name) == query_dates(p, e, b[i], name),
        forall|i: int, name: Seq<char>|
            #![trigger query_error(p, d, a[i], name)]
            #![trigger query_error(p, e, b[i], name)]
            0 <= i < a.len() ==> query_error(p, d, a[i], name) == query_error(p, e, b[i], name),
        forall|i: int, k: int|
            #![trigger asked_rule(p, a, i, k)]
            #![trigger asked_rule(p, b, i, k)]
            0 <= i < a.len() ==> asked_rule(p, a, i, k) == asked_rule(p, b, i, k),
        forall|i: int|
            #![trigger a[i]]
            #![trigger b[i]]
            0 <= i < a.len() ==> a[i].outputs@.len() == b[i].outputs@.len(),
{
    dates_keep_requests(p, d, a, b);
    assert forall|i: int, name: Seq<char>|
        #![trigger query_dates(p, d, a[i], name)]
        #![trigger query_dates(p, e, b[i], name)]
        0 <= i < a.len() implies query_dates(p, d, a[i], name) == query_dates(
        p,
        e,
        b[i],
        name,
    ) by {
        assert(query_dates(p, d, b[i], name) == query_dates(p, d, a[i], name));
        assert(query_facts(p, d, b[i]) == query_facts(p, e, b[i]));
    }
    assert forall|i: int, name: Seq<char>|
        #![trigger query_error(p, d, a[i], name)]
        #![trigger query_error(p, e, b[i], name)]
        0 <= i < a.len() implies query_error(p, d, a[i], name) == query_error(
        p,
        e,
        b[i],
        name,
    ) by {
        assert(query_error(p, d, b[i], name) == query_error(p, d, a[i], name));
        assert(query_facts(p, d, b[i]) == query_facts(p, e, b[i]));
    }
    assert forall|i: int|
        #![trigger a[i]]
        #![trigger b[i]]
        0 <= i < a.len() implies a[i].outputs@.len() == b[i].outputs@.len() by {
        assert(texts(a[i].outputs@).len() == a[i].outputs@.len());
        assert(texts(b[i].outputs@).len() == b[i].outputs@.len());
    }
}

proof fn answered_alike(
    p: Program,
    d: DataSet,
    e: DataSet,
    a: Seq<ExecutionQuery>,
    b: Seq<ExecutionQuery>,
    name: Seq<char>,
)
    requires
        d@ == e@,
        differ_in_dates(a, b),
        is_answered(p, d, a, name),
    ensures
        is_answered(p, e, b, name),
{
    requests_alike(p, d, e, a, b);
    assert forall|i: int| 0 <= i < b.len() implies #[trigger] query_dates(
        p,
        e,
        b[i],
        name,
    ) is None by {
        assert(query_dates(p, d, a[i], name) is None);
    }
    assert forall|i: int| 0 <= i < b.len() implies #[trigger] query_error(
        p,
        e,
        b[i],
        name,
    ) is None by {
        assert(query_error(p, d, a[i], name) is None);
    }
}

/// A rule is not answered for one reason.
proof fn rule_reasons_alike(
    p: Program,
    d: DataSet,
    e: DataSet,
    a: Seq<ExecutionQuery>,
    b: Seq<ExecutionQuery>,
    name: Seq<char>,
    x: Seq<char>,
    y: Seq<char>,
)
    requires
        d@ == e@,
        differ_in_dates(a, b),
        is_rule_reason(p, d, a, name, x),
        is_rule_reason(p, e, b, name, y),
    ensures
        reasons_alike(Some(x), Some(y)),
{
    requests_alike(p, d, e, a, b);
    if meets_none(p, d, a, name) {
        assert forall|i: int| 0 <= i < b.len() implies #[trigger] query_dates(
            p,
            e,
            b[i],
            name,
        ) is None by {
            assert(query_dates(p, d, a[i], name) is None);
        }
        let i = choose|i: int| #[trigger]
            fails_first(p, d, a, name, i) && tells_of(x, query_error(p, d, a[i], name)->0);
        let j = choose|j: int| #[trigger]
            fails_first(p, e, b, name, j) && tells_of(y, query_error(p, e, b[j], name)->0);
        assert(i == j) by {
            if i < j {
                assert(query_error(p, e, b[i], name) is None);
            }
            if j < i {
                assert(query_error(p, d, a[j], name) is None);
            }
        }
        let error = query_error(p, d, a[i], name)->0;
        assert(query_error(p, e, b[i], name) == Some(error));
        if error is NoMatchingArm {
            assert(tell_of_one_match(x, y, error));
        }
    } else {
        let at = choose|i: int|
            0 <= i < a.len() && #[trigger] query_dates(p, d, a[i], name) is Some;
        assert(query_dates(p, e, b[at], name) is Some);
        let i = choose|i: int| #[trigger]
            meets_first(p, d, a, name, i) && x == unsupported_text(
                query_dates(p, d, a[i], name)->0.what,
            );
        let j = choose|j: int| #[trigger]
            meets_first(p, e, b, name, j) && y == unsupported_text(
                query_dates(p, e, b[j], name)->0.what,
            );
        let (m, n) = (query_dates(p, d, a[i], name)->0, query_dates(p, e, b[j], name)->0);
        assert(query_dates(p, e, b[i], name) == Some(m));
        assert(query_dates(p, d, a[j], name) == Some(n));
        assert(comes_after(m, query_dates(p, d, a[j], name)));
        assert(comes_after(n, query_dates(p, e, b[i], name)));
        places_are_in_order(m.path, n.path);
        assert(x == y);
    }
}

/// Queries are left to explain for one reason.
proof fn fallback_reasons_alike(
    p: Program,
    d: DataSet,
    e: DataSet,
    a: Seq<ExecutionQuery>,
    b: Seq<ExecutionQuery>,
    x: Seq<char>,
    y: Seq<char>,
)
    requires
        d@ == e@,
        differ_in_dates(a, b),
        is_fallback_reason(p, d, a, x),
        is_fallback_reason(p, e, b, y),
    ensures
        reasons_alike(Some(x), Some(y)),
{
    requests_alike(p, d, e, a, b);
    let (i, k) = choose|i: int, k: int| #[trigger]
        is_first_unanswered(p, d, a, i, k) && is_rule_reason(p, d, a, asked_rule(p, a, i, k), x);
    let (j, m) = choose|j: int, m: int| #[trigger]
        is_first_unanswered(p, e, b, j, m) && is_rule_reason(p, e, b, asked_rule(p, b, j, m), y);
    assert(a[i].outputs@.len() == b[i].outputs@.len());
    assert(a[j].outputs@.len() == b[j].outputs@.len());
    if i < j || (i == j && k < m) {
        assert(is_answered(p, e, b, asked_rule(p, b, i, k)));
        answered_alike(p, e, d, b, a, asked_rule(p, b, i, k));
    } else if j < i || m < k {
        assert(is_answered(p, d, a, asked_rule(p, a, j, m)));
        answered_alike(p, d, e, a, b, asked_rule(p, a, j, m));
    }
    rule_reasons_alike(p, d, e, a, b, asked_rule(p, a, i, k), x, y);
}

proof fn answered_queries_have_no_error(
    p: Program,
    data: DataSet,
    queries: Seq<ExecutionQuery>,
    n: nat,
)
    requires
        n <= queries.len(),
        forall|i: int| 0 <= i < queries.len() ==> query_outputs(
            p,
            data,
            #[trigger] queries[i],
        ) is Ok,
    ensures
        queries_error(p, data, queries, n) is None,
    decreases n,
{
    if n > 0 {
        answered_queries_have_no_error(p, data, queries, (n - 1) as nat);
        assert(query_outputs(p, data, queries[n - 1]) is Ok);
    }
}

/// What the fast path answers is not left to explain.
proof fn answered_queries_give_no_reason(
    p: Program,
    d: DataSet,
    e: DataSet,
    a: Seq<ExecutionQuery>,
    b: Seq<ExecutionQuery>,
    reason: Seq<char>,
)
    requires
        d@ == e@,
        differ_in_dates(a, b),
        forall|i: int| 0 <= i < a.len() ==> query_outputs(p, d, #[trigger] a[i]) is Ok,
        !dates_occur(p, d, a),
    ensures
        !is_fallback_reason(p, e, b, reason),
{
    if is_fallback_reason(p, e, b, reason) {
        requests_alike(p, d, e, a, b);
        answered_queries_have_no_error(p, d, a, a.len());
        dates_keep_errors(p, d, a, b, a.len());
        same_errors(p, d, e, b, b.len());
        let (i, k) = choose|i: int, k: int| #[trigger]
            is_first_unanswered(p, e, b, i, k) && is_rule_reason(
                p,
                e,
                b,
                asked_rule(p, b, i, k),
                reason,
            );
        let name = asked_rule(p, b, i, k);
        let j = choose|j: int| #[trigger]
            meets_first(p, e, b, name, j) && reason == unsupported_text(
                query_dates(p, e, b[j], name)->0.what,
            );
        assert(query_dates(p, d, a[j], name) is Some);
    }
}

/// The facts of the fast path are fixed.
proof fn fast_facts_alike(
    data: DataSet,
    a: Seq<ExecutionQuery>,
    b: Seq<ExecutionQuery>,
    d: DataSet,
    e: DataSet,
)
    requires
        differ_in_dates(a, b),
        is_fast_data(d, data, a),
        is_fast_data(e, data, b),
    ensures
        d@ == e@,
        share_period(a) == share_period(b),
{
    assert forall|i: int| 0 <= i < a.len() implies (#[trigger] a[i]).period@ == b[i].period@ by {}
    assert forall|i: int| 0 <= i < b.len() implies (#[trigger] b[i]).period@ == a[i].period@ by {}
    if share_period(a) {
        assert forall|i: int| 0 <= i < b.len() implies (#[trigger] b[i]).period@
            == b[0].period@ by {
            assert(a[i].period@ == a[0].period@);
        }
    }
    if share_period(b) {
        assert forall|i: int| 0 <= i < a.len() implies (#[trigger] a[i]).period@
            == a[0].period@ by {
            assert(b[i].period@ == b[0].period@);
        }
    }
    if a.len() > 0 {
        assert(a[0].period@ == b[0].period@);
    }
}

proof fn fast_outcomes_alike(
    p: Program,
    data: DataSet,
    a: Seq<ExecutionQuery>,
    b: Seq<ExecutionQuery>,
    r: Result<ExecutionResponse, ApiError>,
    s: Result<ExecutionResponse, ApiError>,
)
    requires
        differ_in_dates(a, b),
        is_fast(p, data, a, r),
        is_fast(p, data, b, s),
    ensures
        outcomes_alike(r, s),
{
    let (d, metadata, path) = choose|
        fast: DataSet,
        metadata: ExecutionMetadata,
        path: FastPathResult,
    | #[trigger]
        fast_outcome(p, fast, a, metadata, path, r) && is_fast_data(fast, data, a);
    let (e, other, way) = choose|
        fast: DataSet,
        metadata: ExecutionMetadata,
        path: FastPathResult,
    | #[trigger]
        fast_outcome(p, fast, b, metadata, path, s) && is_fast_data(fast, data, b);
    fast_facts_alike(data, a, b, d, e);
    dates_keep_resolution(p, a, b, a.len());
    match (path, way) {
        (FastPathResult::Executed(f), FastPathResult::Executed(g)) => {
            let (x, y) = (r->Ok_0, s->Ok_0);
            assert forall|i: int| #![trigger x.results@[i]] #![trigger y.results@[i]]
                0 <= i < x.results@.len() implies results_alike(x.results@[i], y.results@[i]) by {
                let (u, v) = (x.results@[i], y.results@[i]);
                assert(is_fast_answer(p, d, a[i], u) && is_fast_answer(p, e, b[i], v));
                assert(texts(a[i].outputs@).len() == a[i].outputs@.len());
                assert(texts(b[i].outputs@).len() == b[i].outputs@.len());
                assert(query_facts(p, d, a[i]) == query_facts(p, e, b[i]));
                assert(query_outputs(p, d, a[i]) == query_outputs(p, e, b[i]));
                assert(trace_entries(u.trace@) =~= trace_entries(v.trace@));
            }
        },
        (FastPathResult::Executed(f), FastPathResult::Unsupported { reason }) => {
            assert forall|i: int| 0 <= i < a.len() implies query_outputs(
                p,
                d,
                #[trigger] a[i],
            ) is Ok by {
                assert(is_fast_answer(p, d, a[i], f.results@[i]));
            }
            answered_queries_give_no_reason(p, d, e, a, b, reason@);
        },
        (FastPathResult::Unsupported { reason }, FastPathResult::Executed(g)) => {
            assert forall|i: int| 0 <= i < b.len() implies query_outputs(
                p,
                e,
                #[trigger] b[i],
            ) is Ok by {
                assert(is_fast_answer(p, e, b[i], g.results@[i]));
            }
            answered_queries_give_no_reason(p, e, d, b, a, reason@);
        },
        (FastPathResult::Unsupported { reason: x }, FastPathResult::Unsupported { reason: y }) => {
            if share_period(a) && unresolved(p, a, a.len()) is None {
                fallback_reasons_alike(p, d, e, a, b, x@, y@);
            }
            explanations_alike(p, d, e, a, b, metadata, other, r, s);
        },
    }
}

/// An assessment date is echoed and has no effect on evaluation, in either mode. A request that
/// differs from another in its assessment dates alone has the outcome of that one, errors
/// included, but for the dates in its results, which are its own; and the error of its first
/// query whose date lies before the start of its period, where there is one. Of a `match`
/// without an arm that the fast path leaves to explain, the reason may differ in whether it
/// names the rule.
pub proof fn assessment_dates_have_no_effect(
    mode: ExecutionMode,
    p: Program,
    data: DataSet,
    a: Seq<ExecutionQuery>,
    b: Seq<ExecutionQuery>,
    r: Result<ExecutionResponse, ApiError>,
    s: Result<ExecutionResponse, ApiError>,
)
    requires
        differ_in_dates(a, b),
        early_assessment(a, a.len()) is None,
        executed(mode, p, data, a, r),
        executed(mode, p, data, b, s),
    ensures
        match early_assessment(b, b.len()) {
            Some(i) => s matches Err(
                ApiError::AssessmentDateBeforePeriodStart { assessment_date, period_start },
            ) && Some(assessment_date) == b[i as int].assessment_date && period_start
                == b[i as int].period.start,
            None => {
                &&& outcomes_alike(r, s)
                &&& s matches Ok(y) ==> forall|i: int|
                    0 <= i < b.len() ==> (#[trigger] y.results@[i]).assessment_date
                        == b[i].assessment_date
            },
        },
{
    if early_assessment(b, b.len()) is None && rounding_fault(p, p.derived@.len()) is None
        && contradicted_spell(data.inputs@, data.inputs@.len()) is None {
        match mode {
            ExecutionMode::Explain => {
                let metadata = choose|metadata: ExecutionMetadata| #[trigger]
                    explained(p, data, a, metadata, r) && is_metadata(
                        metadata,
                        ExecutionMode::Explain,
                        ExecutionMode::Explain,
                        None,
                    );
                let other = choose|metadata: ExecutionMetadata| #[trigger]
                    explained(p, data, b, metadata, s) && is_metadata(
                        metadata,
                        ExecutionMode::Explain,
                        ExecutionMode::Explain,
                        None,
                    );
                explanations_alike(p, data, data, a, b, metadata, other, r, s);
                dates_are_echoed_by_explain(p, data, b, other, s);
            },
            ExecutionMode::Fast => {
                fast_outcomes_alike(p, data, a, b, r, s);
                let (e, other, way) = choose|
                    fast: DataSet,
                    metadata: ExecutionMetadata,
                    path: FastPathResult,
                | #[trigger]
                    fast_outcome(p, fast, b, metadata, path, s) && is_fast_data(fast, data, b);
                match way {
                    FastPathResult::Executed(_) => {
                        let y = s->Ok_0;
                        assert forall|i: int| 0 <= i < b.len() implies (
                        #[trigger] y.results@[i]).assessment_date == b[i].assessment_date by {
                            assert(is_fast_answer(p, e, b[i], y.results@[i]));
                        }
                    },
                    FastPathResult::Unsupported { .. } => {
                        dates_are_echoed_by_explain(p, e, b, other, s);
                    },
                }
            },
        }
    }
}

proof fn dates_are_echoed_by_explain(
    p: Program,
    data: DataSet,
    queries: Seq<ExecutionQuery>,
    metadata: ExecutionMetadata,
    s: Result<ExecutionResponse, ApiError>,
)
    requires
        explained(p, data, queries, metadata, s),
    ensures
        s matches Ok(y) ==> forall|i: int|
            0 <= i < queries.len() ==> (#[trigger] y.results@[i]).assessment_date
                == queries[i].assessment_date,
{
    if let Ok(y) = s {
        assert forall|i: int| 0 <= i < queries.len() implies (
        #[trigger] y.results@[i]).assessment_date == queries[i].assessment_date by {
            assert(is_answer(p, data, queries, i, y.results@[i]));
        }
    }
}

} // verus!
