//! Laws of answers: which references name what, what is answered for them, and which requests are
//! refused before anything is evaluated.
use crate::api::{
    early_assessment, explained, has_entry, output_answer, output_entries, outputs_among, put,
    queries_error, query_outputs, ApiError, ExecutionMetadata, ExecutionMode, ExecutionQuery,
    ExecutionResponse, OutputView,
};
use crate::catalog::{derived_named, parameter_named, rule_with_id};
use crate::engine::{judgment_meaning, scalar_meaning};
use crate::error::ErrorView;
use crate::model::{item_named, DataSet, Derived, DerivedSemantics, Program, ScalarValue};
use crate::request::{
    executed, fast_outcome, is_fast_answer, is_fast_data, is_metadata, FastPathResult,
};
use crate::semantics::Facts;
use crate::text::{opt_text, text_lt, texts};
use vstd::prelude::*;

verus! {

proof fn early_is(queries: Seq<ExecutionQuery>, n: nat)
    requires
        n <= queries.len(),
    ensures
        match early_assessment(queries, n) {
            Some(i) => i < n && is_early(queries[i as int]) && forall|j: int|
                0 <= j < i ==> !is_early(#[trigger] queries[j]),
            None => forall|j: int| 0 <= j < n ==> !is_early(#[trigger] queries[j]),
        },
    decreases n,
{
    if n > 0 {
        early_is(queries, (n - 1) as nat);
    }
}

/// Whether a query is assessed on a day before the first of its period.
pub open spec fn is_early(query: ExecutionQuery) -> bool {
    query.assessment_date matches Some(date) && date.number() < query.period.start.number()
}

/// A request is refused for an assessment date exactly where some query is assessed on a day before
/// its period starts; the first such query is the one that the error is about.
pub proof fn early_assessments_are_refused(queries: Seq<ExecutionQuery>)
    ensures
        match early_assessment(queries, queries.len()) {
            Some(i) => i < queries.len() && is_early(queries[i as int]) && forall|j: int|
                0 <= j < i ==> !is_early(#[trigger] queries[j]),
            None => forall|j: int| 0 <= j < queries.len() ==> !is_early(#[trigger] queries[j]),
        },
{
    early_is(queries, queries.len());
}

/// Whether a reference names a rule by its public name or, where the rule has none, by its name.
pub open spec fn names_rule(d: Derived, reference: Seq<char>) -> bool {
    match d.id {
        Some(id) => id@ == reference,
        None => d.name@ == reference,
    }
}

proof fn ids_are_searched(rules: Seq<Derived>, id: Seq<char>, from: nat)
    ensures
        match rule_with_id(rules, id, from) {
            Some(i) => from <= i < rules.len() && opt_text(rules[i as int].id) == Some(id)
                && forall|j: int|
                from <= j < i ==> opt_text((#[trigger] rules[j]).id) != Some(id),
            None => forall|j: int|
                from <= j < rules.len() ==> opt_text((#[trigger] rules[j]).id) != Some(id),
        },
    decreases rules.len() - from,
{
    if from < rules.len() {
        ids_are_searched(rules, id, from + 1);
    }
}

/// A reference names a rule that has it as its public name, or as its name where the rule has no
/// public one. A rule with a public name is not named by its other name. Where the names of the rules
/// are distinct, every rule is named so.
pub proof fn references_name_rules(p: Program, reference: Seq<char>)
    ensures
        match derived_named(p, reference) {
            Some(name) => exists|i: int|
                0 <= i < p.derived@.len() && (#[trigger] p.derived@[i]).name@ == name && names_rule(
                    p.derived@[i],
                    reference,
                ),
            None => {
                &&& forall|i: int|
                    0 <= i < p.derived@.len() ==> opt_text((#[trigger] p.derived@[i]).id) != Some(
                        reference,
                    )
                &&& item_named(p.derived@, reference) matches Some(d) ==> d.id is Some
            },
        },
        forall|i: int|
            0 <= i < p.derived@.len() && opt_text((#[trigger] p.derived@[i]).id) == Some(reference)
                ==> derived_named(p, reference) is Some,
{
    ids_are_searched(p.derived@, reference, 0);
    crate::model::position_from_meaning(p.derived@, reference, 0);
}

/// The answer to a reference that names a rule is the value or the judgment of that rule for the
/// entity, under the rule's public name, or its name where it has none, with its name, type and
/// unit. Where the rule fails, its error is the answer.
pub proof fn a_reference_is_answered_by_its_rule(
    cx: Facts,
    ent: Seq<char>,
    reference: Seq<char>,
    name: Seq<char>,
    d: Derived,
)
    requires
        derived_named(cx.program, reference) == Some(name),
        cx.program.rule(name) == Some(d),
    ensures
        ({
            let answer = output_answer(cx, ent, reference);
            match d.formula_at(cx.period.start) {
                None => answer matches Err(error) && error is MissingDerivedFormulaVersion,
                Some(DerivedSemantics::Scalar(_)) => {
                    let found = scalar_meaning(cx, name, ent).value;
                    &&& found is Ok <==> answer is Ok
                    &&& found matches Err(error) ==> answer == Err::<
                        (Seq<char>, OutputView),
                        ErrorView,
                    >(error)
                    &&& answer matches Ok((key, output)) ==> {
                        &&& key == match d.id {
                            Some(id) => id@,
                            None => d.name@,
                        }
                        &&& output matches OutputView::Scalar { name: n, id, dtype, unit, value }
                        &&& n == d.name@ && id == opt_text(d.id) && dtype == d.dtype && unit
                            == opt_text(d.unit)
                        &&& found == Ok::<ScalarValue, ErrorView>(value)
                    }
                },
                Some(DerivedSemantics::Judgment(_)) => {
                    let found = judgment_meaning(cx, name, ent).value;
                    &&& found is Ok <==> answer is Ok
                    &&& found matches Err(error) ==> answer == Err::<
                        (Seq<char>, OutputView),
                        ErrorView,
                    >(error)
                    &&& answer matches Ok((key, output)) ==> {
                        &&& key == match d.id {
                            Some(id) => id@,
                            None => d.name@,
                        }
                        &&& output matches OutputView::Judgment { name: n, id, unit, outcome }
                        &&& n == d.name@ && id == opt_text(d.id) && unit == opt_text(d.unit)
                        &&& found matches Ok(o) && o == outcome
                    }
                },
            }
        }),
{
    crate::model::position_from_meaning(cx.program.derived@, name, 0);
}

/// A reference that names no rule may name a parameter: one without an index, whose value is the one
/// at zero of the table in force at the start of the period. A parameter with an index is not
/// answered, and what names neither is unknown.
pub proof fn a_parameter_is_answered_without_an_index(
    cx: Facts,
    ent: Seq<char>,
    reference: Seq<char>,
)
    requires
        derived_named(cx.program, reference) is None,
    ensures
        ({
            let answer = output_answer(cx, ent, reference);
            match parameter_named(cx.program, reference) {
                None => answer == Err::<(Seq<char>, OutputView), ErrorView>(
                    ErrorView::UnknownDerived(reference),
                ),
                Some(name) => cx.program.parameter(name) matches Some(p) ==> {
                    &&& p.indexed_by is Some ==> answer is Err
                    &&& p.indexed_by is None ==> match p.version_at(cx.period.start) {
                        Some(version) if version.values@.contains_key(0) => {
                            &&& answer matches Ok((key, output))
                            &&& output matches OutputView::Scalar { name: n, id, unit, value, .. }
                            &&& n == p.name@ && id == opt_text(p.id) && unit == opt_text(p.unit)
                            &&& value == version.values@[0]
                        },
                        _ => answer is Err,
                    }
                },
            }
        }),
{
}

proof fn put_is<V>(list: Seq<(Seq<char>, V)>, key: Seq<char>, item: V)
    requires
        keys_ascend(list),
    ensures
        keys_ascend(put(list, key, item)),
        forall|k: Seq<char>, x: V| #[trigger]
            has_entry(put(list, key, item), k, x) <==> if k == key {
                x == item
            } else {
                has_entry(list, k, x)
            },
        forall|k: Seq<char>, x: V|
            has_entry(put(list, key, item), k, x) ==> k == key || has_entry(list, k, x),
    decreases list.len(),
{
    let after = put(list, key, item);
    if list.len() == 0 {
        assert(after =~= seq![(key, item)]);
        assert forall|k: Seq<char>, x: V| #[trigger] has_entry(after, k, x) <==> if k == key {
            x == item
        } else {
            has_entry(list, k, x)
        } by {
            assert(after[0] == (key, item));
        }
    } else {
        let rest = list.drop_first();
        assert(keys_ascend(rest)) by {
            assert forall|i: int, j: int| 0 <= i < j < rest.len() implies text_lt(
                (#[trigger] rest[i]).0,
                (#[trigger] rest[j]).0,
            ) by {
                assert(rest[i] == list[i + 1] && rest[j] == list[j + 1]);
            }
        }
        assert forall|i: int| 0 <= i < rest.len() implies text_lt(
            list[0].0,
            (#[trigger] rest[i]).0,
        ) by {
            assert(rest[i] == list[i + 1]);
        }
        if list[0].0 == key {
            assert(after =~= seq![(key, item)] + rest);
            split_entry(after, (key, item), rest);
            split_entry(list, list[0], rest);
            assert(list =~= seq![list[0]] + rest);
            assert forall|i: int| 0 <= i < rest.len() implies (#[trigger] rest[i]).0 != key by {
                crate::text::text_lt_irreflexive(key);
            }
        } else if text_lt(key, list[0].0) {
            assert(after =~= seq![(key, item)] + list);
            split_entry(after, (key, item), list);
            assert forall|i: int| 0 <= i < list.len() implies text_lt(
                key,
                (#[trigger] list[i]).0,
            ) by {
                if i > 0 {
                    crate::text::text_lt_transitive(key, list[0].0, list[i].0);
                }
            }
            assert forall|i: int| 0 <= i < list.len() implies (#[trigger] list[i]).0 != key by {
                crate::text::text_lt_irreflexive(key);
            }
        } else {
            put_is(rest, key, item);
            let tail = put(rest, key, item);
            crate::text::text_lt_total(key, list[0].0);
            assert(after =~= seq![list[0]] + tail);
            split_entry(after, list[0], tail);
            split_entry(list, list[0], rest);
            assert(list =~= seq![list[0]] + rest);
            assert forall|i: int| 0 <= i < tail.len() implies text_lt(
                list[0].0,
                (#[trigger] tail[i]).0,
            ) by {
                assert(has_entry(tail, tail[i].0, tail[i].1));
                if tail[i].0 != key {
                    assert(has_entry(rest, tail[i].0, tail[i].1));
                    let j = choose|j: int|
                        0 <= j < rest.len() && #[trigger] rest[j] == (tail[i].0, tail[i].1);
                    assert(rest[j].0 == tail[i].0);
                }
            }
        }
    }
}

/// Whether the keys of a list ascend.
pub open spec fn keys_ascend<V>(list: Seq<(Seq<char>, V)>) -> bool {
    forall|i: int, j: int|
        0 <= i < j < list.len() ==> text_lt((#[trigger] list[i]).0, (#[trigger] list[j]).0)
}

proof fn split_entry<V>(all: Seq<(Seq<char>, V)>, first: (Seq<char>, V), rest: Seq<(Seq<char>, V)>)
    requires
        all =~= seq![first] + rest,
    ensures
        forall|k: Seq<char>, x: V| #[trigger]
            has_entry(all, k, x) <==> first == (k, x) || has_entry(rest, k, x),
        (forall|i: int| 0 <= i < rest.len() ==> text_lt(first.0, (#[trigger] rest[i]).0))
            && keys_ascend(rest) ==> keys_ascend(all),
{
    assert forall|k: Seq<char>, x: V| #[trigger] has_entry(all, k, x) <==> first == (k, x)
        || has_entry(rest, k, x) by {
        if has_entry(all, k, x) {
            let i = choose|i: int| 0 <= i < all.len() && #[trigger] all[i] == (k, x);
            if i > 0 {
                assert(rest[i - 1] == (k, x));
            }
        }
        if first == (k, x) {
            assert(all[0] == (k, x));
        }
        if has_entry(rest, k, x) {
            let i = choose|i: int| 0 <= i < rest.len() && #[trigger] rest[i] == (k, x);
            assert(all[i + 1] == (k, x));
        }
    }
    if (forall|i: int| 0 <= i < rest.len() ==> text_lt(first.0, (#[trigger] rest[i]).0))
        && keys_ascend(rest) {
        assert forall|i: int, j: int| 0 <= i < j < all.len() implies text_lt(
            (#[trigger] all[i]).0,
            (#[trigger] all[j]).0,
        ) by {
            assert(all[j] == rest[j - 1]);
            if i > 0 {
                assert(all[i] == rest[i - 1]);
            }
        }
    }
}

/// The answers to references, one for each.
#[verifier::opaque]
pub open spec fn answers_to(cx: Facts, ent: Seq<char>, references: Seq<Seq<char>>) -> Seq<
    Result<(Seq<char>, OutputView), ErrorView>,
> {
    Seq::new(references.len(), |i: int| output_answer(cx, ent, references[i]))
}

/// Whether the entries of a list are answers: every entry is one, every answer is an entry, of
/// several under one key the last, and the keys ascend.
pub open spec fn holds_answers<E>(
    list: Seq<(Seq<char>, OutputView)>,
    answers: Seq<Result<(Seq<char>, OutputView), E>>,
) -> bool {
    &&& keys_ascend(list)
    &&& forall|i: int| 0 <= i < answers.len() ==> (#[trigger] answers[i]) is Ok
    &&& forall|k: Seq<char>, x: OutputView| #[trigger]
        has_entry(list, k, x) <==> exists|i: int|
            0 <= i < answers.len() && is_last_under(answers, i, k, x)
}

/// Whether an answer is the last under its key.
pub open spec fn is_last_under<E>(
    answers: Seq<Result<(Seq<char>, OutputView), E>>,
    i: int,
    k: Seq<char>,
    x: OutputView,
) -> bool {
    &&& answers[i] == Ok::<(Seq<char>, OutputView), E>((k, x))
    &&& forall|j: int|
        i < j < answers.len() ==> !((#[trigger] answers[j]) matches Ok(other) && other.0 == k)
}

proof fn answers_are_put<E>(
    answers: Seq<Result<(Seq<char>, OutputView), E>>,
    list: Seq<(Seq<char>, OutputView)>,
    key: Seq<char>,
    item: OutputView,
)
    requires
        holds_answers(list, answers),
    ensures
        holds_answers(put(list, key, item), answers.push(Ok((key, item)))),
{
    put_is(list, key, item);
    let after = put(list, key, item);
    let more = answers.push(Ok((key, item)));
    assert forall|k: Seq<char>, x: OutputView| #[trigger]
        has_entry(after, k, x) <==> exists|i: int|
            0 <= i < more.len() && is_last_under(more, i, k, x) by {
        if has_entry(after, k, x) {
            if k == key {
                assert(is_last_under(more, answers.len() as int, k, x));
            } else {
                assert(has_entry(list, k, x));
                let i = choose|i: int| 0 <= i < answers.len() && is_last_under(answers, i, k, x);
                assert(is_last_under(more, i, k, x)) by {
                    assert forall|j: int| i < j < more.len() implies !((
                    #[trigger] more[j]) matches Ok(other) && other.0 == k) by {
                        if j < answers.len() {
                            assert(more[j] == answers[j]);
                        }
                    }
                }
            }
        }
        if exists|i: int| 0 <= i < more.len() && is_last_under(more, i, k, x) {
            let i = choose|i: int| 0 <= i < more.len() && is_last_under(more, i, k, x);
            if i < answers.len() {
                assert(!(more[answers.len() as int] matches Ok(other) && other.0 == k));
                assert(is_last_under(answers, i, k, x)) by {
                    assert forall|j: int| i < j < answers.len() implies !((
                    #[trigger] answers[j]) matches Ok(other) && other.0 == k) by {
                        assert(more[j] == answers[j]);
                    }
                }
                assert(has_entry(list, k, x));
            }
        }
    }
    assert forall|i: int| 0 <= i < more.len() implies (#[trigger] more[i]) is Ok by {
        if i < answers.len() {
            assert(more[i] == answers[i]);
        }
    }
}

proof fn answers_are_collected<E>(
    answers: Seq<Result<(Seq<char>, OutputView), E>>,
    first: spec_fn(nat) -> Result<Seq<(Seq<char>, OutputView)>, E>,
    n: nat,
)
    requires
        n <= answers.len(),
        first(0) == Ok::<Seq<(Seq<char>, OutputView)>, E>(Seq::empty()),
        forall|i: nat|
            0 < i <= answers.len() ==> #[trigger] first(i) == match first((i - 1) as nat) {
                Err(error) => Err(error),
                Ok(before) => match answers[i - 1] {
                    Err(error) => Err(error),
                    Ok(answer) => Ok(put(before, answer.0, answer.1)),
                },
            },
    ensures
        match first(n) {
            Ok(list) => holds_answers(list, answers.take(n as int)),
            Err(error) => exists|i: int|
                {
                    &&& 0 <= i < n
                    &&& #[trigger] answers[i] == Err::<(Seq<char>, OutputView), E>(error)
                    &&& forall|j: int| 0 <= j < i ==> (#[trigger] answers[j]) is Ok
                },
        },
    decreases n,
{
    if n > 0 {
        let m = (n - 1) as nat;
        answers_are_collected(answers, first, m);
        assert(first(n) == match first(m) {
            Err(error) => Err(error),
            Ok(before) => match answers[n - 1] {
                Err(error) => Err(error),
                Ok(answer) => Ok(put(before, answer.0, answer.1)),
            },
        });
        if let Ok(before) = first(m) {
            let some = answers.take(m as int);
            match answers[n - 1] {
                Ok(answer) => {
                    answers_are_put(some, before, answer.0, answer.1);
                    assert(answers.take(n as int) =~= some.push(Ok((answer.0, answer.1))));
                },
                Err(error) => {
                    assert forall|j: int| 0 <= j < m implies (#[trigger] answers[j]) is Ok by {
                        assert(some[j] == answers[j]);
                    }
                },
            }
        }
    }
}

proof fn outputs_step(cx: Facts, ent: Seq<char>, references: Seq<Seq<char>>, i: nat)
    requires
        0 < i <= references.len(),
    ensures
        outputs_among(cx, ent, references, i) == match outputs_among(
            cx,
            ent,
            references,
            (i - 1) as nat,
        ) {
            Err(error) => Err(error),
            Ok(before) => match answers_to(cx, ent, references)[i - 1] {
                Err(error) => Err(error),
                Ok(answer) => Ok(put(before, answer.0, answer.1)),
            },
        },
        answers_to(cx, ent, references).len() == references.len(),
{
    reveal(answers_to);
}

/// Where every reference is answered, the outputs are those answers under their keys, ascending:
/// every entry is the answer to a reference, and every answer is an entry, of several under one key
/// the last. Where a reference is not answered, the error is that of the first such reference.
pub proof fn outputs_are_the_answers_to_the_references(
    cx: Facts,
    ent: Seq<char>,
    references: Seq<Seq<char>>,
)
    ensures
        match outputs_among(cx, ent, references, references.len()) {
            Ok(list) => holds_answers(list, answers_to(cx, ent, references)),
            Err(error) => exists|i: int|
                {
                    &&& 0 <= i < references.len()
                    &&& #[trigger] answers_to(cx, ent, references)[i] == Err::<
                        (Seq<char>, OutputView),
                        ErrorView,
                    >(error)
                    &&& forall|j: int|
                        0 <= j < i ==> (#[trigger] answers_to(cx, ent, references)[j]) is Ok
                },
        },
{
    let answers = answers_to(cx, ent, references);
    let first = |n: nat| outputs_among(cx, ent, references, n);
    assert(answers.len() == references.len()) by {
        reveal(answers_to);
    }
    assert forall|i: nat| 0 < i <= answers.len() implies #[trigger] first(i) == match first(
        (i - 1) as nat,
    ) {
        Err(error) => Err(error),
        Ok(before) => match answers[i - 1] {
            Err(error) => Err(error),
            Ok(answer) => Ok(put(before, answer.0, answer.1)),
        },
    } by {
        outputs_step(cx, ent, references, i);
    }
    answers_are_collected(answers, first, references.len());
    assert(answers.take(references.len() as int) =~= answers);
}

proof fn queries_error_is(p: Program, data: DataSet, queries: Seq<ExecutionQuery>, n: nat)
    requires
        n <= queries.len(),
    ensures
        match queries_error(p, data, queries, n) {
            Some(error) => exists|i: int|
                0 <= i < n && query_outputs(p, data, #[trigger] queries[i]) == Err::<
                    Seq<(Seq<char>, OutputView)>,
                    ErrorView,
                >(error) && forall|j: int|
                    0 <= j < i ==> query_outputs(p, data, #[trigger] queries[j]) is Ok,
            None => forall|i: int|
                0 <= i < n ==> query_outputs(p, data, #[trigger] queries[i]) is Ok,
        },
    decreases n,
{
    if n > 0 {
        queries_error_is(p, data, queries, (n - 1) as nat);
        if queries_error(p, data, queries, (n - 1) as nat) is None {
            if let Err(error) = query_outputs(p, data, queries[n - 1]) {
                assert(query_outputs(p, data, queries[n - 1]) == Err::<
                    Seq<(Seq<char>, OutputView)>,
                    ErrorView,
                >(error));
            }
        }
    }
}

/// Queries are explained one by one, in their order: the answer to each carries its entity, its
/// period and its assessment date, and has its outputs, on the facts of the request and in the
/// query's own period. Where a query fails, the error is that of the first that does.
pub proof fn queries_are_answered_in_order(
    p: Program,
    data: DataSet,
    queries: Seq<ExecutionQuery>,
    metadata: ExecutionMetadata,
    r: Result<ExecutionResponse, ApiError>,
)
    requires
        explained(p, data, queries, metadata, r),
    ensures
        match r {
            Ok(response) => {
                &&& response.metadata == metadata
                &&& response.results@.len() == queries.len()
                &&& forall|i: int|
                    0 <= i < queries.len() ==> {
                        let (query, result) = (queries[i], #[trigger] response.results@[i]);
                        let cx = Facts { program: p, data: data@, period: query.period@ };
                        &&& result.entity_id@ == query.entity_id@
                        &&& result.period@ == query.period@
                        &&& result.assessment_date == query.assessment_date
                        &&& outputs_among(
                            cx,
                            query.entity_id@,
                            texts(query.outputs@),
                            query.outputs@.len(),
                        ) == Ok::<Seq<(Seq<char>, OutputView)>, ErrorView>(
                            output_entries(result.outputs@),
                        )
                    }
            },
            Err(error) => error matches ApiError::Eval(e) && exists|i: int|
                0 <= i < queries.len() && query_outputs(p, data, #[trigger] queries[i]) == Err::<
                    Seq<(Seq<char>, OutputView)>,
                    ErrorView,
                >(e@) && forall|j: int|
                    0 <= j < i ==> query_outputs(p, data, #[trigger] queries[j]) is Ok,
        },
{
    queries_error_is(p, data, queries, queries.len());
}

/// An answer says how it came about: in the mode that was asked for or, where the fast mode left the
/// request to explain, in that mode and for a reason. A request is refused for an assessment date
/// exactly where a query is assessed before its period starts. Whatever the mode, there is an answer
/// for each query, in their order, with the query's entity, period and assessment date.
pub proof fn an_answer_says_how_it_came_about(
    mode: ExecutionMode,
    p: Program,
    data: DataSet,
    queries: Seq<ExecutionQuery>,
    r: Result<ExecutionResponse, ApiError>,
)
    requires
        executed(mode, p, data, queries, r),
    ensures
        (exists|i: int| 0 <= i < queries.len() && is_early(#[trigger] queries[i])) <==> (
        r matches Err(error) && error is AssessmentDateBeforePeriodStart),
        r matches Ok(response) ==> {
            &&& response.metadata.requested_mode == mode
            &&& mode == ExecutionMode::Explain ==> response.metadata.actual_mode
                == ExecutionMode::Explain && response.metadata.fallback_reason is None
            &&& response.metadata.actual_mode == mode <==> response.metadata.fallback_reason is None
            &&& response.results@.len() == queries.len()
            &&& forall|i: int|
                0 <= i < queries.len() ==> {
                    let result = #[trigger] response.results@[i];
                    &&& result.entity_id@ == queries[i].entity_id@
                    &&& result.period@ == queries[i].period@
                    &&& result.assessment_date == queries[i].assessment_date
                }
        },
{
    early_is(queries, queries.len());
    if let Some(i) = early_assessment(queries, queries.len()) {
        assert(is_early(queries[i as int]));
    } else if let Ok(response) = r {
        if mode == ExecutionMode::Explain {
            let metadata = choose|metadata: ExecutionMetadata| #[trigger]
                explained(p, data, queries, metadata, r) && is_metadata(
                    metadata,
                    ExecutionMode::Explain,
                    ExecutionMode::Explain,
                    None,
                );
            queries_are_answered_in_order(p, data, queries, metadata, r);
        } else {
            let (fast, metadata, path) = choose|
                fast: DataSet,
                metadata: ExecutionMetadata,
                path: FastPathResult,
            | #[trigger]
                fast_outcome(p, fast, queries, metadata, path, r) && is_fast_data(
                    fast,
                    data,
                    queries,
                );
            if path is Unsupported {
                queries_are_answered_in_order(p, fast, queries, metadata, r);
            } else {
                assert forall|i: int| 0 <= i < queries.len() implies is_fast_answer(
                    p,
                    fast,
                    queries[i],
                    #[trigger] response.results@[i],
                ) by {}
            }
        }
    }
}

} // verus!
