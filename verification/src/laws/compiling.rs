//! Laws of compilation: which programs are refused and for what, how the rules of the others are
//! ordered, and where the URLs of their texts come from.
use crate::compile::{
    compiled, evaluation_order_is_topological, first_repeated, first_unknown, is_rule_order,
    ordered, relation_names, relations_circle, rounding_fault, rounding_fits, rule_edges,
    rule_names, sources_resolved, unknown_filter_rule, unknown_relation, unknown_rule,
    with_documents, with_records, CompileError, CompileErrorView, CompiledProgramArtifact,
    ProvisionDocument, ProvisionLine,
};
use crate::dependencies::{judgment_dependencies, rule_dependencies};
use crate::laws::parts::{a_program_is_bulk_where_all_its_rules_are, is_bulk};
use crate::model::{item_named, Derived, Program};
use crate::relation_typing::derivation_used;
use crate::schedule::{is_met, is_next, is_open};
use crate::text::{opt_text, text_lt, texts};
use vstd::prelude::*;

verus! {

/// Whether two rules of the program have the name.
pub open spec fn named_twice(p: Program, name: Seq<char>) -> bool {
    exists|i: int, j: int|
        0 <= i < j < p.derived@.len() && (#[trigger] p.derived@[i]).name@ == name && (
        #[trigger] p.derived@[j]).name@ == name
}

pub open spec fn has_rule(p: Program, name: Seq<char>) -> bool {
    exists|k: int| 0 <= k < p.derived@.len() && (#[trigger] p.derived@[k]).name@ == name
}

pub open spec fn has_relation(p: Program, name: Seq<char>) -> bool {
    exists|k: int| 0 <= k < p.relations@.len() && (#[trigger] p.relations@[k]).name@ == name
}

/// Whether a derived relation reads a relation that the program does not declare.
pub open spec fn reads_missing(p: Program, i: int, name: Seq<char>) -> bool {
    &&& p.relations@[i].derivation is Some
    &&& derivation_used(p, p.relations@[i].name@).contains(name)
    &&& !has_relation(p, name)
}

/// Whether the test of a derived relation depends on a rule that the program does not declare.
pub open spec fn tests_missing(p: Program, i: int, name: Seq<char>) -> bool {
    p.relations@[i].derivation matches Some(d) && judgment_dependencies(
        d.predicate,
        p,
        false,
    ).contains(name) && !has_rule(p, name)
}

/// Whether a rule depends on a rule that the program does not declare.
pub open spec fn needs_missing(p: Program, i: int, name: Seq<char>) -> bool {
    rule_dependencies(p.derived@[i], p).contains(name) && !has_rule(p, name)
}

proof fn rules_by_name(p: Program, name: Seq<char>)
    ensures
        rule_names(p).contains(name) <==> has_rule(p, name),
{
    let names = rule_names(p);
    if names.contains(name) {
        let k = names.index_of(name);
        assert(p.derived@[k].name@ == name);
    }
    if has_rule(p, name) {
        let k = choose|k: int|
            0 <= k < p.derived@.len() && (#[trigger] p.derived@[k]).name@ == name;
        assert(names[k] == name);
    }
}

proof fn relations_by_name(p: Program, name: Seq<char>)
    ensures
        relation_names(p).contains(name) <==> has_relation(p, name),
{
    let names = relation_names(p);
    if names.contains(name) {
        let k = names.index_of(name);
        assert(p.relations@[k].name@ == name);
    }
    if has_relation(p, name) {
        let k = choose|k: int|
            0 <= k < p.relations@.len() && (#[trigger] p.relations@[k]).name@ == name;
        assert(names[k] == name);
    }
}

proof fn repeated_is(p: Program, n: nat)
    requires
        n <= p.derived@.len(),
    ensures
        match first_repeated(rule_names(p), n) {
            Some(name) => named_twice(p, name),
            None => forall|i: int, j: int|
                0 <= i < j < n ==> (#[trigger] p.derived@[i]).name@ != (
                #[trigger] p.derived@[j]).name@,
        },
    decreases n,
{
    let names = rule_names(p);
    if n > 0 {
        repeated_is(p, (n - 1) as nat);
        let earlier = names.take(n - 1);
        if first_repeated(names, (n - 1) as nat) is None {
            if earlier.contains(names[n - 1]) {
                let i = earlier.index_of(names[n - 1]);
                assert(p.derived@[i].name@ == p.derived@[n - 1].name@);
            } else {
                assert forall|i: int, j: int| 0 <= i < j < n implies (
                #[trigger] p.derived@[i]).name@ != (#[trigger] p.derived@[j]).name@ by {
                    if j == n - 1 {
                        assert(earlier[i] == names[i]);
                    }
                }
            }
        }
    }
}

proof fn unknown_is(list: Seq<Seq<char>>, n: nat, known: Seq<Seq<char>>)
    requires
        n <= list.len(),
    ensures
        match first_unknown(list, n, known) {
            Some(name) => list.contains(name) && !known.contains(name),
            None => forall|i: int| 0 <= i < n ==> known.contains(#[trigger] list[i]),
        },
    decreases n,
{
    if n > 0 {
        unknown_is(list, (n - 1) as nat, known);
        assert(list.contains(list[n - 1]));
    }
}

proof fn unknown_relation_is(p: Program, n: nat)
    requires
        n <= p.relations@.len(),
    ensures
        match unknown_relation(p, n) {
            Some((relation, name)) => exists|i: int|
                0 <= i < n && (#[trigger] p.relations@[i]).name@ == relation && reads_missing(
                    p,
                    i,
                    name,
                ),
            None => forall|i: int, name: Seq<char>|
                0 <= i < n ==> !#[trigger] reads_missing(p, i, name),
        },
    decreases n,
{
    if n > 0 {
        unknown_relation_is(p, (n - 1) as nat);
        let used = derivation_used(p, p.relations@[n - 1].name@);
        unknown_is(used, used.len(), relation_names(p));
        if unknown_relation(p, (n - 1) as nat) is None {
            if let Some((relation, name)) = unknown_relation(p, n) {
                relations_by_name(p, name);
                assert(reads_missing(p, n - 1, name));
                assert(p.relations@[n - 1].name@ == relation);
            } else {
                assert forall|i: int, name: Seq<char>| 0 <= i < n implies !#[trigger] reads_missing(
                    p,
                    i,
                    name,
                ) by {
                    if i == n - 1 && reads_missing(p, i, name) {
                        relations_by_name(p, name);
                        let k = used.index_of(name);
                        assert(used[k] == name);
                    }
                }
            }
        }
    }
}

proof fn unknown_filter_rule_is(p: Program, n: nat)
    requires
        n <= p.relations@.len(),
    ensures
        match unknown_filter_rule(p, n) {
            Some((relation, name)) => exists|i: int|
                0 <= i < n && (#[trigger] p.relations@[i]).name@ == relation && tests_missing(
                    p,
                    i,
                    name,
                ),
            None => forall|i: int, name: Seq<char>|
                0 <= i < n ==> !#[trigger] tests_missing(p, i, name),
        },
    decreases n,
{
    if n > 0 {
        unknown_filter_rule_is(p, (n - 1) as nat);
        if unknown_filter_rule(p, (n - 1) as nat) is None {
            match p.relations@[n - 1].derivation {
                None => {},
                Some(d) => {
                    let needs = judgment_dependencies(d.predicate, p, false);
                    unknown_is(needs, needs.len(), rule_names(p));
                    if let Some((relation, name)) = unknown_filter_rule(p, n) {
                        rules_by_name(p, name);
                        assert(tests_missing(p, n - 1, name));
                        assert(p.relations@[n - 1].name@ == relation);
                    } else {
                        assert forall|i: int, name: Seq<char>| 0 <= i < n implies !#[trigger] tests_missing(
                            p,
                            i,
                            name,
                        ) by {
                            if i == n - 1 && tests_missing(p, i, name) {
                                rules_by_name(p, name);
                                let k = needs.index_of(name);
                                assert(needs[k] == name);
                            }
                        }
                    }
                },
            }
        }
    }
}

proof fn unknown_rule_is(p: Program, n: nat)
    requires
        n <= p.derived@.len(),
    ensures
        match unknown_rule(p, n) {
            Some((rule, name)) => exists|i: int|
                0 <= i < n && (#[trigger] p.derived@[i]).name@ == rule && needs_missing(p, i, name),
            None => forall|i: int, name: Seq<char>|
                0 <= i < n ==> !#[trigger] needs_missing(p, i, name),
        },
    decreases n,
{
    if n > 0 {
        unknown_rule_is(p, (n - 1) as nat);
        let needs = rule_dependencies(p.derived@[n - 1], p);
        unknown_is(needs, needs.len(), rule_names(p));
        if unknown_rule(p, (n - 1) as nat) is None {
            if let Some((rule, name)) = unknown_rule(p, n) {
                rules_by_name(p, name);
                assert(needs_missing(p, n - 1, name));
                assert(p.derived@[n - 1].name@ == rule);
            } else {
                assert forall|i: int, name: Seq<char>| 0 <= i < n implies !#[trigger] needs_missing(
                    p,
                    i,
                    name,
                ) by {
                    if i == n - 1 && needs_missing(p, i, name) {
                        rules_by_name(p, name);
                        let k = needs.index_of(name);
                        assert(needs[k] == name);
                    }
                }
            }
        }
    }
}

/// A program whose rules are to be ordered is refused for a name that two rules have; otherwise for
/// a relation that a derived one reads and the program lacks; otherwise where derived relations read
/// each other in a circle; otherwise for a rule that a test or a rule depends on and the program
/// lacks. It is refused for each of them exactly then, and the error names one that is at fault.
pub proof fn a_program_is_refused_for_what_it_lacks(
    p: Program,
    outcome: Result<Seq<Seq<char>>, CompileErrorView>,
)
    requires
        ordered(p, outcome),
    ensures
        ({
            let twice = exists|name: Seq<char>| #[trigger] named_twice(p, name);
            let unread = exists|i: int, name: Seq<char>|
                0 <= i < p.relations@.len() && #[trigger] reads_missing(p, i, name);
            let untested = exists|i: int, name: Seq<char>|
                0 <= i < p.relations@.len() && #[trigger] tests_missing(p, i, name);
            let unmet = exists|i: int, name: Seq<char>|
                0 <= i < p.derived@.len() && #[trigger] needs_missing(p, i, name);
            let sound = !twice && !unread && !relations_circle(p);
            &&& twice <==> (outcome matches Err(e) && e is DuplicateDerivedRule)
            &&& !twice && unread <==> (outcome matches Err(e) && e is UnknownRelationDependency)
            &&& !twice && !unread && relations_circle(p) <==> (outcome matches Err(e)
                && e is CyclicRelationDependency)
            &&& sound && (untested || unmet) <==> (outcome matches Err(e)
                && e is UnknownDerivedDependency)
            &&& outcome matches Err(CompileErrorView::DuplicateDerivedRule { name }) ==> named_twice(
                p,
                name,
            )
            &&& outcome matches Err(
                CompileErrorView::UnknownRelationDependency { relation, dependency },
            ) ==> exists|i: int|
                0 <= i < p.relations@.len() && (#[trigger] p.relations@[i]).name@ == relation
                    && reads_missing(p, i, dependency)
            &&& outcome matches Err(
                CompileErrorView::UnknownDerivedDependency { derived, dependency },
            ) ==> (exists|i: int|
                0 <= i < p.relations@.len() && (#[trigger] p.relations@[i]).name@ == derived
                    && tests_missing(p, i, dependency)) || exists|i: int|
                0 <= i < p.derived@.len() && (#[trigger] p.derived@[i]).name@ == derived
                    && needs_missing(p, i, dependency)
        }),
{
    repeated_is(p, p.derived@.len());
    unknown_relation_is(p, p.relations@.len());
    unknown_filter_rule_is(p, p.relations@.len());
    unknown_rule_is(p, p.derived@.len());
    if first_repeated(rule_names(p), p.derived@.len()) is None {
        assert forall|name: Seq<char>| !#[trigger] named_twice(p, name) by {}
    }
    if let Some((relation, name)) = unknown_relation(p, p.relations@.len()) {
        let i = choose|i: int|
            0 <= i < p.relations@.len() && (#[trigger] p.relations@[i]).name@ == relation
                && reads_missing(p, i, name);
        assert(reads_missing(p, i, name));
    }
    if let Some((relation, name)) = unknown_filter_rule(p, p.relations@.len()) {
        let i = choose|i: int|
            0 <= i < p.relations@.len() && (#[trigger] p.relations@[i]).name@ == relation
                && tests_missing(p, i, name);
        assert(tests_missing(p, i, name));
    }
    if let Some((rule, name)) = unknown_rule(p, p.derived@.len()) {
        let i = choose|i: int|
            0 <= i < p.derived@.len() && (#[trigger] p.derived@[i]).name@ == rule && needs_missing(
                p,
                i,
                name,
            );
        assert(needs_missing(p, i, name));
    }
}

/// Of two rules that follow each other in the order the one with the lesser name comes second only
/// where it depends on the other.
pub proof fn rules_follow_by_name_or_by_need(p: Program, order: Seq<Seq<char>>, k: int)
    requires
        ordered(p, Ok(order)),
        0 <= k < order.len() - 1,
        text_lt(order[k + 1], order[k]),
    ensures
        exists|i: int|
            0 <= i < p.derived@.len() && (#[trigger] p.derived@[i]).name@ == order[k + 1]
                && rule_dependencies(p.derived@[i], p).contains(order[k]),
{
    let names = rule_names(p);
    let edges = rule_edges(p);
    let x = choose|x: Seq<Seq<char>>| #[trigger] is_rule_order(p, x, Ok(order));
    assert(x == order);
    evaluation_order_is_topological(p, order);
    assert(is_next(names, edges, order.take(k), order[k]));
    assert(is_next(names, edges, order.take(k + 1), order[k + 1]));
    let i = choose|i: int| #[trigger]
        is_open(names, edges, order.take(k + 1), i) && names[i] == order[k + 1];
    assert(!is_open(names, edges, order.take(k), i));
    assert(!order.take(k).contains(names[i])) by {
        if order.take(k).contains(names[i]) {
            let j = order.take(k).index_of(names[i]);
            assert(order[j] == order[k + 1]);
        }
    }
    assert(!is_met(names, edges[i], order.take(k)));
    let t = choose|t: Seq<char>| #[trigger]
        edges[i].contains(t) && names.contains(t) && !order.take(k).contains(t);
    assert(order.take(k + 1).contains(t));
    let j = order.take(k + 1).index_of(t);
    assert(j == k) by {
        if j < k {
            assert(order.take(k)[j] == t);
        }
    }
    assert(p.derived@[i].name@ == order[k + 1]);
}

/// Whether a rule rounds amounts only, if it rounds.
pub open spec fn rounds_amounts(p: Program, d: Derived) -> bool {
    d.rounding is Some ==> (d.unit matches Some(unit) && (item_named(p.units@, unit@) matches Some(
        def,
    ) && def.kind is Currency))
}

proof fn rounding_is(p: Program, n: nat)
    requires
        n <= p.derived@.len(),
    ensures
        match rounding_fault(p, n) {
            Some(name) => exists|i: int|
                0 <= i < n && (#[trigger] p.derived@[i]).name@ == name && !rounds_amounts(
                    p,
                    p.derived@[i],
                ) && forall|j: int| 0 <= j < i ==> rounds_amounts(p, #[trigger] p.derived@[j]),
            None => forall|i: int| 0 <= i < n ==> rounds_amounts(p, #[trigger] p.derived@[i]),
        },
    decreases n,
{
    if n > 0 {
        rounding_is(p, (n - 1) as nat);
        let d = p.derived@[n - 1];
        assert(rounding_fits(p, d) <==> rounds_amounts(p, d));
        if rounding_fault(p, (n - 1) as nat) is None && !rounding_fits(p, d) {
            assert(p.derived@[n - 1].name@ == d.name@);
        }
    }
}

/// A program is refused for its rounding exactly where a rule rounds what is no amount of a declared
/// currency, and the error names the first such rule. What is compiled of another program holds the
/// program as it is and has each of its rules once, behind those that it depends on; it goes the
/// bulk way exactly where every rule does.
pub proof fn a_compiled_program_is_the_program_in_order(
    p: Program,
    r: Result<CompiledProgramArtifact, CompileError>,
)
    requires
        compiled(p, r),
    ensures
        (exists|i: int| 0 <= i < p.derived@.len() && !rounds_amounts(p, #[trigger] p.derived@[i]))
            <==> (r matches Err(error) && error@ is RoundingUnit),
        r matches Err(error) ==> (error@ matches CompileErrorView::RoundingUnit { derived }
            ==> exists|i: int|
            0 <= i < p.derived@.len() && (#[trigger] p.derived@[i]).name@ == derived
                && !rounds_amounts(p, p.derived@[i]) && forall|j: int|
                0 <= j < i ==> rounds_amounts(p, #[trigger] p.derived@[j])),
        r matches Ok(artifact) ==> {
            let order = texts(artifact.metadata.evaluation_order@);
            &&& artifact.program == p
            &&& order.no_duplicates()
            &&& order.len() == p.derived@.len()
            &&& forall|i: int|
                0 <= i < p.derived@.len() ==> order.contains((#[trigger] p.derived@[i]).name@)
            &&& forall|i: int, name: Seq<char>|
                0 <= i < p.derived@.len() && #[trigger] rule_dependencies(
                    p.derived@[i],
                    p,
                ).contains(name) ==> order.take(
                    order.index_of(p.derived@[i].name@),
                ).contains(name)
            &&& artifact.metadata.fast_path.compatible <==> forall|i: int|
                0 <= i < p.derived@.len() ==> is_bulk(#[trigger] p.derived@[i])
        },
{
    rounding_is(p, p.derived@.len());
    if let Some(name) = rounding_fault(p, p.derived@.len()) {
        let i = choose|i: int|
            0 <= i < p.derived@.len() && (#[trigger] p.derived@[i]).name@ == name && !rounds_amounts(
                p,
                p.derived@[i],
            ) && forall|j: int| 0 <= j < i ==> rounds_amounts(p, #[trigger] p.derived@[j]);
        assert(!rounds_amounts(p, p.derived@[i]));
    } else {
        if let Ok(artifact) = r {
            let order = texts(artifact.metadata.evaluation_order@);
            evaluation_order_is_topological(p, order);
            a_program_is_bulk_where_all_its_rules_are(p);
            assert forall|i: int| 0 <= i < p.derived@.len() implies order.contains(
                (#[trigger] p.derived@[i]).name@,
            ) by {
                assert(rule_names(p)[i] == p.derived@[i].name@);
            }
            assert forall|i: int, name: Seq<char>|
                0 <= i < p.derived@.len() && #[trigger] rule_dependencies(
                    p.derived@[i],
                    p,
                ).contains(name) implies order.take(
                order.index_of(p.derived@[i].name@),
            ).contains(name) by {
                assert(crate::compile::is_supported(
                    p,
                    order.take(order.index_of(p.derived@[i].name@)),
                    i,
                ));
            }
        }
    }
}

/// Whether a line states the URL of a path.
pub open spec fn states(line: ProvisionLine, path: Seq<char>, url: Seq<char>) -> bool {
    line.record matches Ok(record) && opt_text(record.citation_path) == Some(path) && opt_text(
        record.source_url,
    ) == Some(url)
}

/// Whether a line states an URL of a path.
pub open spec fn speaks_of(line: ProvisionLine, path: Seq<char>) -> bool {
    line.record matches Ok(record) && opt_text(record.citation_path) == Some(path)
        && record.source_url is Some
}

/// Of the lines that state an URL of a path the last one counts; where none does, the path keeps
/// the URL that it had.
pub proof fn the_last_line_of_a_path_gives_its_url(
    before: Map<Seq<char>, Seq<char>>,
    lines: Seq<ProvisionLine>,
    n: nat,
    path: Seq<char>,
)
    requires
        n <= lines.len(),
    ensures
        ({
            let after = with_records(before, lines, n);
            &&& forall|i: int, url: Seq<char>|
                0 <= i < n && #[trigger] states(lines[i], path, url) && (forall|j: int|
                    i < j < n ==> !speaks_of(#[trigger] lines[j], path)) ==> after.contains_key(path)
                    && after[path] == url
            &&& (forall|j: int| 0 <= j < n ==> !speaks_of(#[trigger] lines[j], path)) ==> {
                &&& after.contains_key(path) <==> before.contains_key(path)
                &&& before.contains_key(path) ==> after[path] == before[path]
            }
        }),
    decreases n,
{
    if n > 0 {
        let m = (n - 1) as nat;
        the_last_line_of_a_path_gives_its_url(before, lines, m, path);
        let after = with_records(before, lines, n);
        assert forall|i: int, url: Seq<char>|
            0 <= i < n && #[trigger] states(lines[i], path, url) && (forall|j: int|
                i < j < n ==> !speaks_of(#[trigger] lines[j], path)) implies after.contains_key(path)
            && after[path] == url by {
            if i < m {
                assert(!speaks_of(lines[n - 1], path));
                assert(forall|j: int| i < j < m ==> !speaks_of(#[trigger] lines[j], path));
            }
        }
        if forall|j: int| 0 <= j < n ==> !speaks_of(#[trigger] lines[j], path) {
            assert(!speaks_of(lines[n - 1], path));
            assert(forall|j: int| 0 <= j < m ==> !speaks_of(#[trigger] lines[j], path));
        }
    }
}

/// Documents are read one after the other: a later one speaks after an earlier one.
pub proof fn documents_are_read_in_order(documents: Seq<ProvisionDocument>, n: nat, path: Seq<char>)
    requires
        0 < n <= documents.len(),
    ensures
        ({
            let d = documents[n - 1].lines@;
            let (before, after) = (
                with_documents(documents, (n - 1) as nat),
                with_documents(documents, n),
            );
            &&& forall|i: int, url: Seq<char>|
                0 <= i < d.len() && #[trigger] states(d[i], path, url) && (forall|j: int|
                    i < j < d.len() ==> !speaks_of(#[trigger] d[j], path)) ==> after.contains_key(
                    path,
                ) && after[path] == url
            &&& (forall|j: int| 0 <= j < d.len() ==> !speaks_of(#[trigger] d[j], path)) ==> {
                &&& after.contains_key(path) <==> before.contains_key(path)
                &&& before.contains_key(path) ==> after[path] == before[path]
            }
        }),
{
    let d = documents[n - 1].lines@;
    the_last_line_of_a_path_gives_its_url(
        with_documents(documents, (n - 1) as nat),
        d,
        d.len(),
        path,
    );
}

/// A rule or parameter that has an URL keeps it; another has the URL of its citation path, where
/// that has one, and none otherwise. Nothing else changes.
pub proof fn urls_come_from_citation_paths(
    before: Program,
    after: Program,
    provisions: Map<Seq<char>, Seq<char>>,
    i: int,
)
    requires
        sources_resolved(before, after, provisions),
    ensures
        0 <= i < before.derived@.len() ==> {
            let (a, b) = (before.derived@[i], after.derived@[i]);
            &&& b == (Derived { source_url: b.source_url, ..a })
            &&& a.source_url is Some ==> opt_text(b.source_url) == opt_text(a.source_url)
            &&& a.source_url is None ==> match a.corpus_citation_path {
                Some(path) if provisions.contains_key(path@) => opt_text(b.source_url) == Some(
                    provisions[path@],
                ),
                _ => b.source_url is None,
            }
        },
        0 <= i < before.parameters@.len() ==> {
            let (a, b) = (before.parameters@[i], after.parameters@[i]);
            &&& b.versions == a.versions && b.name == a.name && b.id == a.id
            &&& a.source_url is Some ==> opt_text(b.source_url) == opt_text(a.source_url)
            &&& a.source_url is None ==> match a.corpus_citation_path {
                Some(path) if provisions.contains_key(path@) => opt_text(b.source_url) == Some(
                    provisions[path@],
                ),
                _ => b.source_url is None,
            }
        },
{
}

/// What is needed but is no node is not waited for.
pub proof fn nothing_waits_for_a_stranger(
    nodes: Seq<Seq<char>>,
    needs: Seq<Seq<char>>,
    placed: Seq<Seq<char>>,
    name: Seq<char>,
)
    ensures
        is_met(nodes, needs.push(name), placed) <==> is_met(nodes, needs, placed) && (nodes.contains(
            name,
        ) ==> placed.contains(name)),
{
    let more = needs.push(name);
    assert(more[needs.len() as int] == name);
    assert forall|t: Seq<char>| #[trigger] more.contains(t) <==> needs.contains(t) || t == name by {
        if needs.contains(t) {
            let i = choose|i: int| 0 <= i < needs.len() && needs[i] == t;
            assert(more[i] == t);
        }
        if more.contains(t) {
            let i = choose|i: int| 0 <= i < more.len() && more[i] == t;
            if i < needs.len() {
                assert(needs[i] == t);
            }
        }
    }
    if is_met(nodes, more, placed) {
        assert(more.contains(name));
        assert forall|t: Seq<char>| #[trigger]
            needs.contains(t) && nodes.contains(t) implies placed.contains(t) by {
            assert(more.contains(t));
        }
    }
}

} // verus!
