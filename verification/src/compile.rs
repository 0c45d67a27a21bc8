//! Compiled program artifacts: the order in which rules are evaluated, the strategies that
//! can run them, and the sources that their texts come from.
use crate::agreement::{parameters_alike, rules_agree, rules_alike};
use crate::engine::{judgment_meaning, judgment_terminates, scalar_meaning, scalar_terminates};
use crate::semantics::{input_value, Facts};
use crate::dependencies::{
    collect_judgment_dependencies, derived_dependencies, fast_blockers, judgment_dependencies,
    rule_dependencies, rules_blockers,
};
use crate::lines::{
    char_lists, chars_of, is_blank, join, joined_by, line_text, line_text_len, raw_lines, split_lines,
    text_between, white_before,
};
use crate::model::{
    find_index, find_named, item_named, position_of, Derived, IndexedParameter, Program,
    RelationSchema, UnitKind, DataSet, PeriodView, Named, same_positions,
};
use crate::relation_typing::{collect_judgment_used, derivation_used, push_text};
use crate::schedule::{
    circle_is_left_over, complete_has_all, covers, find_circle, first_left, holds_text,
    is_cycle_trail, is_schedule, is_stuck, left_over, nodes_left, schedule, schedule_is_unique,
    text_lists, trail_of,
};
use crate::catalog::{begins, strip_prefix};
use crate::text::{insert_sorted, int_text, opt_text, owned, same, sorted_texts, texts, u64_text, usize_text};
use crate::ENGINE_VERSION;
use vstd::prelude::*;
use vstd::string::*;

verus! {

/// The format that artifacts are written in. Artifacts of a later format are rejected.
pub const ARTIFACT_FORMAT_VERSION: u32 = 1;

/// Why a program does not compile, or an artifact does not load.
#[derive(Debug)]
pub enum CompileError {
    /// A rule rounds a value whose unit is no declared currency.
    RoundingUnit { derived: String },
    UnknownDerivedDependency { derived: String, dependency: String },
    DuplicateDerivedRule { name: String },
    CyclicDependency { cycle: String },
    UnknownRelationDependency { relation: String, dependency: String },
    CyclicRelationDependency { cycle: String },
    /// A module did not load.
    RuleSpec { path: String, error: RuleSpecError },
    /// A module has rules but no discriminator.
    AmbiguousRuleSpecYaml { path: String },
    UnsupportedArtifactFormatVersion { path: String, found: u32, supported: u32 },
    /// The text of an artifact did not parse.
    DeserializeArtifact { path: String, error: String },
    ParseProvisionRecord { path: String, line: usize, error: String },
}

/// Why a module did not load.
#[derive(Debug)]
pub enum RuleSpecError {
    MissingDiscriminator,
    /// The loader's own words.
    Load(String),
}

/// The model of a [`CompileError`].
pub ghost enum CompileErrorView {
    RoundingUnit { derived: Seq<char> },
    UnknownDerivedDependency { derived: Seq<char>, dependency: Seq<char> },
    DuplicateDerivedRule { name: Seq<char> },
    CyclicDependency { cycle: Seq<char> },
    UnknownRelationDependency { relation: Seq<char>, dependency: Seq<char> },
    CyclicRelationDependency { cycle: Seq<char> },
    /// `None` where the discriminator is missing.
    RuleSpec { path: Seq<char>, error: Option<Seq<char>> },
    AmbiguousRuleSpecYaml { path: Seq<char> },
    UnsupportedArtifactFormatVersion { path: Seq<char>, found: u32, supported: u32 },
    DeserializeArtifact { path: Seq<char>, error: Seq<char> },
    ParseProvisionRecord { path: Seq<char>, line: nat, error: Seq<char> },
}

impl CompileError {
    pub open spec fn view(&self) -> CompileErrorView {
        match *self {
            CompileError::RoundingUnit { derived } => CompileErrorView::RoundingUnit {
                derived: derived@,
            },
            CompileError::UnknownDerivedDependency { derived, dependency } => {
                CompileErrorView::UnknownDerivedDependency {
                    derived: derived@,
                    dependency: dependency@,
                }
            },
            CompileError::DuplicateDerivedRule { name } => CompileErrorView::DuplicateDerivedRule {
                name: name@,
            },
            CompileError::CyclicDependency { cycle } => CompileErrorView::CyclicDependency {
                cycle: cycle@,
            },
            CompileError::UnknownRelationDependency { relation, dependency } => {
                CompileErrorView::UnknownRelationDependency {
                    relation: relation@,
                    dependency: dependency@,
                }
            },
            CompileError::CyclicRelationDependency { cycle } => {
                CompileErrorView::CyclicRelationDependency { cycle: cycle@ }
            },
            CompileError::RuleSpec { path, error } => CompileErrorView::RuleSpec {
                path: path@,
                error: match error {
                    RuleSpecError::MissingDiscriminator => None,
                    RuleSpecError::Load(text) => Some(text@),
                },
            },
            CompileError::AmbiguousRuleSpecYaml { path } => {
                CompileErrorView::AmbiguousRuleSpecYaml { path: path@ }
            },
            CompileError::UnsupportedArtifactFormatVersion { path, found, supported } => {
                CompileErrorView::UnsupportedArtifactFormatVersion { path: path@, found, supported }
            },
            CompileError::DeserializeArtifact { path, error } => {
                CompileErrorView::DeserializeArtifact { path: path@, error: error@ }
            },
            CompileError::ParseProvisionRecord { path, line, error } => {
                CompileErrorView::ParseProvisionRecord {
                    path: path@,
                    line: line as nat,
                    error: error@,
                }
            },
        }
    }
}

/// The first text among the first `n` that is listed before.
pub open spec fn first_repeated(list: Seq<Seq<char>>, n: nat) -> Option<Seq<char>>
    decreases n,
{
    if n == 0 || n > list.len() {
        None
    } else {
        match first_repeated(list, (n - 1) as nat) {
            Some(t) => Some(t),
            None => if list.take(n - 1).contains(list[n - 1]) {
                Some(list[n - 1])
            } else {
                None
            },
        }
    }
}

/// The first text among the first `n` that is not known.
pub open spec fn first_unknown(list: Seq<Seq<char>>, n: nat, known: Seq<Seq<char>>) -> Option<
    Seq<char>,
>
    decreases n,
{
    if n == 0 || n > list.len() {
        None
    } else {
        match first_unknown(list, (n - 1) as nat, known) {
            Some(t) => Some(t),
            None => if known.contains(list[n - 1]) {
                None
            } else {
                Some(list[n - 1])
            },
        }
    }
}

pub open spec fn rule_names(p: Program) -> Seq<Seq<char>> {
    p.derived@.map_values(|d: Derived| d.name@)
}

/// What each rule depends on.
pub open spec fn rule_edges(p: Program) -> Seq<Seq<Seq<char>>> {
    p.derived@.map_values(|d: Derived| rule_dependencies(d, p))
}

pub open spec fn relation_names(p: Program) -> Seq<Seq<char>> {
    p.relations@.map_values(|r: RelationSchema| r.name@)
}

/// The derived relations among the first `n` relations.
pub open spec fn derived_relations(p: Program, n: nat) -> Seq<Seq<char>>
    decreases n,
{
    if n == 0 || n > p.relations@.len() {
        Seq::empty()
    } else {
        let relation = p.relations@[n - 1];
        if relation.derivation is Some && position_of(p.relations@, relation.name@) == Some(
            (n - 1) as nat,
        ) {
            derived_relations(p, (n - 1) as nat).push(relation.name@)
        } else {
            derived_relations(p, (n - 1) as nat)
        }
    }
}

pub open spec fn filtered_relations(p: Program) -> Seq<Seq<char>> {
    derived_relations(p, p.relations@.len())
}

/// What each derived relation reads.
pub open spec fn relation_edges(p: Program) -> Seq<Seq<Seq<char>>> {
    filtered_relations(p).map_values(|name: Seq<char>| derivation_used(p, name))
}

/// The first derived relation among the first `n` relations that reads a relation which is
/// not declared, with that relation.
pub open spec fn unknown_relation(p: Program, n: nat) -> Option<(Seq<char>, Seq<char>)>
    decreases n,
{
    if n == 0 || n > p.relations@.len() {
        None
    } else {
        match unknown_relation(p, (n - 1) as nat) {
            Some(found) => Some(found),
            None => {
                let relation = p.relations@[n - 1];
                let used = derivation_used(p, relation.name@);
                if relation.derivation is Some {
                    match first_unknown(used, used.len(), relation_names(p)) {
                        Some(t) => Some((relation.name@, t)),
                        None => None,
                    }
                } else {
                    None
                }
            },
        }
    }
}

/// The first derived relation among the first `n` relations whose predicate depends on an
/// undeclared rule, with that rule.
pub open spec fn unknown_filter_rule(p: Program, n: nat) -> Option<(Seq<char>, Seq<char>)>
    decreases n,
{
    if n == 0 || n > p.relations@.len() {
        None
    } else {
        match unknown_filter_rule(p, (n - 1) as nat) {
            Some(found) => Some(found),
            None => {
                let relation = p.relations@[n - 1];
                match relation.derivation {
                    Some(d) => {
                        let needs = judgment_dependencies(d.predicate, p, false);
                        match first_unknown(needs, needs.len(), rule_names(p)) {
                            Some(t) => Some((relation.name@, t)),
                            None => None,
                        }
                    },
                    None => None,
                }
            },
        }
    }
}

/// The first rule among the first `n` that depends on an undeclared rule, with that rule.
pub open spec fn unknown_rule(p: Program, n: nat) -> Option<(Seq<char>, Seq<char>)>
    decreases n,
{
    if n == 0 || n > p.derived@.len() {
        None
    } else {
        match unknown_rule(p, (n - 1) as nat) {
            Some(found) => Some(found),
            None => {
                let d = p.derived@[n - 1];
                let needs = rule_dependencies(d, p);
                match first_unknown(needs, needs.len(), rule_names(p)) {
                    Some(t) => Some((d.name@, t)),
                    None => None,
                }
            },
        }
    }
}

/// Whether derived relations read each other in a circle.
pub open spec fn relations_circle(p: Program) -> bool {
    exists|trail: Seq<int>| #[trigger]
        is_cycle_trail(filtered_relations(p), relation_edges(p), trail)
}

pub open spec fn names_on(nodes: Seq<Seq<char>>, trail: Seq<int>) -> Seq<Seq<char>> {
    trail.map_values(|i: int| nodes[i])
}

/// Whether the names are those of relations that lead into a circle, in ascending order.
pub open spec fn is_relation_cycle(p: Program, cycle: Seq<char>, trail: Seq<int>) -> bool {
    let names = sorted_texts(names_on(filtered_relations(p), trail));
    &&& is_cycle_trail(filtered_relations(p), relation_edges(p), trail)
    &&& trail.no_duplicates()
    &&& cycle == joined_by(names, names.len(), ", "@)
}

/// Whether the text names relations that lead into a circle.
pub open spec fn names_cycle(p: Program, cycle: Seq<char>) -> bool {
    exists|trail: Seq<int>| #[trigger] is_relation_cycle(p, cycle, trail)
}

/// What comes of scheduling the rules of a program.
pub open spec fn is_rule_order(
    p: Program,
    order: Seq<Seq<char>>,
    outcome: Result<Seq<Seq<char>>, CompileErrorView>,
) -> bool {
    let names = rule_names(p);
    let left = left_over(names, order, names.len());
    &&& is_schedule(names, rule_edges(p), order)
    &&& is_stuck(names, rule_edges(p), order)
    &&& outcome == if covers(names, order) {
        Ok(order)
    } else {
        Err(CompileErrorView::CyclicDependency { cycle: joined_by(left, left.len(), ", "@) })
    }
}

/// What comes of ordering the rules of a program for evaluation. Which relations are
/// named for a circle is left open where there are several; everything else is determined.
pub open spec fn ordered(p: Program, outcome: Result<Seq<Seq<char>>, CompileErrorView>) -> bool {
    match first_repeated(rule_names(p), p.derived@.len()) {
        Some(name) => outcome == Err::<Seq<Seq<char>>, CompileErrorView>(
            CompileErrorView::DuplicateDerivedRule { name },
        ),
        None => match unknown_relation(p, p.relations@.len()) {
            Some((relation, dependency)) => outcome == Err::<Seq<Seq<char>>, CompileErrorView>(
                CompileErrorView::UnknownRelationDependency { relation, dependency },
            ),
            None => if relations_circle(p) {
                match outcome {
                    Err(CompileErrorView::CyclicRelationDependency { cycle }) => names_cycle(
                        p,
                        cycle,
                    ),
                    _ => false,
                }
            } else {
                match unknown_filter_rule(p, p.relations@.len()) {
                    Some((derived, dependency)) => outcome == Err::<
                        Seq<Seq<char>>,
                        CompileErrorView,
                    >(CompileErrorView::UnknownDerivedDependency { derived, dependency }),
                    None => match unknown_rule(p, p.derived@.len()) {
                        Some((derived, dependency)) => outcome == Err::<
                            Seq<Seq<char>>,
                            CompileErrorView,
                        >(CompileErrorView::UnknownDerivedDependency { derived, dependency }),
                        None => exists|order: Seq<Seq<char>>| #[trigger]
                            is_rule_order(p, order, outcome),
                    },
                }
            },
        },
    }
}

pub open spec fn order_of(r: Result<Vec<String>, CompileError>) -> Result<
    Seq<Seq<char>>,
    CompileErrorView,
> {
    match r {
        Ok(order) => Ok(texts(order@)),
        Err(error) => Err(error@),
    }
}

fn find_repeated(list: &Vec<String>) -> (r: Option<usize>)
    ensures
        first_repeated(texts(list@), list@.len()) == match r {
            Some(i) => Some(list@[i as int]@),
            None => None,
        },
        r matches Some(i) ==> i < list@.len(),
        r is None ==> texts(list@).no_duplicates(),
{
    let ghost all = texts(list@);
    let mut i: usize = 0;
    while i < list.len()
        invariant
            i <= list@.len(),
            all == texts(list@),
            first_repeated(all, i as nat) is None,
            forall|j: int, k: int| 0 <= j < k < i ==> all[j] != all[k],
        decreases list@.len() - i,
    {
        let mut j: usize = 0;
        while j < i
            invariant
                j <= i < list@.len(),
                all == texts(list@),
                forall|k: int| 0 <= k < j ==> all[k] != all[i as int],
                first_repeated(all, i as nat) is None,
            decreases i - j,
        {
            assert(all[j as int] == list@[j as int]@);
            assert(all[i as int] == list@[i as int]@);
            if same(list[j].as_str(), list[i].as_str()) {
                proof {
                    assert(all.take(i as int)[j as int] == all[i as int]);
                    assert(all.take(i as int).contains(all[i as int]));
                    assert(first_repeated(all, (i + 1) as nat) == Some(all[i as int]));
                    repeated_stays(all, (i + 1) as nat, list@.len());
                }
                return Some(i);
            }
            j = j + 1;
        }
        assert(!all.take(i as int).contains(all[i as int]));
        i = i + 1;
    }
    None
}

proof fn repeated_stays(list: Seq<Seq<char>>, n: nat, m: nat)
    requires
        n <= m <= list.len(),
        first_repeated(list, n) is Some,
    ensures
        first_repeated(list, m) == first_repeated(list, n),
    decreases m,
{
    if n < m {
        repeated_stays(list, n, (m - 1) as nat);
    }
}

fn find_unknown(list: &Vec<String>, known: &Vec<String>) -> (r: Option<usize>)
    ensures
        first_unknown(texts(list@), list@.len(), texts(known@)) == match r {
            Some(i) => Some(list@[i as int]@),
            None => None,
        },
        r matches Some(i) ==> i < list@.len(),
{
    let ghost all = texts(list@);
    let mut i: usize = 0;
    while i < list.len()
        invariant
            i <= list@.len(),
            all == texts(list@),
            first_unknown(all, i as nat, texts(known@)) is None,
        decreases list@.len() - i,
    {
        assert(all[i as int] == list@[i as int]@);
        if !holds_text(known, list[i].as_str()) {
            proof {
                assert(first_unknown(all, (i + 1) as nat, texts(known@)) == Some(all[i as int]));
                unknown_stays(all, (i + 1) as nat, list@.len(), texts(known@));
            }
            return Some(i);
        }
        i = i + 1;
    }
    None
}

proof fn unknown_stays(list: Seq<Seq<char>>, n: nat, m: nat, known: Seq<Seq<char>>)
    requires
        n <= m <= list.len(),
        first_unknown(list, n, known) is Some,
    ensures
        first_unknown(list, m, known) == first_unknown(list, n, known),
    decreases m,
{
    if n < m {
        unknown_stays(list, n, (m - 1) as nat, known);
    }
}

fn names_of_rules(program: &Program) -> (r: Vec<String>)
    ensures
        texts(r@) == rule_names(*program),
{
    let mut names: Vec<String> = Vec::new();
    let mut i: usize = 0;
    while i < program.derived.len()
        invariant
            i <= program.derived@.len(),
            texts(names@) == rule_names(*program).take(i as int),
        decreases program.derived@.len() - i,
    {
        let ghost before = names@;
        names.push(program.derived[i].name.clone());
        assert(texts(names@) =~= texts(before).push(program.derived@[i as int].name@));
        assert(rule_names(*program).take(i + 1) =~= rule_names(*program).take(i as int).push(program.derived@[i as int].name@));
        i = i + 1;
    }
    assert(rule_names(*program).take(i as int) =~= rule_names(*program));
    names
}

fn names_of_relations(program: &Program) -> (r: Vec<String>)
    ensures
        texts(r@) == relation_names(*program),
{
    let mut names: Vec<String> = Vec::new();
    let mut i: usize = 0;
    while i < program.relations.len()
        invariant
            i <= program.relations@.len(),
            texts(names@) == relation_names(*program).take(i as int),
        decreases program.relations@.len() - i,
    {
        let ghost before = names@;
        names.push(program.relations[i].name.clone());
        assert(texts(names@) =~= texts(before).push(program.relations@[i as int].name@));
        assert(relation_names(*program).take(i + 1) =~= relation_names(*program).take(i as int).push(program.relations@[i as int].name@));
        i = i + 1;
    }
    assert(relation_names(*program).take(i as int) =~= relation_names(*program));
    names
}

/// What a derived relation reads.
fn relation_reads(program: &Program, name: &str) -> (r: Vec<String>)
    ensures
        texts(r@) == derivation_used(*program, name@),
{
    let mut out: Vec<String> = Vec::new();
    assert(texts(out@) =~= Seq::empty());
    if let Some(schema) = find_named(&program.relations, name) {
        if let Some(d) = &schema.derivation {
            push_text(d.source_relation.as_str(), &mut out);
            collect_judgment_used(&d.predicate, &mut out);
            assert(texts(out@) =~= derivation_used(*program, name@));
        }
    }
    out
}

fn find_unknown_relation(program: &Program) -> (r: Option<(String, String)>)
    ensures
        unknown_relation(*program, program.relations@.len()) == match r {
            Some((relation, dependency)) => Some((relation@, dependency@)),
            None => None,
        },
{
    let names = names_of_relations(program);
    let mut i: usize = 0;
    while i < program.relations.len()
        invariant
            i <= program.relations@.len(),
            texts(names@) == relation_names(*program),
            unknown_relation(*program, i as nat) is None,
        decreases program.relations@.len() - i,
    {
        let relation = &program.relations[i];
        if relation.derivation.is_some() {
            let reads = relation_reads(program, relation.name.as_str());
            if let Some(k) = find_unknown(&reads, &names) {
                proof {
                    assert(unknown_relation(*program, (i + 1) as nat) == Some(
                        (relation.name@, reads@[k as int]@),
                    ));
                    unknown_relation_stays(*program, (i + 1) as nat, program.relations@.len());
                }
                return Some((relation.name.clone(), reads[k].clone()));
            }
        }
        i = i + 1;
    }
    None
}

proof fn unknown_relation_stays(p: Program, n: nat, m: nat)
    requires
        n <= m <= p.relations@.len(),
        unknown_relation(p, n) is Some,
    ensures
        unknown_relation(p, m) == unknown_relation(p, n),
    decreases m,
{
    if n < m {
        unknown_relation_stays(p, n, (m - 1) as nat);
    }
}

fn find_unknown_filter_rule(program: &Program, rules: &Vec<String>) -> (r: Option<
    (String, String),
>)
    requires
        texts(rules@) == rule_names(*program),
    ensures
        unknown_filter_rule(*program, program.relations@.len()) == match r {
            Some((relation, dependency)) => Some((relation@, dependency@)),
            None => None,
        },
{
    let mut i: usize = 0;
    while i < program.relations.len()
        invariant
            i <= program.relations@.len(),
            texts(rules@) == rule_names(*program),
            unknown_filter_rule(*program, i as nat) is None,
        decreases program.relations@.len() - i,
    {
        let relation = &program.relations[i];
        if let Some(d) = &relation.derivation {
            let mut needs: Vec<String> = Vec::new();
            assert(texts(needs@) =~= Seq::empty());
            collect_judgment_dependencies(&d.predicate, program, false, &mut needs);
            assert(texts(needs@) =~= judgment_dependencies(d.predicate, *program, false));
            if let Some(k) = find_unknown(&needs, rules) {
                proof {
                    assert(unknown_filter_rule(*program, (i + 1) as nat) == Some(
                        (relation.name@, needs@[k as int]@),
                    ));
                    unknown_filter_rule_stays(*program, (i + 1) as nat, program.relations@.len());
                }
                return Some((relation.name.clone(), needs[k].clone()));
            }
        }
        i = i + 1;
    }
    None
}

proof fn unknown_filter_rule_stays(p: Program, n: nat, m: nat)
    requires
        n <= m <= p.relations@.len(),
        unknown_filter_rule(p, n) is Some,
    ensures
        unknown_filter_rule(p, m) == unknown_filter_rule(p, n),
    decreases m,
{
    if n < m {
        unknown_filter_rule_stays(p, n, (m - 1) as nat);
    }
}

fn find_unknown_rule(program: &Program, rules: &Vec<String>, edges: &Vec<Vec<String>>) -> (r: Option<
    (String, String),
>)
    requires
        texts(rules@) == rule_names(*program),
        text_lists(edges@) == rule_edges(*program),
    ensures
        unknown_rule(*program, program.derived@.len()) == match r {
            Some((relation, dependency)) => Some((relation@, dependency@)),
            None => None,
        },
{
    assert(edges@.len() == text_lists(edges@).len());
    let mut i: usize = 0;
    while i < program.derived.len()
        invariant
            i <= program.derived@.len(),
            edges@.len() == program.derived@.len(),
            texts(rules@) == rule_names(*program),
            text_lists(edges@) == rule_edges(*program),
            unknown_rule(*program, i as nat) is None,
        decreases program.derived@.len() - i,
    {
        assert(text_lists(edges@)[i as int] == texts(edges@[i as int]@));
        assert(rule_edges(*program)[i as int] == rule_dependencies(
            program.derived@[i as int],
            *program,
        ));
        if let Some(k) = find_unknown(&edges[i], rules) {
            proof {
                assert(unknown_rule(*program, (i + 1) as nat) == Some(
                    (program.derived@[i as int].name@, edges@[i as int]@[k as int]@),
                ));
                unknown_rule_stays(*program, (i + 1) as nat, program.derived@.len());
            }
            return Some((program.derived[i].name.clone(), edges[i][k].clone()));
        }
        i = i + 1;
    }
    None
}

proof fn unknown_rule_stays(p: Program, n: nat, m: nat)
    requires
        n <= m <= p.derived@.len(),
        unknown_rule(p, n) is Some,
    ensures
        unknown_rule(p, m) == unknown_rule(p, n),
    decreases m,
{
    if n < m {
        unknown_rule_stays(p, n, (m - 1) as nat);
    }
}

fn edges_of_rules(program: &Program) -> (r: Vec<Vec<String>>)
    ensures
        text_lists(r@) == rule_edges(*program),
{
    let mut edges: Vec<Vec<String>> = Vec::new();
    let mut i: usize = 0;
    while i < program.derived.len()
        invariant
            i <= program.derived@.len(),
            text_lists(edges@) == rule_edges(*program).take(i as int),
        decreases program.derived@.len() - i,
    {
        let ghost before = edges@;
        edges.push(derived_dependencies(&program.derived[i], program));
        assert(text_lists(edges@) =~= text_lists(before).push(rule_dependencies(program.derived@[i as int], *program)));
        assert(rule_edges(*program).take(i + 1) =~= rule_edges(*program).take(i as int).push(rule_dependencies(program.derived@[i as int], *program)));
        i = i + 1;
    }
    assert(rule_edges(*program).take(i as int) =~= rule_edges(*program));
    edges
}

fn find_filtered_relations(program: &Program) -> (r: Vec<String>)
    ensures
        texts(r@) == filtered_relations(*program),
{
    let mut names: Vec<String> = Vec::new();
    let mut i: usize = 0;
    assert(texts(names@) =~= derived_relations(*program, 0));
    while i < program.relations.len()
        invariant
            i <= program.relations@.len(),
            texts(names@) == derived_relations(*program, i as nat),
        decreases program.relations@.len() - i,
    {
        let relation = &program.relations[i];
        if relation.derivation.is_some() {
            if let Some(at) = find_index(&program.relations, relation.name.as_str()) {
                if at == i {
                    names.push(relation.name.clone());
                    assert(texts(names@) =~= derived_relations(*program, (i + 1) as nat));
                }
            }
        }
        i = i + 1;
    }
    names
}

/// Derived relations are listed once.
proof fn filtered_relations_distinct(p: Program, n: nat)
    requires
        n <= p.relations@.len(),
    ensures
        derived_relations(p, n).no_duplicates(),
        forall|t: Seq<char>| #[trigger]
            derived_relations(p, n).contains(t) ==> match position_of(p.relations@, t) {
                Some(k) => k < n,
                None => false,
            },
    decreases n,
{
    if n > 0 {
        filtered_relations_distinct(p, (n - 1) as nat);
        let before = derived_relations(p, (n - 1) as nat);
        let name = p.relations@[n - 1].name@;
        let after = derived_relations(p, n);
        if after != before {
            assert(after == before.push(name));
            assert(!before.contains(name));
            assert forall|j: int, k: int| 0 <= j < after.len() && 0 <= k < after.len() && j
                != k implies after[j] != after[k] by {
                if j < before.len() {
                    assert(before.contains(before[j]));
                }
                if k < before.len() {
                    assert(before.contains(before[k]));
                }
            }
            assert forall|t: Seq<char>| #[trigger] after.contains(t) implies match position_of(
                p.relations@,
                t,
            ) {
                Some(k) => k < n,
                None => false,
            } by {
                let k = after.index_of(t);
                if k < before.len() {
                    assert(before.contains(before[k]));
                }
            }
        }
    }
}

fn edges_of_relations(program: &Program, names: &Vec<String>) -> (r: Vec<Vec<String>>)
    requires
        texts(names@) == filtered_relations(*program),
    ensures
        text_lists(r@) == relation_edges(*program),
{
    let mut edges: Vec<Vec<String>> = Vec::new();
    let mut i: usize = 0;
    assert(names@.len() == texts(names@).len());
    while i < names.len()
        invariant
            i <= names@.len(),
            names@.len() == relation_edges(*program).len(),
            texts(names@) == filtered_relations(*program),
            text_lists(edges@) == relation_edges(*program).take(i as int),
        decreases names@.len() - i,
    {
        assert(texts(names@)[i as int] == names@[i as int]@);
        let ghost before = edges@;
        edges.push(relation_reads(program, names[i].as_str()));
        assert(text_lists(edges@) =~= text_lists(before).push(derivation_used(*program, names@[i as int]@)));
        assert(relation_edges(*program).take(i + 1) =~= relation_edges(*program).take(i as int).push(derivation_used(*program, names@[i as int]@)));
        i = i + 1;
    }
    assert(relation_edges(*program).take(i as int) =~= relation_edges(*program));
    edges
}

/// The names on a trail, in ascending order.
fn names_along(names: &Vec<String>, trail: &Vec<usize>) -> (r: Vec<String>)
    requires
        forall|k: int| 0 <= k < trail@.len() ==> #[trigger] trail@[k] < names@.len(),
    ensures
        texts(r@) == sorted_texts(names_on(texts(names@), trail_of(trail@))),
{
    let ghost list = names_on(texts(names@), trail_of(trail@));
    let mut out: Vec<String> = Vec::new();
    let mut i: usize = 0;
    assert(list.take(0) =~= Seq::empty());
    assert(texts(out@) =~= sorted_texts(list.take(0)));
    while i < trail.len()
        invariant
            i <= trail@.len(),
            list == names_on(texts(names@), trail_of(trail@)),
            forall|k: int| 0 <= k < trail@.len() ==> #[trigger] trail@[k] < names@.len(),
            texts(out@) == sorted_texts(list.take(i as int)),
        decreases trail@.len() - i,
    {
        assert(trail@[i as int] < names@.len());
        assert(list[i as int] == names@[trail@[i as int] as int]@);
        insert_sorted(&mut out, names[trail[i]].clone());
        assert(list.take(i + 1).drop_last() =~= list.take(i as int));
        i = i + 1;
    }
    assert(list.take(i as int) =~= list);
    out
}

/// The names of relations that lead into a circle, where there is one.
fn find_relation_cycle(program: &Program) -> (r: Option<String>)
    ensures
        match r {
            Some(cycle) => relations_circle(*program) && names_cycle(*program, cycle@),
            None => !relations_circle(*program),
        },
{
    let names = find_filtered_relations(program);
    let edges = edges_of_relations(program, &names);
    let ghost (ns, es) = (filtered_relations(*program), relation_edges(*program));
    proof {
        filtered_relations_distinct(*program, program.relations@.len());
        assert(names@.len() == texts(names@).len());
        assert(edges@.len() == text_lists(edges@).len());
    }
    let order = schedule(&names, &edges);
    match first_left(&names, &order) {
        None => {
            proof {
                if relations_circle(*program) {
                    let trail = choose|trail: Seq<int>| #[trigger] is_cycle_trail(ns, es, trail);
                    circle_is_left_over(ns, es, texts(order@), trail);
                }
            }
            None
        },
        Some(start) => {
            let trail = find_circle(&names, &edges, &order, start);
            let list = names_along(&names, &trail);
            let cycle = join(&list, ", ");
            proof {
                let t = trail_of(trail@);
                assert(t.no_duplicates());
                assert(is_cycle_trail(ns, es, t));
                assert(list@.len() == texts(list@).len());
                assert(is_relation_cycle(*program, cycle@, t));
            }
            Some(cycle)
        },
    }
}

/// The order in which the rules of a program are evaluated: each after those that it
/// depends on, and of those that can come next the least by name.
pub fn evaluation_order(program: &Program) -> (r: Result<Vec<String>, CompileError>)
    ensures
        ordered(*program, order_of(r)),
{
    let names = names_of_rules(program);
    assert(names@.len() == texts(names@).len());
    if let Some(i) = find_repeated(&names) {
        return Err(CompileError::DuplicateDerivedRule { name: names[i].clone() });
    }
    if let Some((relation, dependency)) = find_unknown_relation(program) {
        return Err(CompileError::UnknownRelationDependency { relation, dependency });
    }
    if let Some(cycle) = find_relation_cycle(program) {
        return Err(CompileError::CyclicRelationDependency { cycle });
    }
    if let Some((derived, dependency)) = find_unknown_filter_rule(program, &names) {
        return Err(CompileError::UnknownDerivedDependency { derived, dependency });
    }
    let edges = edges_of_rules(program);
    if let Some((derived, dependency)) = find_unknown_rule(program, &names, &edges) {
        return Err(CompileError::UnknownDerivedDependency { derived, dependency });
    }
    assert(edges@.len() == text_lists(edges@).len());
    let order = schedule(&names, &edges);
    proof {
        complete_has_all(rule_names(*program), rule_edges(*program), texts(order@));
    }
    let ghost placed = texts(order@);
    if order.len() != names.len() {
        let left = nodes_left(&names, &order);
        let cycle = join(&left, ", ");
        let r: Result<Vec<String>, CompileError> = Err(CompileError::CyclicDependency { cycle });
        proof {
            assert(left@.len() == texts(left@).len());
            assert(is_rule_order(*program, placed, order_of(r)));
        }
        return r;
    }
    let r: Result<Vec<String>, CompileError> = Ok(order);
    assert(is_rule_order(*program, placed, order_of(r)));
    r
}

/// A program has one evaluation order.
pub proof fn evaluation_order_is_unique(p: Program, a: Seq<Seq<char>>, b: Seq<Seq<char>>)
    requires
        ordered(p, Ok(a)),
        ordered(p, Ok(b)),
    ensures
        a == b,
{
    let x = choose|order: Seq<Seq<char>>| #[trigger] is_rule_order(p, order, Ok(a));
    let y = choose|order: Seq<Seq<char>>| #[trigger] is_rule_order(p, order, Ok(b));
    schedule_is_unique(rule_names(p), rule_edges(p), x, y);
}

proof fn unknown_absent(list: Seq<Seq<char>>, n: nat, known: Seq<Seq<char>>)
    requires
        n <= list.len(),
        first_unknown(list, n, known) is None,
    ensures
        forall|k: int| 0 <= k < n ==> known.contains(#[trigger] list[k]),
    decreases n,
{
    if n > 0 {
        unknown_absent(list, (n - 1) as nat, known);
    }
}

proof fn unknown_rule_absent(p: Program, n: nat)
    requires
        n <= p.derived@.len(),
        unknown_rule(p, n) is None,
    ensures
        forall|k: int, t: Seq<char>|
            0 <= k < n && rule_dependencies(#[trigger] p.derived@[k], p).contains(t)
                ==> #[trigger] rule_names(p).contains(t),
    decreases n,
{
    if n > 0 {
        unknown_rule_absent(p, (n - 1) as nat);
        let needs = rule_dependencies(p.derived@[n - 1], p);
        unknown_absent(needs, needs.len(), rule_names(p));
        assert forall|k: int, t: Seq<char>|
            0 <= k < n && rule_dependencies(#[trigger] p.derived@[k], p).contains(
                t,
            ) implies #[trigger] rule_names(p).contains(t) by {
            if k == n - 1 {
                let at = needs.index_of(t);
                assert(needs[at] == t);
            }
        }
    }
}

/// Whether each rule that a rule depends on is placed.
pub open spec fn is_supported(p: Program, placed: Seq<Seq<char>>, i: int) -> bool {
    forall|t: Seq<char>| #[trigger]
        rule_dependencies(p.derived@[i], p).contains(t) ==> placed.contains(t)
}

/// An evaluation order has every rule of the program once, and each after all the rules
/// that it depends on.
pub proof fn evaluation_order_is_topological(p: Program, order: Seq<Seq<char>>)
    requires
        ordered(p, Ok(order)),
    ensures
        order.no_duplicates(),
        order.len() == p.derived@.len(),
        forall|i: int| 0 <= i < p.derived@.len() ==> order.contains(#[trigger] rule_names(p)[i]),
        forall|i: int|
            0 <= i < p.derived@.len() ==> #[trigger] is_supported(
                p,
                order.take(order.index_of(p.derived@[i].name@)),
                i,
            ),
{
    let names = rule_names(p);
    let edges = rule_edges(p);
    let x = choose|x: Seq<Seq<char>>| #[trigger] is_rule_order(p, x, Ok(order));
    assert(x == order);
    crate::schedule::needs_come_first(names, edges, order);
    unknown_rule_absent(p, p.derived@.len());
    repeated_absent(names, names.len());
    complete_has_all(names, edges, order);
    assert forall|i: int| 0 <= i < p.derived@.len() implies #[trigger] is_supported(
        p,
        order.take(order.index_of(p.derived@[i].name@)),
        i,
    ) by {
        assert(names[i] == p.derived@[i].name@);
        assert(order.contains(names[i]));
        let k = order.index_of(names[i]);
        assert(order[k] == names[i]);
        assert(crate::schedule::has_needs(names, edges, order.take(k), order[k]));
        let j = choose|j: int|
            0 <= j < names.len() && names[j] == order[k] && crate::schedule::is_met(
                names,
                #[trigger] edges[j],
                order.take(k),
            );
        assert(j == i);
        assert(edges[i] == rule_dependencies(p.derived@[i], p));
        assert forall|t: Seq<char>| #[trigger]
            rule_dependencies(p.derived@[i], p).contains(t) implies order.take(k).contains(t) by {
            assert(names.contains(t));
        }
    }
}

proof fn repeated_absent(list: Seq<Seq<char>>, n: nat)
    requires
        n <= list.len(),
        first_repeated(list, n) is None,
    ensures
        forall|j: int, k: int| 0 <= j < k < n ==> #[trigger] list[j] != #[trigger] list[k],
    decreases n,
{
    if n > 0 {
        repeated_absent(list, (n - 1) as nat);
        assert forall|j: int, k: int| 0 <= j < k < n implies #[trigger] list[j]
            != #[trigger] list[k] by {
            if k == n - 1 {
                assert(list.take(n - 1)[j] == list[j]);
                assert(list.take(n - 1).contains(list[j]));
            }
        }
    }
}

/// A compiled program with what is known of its execution.
#[derive(Debug)]
pub struct CompiledProgramArtifact {
    /// Zero for artifacts from before formats were stamped.
    pub artifact_format_version: u32,
    pub engine_version: Option<String>,
    pub program: Program,
    pub metadata: CompiledProgramMetadata,
}

#[derive(Debug)]
pub struct CompiledProgramMetadata {
    pub evaluation_order: Vec<String>,
    pub fast_path: FastPathMetadata,
}

/// Whether the bulk strategy can run the program.
#[derive(Debug)]
pub struct FastPathMetadata {
    pub strategy: String,
    pub compatible: bool,
    pub blockers: Vec<String>,
}

/// Whether a rule rounds its value only in a declared currency.
pub open spec fn rounding_fits(p: Program, d: Derived) -> bool {
    d.rounding is Some ==> match d.unit {
        Some(unit) => match item_named(p.units@, unit@) {
            Some(def) => def.kind is Currency,
            None => false,
        },
        None => false,
    }
}

/// The first rule among the first `n` that rounds a value which is no currency amount.
pub open spec fn rounding_fault(p: Program, n: nat) -> Option<Seq<char>>
    decreases n,
{
    if n == 0 || n > p.derived@.len() {
        None
    } else {
        match rounding_fault(p, (n - 1) as nat) {
            Some(name) => Some(name),
            None => if rounding_fits(p, p.derived@[n - 1]) {
                None
            } else {
                Some(p.derived@[n - 1].name@)
            },
        }
    }
}

proof fn rounding_fault_stays(p: Program, n: nat, m: nat)
    requires
        n <= m <= p.derived@.len(),
        rounding_fault(p, n) is Some,
    ensures
        rounding_fault(p, m) == rounding_fault(p, n),
    decreases m,
{
    if n < m {
        rounding_fault_stays(p, n, (m - 1) as nat);
    }
}

fn rounds_currency(program: &Program, derived: &Derived) -> (r: bool)
    ensures
        r == rounding_fits(*program, *derived),
{
    if derived.rounding.is_none() {
        return true;
    }
    match &derived.unit {
        Some(unit) => match find_named(&program.units, unit.as_str()) {
            Some(def) => matches!(def.kind, UnitKind::Currency { .. }),
            None => false,
        },
        None => false,
    }
}

/// Rejects a program in which a rule rounds a value that is no currency amount.
pub fn validate_rounding(program: &Program) -> (r: Result<(), CompileError>)
    ensures
        rounding_fault(*program, program.derived@.len()) is None <==> r is Ok,
        r matches Err(error) ==> error@ == (CompileErrorView::RoundingUnit {
            derived: rounding_fault(*program, program.derived@.len())->Some_0,
        }),
{
    let mut i: usize = 0;
    while i < program.derived.len()
        invariant
            i <= program.derived@.len(),
            rounding_fault(*program, i as nat) is None,
        decreases program.derived@.len() - i,
    {
        if !rounds_currency(program, &program.derived[i]) {
            proof {
                assert(rounding_fault(*program, (i + 1) as nat) is Some);
                rounding_fault_stays(*program, (i + 1) as nat, program.derived@.len());
            }
            return Err(CompileError::RoundingUnit { derived: program.derived[i].name.clone() });
        }
        i = i + 1;
    }
    Ok(())
}

/// What the bulk strategy can do with a program.
pub fn fast_path_metadata(program: &Program) -> (r: FastPathMetadata)
    ensures
        is_fast_path(*program, r),
{
    let blockers = fast_blockers(program);
    assert(blockers@.len() == texts(blockers@).len());
    FastPathMetadata {
        strategy: owned("generic_bulk"),
        compatible: blockers.len() == 0,
        blockers,
    }
}

pub open spec fn is_fast_path(p: Program, f: FastPathMetadata) -> bool {
    &&& f.strategy@ == "generic_bulk"@
    &&& texts(f.blockers@) == rules_blockers(p.derived@, p.derived@.len())
    &&& f.compatible <==> rules_blockers(p.derived@, p.derived@.len()).len() == 0
}

/// What comes of compiling a program.
pub open spec fn compiled(p: Program, r: Result<CompiledProgramArtifact, CompileError>) -> bool {
    match rounding_fault(p, p.derived@.len()) {
        Some(derived) => match r {
            Ok(_) => false,
            Err(error) => error@ == (CompileErrorView::RoundingUnit { derived }),
        },
        None => match r {
            Ok(artifact) => {
                &&& ordered(p, Ok(texts(artifact.metadata.evaluation_order@)))
                &&& artifact.artifact_format_version == ARTIFACT_FORMAT_VERSION
                &&& match artifact.engine_version {
                    Some(version) => version@ == ENGINE_VERSION@,
                    None => false,
                }
                &&& artifact.program == p
                &&& is_fast_path(p, artifact.metadata.fast_path)
            },
            Err(error) => ordered(p, Err(error@)),
        },
    }
}

/// Whether the keys `format` and `schema` at the top of a document declare it a RuleSpec module.
pub open spec fn declares_rulespec(format: Option<Seq<char>>, schema: Option<Seq<char>>) -> bool {
    ||| format == Some("rulespec/v1"@)
    ||| schema matches Some(s) && begins(s, "axiom.rules"@)
}

/// Tells a RuleSpec module by the texts under the keys `format` and `schema`.
pub fn is_rulespec(format: Option<&str>, schema: Option<&str>) -> (r: bool)
    ensures
        r == declares_rulespec(
            match format {
                Some(text) => Some(text@),
                None => None,
            },
            match schema {
                Some(text) => Some(text@),
                None => None,
            },
        ),
{
    if let Some(text) = format {
        if same(text, "rulespec/v1") {
            return true;
        }
    }
    match schema {
        Some(text) => strip_prefix(text, "axiom.rules").is_some(),
        None => false,
    }
}

/// What the text of a module was found to be.
#[derive(Debug)]
pub enum RuleSpecReading {
    /// A RuleSpec module, as the loader lowered it.
    Module(Result<Program, String>),
    /// No RuleSpec module, but with a `rules` key at the top.
    RulesKey,
    /// Neither.
    Other,
}

/// What comes of compiling the text of a module.
pub open spec fn read_and_compiled(
    path: Seq<char>,
    reading: RuleSpecReading,
    r: Result<CompiledProgramArtifact, CompileError>,
) -> bool {
    match reading {
        RuleSpecReading::Module(Ok(program)) => compiled(program, r),
        RuleSpecReading::Module(Err(text)) => match r {
            Ok(_) => false,
            Err(error) => error@ == (CompileErrorView::RuleSpec { path, error: Some(text@) }),
        },
        RuleSpecReading::RulesKey => match r {
            Ok(_) => false,
            Err(error) => error@ == (CompileErrorView::AmbiguousRuleSpecYaml { path }),
        },
        RuleSpecReading::Other => match r {
            Ok(_) => false,
            Err(error) => error@ == (CompileErrorView::RuleSpec { path, error: None }),
        },
    }
}

impl CompiledProgramArtifact {
    /// Compiles a program: checks its rounding, orders its rules and finds the strategies
    /// that can run it.
    pub fn compile(program: Program) -> (r: Result<CompiledProgramArtifact, CompileError>)
        ensures
            compiled(program, r),
    {
        match validate_rounding(&program) {
            Ok(()) => {},
            Err(error) => {
                return Err(error);
            },
        }
        let evaluation_order = match evaluation_order(&program) {
            Ok(order) => order,
            Err(error) => {
                return Err(error);
            },
        };
        let fast_path = fast_path_metadata(&program);
        Ok(
            CompiledProgramArtifact {
                artifact_format_version: ARTIFACT_FORMAT_VERSION,
                engine_version: Some(owned(ENGINE_VERSION)),
                program,
                metadata: CompiledProgramMetadata { evaluation_order, fast_path },
            },
        )
    }

    /// Rejects an artifact of a later format.
    pub fn check_format_version(self, path: &str) -> (r: Result<
        CompiledProgramArtifact,
        CompileError,
    >)
        ensures
            match r {
                Ok(artifact) => artifact == self && self.artifact_format_version
                    <= ARTIFACT_FORMAT_VERSION,
                Err(error) => self.artifact_format_version > ARTIFACT_FORMAT_VERSION && error@ == (
                CompileErrorView::UnsupportedArtifactFormatVersion {
                    path: path@,
                    found: self.artifact_format_version,
                    supported: ARTIFACT_FORMAT_VERSION,
                }),
            },
    {
        if self.artifact_format_version > ARTIFACT_FORMAT_VERSION {
            return Err(
                CompileError::UnsupportedArtifactFormatVersion {
                    path: owned(path),
                    found: self.artifact_format_version,
                    supported: ARTIFACT_FORMAT_VERSION,
                },
            );
        }
        Ok(self)
    }

    fn from_reading(path: &str, reading: RuleSpecReading) -> (r: Result<
        CompiledProgramArtifact,
        CompileError,
    >)
        ensures
            read_and_compiled(path@, reading, r),
    {
        match reading {
            RuleSpecReading::Module(Ok(program)) => Self::compile(program),
            RuleSpecReading::Module(Err(text)) => Err(
                CompileError::RuleSpec { path: owned(path), error: RuleSpecError::Load(text) },
            ),
            RuleSpecReading::RulesKey => Err(
                CompileError::AmbiguousRuleSpecYaml { path: owned(path) },
            ),
            RuleSpecReading::Other => Err(
                CompileError::RuleSpec {
                    path: owned(path),
                    error: RuleSpecError::MissingDiscriminator,
                },
            ),
        }
    }

    /// Compiles a module that was given as text.
    pub fn from_rulespec_str(reading: RuleSpecReading) -> (r: Result<
        CompiledProgramArtifact,
        CompileError,
    >)
        ensures
            read_and_compiled("<memory>"@, reading, r),
    {
        Self::from_reading("<memory>", reading)
    }

    /// Compiles a module that was read from a file.
    pub fn from_rulespec_file(path: &str, reading: RuleSpecReading) -> (r: Result<
        CompiledProgramArtifact,
        CompileError,
    >)
        ensures
            read_and_compiled(path@, reading, r),
    {
        Self::from_reading(path, reading)
    }

    /// Compiles the module at a canonical target, as the host's module source loaded it.
    pub fn from_rulespec_with_source(root_target: &str, loaded: Result<Program, String>) -> (r:
        Result<CompiledProgramArtifact, CompileError>)
        ensures
            read_and_compiled(root_target@, RuleSpecReading::Module(loaded), r),
    {
        Self::from_reading(root_target, RuleSpecReading::Module(loaded))
    }
}

/// A provision and where its text is published.
#[derive(Debug)]
pub struct ProvisionUrl {
    pub citation_path: String,
    pub source_url: String,
}

/// What a line of a provisions document says.
#[derive(Debug)]
pub struct ProvisionRecord {
    pub citation_path: Option<String>,
    pub source_url: Option<String>,
}

/// A line of a provisions document that is not blank, parsed.
#[derive(Debug)]
pub struct ProvisionLine {
    /// Its number, from one on.
    pub line: usize,
    /// The record, or why the line holds none.
    pub record: Result<ProvisionRecord, String>,
}

/// A line of a document, counted from one.
#[derive(Debug)]
pub struct NumberedLine {
    pub line: usize,
    pub text: String,
}

/// The first `n` lines that are not blank, each with its number.
pub open spec fn numbered_lines(lines: Seq<Seq<char>>, n: nat) -> Seq<(nat, Seq<char>)>
    decreases n,
{
    if n == 0 || n > lines.len() {
        Seq::empty()
    } else {
        let before = numbered_lines(lines, (n - 1) as nat);
        if is_blank(line_text(lines[n - 1])) {
            before
        } else {
            before.push((n, line_text(lines[n - 1])))
        }
    }
}

pub open spec fn numbered_views(v: Seq<NumberedLine>) -> Seq<(nat, Seq<char>)> {
    v.map_values(|l: NumberedLine| (l.line as nat, l.text@))
}

/// The lines of a document that hold its records.
pub fn record_lines(text: &str) -> (r: Vec<NumberedLine>)
    ensures
        numbered_views(r@) == numbered_lines(raw_lines(text@), raw_lines(text@).len()),
{
    let chars = chars_of(text);
    let lines = split_lines(&chars);
    let ghost all = raw_lines(text@);
    let mut out: Vec<NumberedLine> = Vec::new();
    let mut i: usize = 0;
    assert(numbered_views(out@) =~= numbered_lines(all, 0));
    while i < lines.len()
        invariant
            i <= lines@.len(),
            all == char_lists(lines@),
            numbered_views(out@) == numbered_lines(all, i as nat),
        decreases lines@.len() - i,
    {
        let line = &lines[i];
        assert(all[i as int] == line@);
        let len = line_text_len(line);
        assert(line@.subrange(0, len as int) =~= line_text(line@));
        let ghost before = out@;
        if white_before(line, 0, len) < len {
            let item = NumberedLine { line: i + 1, text: text_between(line, 0, len) };
            out.push(item);
            assert(numbered_views(out@) =~= numbered_views(before).push(
                (item.line as nat, item.text@),
            ));
        }
        i = i + 1;
    }
    out
}

/// A provisions document, parsed.
#[derive(Debug)]
pub struct ProvisionDocument {
    pub path: String,
    pub lines: Vec<ProvisionLine>,
}

/// The publication of provisions by citation path. Of two records with one citation path
/// the later one counts.
#[derive(Debug)]
pub struct CorpusProvisionIndex {
    urls: Vec<ProvisionUrl>,
}

pub open spec fn urls_map(urls: Seq<ProvisionUrl>) -> Map<Seq<char>, Seq<char>>
    decreases urls.len(),
{
    if urls.len() == 0 {
        Map::empty()
    } else {
        urls_map(urls.drop_last()).insert(urls.last().citation_path@, urls.last().source_url@)
    }
}

pub open spec fn distinct_paths(urls: Seq<ProvisionUrl>) -> bool {
    forall|i: int, j: int|
        0 <= i < j < urls.len() ==> (#[trigger] urls[i]).citation_path@ != (
        #[trigger] urls[j]).citation_path@
}

proof fn urls_map_meaning(urls: Seq<ProvisionUrl>)
    requires
        distinct_paths(urls),
    ensures
        forall|i: int|
            0 <= i < urls.len() ==> urls_map(urls).contains_key(
                (#[trigger] urls[i]).citation_path@,
            ) && urls_map(urls)[urls[i].citation_path@] == urls[i].source_url@,
        forall|path: Seq<char>| #[trigger]
            urls_map(urls).contains_key(path) ==> exists|i: int|
                0 <= i < urls.len() && (#[trigger] urls[i]).citation_path@ == path,
        urls_map(urls).dom().finite(),
        urls_map(urls).len() == urls.len(),
    decreases urls.len(),
{
    if urls.len() > 0 {
        let front = urls.drop_last();
        assert(distinct_paths(front)) by {
            assert forall|i: int, j: int| 0 <= i < j < front.len() implies (
            #[trigger] front[i]).citation_path@ != (#[trigger] front[j]).citation_path@ by {
                assert(urls[i].citation_path@ != urls[j].citation_path@);
            }
        }
        urls_map_meaning(front);
        let last = urls.last().citation_path@;
        assert(!urls_map(front).contains_key(last)) by {
            if urls_map(front).contains_key(last) {
                let i = choose|i: int|
                    0 <= i < front.len() && (#[trigger] front[i]).citation_path@ == last;
                assert(urls[i].citation_path@ != urls[urls.len() - 1].citation_path@);
            }
        }
        assert forall|i: int| 0 <= i < urls.len() implies urls_map(urls).contains_key(
            (#[trigger] urls[i]).citation_path@,
        ) && urls_map(urls)[urls[i].citation_path@] == urls[i].source_url@ by {
            if i < front.len() {
                assert(front[i] == urls[i]);
                assert(urls[i].citation_path@ != urls[urls.len() - 1].citation_path@);
            }
        }
        assert forall|path: Seq<char>| #[trigger] urls_map(urls).contains_key(path) implies exists|
            i: int,
        | 0 <= i < urls.len() && (#[trigger] urls[i]).citation_path@ == path by {
            if path == last {
                assert(urls[urls.len() - 1].citation_path@ == path);
            } else {
                let i = choose|i: int|
                    0 <= i < front.len() && (#[trigger] front[i]).citation_path@ == path;
                assert(urls[i].citation_path@ == path);
            }
        }
    }
}

/// The index with a record added: one without a citation path or a URL adds nothing.
pub open spec fn with_record(index: Map<Seq<char>, Seq<char>>, record: ProvisionRecord) -> Map<
    Seq<char>,
    Seq<char>,
> {
    match (record.citation_path, record.source_url) {
        (Some(path), Some(url)) => index.insert(path@, url@),
        _ => index,
    }
}

/// The number of lines up to the first that holds no record.
pub open spec fn records_before_fault(lines: Seq<ProvisionLine>, n: nat) -> nat
    decreases n,
{
    if n == 0 || n > lines.len() {
        0
    } else {
        let before = records_before_fault(lines, (n - 1) as nat);
        if before == n - 1 && lines[n - 1].record is Ok {
            n
        } else {
            before
        }
    }
}

/// The index with the records of the first `n` lines added, in their order.
pub open spec fn with_records(
    index: Map<Seq<char>, Seq<char>>,
    lines: Seq<ProvisionLine>,
    n: nat,
) -> Map<Seq<char>, Seq<char>>
    decreases n,
{
    if n == 0 || n > lines.len() {
        index
    } else {
        let before = with_records(index, lines, (n - 1) as nat);
        match lines[n - 1].record {
            Ok(record) => with_record(before, record),
            Err(_) => before,
        }
    }
}

/// The index after a document: all its records, or those before the line that holds none,
/// which is reported.
pub open spec fn document_added(
    before: Map<Seq<char>, Seq<char>>,
    lines: Seq<ProvisionLine>,
    path: Seq<char>,
    after: Map<Seq<char>, Seq<char>>,
    r: Result<(), CompileError>,
) -> bool {
    let n = records_before_fault(lines, lines.len());
    &&& after == with_records(before, lines, n)
    &&& match r {
        Ok(_) => n == lines.len(),
        Err(error) => n < lines.len() && lines[n as int].record is Err && error@ == (
        CompileErrorView::ParseProvisionRecord {
            path,
            line: lines[n as int].line as nat,
            error: lines[n as int].record->Err_0@,
        }),
    }
}

proof fn fault_stays(lines: Seq<ProvisionLine>, n: nat, m: nat)
    requires
        n < m <= lines.len(),
        records_before_fault(lines, n) == n,
        lines[n as int].record is Err,
    ensures
        records_before_fault(lines, m) == n,
    decreases m,
{
    if n + 1 < m {
        fault_stays(lines, n, (m - 1) as nat);
    }
}

/// The index after the first `n` documents.
pub open spec fn with_documents(documents: Seq<ProvisionDocument>, n: nat) -> Map<
    Seq<char>,
    Seq<char>,
>
    decreases n,
{
    if n == 0 || n > documents.len() {
        Map::empty()
    } else {
        let d = documents[n - 1];
        with_records(with_documents(documents, (n - 1) as nat), d.lines@, d.lines@.len())
    }
}

pub open spec fn is_clean(lines: Seq<ProvisionLine>) -> bool {
    records_before_fault(lines, lines.len()) == lines.len()
}

impl CorpusProvisionIndex {
    pub closed spec fn view(&self) -> Map<Seq<char>, Seq<char>> {
        urls_map(self.urls@)
    }

    /// Each citation path is listed once.
    pub closed spec fn well_formed(&self) -> bool {
        distinct_paths(self.urls@)
    }

    pub fn new() -> (r: CorpusProvisionIndex)
        ensures
            r.well_formed(),
            r@ == Map::<Seq<char>, Seq<char>>::empty(),
    {
        CorpusProvisionIndex { urls: Vec::new() }
    }

    fn find(&self, citation_path: &str) -> (r: Option<usize>)
        requires
            self.well_formed(),
        ensures
            match r {
                Some(i) => i < self.urls@.len() && self.urls@[i as int].citation_path@
                    == citation_path@ && self@.contains_key(citation_path@) && self@[citation_path@]
                    == self.urls@[i as int].source_url@,
                None => !self@.contains_key(citation_path@) && forall|j: int|
                    0 <= j < self.urls@.len() ==> (#[trigger] self.urls@[j]).citation_path@
                        != citation_path@,
            },
    {
        let mut i: usize = 0;
        proof {
            urls_map_meaning(self.urls@);
        }
        while i < self.urls.len()
            invariant
                i <= self.urls@.len(),
                self.well_formed(),
                forall|j: int|
                    0 <= j < i ==> (#[trigger] self.urls@[j]).citation_path@ != citation_path@,
            decreases self.urls@.len() - i,
        {
            if same(self.urls[i].citation_path.as_str(), citation_path) {
                proof {
                    urls_map_meaning(self.urls@);
                }
                return Some(i);
            }
            i = i + 1;
        }
        None
    }

    /// Where the provision is published.
    pub fn source_url(&self, citation_path: &str) -> (r: Option<&str>)
        requires
            self.well_formed(),
        ensures
            match r {
                Some(url) => self@.contains_key(citation_path@) && url@ == self@[citation_path@],
                None => !self@.contains_key(citation_path@),
            },
    {
        match self.find(citation_path) {
            Some(i) => Some(self.urls[i].source_url.as_str()),
            None => None,
        }
    }

    /// The number of provisions.
    pub fn len(&self) -> (r: usize)
        requires
            self.well_formed(),
        ensures
            r == self@.len(),
    {
        proof {
            urls_map_meaning(self.urls@);
        }
        self.urls.len()
    }

    pub fn is_empty(&self) -> (r: bool)
        requires
            self.well_formed(),
        ensures
            r == (self@.len() == 0),
    {
        proof {
            urls_map_meaning(self.urls@);
        }
        self.urls.len() == 0
    }

    fn add_record(&mut self, record: ProvisionRecord)
        requires
            old(self).well_formed(),
        ensures
            final(self).well_formed(),
            final(self)@ == with_record(old(self)@, record),
    {
        if let (Some(citation_path), Some(source_url)) = (record.citation_path, record.source_url) {
            let ghost before = self.urls@;
            let ghost (path, url) = (citation_path@, source_url@);
            match self.find(citation_path.as_str()) {
                Some(i) => {
                    self.urls.set(i, ProvisionUrl { citation_path, source_url });
                    proof {
                        let after = self.urls@;
                        assert forall|a: int, b: int| 0 <= a < b < after.len() implies (
                        #[trigger] after[a]).citation_path@ != (
                        #[trigger] after[b]).citation_path@ by {
                            assert(before[a].citation_path@ != before[b].citation_path@);
                        }
                        urls_map_meaning(before);
                        urls_map_meaning(after);
                        same_map(before, after, i as int);
                    }
                },
                None => {
                    self.urls.push(ProvisionUrl { citation_path, source_url });
                    proof {
                        let after = self.urls@;
                        assert(after.drop_last() =~= before);
                        assert forall|a: int, b: int| 0 <= a < b < after.len() implies (
                        #[trigger] after[a]).citation_path@ != (
                        #[trigger] after[b]).citation_path@ by {
                            if b < before.len() {
                                assert(before[a].citation_path@ != before[b].citation_path@);
                            } else {
                                assert(before[a].citation_path@ != path);
                            }
                        }
                    }
                },
            }
        }
    }

    /// Adds the records of a document, in their order. The first line that holds no record
    /// ends it.
    pub fn add_jsonl_str(&mut self, lines: Vec<ProvisionLine>, path: &str) -> (r: Result<
        (),
        CompileError,
    >)
        requires
            old(self).well_formed(),
        ensures
            final(self).well_formed(),
            document_added(old(self)@, lines@, path@, final(self)@, r),
    {
        let ghost whole = lines@;
        let mut i: usize = 0;
        while i < lines.len()
            invariant
                i <= lines@.len(),
                whole == lines@,
                self.well_formed(),
                records_before_fault(whole, i as nat) == i,
                self@ == with_records(old(self)@, whole, i as nat),
            decreases lines@.len() - i,
        {
            match &lines[i].record {
                Err(error) => {
                    proof {
                        fault_stays(whole, i as nat, whole.len());
                    }
                    return Err(
                        CompileError::ParseProvisionRecord {
                            path: owned(path),
                            line: lines[i].line,
                            error: error.clone(),
                        },
                    );
                },
                Ok(record) => {
                    let copy = ProvisionRecord {
                        citation_path: record.citation_path.clone(),
                        source_url: record.source_url.clone(),
                    };
                    assert(with_record(self@, copy) == with_record(self@, *record));
                    self.add_record(copy);
                },
            }
            i = i + 1;
        }
        Ok(())
    }

    /// An index of documents, in their order.
    pub fn from_paths(documents: Vec<ProvisionDocument>) -> (r: Result<
        CorpusProvisionIndex,
        CompileError,
    >)
        ensures
            match r {
                Ok(index) => index.well_formed() && index@ == with_documents(
                    documents@,
                    documents@.len(),
                ) && forall|k: int|
                    0 <= k < documents@.len() ==> is_clean((#[trigger] documents@[k]).lines@),
                Err(error) => is_first_fault(documents@, error@),
            },
    {
        let ghost whole = documents@;
        let mut list = documents;
        let mut index = CorpusProvisionIndex::new();
        let mut i: usize = 0;
        while i < list.len()
            invariant
                whole == documents@,
                i <= list@.len(),
                list@.len() == whole.len(),
                forall|k: int| i <= k < whole.len() ==> list@[k] == whole[k],
                index.well_formed(),
                index@ == with_documents(whole, i as nat),
                forall|k: int| 0 <= k < i ==> is_clean((#[trigger] whole[k]).lines@),
            decreases list@.len() - i,
        {
            let mut document = ProvisionDocument { path: String::new(), lines: Vec::new() };
            list.set_and_swap(i, &mut document);
            assert(document == whole[i as int]);
            let path = document.path;
            match index.add_jsonl_str(document.lines, path.as_str()) {
                Ok(()) => {},
                Err(error) => {
                    assert(is_document_fault(whole, i as int, error@));
                    assert(is_first_fault(whole, error@));
                    return Err(error);
                },
            }
            i = i + 1;
        }
        Ok(index)
    }
}

/// Whether a document holds the fault, and none before it.
pub open spec fn is_first_fault(
    documents: Seq<ProvisionDocument>,
    error: CompileErrorView,
) -> bool {
    exists|k: int| 0 <= k < documents.len() && #[trigger] is_document_fault(documents, k, error)
}

/// Whether the error is of the first document with a line that holds no record.
pub open spec fn is_document_fault(
    documents: Seq<ProvisionDocument>,
    k: int,
    error: CompileErrorView,
) -> bool {
    let lines = documents[k].lines@;
    let n = records_before_fault(lines, lines.len());
    &&& forall|j: int| 0 <= j < k ==> is_clean((#[trigger] documents[j]).lines@)
    &&& n < lines.len()
    &&& lines[n as int].record is Err
    &&& error == (CompileErrorView::ParseProvisionRecord {
        path: documents[k].path@,
        line: lines[n as int].line as nat,
        error: lines[n as int].record->Err_0@,
    })
}

/// A change of one URL changes the map at its citation path only.
proof fn same_map(before: Seq<ProvisionUrl>, after: Seq<ProvisionUrl>, i: int)
    requires
        distinct_paths(before),
        distinct_paths(after),
        0 <= i < before.len(),
        after.len() == before.len(),
        forall|j: int| 0 <= j < before.len() && j != i ==> #[trigger] after[j] == before[j],
        after[i].citation_path@ == before[i].citation_path@,
    ensures
        urls_map(after) == urls_map(before).insert(after[i].citation_path@, after[i].source_url@),
{
    urls_map_meaning(before);
    urls_map_meaning(after);
    let (a, b) = (urls_map(after), urls_map(before).insert(after[i].citation_path@, after[i].source_url@));
    assert forall|path: Seq<char>| a.contains_key(path) <==> b.contains_key(path) by {
        if a.contains_key(path) {
            let k = choose|k: int|
                0 <= k < after.len() && (#[trigger] after[k]).citation_path@ == path;
            assert(before[k].citation_path@ == path);
        }
        if urls_map(before).contains_key(path) {
            let k = choose|k: int|
                0 <= k < before.len() && (#[trigger] before[k]).citation_path@ == path;
            assert(after[k].citation_path@ == path);
        }
    }
    assert forall|path: Seq<char>| a.contains_key(path) implies a[path] == b[path] by {
        let k = choose|k: int|
            0 <= k < after.len() && (#[trigger] after[k]).citation_path@ == path;
        assert(before[k].citation_path@ == path);
    }
    assert(a =~= b);
}

/// The URL of a text: its own, or that of its citation path.
pub open spec fn resolved_url(
    citation_path: Option<String>,
    source_url: Option<String>,
    provisions: Map<Seq<char>, Seq<char>>,
) -> Option<Seq<char>> {
    match source_url {
        Some(url) => Some(url@),
        None => match citation_path {
            Some(path) => if provisions.contains_key(path@) {
                Some(provisions[path@])
            } else {
                None
            },
            None => None,
        },
    }
}

/// Whether a URL is filled in.
pub open spec fn is_filled(
    citation_path: Option<String>,
    source_url: Option<String>,
    provisions: Map<Seq<char>, Seq<char>>,
) -> bool {
    source_url is None && resolved_url(citation_path, source_url, provisions) is Some
}

/// Whether a parameter differs from the earlier one in its resolved URL only.
pub open spec fn parameter_resolved(
    before: IndexedParameter,
    after: IndexedParameter,
    provisions: Map<Seq<char>, Seq<char>>,
) -> bool {
    &&& opt_text(after.source_url) == resolved_url(
        before.corpus_citation_path,
        before.source_url,
        provisions,
    )
    &&& after == (IndexedParameter { source_url: after.source_url, ..before })
}

/// Whether a rule differs from the earlier one in its resolved URL only.
pub open spec fn rule_resolved(
    before: Derived,
    after: Derived,
    provisions: Map<Seq<char>, Seq<char>>,
) -> bool {
    &&& opt_text(after.source_url) == resolved_url(
        before.corpus_citation_path,
        before.source_url,
        provisions,
    )
    &&& after == (Derived { source_url: after.source_url, ..before })
}

/// Whether a program differs from the earlier one in the resolved URLs only.
pub open spec fn sources_resolved(
    before: Program,
    after: Program,
    provisions: Map<Seq<char>, Seq<char>>,
) -> bool {
    &&& after.units == before.units
    &&& after.relations == before.relations
    &&& after.parameters@.len() == before.parameters@.len()
    &&& forall|i: int|
        0 <= i < before.parameters@.len() ==> parameter_resolved(
            before.parameters@[i],
            #[trigger] after.parameters@[i],
            provisions,
        )
    &&& after.derived@.len() == before.derived@.len()
    &&& forall|i: int|
        0 <= i < before.derived@.len() ==> rule_resolved(
            before.derived@[i],
            #[trigger] after.derived@[i],
            provisions,
        )
}

pub open spec fn parameters_filled(
    parameters: Seq<IndexedParameter>,
    n: nat,
    provisions: Map<Seq<char>, Seq<char>>,
) -> nat
    decreases n,
{
    if n == 0 || n > parameters.len() {
        0
    } else {
        let p = parameters[n - 1];
        parameters_filled(parameters, (n - 1) as nat, provisions) + if is_filled(
            p.corpus_citation_path,
            p.source_url,
            provisions,
        ) {
            1nat
        } else {
            0nat
        }
    }
}

pub open spec fn rules_filled(
    rules: Seq<Derived>,
    n: nat,
    provisions: Map<Seq<char>, Seq<char>>,
) -> nat
    decreases n,
{
    if n == 0 || n > rules.len() {
        0
    } else {
        let d = rules[n - 1];
        rules_filled(rules, (n - 1) as nat, provisions) + if is_filled(
            d.corpus_citation_path,
            d.source_url,
            provisions,
        ) {
            1nat
        } else {
            0nat
        }
    }
}

fn url_of(
    citation_path: &Option<String>,
    source_url: &Option<String>,
    provisions: &CorpusProvisionIndex,
) -> (r: Option<String>)
    requires
        provisions.well_formed(),
    ensures
        r is Some <==> is_filled(*citation_path, *source_url, provisions@),
        r matches Some(url) ==> Some(url@) == resolved_url(
            *citation_path,
            *source_url,
            provisions@,
        ),
{
    if source_url.is_some() {
        return None;
    }
    match citation_path {
        Some(path) => match provisions.source_url(path.as_str()) {
            Some(url) => Some(owned(url)),
            None => None,
        },
        None => None,
    }
}

impl IndexedParameter {
    fn fill_source_url(&mut self, provisions: &CorpusProvisionIndex) -> (r: bool)
        requires
            provisions.well_formed(),
        ensures
            parameter_resolved(*old(self), *final(self), provisions@),
            r == is_filled(old(self).corpus_citation_path, old(self).source_url, provisions@),
    {
        match url_of(&self.corpus_citation_path, &self.source_url, provisions) {
            Some(url) => {
                self.source_url = Some(url);
                true
            },
            None => false,
        }
    }
}

impl Derived {
    fn fill_source_url(&mut self, provisions: &CorpusProvisionIndex) -> (r: bool)
        requires
            provisions.well_formed(),
        ensures
            rule_resolved(*old(self), *final(self), provisions@),
            r == is_filled(old(self).corpus_citation_path, old(self).source_url, provisions@),
    {
        match url_of(&self.corpus_citation_path, &self.source_url, provisions) {
            Some(url) => {
                self.source_url = Some(url);
                true
            },
            None => false,
        }
    }
}

fn fill_parameters(parameters: &mut Vec<IndexedParameter>, provisions: &CorpusProvisionIndex) -> (r:
    usize)
    requires
        provisions.well_formed(),
    ensures
        r == parameters_filled(old(parameters)@, old(parameters)@.len(), provisions@),
        r <= old(parameters)@.len(),
        final(parameters)@.len() == old(parameters)@.len(),
        forall|i: int|
            0 <= i < old(parameters)@.len() ==> parameter_resolved(
                old(parameters)@[i],
                #[trigger] final(parameters)@[i],
                provisions@,
            ),
{
    let ghost before = parameters@;
    let mut filled: usize = 0;
    let mut i: usize = 0;
    while i < parameters.len()
        invariant
            i <= parameters@.len(),
            provisions.well_formed(),
            parameters@.len() == before.len(),
            filled == parameters_filled(before, i as nat, provisions@),
            filled <= i,
            forall|j: int| i <= j < before.len() ==> #[trigger] parameters@[j] == before[j],
            forall|j: int|
                0 <= j < i ==> parameter_resolved(before[j], #[trigger] parameters@[j], provisions@),
        decreases parameters@.len() - i,
    {
        if parameters[i].fill_source_url(provisions) {
            filled = filled + 1;
        }
        i = i + 1;
    }
    filled
}

fn fill_rules(rules: &mut Vec<Derived>, provisions: &CorpusProvisionIndex) -> (r: usize)
    requires
        provisions.well_formed(),
    ensures
        r == rules_filled(old(rules)@, old(rules)@.len(), provisions@),
        r <= old(rules)@.len(),
        final(rules)@.len() == old(rules)@.len(),
        forall|i: int|
            0 <= i < old(rules)@.len() ==> rule_resolved(
                old(rules)@[i],
                #[trigger] final(rules)@[i],
                provisions@,
            ),
{
    let ghost before = rules@;
    let mut filled: usize = 0;
    let mut i: usize = 0;
    while i < rules.len()
        invariant
            i <= rules@.len(),
            provisions.well_formed(),
            rules@.len() == before.len(),
            filled == rules_filled(before, i as nat, provisions@),
            filled <= i,
            forall|j: int| i <= j < before.len() ==> #[trigger] rules@[j] == before[j],
            forall|j: int| 0 <= j < i ==> rule_resolved(before[j], #[trigger] rules@[j], provisions@),
        decreases rules@.len() - i,
    {
        if rules[i].fill_source_url(provisions) {
            filled = filled + 1;
        }
        i = i + 1;
    }
    filled
}

impl CompiledProgramArtifact {
    /// Fills in the URLs of parameters and rules from the citation paths that they declare.
    /// A URL that is there stays. Gives the number of URLs that were filled in.
    pub fn resolve_source_urls(&mut self, provisions: &CorpusProvisionIndex) -> (r: usize)
        requires
            provisions.well_formed(),
            old(self).program.parameters@.len() + old(self).program.derived@.len() <= usize::MAX,
        ensures
            r == parameters_filled(
                old(self).program.parameters@,
                old(self).program.parameters@.len(),
                provisions@,
            ) + rules_filled(
                old(self).program.derived@,
                old(self).program.derived@.len(),
                provisions@,
            ),
            sources_resolved(old(self).program, final(self).program, provisions@),
            *final(self) == (CompiledProgramArtifact {
                program: Program {
                    parameters: final(self).program.parameters,
                    derived: final(self).program.derived,
                    ..old(self).program
                },
                ..*old(self)
            }),
    {
        let parameters = fill_parameters(&mut self.program.parameters, provisions);
        let rules = fill_rules(&mut self.program.derived, provisions);
        parameters + rules
    }
}

proof fn nothing_left_to_fill(p: Program, q: Program, n: nat, provisions: Map<Seq<char>, Seq<char>>)
    requires
        sources_resolved(p, q, provisions),
    ensures
        n <= q.parameters@.len() ==> parameters_filled(q.parameters@, n, provisions) == 0,
        n <= q.derived@.len() ==> rules_filled(q.derived@, n, provisions) == 0,
    decreases n,
{
    if n > 0 {
        nothing_left_to_fill(p, q, (n - 1) as nat, provisions);
        if n <= q.parameters@.len() {
            assert(parameter_resolved(p.parameters@[n - 1], q.parameters@[n - 1], provisions));
        }
        if n <= q.derived@.len() {
            assert(rule_resolved(p.derived@[n - 1], q.derived@[n - 1], provisions));
        }
    }
}

/// Once the URLs of a program are filled in, filling them in again fills none and changes none.
pub proof fn urls_are_filled_once(
    p: Program,
    q: Program,
    again: Program,
    provisions: Map<Seq<char>, Seq<char>>,
)
    requires
        sources_resolved(p, q, provisions),
        sources_resolved(q, again, provisions),
    ensures
        parameters_filled(q.parameters@, q.parameters@.len(), provisions) == 0,
        rules_filled(q.derived@, q.derived@.len(), provisions) == 0,
        forall|i: int|
            0 <= i < q.parameters@.len() ==> opt_text(
                (#[trigger] again.parameters@[i]).source_url,
            ) == opt_text(q.parameters@[i].source_url),
        forall|i: int|
            0 <= i < q.derived@.len() ==> opt_text((#[trigger] again.derived@[i]).source_url)
                == opt_text(q.derived@[i].source_url),
        sources_resolved(q, q, provisions),
{
    nothing_left_to_fill(p, q, q.parameters@.len(), provisions);
    nothing_left_to_fill(p, q, q.derived@.len(), provisions);
    assert forall|i: int| 0 <= i < q.parameters@.len() implies parameter_resolved(
        q.parameters@[i],
        #[trigger] q.parameters@[i],
        provisions,
    ) && (parameter_resolved(q.parameters@[i], again.parameters@[i], provisions) ==> opt_text(
        again.parameters@[i].source_url,
    ) == opt_text(q.parameters@[i].source_url)) by {
        assert(parameter_resolved(p.parameters@[i], q.parameters@[i], provisions));
    }
    assert forall|i: int| 0 <= i < q.derived@.len() implies rule_resolved(
        q.derived@[i],
        #[trigger] q.derived@[i],
        provisions,
    ) && (rule_resolved(q.derived@[i], again.derived@[i], provisions) ==> opt_text(
        again.derived@[i].source_url,
    ) == opt_text(q.derived@[i].source_url)) by {
        assert(rule_resolved(p.derived@[i], q.derived@[i], provisions));
    }
}

pub open spec fn flag_text(b: bool) -> Seq<char> {
    if b {
        "true"@
    } else {
        "false"@
    }
}

/// The lines of an artifact's summary, in the order of their names.
pub open spec fn summary(a: CompiledProgramArtifact) -> Seq<(Seq<char>, Seq<char>)> {
    let order = texts(a.metadata.evaluation_order@);
    let fast = a.metadata.fast_path;
    let blockers = texts(fast.blockers@);
    seq![
        ("artifact_format_version"@, int_text(a.artifact_format_version as int)),
        ("derived_outputs"@, int_text(a.program.derived@.len() as int)),
    ] + (match a.engine_version {
        Some(version) => seq![("engine_version"@, version@)],
        None => Seq::empty(),
    }) + seq![("evaluation_order"@, joined_by(order, order.len(), ", "@))] + (if blockers.len()
        > 0 {
        seq![("fast_path_blockers"@, joined_by(blockers, blockers.len(), " | "@))]
    } else {
        Seq::empty()
    }) + seq![
        ("fast_path_compatible"@, flag_text(fast.compatible)),
        ("fast_path_strategy"@, fast.strategy@),
    ]
}

pub open spec fn line_pairs(v: Seq<(String, String)>) -> Seq<(Seq<char>, Seq<char>)> {
    v.map_values(|line: (String, String)| (line.0@, line.1@))
}

fn push_line(lines: &mut Vec<(String, String)>, name: &str, value: String)
    ensures
        line_pairs(final(lines)@) == line_pairs(old(lines)@).push((name@, value@)),
{
    let ghost before = lines@;
    lines.push((owned(name), value));
    assert(line_pairs(lines@) =~= line_pairs(before).push((name@, value@)));
}

/// The lines of an artifact's summary, in the order of their names.
pub fn compile_summary_lines(artifact: &CompiledProgramArtifact) -> (r: Vec<(String, String)>)
    ensures
        line_pairs(r@) == summary(*artifact),
{
    let fast = &artifact.metadata.fast_path;
    let mut lines: Vec<(String, String)> = Vec::new();
    assert(line_pairs(lines@) =~= Seq::empty());
    push_line(
        &mut lines,
        "artifact_format_version",
        u64_text(artifact.artifact_format_version as u64),
    );
    push_line(&mut lines, "derived_outputs", usize_text(artifact.program.derived.len()));
    if let Some(version) = &artifact.engine_version {
        push_line(&mut lines, "engine_version", version.clone());
    }
    push_line(
        &mut lines,
        "evaluation_order",
        join(&artifact.metadata.evaluation_order, ", "),
    );
    assert(fast.blockers@.len() == texts(fast.blockers@).len());
    if fast.blockers.len() > 0 {
        push_line(&mut lines, "fast_path_blockers", join(&fast.blockers, " | "));
    }
    let flag = if fast.compatible {
        owned("true")
    } else {
        owned("false")
    };
    push_line(&mut lines, "fast_path_compatible", flag);
    push_line(&mut lines, "fast_path_strategy", fast.strategy.clone());
    assert(line_pairs(lines@) =~= summary(*artifact));
    lines
}

/// The URLs of sources describe rules and parameters: resolving them changes no value.
pub proof fn resolved_sources_change_no_value(
    before: Program,
    after: Program,
    provisions: Map<Seq<char>, Seq<char>>,
    data: DataSet,
    period: PeriodView,
    name: Seq<char>,
    ent: Seq<char>,
)
    requires
        sources_resolved(before, after, provisions),
    ensures
        ({
            let cx = Facts { program: before, data: data@, period };
            let cy = Facts { program: after, data: data@, period };
            &&& scalar_terminates(cx, name, ent) ==> scalar_meaning(cx, name, ent)
                == scalar_meaning(cy, name, ent)
            &&& judgment_terminates(cx, name, ent) ==> judgment_meaning(cx, name, ent)
                == judgment_meaning(cy, name, ent)
        }),
{
    let cx = Facts { program: before, data: data@, period };
    let cy = Facts { program: after, data: data@, period };
    assert forall|n: Seq<char>|
        #![trigger before.rule(n)]
        #![trigger after.rule(n)]
        rules_alike(before.rule(n), after.rule(n)) by {
        same_positions(before.derived@, after.derived@, n, 0);
    }
    assert forall|n: Seq<char>|
        #![trigger before.parameter(n)]
        #![trigger after.parameter(n)]
        parameters_alike(before.parameter(n), after.parameter(n)) by {
        same_positions(before.parameters@, after.parameters@, n, 0);
    }
    assert forall|n: Seq<char>, id: Seq<char>| #[trigger]
        input_value(cx, n, id) == input_value(cy, n, id) by {}
    rules_agree(cx, cy, name, ent);
}

} // verus!
