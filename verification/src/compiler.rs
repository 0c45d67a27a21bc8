//! Compilation of a program for one root entity.
use crate::compile::{rounding_fault, validate_rounding, CompileError, CompileErrorView, CompiledProgramArtifact};
use crate::column::{MatchLabels, ShiftUnit};
use crate::dense::{
    CompiledDerived, CompiledJudgmentExpr, CompiledParameter, CompiledRelatedJudgmentExpr,
    CompiledRelatedScalarExpr, CompiledScalarExpr, CompiledSemantics, DenseCompiledProgram,
    DenseRelationKey, DenseRelationSchema, RelationKeyView,
};
use crate::format::{describe_match_operand, describe_match_operands};
use crate::lowering::{
    base_key, budget, chain, chain_within, compiled_source, crosses, current_fault,
    current_judgment_fault, current_judgment_rule_fault, current_judgments_fault,
    current_rule_fault, currents_fault, cyclic, earlier, grows, grows_on, grows_self, info_of,
    input_is, judgment_fault, judgments_fault, labels_are, lookup_key, parameter_fault,
    parameter_is, program_has, related_fault, related_judgment_fault, related_judgment_rule_fault,
    related_judgments_fault, related_rule_fault, relateds_fault, relation_fault, relation_fault_at,
    relation_grows, relation_info, rule_fault, scalar_fault, scalars_fault, settled, shows_current,
    shows_current_grows, shows_current_judgment, shows_current_judgment_grows,
    shows_current_judgments, shows_current_judgments_grows, shows_currents, shows_currents_grows,
    shows_judgment, shows_judgment_fits, shows_judgment_grows, shows_judgment_settled,
    shows_judgments, shows_judgments_grows, shows_related, shows_related_grows,
    shows_related_judgment, shows_related_judgment_fits, shows_related_judgment_grows,
    shows_related_judgment_rule, shows_related_judgments, shows_related_judgments_grows,
    shows_related_rule, shows_related_rule_grows, shows_relateds, shows_relateds_grows,
    shows_scalar, shows_scalar_fits, shows_scalar_grows, shows_scalar_nested, shows_scalar_settled,
    shows_scalars, shows_scalars_grows, slot_entity, source_key, stack_has_room, stacked,
    text_view, uncompiled, unsupported, DenseErrorView, CompileFacts, Tables,
};
use crate::model::{
    find_index, find_named, item_named, position_from_meaning, position_of, Derived,
    DerivedSemantics, IndexedParameter, JudgmentExpr, Named, ParameterVersion, Program,
    RelatedValueRef, RelationDerivation, ScalarExpr, ScalarValue, SCALAR_ENTITY,
};
use crate::reading::{
    adds, adds_nothing, adds_on, adds_reached, brings, closed_both, current_judgment_reads,
    current_judgment_rule_reads, current_judgments_reads, current_reads, current_rule_reads,
    currents_reads, filters_aside, holds_text, input_added, is_closed, is_compiled, judgment_reads,
    judgments_reads, listed, listed_closed, listed_is, listed_on, lists, one, parameter_added,
    program_reads, reached, reached_both, reads_input, reads_relation, reached_grows,
    reached_is_least, reached_leaf, reached_none, reached_step, related_input_added,
    related_judgment_reads, related_judgment_rule_reads, related_judgments_reads, related_reads,
    related_rule_reads, relateds_reads, relation_added, root_rules, rule_added, scalar_reads,
    scalars_reads, source_reads, tables_distinct, value_reads, Read,
};
use crate::reductions::nested_over_periods_kind;
use crate::text::{owned, same, texts};
use std::collections::BTreeMap;
use vstd::prelude::*;
use vstd::string::*;

verus! {

broadcast use vstd::std_specs::btree::group_btree_axioms;

/// Why a program cannot be compiled for dense execution.
#[derive(Debug)]
pub enum DenseCompileError {
    /// The program declares what no program may.
    Spec(CompileError),
    AmbiguousRootEntity,
    UnknownEntity(String),
    Unsupported(String),
    NestedOverPeriods { outer: &'static str, inner: &'static str },
    CrossEntityDependency { derived: String, dependency: String, entity: String },
}

impl DenseCompileError {
    pub open spec fn view(&self) -> DenseErrorView {
        match self {
            DenseCompileError::Spec(error) => DenseErrorView::Spec(error@),
            DenseCompileError::AmbiguousRootEntity => DenseErrorView::AmbiguousRootEntity,
            DenseCompileError::UnknownEntity(entity) => DenseErrorView::UnknownEntity(entity@),
            DenseCompileError::Unsupported(what) => DenseErrorView::Unsupported(what@),
            DenseCompileError::NestedOverPeriods { outer, inner } => {
                DenseErrorView::NestedOverPeriods { outer: outer@, inner: inner@ }
            },
            DenseCompileError::CrossEntityDependency { derived, dependency, entity } => {
                DenseErrorView::CrossEntityDependency {
                    derived: derived@,
                    dependency: dependency@,
                    entity: entity@,
                }
            },
        }
    }
}

/// Whether two parameters have the same name and tables.
pub open spec fn same_parameter(a: IndexedParameter, b: IndexedParameter) -> bool {
    &&& a.name@ == b.name@
    &&& a.versions@.len() == b.versions@.len()
    &&& forall|i: int| #![trigger a.versions@[i]]
        0 <= i < a.versions@.len() ==> {
            &&& a.versions@[i].effective_from == b.versions@[i].effective_from
            &&& a.versions@[i].effective_to == b.versions@[i].effective_to
            &&& a.versions@[i].values@ == b.versions@[i].values@
        }
}

fn copied_text(text: &Option<String>) -> (r: Option<String>)
    ensures
        r == *text,
{
    match text {
        Some(text) => Some(text.clone()),
        None => None,
    }
}

fn copied_table(values: &BTreeMap<i64, ScalarValue>) -> (r: BTreeMap<i64, ScalarValue>)
    ensures
        r@ == values@,
{
    let mut r: BTreeMap<i64, ScalarValue> = BTreeMap::new();
    for entry in it: values.iter()
        invariant
            forall|k: i64| #[trigger]
                values@.contains_key(k) ==> exists|i: int|
                    0 <= i < it.seq().len() && #[trigger] it.seq()[i] == (&k, &values@[k]),
            forall|i: int|
                0 <= i < it.seq().len() ==> values@.contains_key(*(#[trigger] it.seq()[i]).0)
                    && values@[*it.seq()[i].0] == *it.seq()[i].1,
            forall|k: i64| #[trigger]
                r@.contains_key(k) ==> values@.contains_key(k) && r@[k] == values@[k],
            forall|i: int| 0 <= i < it.index() ==> r@.contains_key(*(#[trigger] it.seq()[i]).0),
    {
        assert(values@.contains_key(*entry.0) && values@[*entry.0] == *entry.1);
        r.insert(*entry.0, entry.1.duplicate());
    }
    assert(r@ =~= values@);
    r
}

fn copied_parameter(parameter: &IndexedParameter) -> (r: IndexedParameter)
    ensures
        same_parameter(r, *parameter),
{
    let mut versions: Vec<ParameterVersion> = Vec::new();
    let mut i: usize = 0;
    while i < parameter.versions.len()
        invariant
            i <= parameter.versions@.len(),
            versions@.len() == i,
            forall|j: int| #![trigger versions@[j]]
                0 <= j < i ==> {
                    &&& versions@[j].effective_from == parameter.versions@[j].effective_from
                    &&& versions@[j].effective_to == parameter.versions@[j].effective_to
                    &&& versions@[j].values@ == parameter.versions@[j].values@
                },
        decreases parameter.versions@.len() - i,
    {
        let version = &parameter.versions[i];
        versions.push(
            ParameterVersion {
                effective_from: version.effective_from,
                effective_to: version.effective_to,
                values: copied_table(&version.values),
            },
        );
        i = i + 1;
    }
    IndexedParameter {
        id: copied_text(&parameter.id),
        name: parameter.name.clone(),
        unit: copied_text(&parameter.unit),
        indexed_by: copied_text(&parameter.indexed_by),
        source: copied_text(&parameter.source),
        source_url: copied_text(&parameter.source_url),
        corpus_citation_path: copied_text(&parameter.corpus_citation_path),
        versions,
    }
}

/// Whether a relation of the tables is the one that its name stands for: the rows of
/// the relation below, the entities of its slots, and the relation that it filters.
pub open spec fn relation_based(cx: CompileFacts, t: Tables, i: int) -> bool {
    let key = t.lookups[i];
    let schema = t.relations[i];
    chain(cx, key.name) matches Some(k) && {
        &&& schema.key@ == base_key(cx, k, key)
        &&& info_of(schema) == relation_info(cx, key)
        &&& match schema.parent_relation {
            Some(parent) => {
                &&& k > 0
                &&& parent < i
                &&& cx.derivation(key.name) matches Some(d) && t.lookups[parent as int]
                    == source_key(d)
            },
            None => k == 0,
        }
    }
}

/// Whether a relation's filter stands for its derivation's predicate.
pub open spec fn relation_filtered(cx: CompileFacts, t: Tables, i: int) -> bool {
    &&& relation_fault(cx, t.lookups[i]) is None
    &&& match (cx.derivation(t.lookups[i].name), t.relations[i].filter) {
        (None, None) => true,
        (Some(d), Some(filter)) => shows_related_judgment(
            cx,
            t,
            i as nat,
            Seq::empty(),
            cx.rules(),
            filter,
            d.predicate,
        ),
        _ => false,
    }
}

/// Whether a compiled rule stands for the rule of its name, over the rules before it.
pub open spec fn rule_shown(cx: CompileFacts, t: Tables, i: int) -> bool {
    let c = t.derived[i];
    cx.position(c.name@) matches Some(p) && {
        let d = cx.rule_at(p);
        &&& !cx.foreign(p)
        &&& c.label@ == d.label()
        &&& c.rounding == d.rounding
        &&& c.effective_from == if d.versions@.len() == 0 {
            None
        } else {
            Some(d.versions@[0].effective_from)
        }
        &&& match (compiled_source(d), c.semantics) {
            (Some(DerivedSemantics::Scalar(e)), CompiledSemantics::Scalar(x)) => shows_scalar(
                cx,
                t,
                i as nat,
                c.name@,
                x,
                e,
            ),
            (Some(DerivedSemantics::Judgment(e)), CompiledSemantics::Judgment(x)) => shows_judgment(
                cx,
                t,
                i as nat,
                c.name@,
                x,
                e,
            ),
            _ => false,
        }
    }
}

/// Whether the relations and parameters of tables are those that their names stand for.
pub open spec fn tables_based(cx: CompileFacts, t: Tables) -> bool {
    &&& t.lookups.len() == t.relations.len()
    &&& forall|i: int| 0 <= i < t.relations.len() ==> #[trigger] relation_based(cx, t, i)
    &&& forall|i: int| #![trigger t.parameters[i]]
        0 <= i < t.parameters.len() ==> (item_named(
            cx.program.parameters@,
            t.parameters[i].parameter.name@,
        ) matches Some(p) && same_parameter(t.parameters[i].parameter, p))
}

/// Whether the filters and rules of tables are compiled.
pub open spec fn tables_shown(cx: CompileFacts, t: Tables) -> bool {
    &&& forall|i: int| 0 <= i < t.relations.len() ==> #[trigger] relation_filtered(cx, t, i)
    &&& forall|i: int| 0 <= i < t.derived.len() ==> #[trigger] rule_shown(cx, t, i)
    &&& forall|i: int, j: int|
        0 <= i < j < t.derived.len() ==> (#[trigger] t.derived[i]).name@
            != (#[trigger] t.derived[j]).name@
}

/// Whether only inputs and parameters were added.
pub open spec fn only_inputs(t: Tables, u: Tables) -> bool {
    &&& grows(t, u)
    &&& u.lookups == t.lookups
    &&& u.relations.len() == t.relations.len()
    &&& u.derived == t.derived
    &&& forall|i: int|
        0 <= i < t.relations.len() ==> (#[trigger] u.relations[i]).filter == t.relations[i].filter
}

proof fn only_inputs_on(t: Tables, u: Tables, v: Tables)
    requires
        only_inputs(t, u),
        only_inputs(u, v),
    ensures
        only_inputs(t, v),
{
    grows_on(t, u, v);
    assert forall|i: int| 0 <= i < t.relations.len() implies (#[trigger] v.relations[i]).filter
        == t.relations[i].filter by {
        assert(u.relations[i].filter == t.relations[i].filter);
    }
}

/// What is compiled stays so when the tables grow.
proof fn filter_kept(cx: CompileFacts, t: Tables, u: Tables, i: int)
    requires
        relation_filtered(cx, t, i),
        grows(t, u),
        t.lookups.len() == t.relations.len(),
        0 <= i < t.relations.len(),
        u.relations[i].filter == t.relations[i].filter,
    ensures
        relation_filtered(cx, u, i),
{
    assert(relation_grows(t.relations[i], u.relations[i]));
    assert(u.lookups[i] == t.lookups[i]);
    if let (Some(d), Some(filter)) = (
        cx.derivation(t.lookups[i].name),
        t.relations[i].filter,
    ) {
        shows_related_judgment_grows(
            cx,
            t,
            u,
            i as nat,
            Seq::empty(),
            cx.rules(),
            filter,
            d.predicate,
        );
    }
}

proof fn rule_kept(cx: CompileFacts, t: Tables, u: Tables, i: int)
    requires
        rule_shown(cx, t, i),
        grows(t, u),
        t.lookups.len() == t.relations.len(),
        0 <= i < t.derived.len(),
    ensures
        rule_shown(cx, u, i),
{
    let c = t.derived[i];
    assert(u.derived[i] == c);
    let p = cx.position(c.name@)->Some_0;
    match (compiled_source(cx.rule_at(p)), c.semantics) {
        (Some(DerivedSemantics::Scalar(e)), CompiledSemantics::Scalar(x)) => {
            shows_scalar_grows(cx, t, u, i as nat, i as nat, c.name@, x, e);
        },
        (Some(DerivedSemantics::Judgment(e)), CompiledSemantics::Judgment(x)) => {
            shows_judgment_grows(cx, t, u, i as nat, i as nat, c.name@, x, e);
        },
        _ => {},
    }
}

proof fn shown_kept(cx: CompileFacts, t: Tables, u: Tables)
    requires
        tables_shown(cx, t),
        only_inputs(t, u),
        t.lookups.len() == t.relations.len(),
    ensures
        tables_shown(cx, u),
{
    assert forall|i: int| 0 <= i < u.relations.len() implies #[trigger] relation_filtered(
        cx,
        u,
        i,
    ) by {
        assert(relation_filtered(cx, t, i));
        filter_kept(cx, t, u, i);
    }
    assert forall|i: int| 0 <= i < u.derived.len() implies #[trigger] rule_shown(cx, u, i) by {
        assert(rule_shown(cx, t, i));
        rule_kept(cx, t, u, i);
    }
}

proof fn settled_kept(cx: CompileFacts, t: Tables, u: Tables)
    requires
        settled(cx, t),
        u.derived == t.derived,
    ensures
        settled(cx, u),
{
    assert forall|i: int, stack: Seq<nat>|
        #![trigger u.derived[i], rule_fault(cx, stack, cx.position(u.derived[i].name@)->Some_0)]
        0 <= i < u.derived.len() && stacked(cx, stack) && uncompiled(
            cx,
            u,
            stack,
        ) implies rule_fault(cx, stack, cx.position(u.derived[i].name@)->Some_0) is None by {
        assert(uncompiled(cx, t, stack)) by {
            assert forall|k: int, j: int| #![trigger stack[k], t.derived[j]]
                0 <= k < stack.len() && 0 <= j < t.derived.len() implies t.derived[j].name@
                != cx.rule_at(stack[k]).name@ by {
                assert(u.derived[j] == t.derived[j]);
            }
        }
        assert(t.derived[i] == u.derived[i]);
    }
}

proof fn scalars_fault_kept(cx: CompileFacts, stack: Seq<nat>, rule: Seq<char>, items: Seq<ScalarExpr>, m: nat, n: nat)
    requires
        m <= n <= items.len(),
        scalars_fault(cx, stack, rule, items, m) is Some,
    ensures
        scalars_fault(cx, stack, rule, items, n) == scalars_fault(cx, stack, rule, items, m),
    decreases n,
{
    if m < n {
        scalars_fault_kept(cx, stack, rule, items, m, (n - 1) as nat);
    }
}

proof fn shows_scalars_same(cx: CompileFacts, t: Tables, bound: nat, rule: Seq<char>, a: Seq<CompiledScalarExpr>, b: Seq<CompiledScalarExpr>, items: Seq<ScalarExpr>, n: nat)
    requires
        shows_scalars(cx, t, bound, rule, a, items, n),
        n <= items.len(),
        n <= a.len(),
        n <= b.len(),
        forall|i: int| 0 <= i < n ==> #[trigger] b[i] == a[i],
    ensures
        shows_scalars(cx, t, bound, rule, b, items, n),
    decreases n,
{
    if n > 0 {
        shows_scalars_same(cx, t, bound, rule, a, b, items, (n - 1) as nat);
        assert(b[n - 1] == a[n - 1]);
    }
}

proof fn judgments_fault_kept(cx: CompileFacts, stack: Seq<nat>, rule: Seq<char>, items: Seq<JudgmentExpr>, m: nat, n: nat)
    requires
        m <= n <= items.len(),
        judgments_fault(cx, stack, rule, items, m) is Some,
    ensures
        judgments_fault(cx, stack, rule, items, n) == judgments_fault(cx, stack, rule, items, m),
    decreases n,
{
    if m < n {
        judgments_fault_kept(cx, stack, rule, items, m, (n - 1) as nat);
    }
}

proof fn shows_judgments_same(cx: CompileFacts, t: Tables, bound: nat, rule: Seq<char>, a: Seq<CompiledJudgmentExpr>, b: Seq<CompiledJudgmentExpr>, items: Seq<JudgmentExpr>, n: nat)
    requires
        shows_judgments(cx, t, bound, rule, a, items, n),
        n <= items.len(),
        n <= a.len(),
        n <= b.len(),
        forall|i: int| 0 <= i < n ==> #[trigger] b[i] == a[i],
    ensures
        shows_judgments(cx, t, bound, rule, b, items, n),
    decreases n,
{
    if n > 0 {
        shows_judgments_same(cx, t, bound, rule, a, b, items, (n - 1) as nat);
        assert(b[n - 1] == a[n - 1]);
    }
}

proof fn relateds_fault_kept(cx: CompileFacts, info: crate::lowering::RelationInfo, depth: nat, items: Seq<ScalarExpr>, m: nat, n: nat)
    requires
        m <= n <= items.len(),
        relateds_fault(cx, info, depth, items, m) is Some,
    ensures
        relateds_fault(cx, info, depth, items, n) == relateds_fault(cx, info, depth, items, m),
    decreases n,
{
    if m < n {
        relateds_fault_kept(cx, info, depth, items, m, (n - 1) as nat);
    }
}

proof fn shows_relateds_same(cx: CompileFacts, t: Tables, rel: nat, rule: Seq<char>, depth: nat, a: Seq<CompiledRelatedScalarExpr>, b: Seq<CompiledRelatedScalarExpr>, items: Seq<ScalarExpr>, n: nat)
    requires
        shows_relateds(cx, t, rel, rule, depth, a, items, n),
        n <= items.len(),
        n <= a.len(),
        n <= b.len(),
        forall|i: int| 0 <= i < n ==> #[trigger] b[i] == a[i],
    ensures
        shows_relateds(cx, t, rel, rule, depth, b, items, n),
    decreases n,
{
    if n > 0 {
        shows_relateds_same(cx, t, rel, rule, depth, a, b, items, (n - 1) as nat);
        assert(b[n - 1] == a[n - 1]);
    }
}

proof fn related_judgments_fault_kept(cx: CompileFacts, info: crate::lowering::RelationInfo, depth: nat, items: Seq<JudgmentExpr>, m: nat, n: nat)
    requires
        m <= n <= items.len(),
        related_judgments_fault(cx, info, depth, items, m) is Some,
    ensures
        related_judgments_fault(cx, info, depth, items, n) == related_judgments_fault(cx, info, depth, items, m),
    decreases n,
{
    if m < n {
        related_judgments_fault_kept(cx, info, depth, items, m, (n - 1) as nat);
    }
}

proof fn shows_related_judgments_same(cx: CompileFacts, t: Tables, rel: nat, rule: Seq<char>, depth: nat, a: Seq<CompiledRelatedJudgmentExpr>, b: Seq<CompiledRelatedJudgmentExpr>, items: Seq<JudgmentExpr>, n: nat)
    requires
        shows_related_judgments(cx, t, rel, rule, depth, a, items, n),
        n <= items.len(),
        n <= a.len(),
        n <= b.len(),
        forall|i: int| 0 <= i < n ==> #[trigger] b[i] == a[i],
    ensures
        shows_related_judgments(cx, t, rel, rule, depth, b, items, n),
    decreases n,
{
    if n > 0 {
        shows_related_judgments_same(cx, t, rel, rule, depth, a, b, items, (n - 1) as nat);
        assert(b[n - 1] == a[n - 1]);
    }
}

proof fn currents_fault_kept(cx: CompileFacts, rule: Seq<char>, entity: Seq<char>, depth: nat, items: Seq<ScalarExpr>, m: nat, n: nat)
    requires
        m <= n <= items.len(),
        currents_fault(cx, rule, entity, depth, items, m) is Some,
    ensures
        currents_fault(cx, rule, entity, depth, items, n) == currents_fault(cx, rule, entity, depth, items, m),
    decreases n,
{
    if m < n {
        currents_fault_kept(cx, rule, entity, depth, items, m, (n - 1) as nat);
    }
}

proof fn shows_currents_same(cx: CompileFacts, t: Tables, rule: Seq<char>, depth: nat, a: Seq<CompiledScalarExpr>, b: Seq<CompiledScalarExpr>, items: Seq<ScalarExpr>, n: nat)
    requires
        shows_currents(cx, t, rule, depth, a, items, n),
        n <= items.len(),
        n <= a.len(),
        n <= b.len(),
        forall|i: int| 0 <= i < n ==> #[trigger] b[i] == a[i],
    ensures
        shows_currents(cx, t, rule, depth, b, items, n),
    decreases n,
{
    if n > 0 {
        shows_currents_same(cx, t, rule, depth, a, b, items, (n - 1) as nat);
        assert(b[n - 1] == a[n - 1]);
    }
}

proof fn current_judgments_fault_kept(cx: CompileFacts, rule: Seq<char>, entity: Seq<char>, depth: nat, items: Seq<JudgmentExpr>, m: nat, n: nat)
    requires
        m <= n <= items.len(),
        current_judgments_fault(cx, rule, entity, depth, items, m) is Some,
    ensures
        current_judgments_fault(cx, rule, entity, depth, items, n) == current_judgments_fault(cx, rule, entity, depth, items, m),
    decreases n,
{
    if m < n {
        current_judgments_fault_kept(cx, rule, entity, depth, items, m, (n - 1) as nat);
    }
}

proof fn shows_current_judgments_same(cx: CompileFacts, t: Tables, rule: Seq<char>, depth: nat, a: Seq<CompiledJudgmentExpr>, b: Seq<CompiledJudgmentExpr>, items: Seq<JudgmentExpr>, n: nat)
    requires
        shows_current_judgments(cx, t, rule, depth, a, items, n),
        n <= items.len(),
        n <= a.len(),
        n <= b.len(),
        forall|i: int| 0 <= i < n ==> #[trigger] b[i] == a[i],
    ensures
        shows_current_judgments(cx, t, rule, depth, b, items, n),
    decreases n,
{
    if n > 0 {
        shows_current_judgments_same(cx, t, rule, depth, a, b, items, (n - 1) as nat);
        assert(b[n - 1] == a[n - 1]);
    }
}

fn cyclic_error(name: &str) -> (r: DenseCompileError)
    ensures
        cyclic(name@) == Some(r@),
{
    let mut message = owned("cyclic dense compilation dependency involving `");
    message.append(name);
    message.append("`");
    DenseCompileError::Unsupported(message)
}

fn unknown_dependency(prefix: &str, name: &str, rule: &str) -> (r: DenseCompileError)
    ensures
        unsupported(prefix@ + name@ + "` referenced from `"@ + rule@ + "`"@) == Some(r@),
{
    let mut message = owned(prefix);
    message.append(name);
    message.append("` referenced from `");
    message.append(rule);
    message.append("`");
    DenseCompileError::Unsupported(message)
}

fn neither_error(prefix: &str, name: &str, entity: &str, relation: &str) -> (r: DenseCompileError)
    ensures
        unsupported(
            prefix@ + name@ + "` has entity `"@ + entity@
                + "`, which is neither current nor related for relation `"@ + relation@ + "`"@,
        ) == Some(r@),
{
    let mut message = owned(prefix);
    message.append(name);
    message.append("` has entity `");
    message.append(entity);
    message.append("`, which is neither current nor related for relation `");
    message.append(relation);
    message.append("`");
    DenseCompileError::Unsupported(message)
}

fn is_text(text: &Option<String>, other: &str) -> (r: bool)
    ensures
        r == (text_view(*text) == Some(other@)),
{
    match text {
        Some(text) => same(text.as_str(), other),
        None => false,
    }
}

fn slot_entity_text(entities: &Vec<String>, slot: usize) -> (r: Option<String>)
    ensures
        text_view(r) == slot_entity(entities@, slot),
{
    if slot < entities.len() {
        Some(entities[slot].clone())
    } else {
        None
    }
}

/// A rule that is compiled over compiled rules is free of faults over any stack of
/// uncompiled ones.
proof fn settled_added(
    cx: CompileFacts,
    t: Tables,
    u: Tables,
    stk: Seq<nat>,
    p: nat,
    source: DerivedSemantics,
    semantics: CompiledSemantics,
)
    requires
        settled(cx, t),
        u.derived.len() == t.derived.len() + 1,
        forall|i: int| 0 <= i < t.derived.len() ==> #[trigger] u.derived[i] == t.derived[i],
        u.derived[t.derived.len() as int].name@ == cx.rule_at(p).name@,
        forall|i: int|
            0 <= i < t.derived.len() ==> (#[trigger] t.derived[i]).name@ != cx.rule_at(p).name@,
        p < cx.rules(),
        cx.position(cx.rule_at(p).name@) == Some(p),
        compiled_source(cx.rule_at(p)) == Some(source),
        !cx.foreign(p),
        match (source, semantics) {
            (DerivedSemantics::Scalar(e), CompiledSemantics::Scalar(x)) => {
                &&& shows_scalar(cx, t, t.derived.len(), cx.rule_at(p).name@, x, e)
                &&& scalar_fault(cx, stk.push(p), cx.rule_at(p).name@, e) is None
            },
            (DerivedSemantics::Judgment(e), CompiledSemantics::Judgment(x)) => {
                &&& shows_judgment(cx, t, t.derived.len(), cx.rule_at(p).name@, x, e)
                &&& judgment_fault(cx, stk.push(p), cx.rule_at(p).name@, e) is None
            },
            _ => false,
        },
    ensures
        settled(cx, u),
{
    let n = t.derived.len() as int;
    let name = cx.rule_at(p).name@;
    assert forall|i: int, stack: Seq<nat>|
        #![trigger u.derived[i], rule_fault(cx, stack, cx.position(u.derived[i].name@)->Some_0)]
        0 <= i < u.derived.len() && stacked(cx, stack) && uncompiled(
            cx,
            u,
            stack,
        ) implies rule_fault(cx, stack, cx.position(u.derived[i].name@)->Some_0) is None by {
        assert(uncompiled(cx, t, stack)) by {
            assert forall|k: int, j: int| #![trigger stack[k], t.derived[j]]
                0 <= k < stack.len() && 0 <= j < t.derived.len() implies t.derived[j].name@
                != cx.rule_at(stack[k]).name@ by {
                assert(u.derived[j] == t.derived[j]);
            }
        }
        if i < n {
            assert(t.derived[i] == u.derived[i]);
            assert(rule_fault(cx, stack, cx.position(t.derived[i].name@)->Some_0) is None);
        } else {
            assert(!stack.contains(p)) by {
                if stack.contains(p) {
                    let k = choose|k: int| 0 <= k < stack.len() && stack[k] == p;
                    assert(u.derived[n].name@ != cx.rule_at(stack[k]).name@);
                }
            }
            stack_has_room(cx, stack, p);
            let other = stack.push(p);
            assert(uncompiled(cx, t, other)) by {
                assert forall|k: int, j: int| #![trigger other[k], t.derived[j]]
                    0 <= k < other.len() && 0 <= j < t.derived.len() implies t.derived[j].name@
                    != cx.rule_at(other[k]).name@ by {
                    if k < stack.len() {
                        assert(other[k] == stack[k]);
                    }
                }
            }
            match (source, semantics) {
                (DerivedSemantics::Scalar(e), CompiledSemantics::Scalar(x)) => {
                    shows_scalar_settled(cx, t, stk.push(p), other, t.derived.len(), name, x, e);
                },
                (DerivedSemantics::Judgment(e), CompiledSemantics::Judgment(x)) => {
                    shows_judgment_settled(cx, t, stk.push(p), other, t.derived.len(), name, x, e);
                },
                _ => {},
            }
        }
    }
}

/// What is listed already adds nothing, with all that it brings.
proof fn listed_once(cx: CompileFacts, t: Tables, x: Read)
    requires
        is_closed(cx, listed(t)),
        lists(t, x),
    ensures
        adds(t, t, reached(cx, one(x))),
{
    listed_is(t, x);
    reached_is_least(cx, one(x));
    assert(one(x).subset_of(listed(t)));
    assert(listed(t) =~= listed(t) + reached(cx, one(x)));
}

/// A derived relation adds itself, its derived source with all that it brings, and what
/// its predicate reads.
proof fn relation_reads_added(
    cx: CompileFacts,
    t0: Tables,
    t1: Tables,
    t2: Tables,
    t4: Tables,
    key: RelationKeyView,
    d: RelationDerivation,
    below: Set<Read>,
)
    requires
        cx.derivation(key.name) == Some(d),
        below == if cx.derivation(d.source_relation@) is Some {
            one(Read::Relation(source_key(d)))
        } else {
            Set::empty()
        },
        is_closed(cx, listed(t0)),
        adds(t0, t1, reached(cx, below)),
        adds(t1, t2, one(Read::Relation(key))),
        adds(t2, t4, related_judgment_reads(cx, key, cx.rules(), d.predicate)),
        t4.lookups == t2.lookups,
        t4.derived == t2.derived,
    ensures
        adds(t0, t4, reached(cx, one(Read::Relation(key)))),
        is_closed(cx, listed(t4)),
{
    let x = Read::Relation(key);
    let own = related_judgment_reads(cx, key, cx.rules(), d.predicate);
    let bring = brings(cx, x);
    assert(bring == below + own) by {
        reveal(brings);
    }
    reached_is_least(cx, below);
    closed_both(cx, listed(t0), reached(cx, below));
    let u = listed(t4);
    assert(is_closed(cx, u)) by {
        assert forall|y: Read| u.contains(y) implies #[trigger] brings(cx, y).subset_of(u) by {
            listed_is(t2, y);
            listed_is(t4, y);
            if y == x {
                assert(below.subset_of(u));
            } else if y is Rule || y is Relation {
                assert(listed(t2).contains(y));
                assert(listed(t1).contains(y));
                assert(brings(cx, y).subset_of(listed(t1)));
            } else {
                reveal(brings);
            }
        }
    }
    reached_is_least(cx, one(x));
    let r = reached(cx, one(x));
    assert(r.contains(x));
    assert(bring.subset_of(r));
    assert(below.subset_of(r));
    assert(reached(cx, below).subset_of(r));
    listed_on(cx, listed(t0), u, one(x));
}

/// An aggregate adds its relation with all that it brings, and what its own parts read.
proof fn aggregate_added(
    cx: CompileFacts,
    t: Tables,
    u: Tables,
    v: Tables,
    key: RelationKeyView,
    own: Set<Read>,
)
    requires
        adds(t, u, reached(cx, one(Read::Relation(key)))),
        adds(u, v, own),
        is_closed(cx, listed(v)),
    ensures
        adds(t, v, reached(cx, one(Read::Relation(key)) + own)),
{
    let first = one(Read::Relation(key)) + own;
    reached_is_least(cx, one(Read::Relation(key)));
    reached_is_least(cx, first);
    reached_grows(cx, one(Read::Relation(key)), first);
    listed_on(cx, listed(t), listed(v), first);
}

/// Compiles rules, filling the tables of inputs, relations, parameters and rules that
/// compiled formulas refer to.
pub(crate) struct DenseCompiler<'a> {
    pub program: &'a Program,
    pub root_entity: String,
    pub root_inputs: Vec<String>,
    pub relations: Vec<DenseRelationSchema>,
    /// Each relation as formulas name it.
    pub lookups: Vec<DenseRelationKey>,
    pub parameters: Vec<CompiledParameter>,
    pub derived: Vec<CompiledDerived>,
    /// The rules whose formulas are being compiled, innermost last.
    pub visiting: Vec<usize>,
}

/// More fuel finds the same chain.
proof fn chain_more(cx: CompileFacts, fuel: nat, name: Seq<char>)
    requires
        chain_within(cx, fuel, name) is Some,
    ensures
        chain_within(cx, fuel + 1, name) == chain_within(cx, fuel, name),
    decreases fuel,
{
    if let Some(d) = cx.derivation(name) {
        if cx.derivation(d.source_relation@) is Some {
            chain_more(cx, (fuel - 1) as nat, d.source_relation@);
        }
    }
}

/// The source of a relation that is derived over a derived one is one step shorter.
proof fn chain_step(cx: CompileFacts, name: Seq<char>, d: RelationDerivation)
    requires
        cx.derivation(name) == Some(d),
        cx.derivation(d.source_relation@) is Some,
        chain(cx, name) is Some,
    ensures
        chain(cx, name)->Some_0 > 0,
        chain(cx, d.source_relation@) == Some((chain(cx, name)->Some_0 - 1) as nat),
{
    let m = cx.program.relations@.len();
    chain_more(cx, (m - 1) as nat, d.source_relation@);
}

proof fn inputs_kept(cx: CompileFacts, t: Tables, u: Tables, stack: Seq<nat>)
    requires
        tables_based(cx, t),
        tables_shown(cx, t),
        settled(cx, t),
        uncompiled(cx, t, stack),
        only_inputs(t, u),
        is_closed(cx, listed(t)),
        listed(t).subset_of(listed(u)),
    ensures
        tables_shown(cx, u),
        settled(cx, u),
        uncompiled(cx, u, stack),
        is_closed(cx, listed(u)),
{
    listed_closed(cx, t, u);
    shown_kept(cx, t, u);
    settled_kept(cx, t, u);
    assert forall|k: int, j: int| #![trigger stack[k], u.derived[j]]
        0 <= k < stack.len() && 0 <= j < u.derived.len() implies u.derived[j].name@ != cx.rule_at(
        stack[k],
    ).name@ by {
        assert(t.derived[j] == u.derived[j]);
    }
}

/// A relation of grown tables is still the one that its name stands for.
proof fn based_kept(cx: CompileFacts, t: Tables, u: Tables)
    requires
        tables_based(cx, t),
        only_inputs(t, u),
        forall|i: int| #![trigger u.parameters[i]]
            0 <= i < u.parameters.len() ==> (item_named(
                cx.program.parameters@,
                u.parameters[i].parameter.name@,
            ) matches Some(p) && same_parameter(u.parameters[i].parameter, p)),
    ensures
        tables_based(cx, u),
{
    assert forall|i: int| 0 <= i < u.relations.len() implies #[trigger] relation_based(
        cx,
        u,
        i,
    ) by {
        assert(relation_based(cx, t, i));
        assert(relation_grows(t.relations[i], u.relations[i]));
    }
}

impl<'a> DenseCompiler<'a> {
    pub(crate) open spec fn facts(&self) -> CompileFacts {
        CompileFacts { program: *self.program, root: self.root_entity@ }
    }

    pub(crate) open spec fn tables(&self) -> Tables {
        Tables {
            root_inputs: self.root_inputs@,
            lookups: self.lookups@.map_values(|k: DenseRelationKey| k@),
            relations: self.relations@,
            parameters: self.parameters@,
            derived: self.derived@,
        }
    }

    pub(crate) open spec fn stack(&self) -> Seq<nat> {
        Seq::new(self.visiting@.len(), |k: int| self.visiting@[k] as nat)
    }

    /// The relations and parameters are those that their names stand for, and nothing is
    /// listed twice.
    pub(crate) open spec fn based(&self) -> bool {
        &&& tables_based(self.facts(), self.tables())
        &&& tables_distinct(self.tables())
    }

    /// What is in the tables is compiled, with all that it reads, but for the rules being
    /// compiled.
    pub(crate) open spec fn whole(&self) -> bool {
        &&& self.based()
        &&& tables_shown(self.facts(), self.tables())
        &&& settled(self.facts(), self.tables())
        &&& stacked(self.facts(), self.stack())
        &&& uncompiled(self.facts(), self.tables(), self.stack())
        &&& is_closed(self.facts(), listed(self.tables()))
    }

    fn new(program: &'a Program, root_entity: String) -> (r: DenseCompiler<'a>)
        ensures
            r.whole(),
            r.facts() == (CompileFacts { program: *program, root: root_entity@ }),
            r.root_entity == root_entity,
            r.stack() =~= Seq::empty(),
            listed(r.tables()) =~= Set::empty(),
    {
        let r = DenseCompiler {
            program,
            root_entity,
            root_inputs: Vec::new(),
            relations: Vec::new(),
            lookups: Vec::new(),
            parameters: Vec::new(),
            derived: Vec::new(),
            visiting: Vec::new(),
        };
        proof {
            reveal(tables_distinct);
            assert forall|x: Read| !(#[trigger] listed(r.tables()).contains(x)) by {
                listed_is(r.tables(), x);
            }
        }
        r
    }

    /// How a failed `match` names its rule, subject and arms. A rule is named by its id
    /// where it has one.
    fn match_labels(&self, rule: &str, subject: &ScalarExpr, patterns: &Vec<ScalarExpr>) -> (r:
        MatchLabels)
        ensures
            labels_are(self.facts(), r, rule@, *subject, patterns@),
    {
        let label = match find_named(&self.program.derived, rule) {
            Some(derived) => match &derived.id {
                Some(id) => id.clone(),
                None => owned(rule),
            },
            None => owned(rule),
        };
        MatchLabels {
            rule: label,
            subject: describe_match_operand(subject),
            patterns: describe_match_operands(patterns),
        }
    }

    /// The position of a root input, which is added where it is new.
    fn root_input(&mut self, name: &str) -> (r: usize)
        requires
            old(self).based(),
        ensures
            final(self).based(),
            final(self).facts() == old(self).facts(),
            final(self).stack() == old(self).stack(),
            only_inputs(old(self).tables(), final(self).tables()),
            input_is(final(self).tables().root_inputs, r, name@),
            adds(old(self).tables(), final(self).tables(), one(Read::Input(name@))),
    {
        let ghost t0 = self.tables();
        let mut i: usize = 0;
        while i < self.root_inputs.len()
            invariant
                i <= self.root_inputs@.len(),
                *self == *old(self),
                t0 == self.tables(),
                old(self).based(),
                forall|j: int| 0 <= j < i ==> (#[trigger] self.root_inputs@[j])@ != name@,
            decreases self.root_inputs@.len() - i,
        {
            if same(self.root_inputs[i].as_str(), name) {
                proof {
                    assert(t0.root_inputs[i as int]@ == name@);
                    listed_is(t0, Read::Input(name@));
                    assert(listed(t0) =~= listed(t0) + one(Read::Input(name@)));
                }
                return i;
            }
            i = i + 1;
        }
        let index = self.root_inputs.len();
        self.root_inputs.push(owned(name));
        proof {
            assert(self.tables().lookups =~= t0.lookups);
            based_kept(self.facts(), t0, self.tables());
            input_added(t0, self.tables(), name@);
            assert(self.stack() =~= old(self).stack());
        }
        index
    }

    /// The position of an input of related rows, which is added where it is new.
    fn related_input(&mut self, relation: usize, name: &str) -> (r: usize)
        requires
            old(self).based(),
            relation < old(self).tables().relations.len(),
        ensures
            final(self).based(),
            final(self).facts() == old(self).facts(),
            final(self).stack() == old(self).stack(),
            only_inputs(old(self).tables(), final(self).tables()),
            input_is(
                final(self).tables().relations[relation as int].related_inputs@,
                r,
                name@,
            ),
            adds(
                old(self).tables(),
                final(self).tables(),
                one(Read::Related(old(self).tables().lookups[relation as int], name@)),
            ),
    {
        let ghost t0 = self.tables();
        let mut i: usize = 0;
        while i < self.relations[relation].related_inputs.len()
            invariant
                relation < self.relations@.len(),
                i <= self.relations@[relation as int].related_inputs@.len(),
                *self == *old(self),
                t0 == self.tables(),
                old(self).based(),
                forall|j: int|
                    0 <= j < i ==> (
                    #[trigger] self.relations@[relation as int].related_inputs@[j])@ != name@,
            decreases self.relations@[relation as int].related_inputs@.len() - i,
        {
            if same(self.relations[relation].related_inputs[i].as_str(), name) {
                proof {
                    let x = Read::Related(t0.lookups[relation as int], name@);
                    assert(t0.relations[relation as int].related_inputs@[i as int]@ == name@);
                    assert(holds_text(t0.relations[relation as int].related_inputs@, name@));
                    listed_is(t0, x);
                    assert(listed(t0) =~= listed(t0) + one(x));
                }
                return i;
            }
            i = i + 1;
        }
        let index = self.relations[relation].related_inputs.len();
        let schema = &mut self.relations[relation];
        schema.related_inputs.push(owned(name));
        proof {
            let t1 = self.tables();
            assert(t1.lookups =~= t0.lookups);
            assert forall|j: int| 0 <= j < t0.relations.len() implies #[trigger] relation_grows(
                t0.relations[j],
                t1.relations[j],
            ) by {}
            based_kept(self.facts(), t0, t1);
            related_input_added(t0, t1, relation as int, name@);
            assert(self.stack() =~= old(self).stack());
        }
        index
    }

    /// The position of a parameter, which is added where it is new.
    fn parameter(&mut self, name: &str) -> (r: Result<usize, DenseCompileError>)
        requires
            old(self).based(),
        ensures
            match r {
                Ok(i) => {
                    &&& final(self).based()
                    &&& final(self).facts() == old(self).facts()
                    &&& final(self).stack() == old(self).stack()
                    &&& only_inputs(old(self).tables(), final(self).tables())
                    &&& parameter_is(final(self).tables(), i, name@)
                    &&& adds(
                        old(self).tables(),
                        final(self).tables(),
                        one(Read::Parameter(name@)),
                    )
                    &&& parameter_fault(old(self).facts(), name@) is None
                },
                Err(error) => parameter_fault(old(self).facts(), name@) == Some(error@),
            },
    {
        let ghost t0 = self.tables();
        let mut i: usize = 0;
        while i < self.parameters.len()
            invariant
                i <= self.parameters@.len(),
                *self == *old(self),
                t0 == self.tables(),
                old(self).based(),
                forall|j: int|
                    0 <= j < i ==> (#[trigger] self.parameters@[j]).parameter.name@ != name@,
            decreases self.parameters@.len() - i,
        {
            if same(self.parameters[i].parameter.name.as_str(), name) {
                assert(t0.parameters[i as int].parameter.name@ == name@);
                proof {
                    listed_is(t0, Read::Parameter(name@));
                    assert(listed(t0) =~= listed(t0) + one(Read::Parameter(name@)));
                }
                return Ok(i);
            }
            i = i + 1;
        }
        let program = self.program;
        match find_named(&program.parameters, name) {
            None => {
                let mut message = owned("unknown parameter `");
                message.append(name);
                message.append("`");
                Err(DenseCompileError::Unsupported(message))
            },
            Some(parameter) => {
                let index = self.parameters.len();
                self.parameters.push(CompiledParameter { parameter: copied_parameter(parameter) });
                proof {
                    let t1 = self.tables();
                    assert(t1.lookups =~= t0.lookups);
                    assert forall|j: int| #![trigger t1.parameters[j]]
                        0 <= j < t1.parameters.len() implies (item_named(
                        self.facts().program.parameters@,
                        t1.parameters[j].parameter.name@,
                    ) matches Some(p) && same_parameter(t1.parameters[j].parameter, p)) by {
                        if j < t0.parameters.len() {
                            assert(t1.parameters[j] == t0.parameters[j]);
                        }
                    }
                    based_kept(self.facts(), t0, t1);
                    parameter_added(t0, t1, name@);
                    assert(self.stack() =~= old(self).stack());
                }
                Ok(index)
            },
        }
    }

    /// The position of a relation as formulas name it.
    fn find_lookup(&self, name: &str, current_slot: usize, related_slot: usize) -> (r: Option<
        usize,
    >)
        ensures
            match r {
                Some(i) => i < self.tables().lookups.len() && self.tables().lookups[i as int]
                    == lookup_key(name@, current_slot as nat, related_slot as nat),
                None => !self.tables().lookups.contains(
                    lookup_key(name@, current_slot as nat, related_slot as nat),
                ),
            },
    {
        let ghost wanted = lookup_key(name@, current_slot as nat, related_slot as nat);
        let mut i: usize = 0;
        while i < self.lookups.len()
            invariant
                i <= self.lookups@.len(),
                wanted == lookup_key(name@, current_slot as nat, related_slot as nat),
                forall|j: int| 0 <= j < i ==> #[trigger] self.tables().lookups[j] != wanted,
            decreases self.lookups@.len() - i,
        {
            let key = &self.lookups[i];
            if same(key.name.as_str(), name) && key.current_slot == current_slot
                && key.related_slot == related_slot {
                return Some(i);
            }
            assert(self.tables().lookups[i as int] == self.lookups@[i as int]@);
            i = i + 1;
        }
        None
    }

    /// The derivation of a relation.
    fn derivation(&self, name: &str) -> (r: Option<&'a RelationDerivation>)
        ensures
            self.facts().derivation(name@) == match r {
                Some(d) => Some(*d),
                None => None,
            },
    {
        let program = self.program;
        match find_named(&program.relations, name) {
            Some(relation) => match &relation.derivation {
                Some(d) => Some(d),
                None => None,
            },
            None => None,
        }
    }

    /// How many derived relations a relation is derived over.
    fn chain_length(&self, fuel: usize, name: &str) -> (r: Option<usize>)
        ensures
            chain_within(self.facts(), fuel as nat, name@) == match r {
                Some(k) => Some(k as nat),
                None => None,
            },
            r matches Some(k) ==> k <= fuel,
        decreases fuel,
    {
        match self.derivation(name) {
            None => Some(0),
            Some(d) => {
                if self.derivation(d.source_relation.as_str()).is_none() {
                    Some(0)
                } else if fuel == 0 {
                    None
                } else {
                    match self.chain_length(fuel - 1, d.source_relation.as_str()) {
                        Some(k) => Some(k + 1),
                        None => None,
                    }
                }
            },
        }
    }

    /// The position of a relation, which is compiled where it is new.
    fn relation(&mut self, name: &str, current_slot: usize, related_slot: usize) -> (r: Result<
        usize,
        DenseCompileError,
    >)
        requires
            old(self).whole(),
        ensures
            match r {
                Ok(i) => {
                    &&& final(self).whole()
                    &&& final(self).facts() == old(self).facts()
                    &&& final(self).stack() == old(self).stack()
                    &&& grows(old(self).tables(), final(self).tables())
                    &&& i < final(self).tables().lookups.len()
                    &&& final(self).tables().lookups[i as int] == lookup_key(
                        name@,
                        current_slot as nat,
                        related_slot as nat,
                    )
                    &&& relation_fault(
                        old(self).facts(),
                        lookup_key(name@, current_slot as nat, related_slot as nat),
                    ) is None
                    &&& final(self).tables().derived == old(self).tables().derived
                    &&& adds(
                        old(self).tables(),
                        final(self).tables(),
                        reached(
                            old(self).facts(),
                            one(
                                Read::Relation(
                                    lookup_key(name@, current_slot as nat, related_slot as nat),
                                ),
                            ),
                        ),
                    )
                },
                Err(error) => relation_fault(
                    old(self).facts(),
                    lookup_key(name@, current_slot as nat, related_slot as nat),
                ) == Some(error@),
            },
    {
        let ghost t0 = self.tables();
        let ghost cx = self.facts();
        if let Some(i) = self.find_lookup(name, current_slot, related_slot) {
            assert(relation_filtered(cx, t0, i as int));
            proof {
                listed_once(
                    cx,
                    t0,
                    Read::Relation(lookup_key(name@, current_slot as nat, related_slot as nat)),
                );
            }
            return Ok(i);
        }
        match self.chain_length(self.program.relations.len(), name) {
            None => Err(cyclic_error(name)),
            Some(k) => self.relation_at(k, name, current_slot, related_slot),
        }
    }

    /// Compiles a relation that is derived over `k` derived ones: first its source, then
    /// its own filter.
    fn relation_at(
        &mut self,
        k: usize,
        name: &str,
        current_slot: usize,
        related_slot: usize,
    ) -> (r: Result<usize, DenseCompileError>)
        requires
            old(self).whole(),
            chain(old(self).facts(), name@) == Some(k as nat),
            !old(self).tables().lookups.contains(
                lookup_key(name@, current_slot as nat, related_slot as nat),
            ),
        ensures
            match r {
                Ok(i) => {
                    &&& final(self).whole()
                    &&& final(self).facts() == old(self).facts()
                    &&& final(self).stack() == old(self).stack()
                    &&& grows(old(self).tables(), final(self).tables())
                    &&& i < final(self).tables().lookups.len()
                    &&& final(self).tables().lookups[i as int] == lookup_key(
                        name@,
                        current_slot as nat,
                        related_slot as nat,
                    )
                    &&& relation_fault_at(
                        old(self).facts(),
                        k as nat,
                        lookup_key(name@, current_slot as nat, related_slot as nat),
                    ) is None
                    &&& final(self).tables().derived == old(self).tables().derived
                    &&& forall|j: int|
                        old(self).tables().lookups.len() <= j < final(self).tables().lookups.len()
                            ==> (chain(
                            old(self).facts(),
                            (#[trigger] final(self).tables().lookups[j]).name,
                        ) matches Some(c) && c <= k)
                    &&& adds(
                        old(self).tables(),
                        final(self).tables(),
                        reached(
                            old(self).facts(),
                            one(
                                Read::Relation(
                                    lookup_key(name@, current_slot as nat, related_slot as nat),
                                ),
                            ),
                        ),
                    )
                },
                Err(error) => relation_fault_at(
                    old(self).facts(),
                    k as nat,
                    lookup_key(name@, current_slot as nat, related_slot as nat),
                ) == Some(error@),
            },
        decreases k,
    {
        let ghost t0 = self.tables();
        let ghost cx = self.facts();
        let ghost key = lookup_key(name@, current_slot as nat, related_slot as nat);
        let own_key = DenseRelationKey { name: owned(name), current_slot, related_slot };
        let derivation = match self.derivation(name) {
            Some(d) => d,
            None => {
                let index = self.relations.len();
                self.relations.push(
                    DenseRelationSchema {
                        key: own_key.duplicate(),
                        related_inputs: Vec::new(),
                        current_entity: None,
                        related_entity: None,
                        parent_relation: None,
                        filter: None,
                    },
                );
                self.lookups.push(own_key);
                proof {
                    let t1 = self.tables();
                    assert(t1.lookups =~= t0.lookups.push(key));
                    assert(relation_based(cx, t1, index as int));
                    relation_added(t0, t1, key);
                    reached_step(cx, Read::Relation(key));
                    reveal(brings);
                    reached_none(cx);
                    assert(one(Read::Relation(key)) + Set::<Read>::empty() =~= one(
                        Read::Relation(key),
                    ));
                    reached_is_least(cx, one(Read::Relation(key)));
                    closed_both(cx, listed(t0), reached(cx, one(Read::Relation(key))));
                    self.added(*old(self), t0);
                    assert(relation_filtered(cx, t1, index as int));
                    self.shown_added(*old(self), t0);
                }
                return Ok(index);
            },
        };
        let source = derivation.source_relation.as_str();
        let mut parent: Option<usize> = None;
        if self.derivation(source).is_some() {
            proof {
                chain_step(cx, name@, *derivation);
            }
            let found = self.find_lookup(source, derivation.current_slot, derivation.related_slot);
            let position = match found {
                Some(position) => {
                    proof {
                        assert(relation_filtered(cx, t0, position as int));
                        listed_once(cx, t0, Read::Relation(source_key(*derivation)));
                    }
                    position
                },
                None => match self.relation_at(
                    k - 1,
                    source,
                    derivation.current_slot,
                    derivation.related_slot,
                ) {
                    Ok(position) => position,
                    Err(error) => return Err(error),
                },
            };
            parent = Some(position);
        }
        let ghost before = *self;
        let ghost t1 = self.tables();
        let ghost below: Set<Read> = if parent is Some {
            one(Read::Relation(source_key(*derivation)))
        } else {
            Set::empty()
        };
        proof {
            if parent is None {
                reached_none(cx);
                adds_nothing(t0);
            }
            assert(adds(t0, t1, reached(cx, below)));
            // A relation is not derived over itself.
            if t1.lookups.contains(key) {
                let j = choose|j: int| 0 <= j < t1.lookups.len() && t1.lookups[j] == key;
                if j < t0.lookups.len() {
                    assert(t1.lookups[j] == t0.lookups[j]);
                }
            }
        }
        let base = match parent {
            Some(position) => {
                assert(relation_based(cx, t1, position as int));
                self.relations[position].key.duplicate()
            },
            None => DenseRelationKey {
                name: derivation.source_relation.clone(),
                current_slot: derivation.current_slot,
                related_slot: derivation.related_slot,
            },
        };
        let index = self.relations.len();
        self.relations.push(
            DenseRelationSchema {
                key: base,
                related_inputs: Vec::new(),
                current_entity: slot_entity_text(
                    &derivation.slot_entities,
                    derivation.current_slot,
                ),
                related_entity: slot_entity_text(
                    &derivation.slot_entities,
                    derivation.related_slot,
                ),
                parent_relation: parent,
                filter: None,
            },
        );
        self.lookups.push(own_key);
        let ghost t2 = self.tables();
        proof {
            assert(t2.lookups =~= t1.lookups.push(key));
            assert(relation_based(cx, t2, index as int));
            relation_added(t1, t2, key);
            self.added(before, t1);
        }
        // The filter is compiled once, so that a `match` in it is named by whichever rule
        // evaluates the relation.
        let depth = self.program.derived.len();
        let filter = match self.compile_related_predicate(
            index,
            "",
            depth,
            &derivation.predicate,
        ) {
            Ok(filter) => filter,
            Err(error) => {
                return Err(error);
            },
        };
        let ghost t3 = self.tables();
        let ghost compiled = *self;
        let mut schema = match self.relations.pop() {
            Some(schema) => schema,
            None => return Ok(index),
        };
        let ghost open = schema;
        schema.filter = Some(filter);
        self.relations.push(schema);
        proof {
            let t4 = self.tables();
            assert(t4.lookups =~= t3.lookups);
            reveal_strlit("");
            assert(""@ =~= Seq::<char>::empty());
            assert(t3.relations[index as int] == open);
            assert forall|i: int| 0 <= i < t3.relations.len() implies #[trigger] relation_grows(
                t3.relations[i],
                t4.relations[i],
            ) by {
                if i < index {
                    assert(t4.relations[i] == t3.relations[i]);
                }
            }
            assert(grows(t3, t4));
            grows_on(t1, t2, t3);
            grows_on(t1, t3, t4);
            grows_on(t0, t1, t4);
            assert(tables_based(cx, t4)) by {
                assert forall|i: int| 0 <= i < t4.relations.len() implies #[trigger] relation_based(
                    cx,
                    t4,
                    i,
                ) by {
                    assert(relation_based(cx, t3, i));
                    assert(relation_grows(t3.relations[i], t4.relations[i]));
                }
            }
            shows_related_judgment_grows(
                cx,
                t3,
                t4,
                index as nat,
                Seq::empty(),
                cx.rules(),
                filter,
                derivation.predicate,
            );
            assert(relation_filtered(cx, t4, index as int));
            assert forall|i: int| 0 <= i < t4.relations.len() implies #[trigger] relation_filtered(
                cx,
                t4,
                i,
            ) by {
                if i < index {
                    assert(relation_filtered(cx, t1, i));
                    assert(t4.relations[i] == t3.relations[i]);
                    assert(t2.relations[i] == t1.relations[i]);
                    assert(t3.relations[i].filter == t2.relations[i].filter);
                    filter_kept(cx, t1, t4, i);
                }
            }
            assert forall|i: int| 0 <= i < t4.derived.len() implies #[trigger] rule_shown(
                cx,
                t4,
                i,
            ) by {
                assert(rule_shown(cx, t1, i));
                rule_kept(cx, t1, t4, i);
            }
            assert(tables_shown(cx, t4));
            filters_aside(t3, t4);
            relation_reads_added(cx, t0, t1, t2, t4, key, *derivation, below);
            settled_kept(cx, t1, t4);
            assert(self.stack() =~= before.stack());
            assert(uncompiled(cx, t4, self.stack())) by {
                assert forall|k: int, j: int| #![trigger self.stack()[k], t4.derived[j]]
                    0 <= k < self.stack().len() && 0 <= j
                        < t4.derived.len() implies t4.derived[j].name@ != cx.rule_at(
                    self.stack()[k],
                ).name@ by {
                    assert(t1.derived[j] == t4.derived[j]);
                }
            }
        }
        Ok(index)
    }

    /// A relation that was added at the end leaves the others as they were.
    proof fn added(&self, before: DenseCompiler<'a>, t: Tables)
        requires
            before.tables() == t,
            tables_based(before.facts(), t),
            self.facts() == before.facts(),
            self.tables().root_inputs == t.root_inputs,
            self.tables().parameters == t.parameters,
            self.tables().derived == t.derived,
            self.tables().relations.len() == t.relations.len() + 1,
            self.tables().lookups.len() == t.lookups.len() + 1,
            forall|i: int|
                0 <= i < t.relations.len() ==> #[trigger] self.tables().relations[i]
                    == t.relations[i],
            forall|i: int|
                0 <= i < t.lookups.len() ==> #[trigger] self.tables().lookups[i] == t.lookups[i],
            relation_based(self.facts(), self.tables(), t.relations.len() as int),
            tables_distinct(self.tables()),
        ensures
            self.based(),
            grows(t, self.tables()),
    {
        let cx = self.facts();
        let u = self.tables();
        assert forall|i: int| 0 <= i < t.relations.len() implies #[trigger] relation_grows(
            t.relations[i],
            u.relations[i],
        ) by {
            assert(u.relations[i] == t.relations[i]);
        }
        assert forall|i: int| 0 <= i < u.relations.len() implies #[trigger] relation_based(
            cx,
            u,
            i,
        ) by {
            if i < t.relations.len() {
                assert(relation_based(cx, t, i));
                assert(u.relations[i] == t.relations[i]);
                assert(u.lookups[i] == t.lookups[i]);
                if let Some(parent) = t.relations[i].parent_relation {
                    assert(u.lookups[parent as int] == t.lookups[parent as int]);
                }
            }
        }
    }

    /// A compiled relation that was added at the end leaves the rest compiled.
    proof fn shown_added(&self, before: DenseCompiler<'a>, t: Tables)
        requires
            before.tables() == t,
            before.whole(),
            self.facts() == before.facts(),
            self.visiting == before.visiting,
            self.based(),
            grows(t, self.tables()),
            self.tables().derived == t.derived,
            self.tables().relations.len() == t.relations.len() + 1,
            forall|i: int|
                0 <= i < t.relations.len() ==> #[trigger] self.tables().relations[i]
                    == t.relations[i],
            relation_filtered(self.facts(), self.tables(), t.relations.len() as int),
            is_closed(self.facts(), listed(self.tables())),
        ensures
            self.whole(),
            self.stack() == before.stack(),
    {
        let cx = self.facts();
        let u = self.tables();
        assert forall|i: int| 0 <= i < u.relations.len() implies #[trigger] relation_filtered(
            cx,
            u,
            i,
        ) by {
            if i < t.relations.len() {
                assert(relation_filtered(cx, t, i));
                assert(u.relations[i] == t.relations[i]);
                filter_kept(cx, t, u, i);
            }
        }
        assert forall|i: int| 0 <= i < u.derived.len() implies #[trigger] rule_shown(cx, u, i) by {
            assert(rule_shown(cx, t, i));
            rule_kept(cx, t, u, i);
        }
        settled_kept(cx, t, u);
        assert(self.stack() =~= before.stack());
        assert forall|k: int, j: int| #![trigger self.stack()[k], u.derived[j]]
            0 <= k < self.stack().len() && 0 <= j < u.derived.len() implies u.derived[j].name@
            != cx.rule_at(self.stack()[k]).name@ by {
            assert(t.derived[j] == u.derived[j]);
        }
    }

    /// The position of a compiled rule, which is compiled where it is new.
    fn compile_derived(&mut self, position: usize) -> (r: Result<usize, DenseCompileError>)
        requires
            old(self).whole(),
            position < old(self).facts().rules(),
            old(self).facts().position(old(self).facts().rule_at(position as nat).name@) == Some(
                position as nat,
            ),
        ensures
            match r {
                Ok(i) => {
                    &&& final(self).whole()
                    &&& final(self).facts() == old(self).facts()
                    &&& final(self).stack() == old(self).stack()
                    &&& grows(old(self).tables(), final(self).tables())
                    &&& i < final(self).tables().derived.len()
                    &&& final(self).tables().derived[i as int].name@ == old(self).facts().rule_at(
                        position as nat,
                    ).name@
                    &&& adds(old(self).tables(), final(self).tables(), reached(old(self).facts(), one(Read::Rule(old(self).facts().rule_at(position as nat).name@))))
                    &&& rule_fault(
                        old(self).facts(),
                        old(self).stack(),
                        position as nat,
                    ) is None
                },
                Err(error) => rule_fault(old(self).facts(), old(self).stack(), position as nat)
                    == Some(error@),
            },
        decreases budget(old(self).facts(), old(self).stack()), 0nat, old(self).facts(), 0int,
    {
        let ghost cx = self.facts();
        let ghost t0 = self.tables();
        let ghost stk = self.stack();
        let ghost p = position as nat;
        let program = self.program;
        let derived = &program.derived[position];
        let name = derived.name.as_str();
        if let Some(i) = find_index(&self.derived, name) {
            assert(t0.derived[i as int].name@ == name@);
            assert(rule_fault(cx, stk, cx.position(t0.derived[i as int].name@)->Some_0) is None);
            proof {
                listed_once(cx, t0, Read::Rule(name@));
            }
            return Ok(i);
        }
        proof {
            position_from_meaning(self.derived@, name@, 0);
        }
        let mut k: usize = 0;
        while k < self.visiting.len()
            invariant
                k <= self.visiting@.len(),
                *self == *old(self),
                name@ == cx.rule_at(p).name@,
                cx == self.facts(),
                stk == self.stack(),
                p == position as nat,
                forall|j: int| 0 <= j < k ==> #[trigger] stk[j] != p,
            decreases self.visiting@.len() - k,
        {
            if self.visiting[k] == position {
                assert(stk[k as int] == p);
                assert(stk.contains(p));
                return Err(cyclic_error(name));
            }
            assert(stk[k as int] != p);
            k = k + 1;
        }
        assert(!stk.contains(p));
        proof {
            stack_has_room(cx, stk, p);
        }
        if derived.versions.len() > 1 || (derived.versions.len() == 1
            && derived.versions[0].effective_to.is_some()) {
            let mut message = owned("versioned derived formulas in `");
            message.append(name);
            message.append("`; use generic API execution");
            return Err(DenseCompileError::Unsupported(message));
        }
        if self.is_foreign(derived) {
            return Err(
                DenseCompileError::CrossEntityDependency {
                    derived: owned(name),
                    dependency: owned(name),
                    entity: derived.entity.clone(),
                },
            );
        }
        let (source, effective_from) = if derived.versions.len() == 0 {
            (&derived.semantics, None)
        } else {
            (&derived.versions[0].semantics, Some(derived.versions[0].effective_from))
        };
        assert(compiled_source(*derived) == Some(*source));
        self.visiting.push(position);
        proof {
            assert(self.stack() =~= stk.push(p));
            assert(self.tables() == t0);
            assert(uncompiled(cx, t0, self.stack())) by {
                assert forall|k: int, j: int| #![trigger self.stack()[k], t0.derived[j]]
                    0 <= k < self.stack().len() && 0 <= j
                        < t0.derived.len() implies t0.derived[j].name@ != cx.rule_at(
                    self.stack()[k],
                ).name@ by {
                    if k < stk.len() {
                        assert(self.stack()[k] == stk[k]);
                    } else {
                        assert(t0.derived[j].label_of() != name@);
                    }
                }
            }
        }
        let semantics = match source {
            DerivedSemantics::Scalar(expr) => match self.compile_scalar_expr(name, expr) {
                Ok(c) => CompiledSemantics::Scalar(c),
                Err(error) => return Err(error),
            },
            DerivedSemantics::Judgment(expr) => match self.compile_judgment_expr(name, expr) {
                Ok(c) => CompiledSemantics::Judgment(c),
                Err(error) => return Err(error),
            },
        };
        let ghost t1 = self.tables();
        let ghost inner = self.stack();
        self.visiting.pop();
        let index = self.derived.len();
        let label = match &derived.id {
            Some(id) => id.clone(),
            None => owned(name),
        };
        let compiled = CompiledDerived {
            name: derived.name.clone(),
            label,
            semantics,
            rounding: derived.rounding,
            effective_from,
        };
        proof {
            // The rule itself is not among those compiled meanwhile.
            assert(inner == stk.push(p));
            assert(inner[stk.len() as int] == p);
            assert forall|j: int| 0 <= j < t1.derived.len() implies (
            #[trigger] t1.derived[j]).name@ != name@ by {
                assert(t1.derived[j].name@ != cx.rule_at(inner[stk.len() as int]).name@);
            }
        }
        self.derived.push(compiled);
        proof {
            let t2 = self.tables();
            assert forall|k: int| 0 <= k < stk.len() implies self.stack()[k] == stk[k] by {
                assert(inner[k] == stk.push(p)[k]);
            }
            assert(self.stack() =~= stk);
            assert(t2.lookups =~= t1.lookups);
            assert(t2.derived == t1.derived.push(compiled));
            assert(grows(t1, t2)) by {
                assert forall|i: int| 0 <= i < t1.relations.len() implies #[trigger] relation_grows(
                    t1.relations[i],
                    t2.relations[i],
                ) by {}
            }
            grows_on(t0, t1, t2);
            assert forall|i: int| 0 <= i < t2.relations.len() implies #[trigger] relation_based(
                cx,
                t2,
                i,
            ) by {
                assert(relation_based(cx, t1, i));
            }
            assert forall|i: int| 0 <= i < t2.relations.len() implies #[trigger] relation_filtered(
                cx,
                t2,
                i,
            ) by {
                assert(relation_filtered(cx, t1, i));
                filter_kept(cx, t1, t2, i);
            }
            assert(rule_shown(cx, t2, index as int)) by {
                match (*source, semantics) {
                    (DerivedSemantics::Scalar(e), CompiledSemantics::Scalar(x)) => {
                        shows_scalar_grows(
                            cx,
                            t1,
                            t2,
                            index as nat,
                            index as nat,
                            name@,
                            x,
                            e,
                        );
                    },
                    (DerivedSemantics::Judgment(e), CompiledSemantics::Judgment(x)) => {
                        shows_judgment_grows(
                            cx,
                            t1,
                            t2,
                            index as nat,
                            index as nat,
                            name@,
                            x,
                            e,
                        );
                    },
                    _ => {},
                }
            }
            assert forall|i: int| 0 <= i < t2.derived.len() implies #[trigger] rule_shown(
                cx,
                t2,
                i,
            ) by {
                if i < index {
                    assert(rule_shown(cx, t1, i));
                    rule_kept(cx, t1, t2, i);
                }
            }
            assert(tables_shown(cx, t2));
            assert(uncompiled(cx, t2, stk)) by {
                assert forall|k: int, j: int| #![trigger stk[k], t2.derived[j]]
                    0 <= k < stk.len() && 0 <= j < t2.derived.len() implies t2.derived[j].name@
                    != cx.rule_at(stk[k]).name@ by {
                    if j < index {
                        assert(t2.derived[j] == t1.derived[j]);
                        assert(inner[k] == stk[k]);
                    } else {
                        // Rules on the stack are found by their names.
                        assert(cx.position(cx.rule_at(stk[k]).name@) == Some(stk[k]));
                    }
                }
            }
            settled_added(cx, t1, t2, stk, p, *source, semantics);
            let x = Read::Rule(name@);
            rule_added(t1, t2, name@);
            assert(brings(cx, x) == source_reads(cx, *source)) by {
                reveal(brings);
            }
            reached_step(cx, x);
            reached_is_least(cx, one(x));
            closed_both(cx, listed(t0), reached(cx, one(x)));
            adds_on(t0, t1, t2, reached(cx, brings(cx, x)), one(x));
            assert(reached(cx, brings(cx, x)) + one(x) =~= one(x) + reached(cx, brings(cx, x)));
        }
        Ok(index)
    }

    /// Whether a rule belongs to another entity than the root.
    fn is_foreign(&self, derived: &Derived) -> (r: bool)
        ensures
            r == (derived.entity@ != self.facts().root && derived.entity@ != SCALAR_ENTITY@),
    {
        !same(derived.entity.as_str(), self.root_entity.as_str()) && !same(
            derived.entity.as_str(),
            SCALAR_ENTITY,
        )
    }

    /// A rule that a related formula reads: over the root rows for a rule of the current
    /// rows, else over the related rows.
    fn compile_related_rule(&mut self, relation: usize, depth: usize, name: &str) -> (r: Result<
        CompiledRelatedScalarExpr,
        DenseCompileError,
    >)
        requires
            old(self).based(),
            relation < old(self).tables().relations.len(),
        ensures
            match r {
                Ok(c) => {
                    &&& final(self).based()
                    &&& final(self).facts() == old(self).facts()
                    &&& final(self).stack() == old(self).stack()
                    &&& only_inputs(old(self).tables(), final(self).tables())
                    &&& shows_related_rule(
                        old(self).facts(),
                        final(self).tables(),
                        relation as nat,
                        depth as nat,
                        c,
                        name@,
                    )
                    &&& adds(old(self).tables(), final(self).tables(), related_rule_reads(old(self).facts(), old(self).tables().lookups[relation as int], depth as nat, name@))
                    &&& related_rule_fault(
                        old(self).facts(),
                        info_of(old(self).tables().relations[relation as int]),
                        depth as nat,
                        name@,
                    ) is None
                },
                Err(error) => related_rule_fault(
                    old(self).facts(),
                    info_of(old(self).tables().relations[relation as int]),
                    depth as nat,
                    name@,
                ) == Some(error@),
            },
        decreases depth as nat, 0nat, old(self).facts(), 0int,
    {
        let ghost t0 = self.tables();
        assert(relation_based(self.facts(), t0, relation as int));
        let program = self.program;
        let derived = match find_index(&program.derived, name) {
            Some(position) => &program.derived[position],
            None => {
                let mut message = owned("unknown related scalar dependency `");
                message.append(name);
                message.append("`");
                return Err(DenseCompileError::Unsupported(message));
            },
        };
        let entity = derived.entity.as_str();
        let schema = &self.relations[relation];
        let current = is_text(&schema.current_entity, entity) || same(
            entity,
            self.root_entity.as_str(),
        ) || same(entity, SCALAR_ENTITY);
        if !current && schema.related_entity.is_some() && !is_text(&schema.related_entity, entity) {
            return Err(neither_error("related scalar `", name, entity, schema.key.name.as_str()));
        }
        match &derived.semantics {
            DerivedSemantics::Judgment(_) => {
                let mut message = owned(
                    "related scalar expressions cannot reference judgment derived values (`",
                );
                message.append(name);
                message.append("`)");
                Err(DenseCompileError::Unsupported(message))
            },
            DerivedSemantics::Scalar(expr) => {
                if depth == 0 {
                    return Err(cyclic_error(name));
                }
                if current {
                    match self.compile_current_scalar_expr(name, entity, depth - 1, expr) {
                        Ok(x) => {
                            assert(relation_grows(
                                t0.relations[relation as int],
                                self.tables().relations[relation as int],
                            ));
                            Ok(CompiledRelatedScalarExpr::RootScalar(Box::new(x)))
                        },
                        Err(error) => Err(error),
                    }
                } else {
                    match self.compile_related_scalar(relation, name, depth - 1, expr) {
                        Ok(x) => {
                            assert(relation_grows(
                                t0.relations[relation as int],
                                self.tables().relations[relation as int],
                            ));
                            Ok(x)
                        },
                        Err(error) => Err(error),
                    }
                }
            },
        }
    }

    /// A judgment rule that a related test reads.
    fn compile_related_judgment_rule(&mut self, relation: usize, depth: usize, name: &str) -> (r:
        Result<CompiledRelatedJudgmentExpr, DenseCompileError>)
        requires
            old(self).based(),
            relation < old(self).tables().relations.len(),
        ensures
            match r {
                Ok(c) => {
                    &&& final(self).based()
                    &&& final(self).facts() == old(self).facts()
                    &&& final(self).stack() == old(self).stack()
                    &&& only_inputs(old(self).tables(), final(self).tables())
                    &&& shows_related_judgment_rule(
                        old(self).facts(),
                        final(self).tables(),
                        relation as nat,
                        depth as nat,
                        c,
                        name@,
                    )
                    &&& adds(old(self).tables(), final(self).tables(), related_judgment_rule_reads(old(self).facts(), old(self).tables().lookups[relation as int], depth as nat, name@))
                    &&& related_judgment_rule_fault(
                        old(self).facts(),
                        info_of(old(self).tables().relations[relation as int]),
                        depth as nat,
                        name@,
                    ) is None
                },
                Err(error) => related_judgment_rule_fault(
                    old(self).facts(),
                    info_of(old(self).tables().relations[relation as int]),
                    depth as nat,
                    name@,
                ) == Some(error@),
            },
        decreases depth as nat, 0nat, old(self).facts(), 0int,
    {
        let ghost t0 = self.tables();
        assert(relation_based(self.facts(), t0, relation as int));
        let program = self.program;
        let derived = match find_index(&program.derived, name) {
            Some(position) => &program.derived[position],
            None => {
                let mut message = owned("unknown related judgment dependency `");
                message.append(name);
                message.append("`");
                return Err(DenseCompileError::Unsupported(message));
            },
        };
        let entity = derived.entity.as_str();
        let schema = &self.relations[relation];
        let current = is_text(&schema.current_entity, entity) || same(
            entity,
            self.root_entity.as_str(),
        );
        if !current && schema.related_entity.is_some() && !is_text(&schema.related_entity, entity) {
            return Err(
                neither_error("related predicate `", name, entity, schema.key.name.as_str()),
            );
        }
        match &derived.semantics {
            DerivedSemantics::Scalar(_) => {
                let mut message = owned(
                    "where-clause predicates cannot reference scalar derived values (`",
                );
                message.append(name);
                message.append("`)");
                Err(DenseCompileError::Unsupported(message))
            },
            DerivedSemantics::Judgment(expr) => {
                if depth == 0 {
                    return Err(cyclic_error(name));
                }
                if current {
                    match self.compile_current_judgment_expr(name, entity, depth - 1, expr) {
                        Ok(x) => {
                            assert(relation_grows(
                                t0.relations[relation as int],
                                self.tables().relations[relation as int],
                            ));
                            Ok(CompiledRelatedJudgmentExpr::RootJudgment(Box::new(x)))
                        },
                        Err(error) => Err(error),
                    }
                } else {
                    match self.compile_related_predicate(relation, name, depth - 1, expr) {
                        Ok(x) => {
                            assert(relation_grows(
                                t0.relations[relation as int],
                                self.tables().relations[relation as int],
                            ));
                            Ok(x)
                        },
                        Err(error) => Err(error),
                    }
                }
            },
        }
    }

    /// The position of a rule that a formula put in place reads.
    fn current_rule(&self, rule: &str, entity: &str, prefix: &str, name: &str) -> (r: Result<
        &'a Derived,
        DenseCompileError,
    >)
        ensures
            match r {
                Ok(d) => self.facts().position(name@) matches Some(p) && *d
                    == self.facts().rule_at(p) && !crosses(self.facts(), entity@, *d),
                Err(error) => match self.facts().position(name@) {
                    None => unsupported(
                        prefix@ + name@ + "` referenced from `"@ + rule@ + "`"@,
                    ) == Some(error@),
                    Some(p) => crosses(self.facts(), entity@, self.facts().rule_at(p)) && Some(
                        error@,
                    ) == crate::lowering::crossing(
                        rule@,
                        name@,
                        self.facts().rule_at(p).entity@,
                    ),
                },
            },
    {
        let program = self.program;
        match find_index(&program.derived, name) {
            Some(position) => {
                let derived = &program.derived[position];
                if !same(derived.entity.as_str(), entity) && self.is_foreign(derived) {
                    return Err(
                        DenseCompileError::CrossEntityDependency {
                            derived: owned(rule),
                            dependency: owned(name),
                            entity: derived.entity.clone(),
                        },
                    );
                }
                Ok(derived)
            },
            None => Err(unknown_dependency(prefix, name, rule)),
        }
    }

    /// Two parts of a formula, the first one first.
    fn compile_scalar_pair(
        &mut self,
        derived_name: &str,
        a: &ScalarExpr,
        b: &ScalarExpr,
        Ghost(whole): Ghost<ScalarExpr>,
    ) -> (r: Result<(CompiledScalarExpr, CompiledScalarExpr), DenseCompileError>)
        requires
            old(self).whole(),
            decreases_to!(whole => *a),
            decreases_to!(whole => *b),
        ensures
            match r {
                Ok((x, y)) => {
                    &&& final(self).whole()
                    &&& final(self).facts() == old(self).facts()
                    &&& final(self).stack() == old(self).stack()
                    &&& grows(old(self).tables(), final(self).tables())
                    &&& shows_scalar(old(self).facts(), final(self).tables(), final(self).tables().derived.len(), derived_name@, x, *a)
                    &&& shows_scalar(old(self).facts(), final(self).tables(), final(self).tables().derived.len(), derived_name@, y, *b)
                    &&& adds(old(self).tables(), final(self).tables(), reached(old(self).facts(), scalar_reads(old(self).facts(), *a) + scalar_reads(old(self).facts(), *b)))
                    &&& scalar_fault(old(self).facts(), old(self).stack(), derived_name@, *a) is None
                    &&& scalar_fault(old(self).facts(), old(self).stack(), derived_name@, *b) is None
                },
                Err(error) => earlier(scalar_fault(old(self).facts(), old(self).stack(), derived_name@, *a), scalar_fault(old(self).facts(), old(self).stack(), derived_name@, *b)) == Some(error@),
            },
        decreases budget(old(self).facts(), old(self).stack()), 1nat, whole, 0int,
    {
        let ghost t0 = self.tables();
        let x = match self.compile_scalar_expr(derived_name, a) {
            Ok(x) => x,
            Err(error) => return Err(error),
        };
        let ghost t1 = self.tables();
        
        let y = match self.compile_scalar_expr(derived_name, b) {
            Ok(y) => y,
            Err(error) => return Err(error),
        };
        proof {
            let cx = self.facts();
            shows_scalar_grows(cx, t1, self.tables(), t1.derived.len(), self.tables().derived.len(), derived_name@, x, *a);
            grows_on(t0, t1, self.tables());
            adds_reached(cx, t0, t1, self.tables(), scalar_reads(cx, *a), scalar_reads(cx, *b));
        }
        Ok((x, y))
    }

    fn compile_scalar_items(
        &mut self,
        derived_name: &str,
        items: &Vec<ScalarExpr>,
    ) -> (r: Result<Vec<CompiledScalarExpr>, DenseCompileError>)
        requires
            old(self).whole(),
        ensures
            match r {
                Ok(list) => {
                    &&& final(self).whole()
                    &&& final(self).facts() == old(self).facts()
                    &&& final(self).stack() == old(self).stack()
                    &&& grows(old(self).tables(), final(self).tables())
                    &&& list@.len() == items@.len()
                    &&& shows_scalars(old(self).facts(), final(self).tables(), final(self).tables().derived.len(), derived_name@, list@, items@, items@.len())
                    &&& adds(old(self).tables(), final(self).tables(), reached(old(self).facts(), scalars_reads(old(self).facts(), items@, items@.len())))
                    &&& scalars_fault(old(self).facts(), old(self).stack(), derived_name@, items@, items@.len()) is None
                },
                Err(error) => scalars_fault(old(self).facts(), old(self).stack(), derived_name@, items@, items@.len()) == Some(error@),
            },
        decreases budget(old(self).facts(), old(self).stack()), 1nat, items@, 0int,
    {
        let ghost t0 = self.tables();
        let ghost cx = self.facts();
        let ghost stk = self.stack();
        let mut list: Vec<CompiledScalarExpr> = Vec::new();
        let mut i: usize = 0;
        proof {
            grows_self(t0);
            adds_nothing(t0);
            reached_none(cx);
        }
        while i < items.len()
            invariant
                i <= items@.len(),
                list@.len() == i,
                cx == old(self).facts(),
                t0 == old(self).tables(),
                self.whole(),
                self.facts() == cx,
                self.stack() == stk,
                stk == old(self).stack(),
                grows(t0, self.tables()),
                adds(t0, self.tables(), reached(cx, scalars_reads(cx, items@, i as nat))),
                shows_scalars(cx, self.tables(), self.tables().derived.len(), derived_name@, list@, items@, i as nat),
                scalars_fault(cx, stk, derived_name@, items@, i as nat) is None,
            decreases items@.len() - i,
        {
            let ghost t1 = self.tables();
        
            let ghost before = list@;
            let c = match self.compile_scalar_expr(derived_name, &items[i]) {
                Ok(c) => c,
                Err(error) => {
                    proof {
                        scalars_fault_kept(cx, stk, derived_name@, items@, (i + 1) as nat, items@.len());
                    }
                    return Err(error);
                },
            };
            list.push(c);
            proof {
                shows_scalars_grows(cx, t1, self.tables(), t1.derived.len(), self.tables().derived.len(), derived_name@, before, items@, i as nat);
                shows_scalars_same(cx, self.tables(), self.tables().derived.len(), derived_name@, before, list@, items@, i as nat);
                grows_on(t0, t1, self.tables());
                adds_reached(cx, t0, t1, self.tables(), scalars_reads(cx, items@, i as nat), scalar_reads(cx, items@[i as int]));
            }
            i = i + 1;
        }
        Ok(list)
    }

    fn compile_judgment_items(
        &mut self,
        derived_name: &str,
        items: &Vec<JudgmentExpr>,
    ) -> (r: Result<Vec<CompiledJudgmentExpr>, DenseCompileError>)
        requires
            old(self).whole(),
        ensures
            match r {
                Ok(list) => {
                    &&& final(self).whole()
                    &&& final(self).facts() == old(self).facts()
                    &&& final(self).stack() == old(self).stack()
                    &&& grows(old(self).tables(), final(self).tables())
                    &&& list@.len() == items@.len()
                    &&& shows_judgments(old(self).facts(), final(self).tables(), final(self).tables().derived.len(), derived_name@, list@, items@, items@.len())
                    &&& adds(old(self).tables(), final(self).tables(), reached(old(self).facts(), judgments_reads(old(self).facts(), items@, items@.len())))
                    &&& judgments_fault(old(self).facts(), old(self).stack(), derived_name@, items@, items@.len()) is None
                },
                Err(error) => judgments_fault(old(self).facts(), old(self).stack(), derived_name@, items@, items@.len()) == Some(error@),
            },
        decreases budget(old(self).facts(), old(self).stack()), 1nat, items@, 0int,
    {
        let ghost t0 = self.tables();
        let ghost cx = self.facts();
        let ghost stk = self.stack();
        let mut list: Vec<CompiledJudgmentExpr> = Vec::new();
        let mut i: usize = 0;
        proof {
            grows_self(t0);
            adds_nothing(t0);
            reached_none(cx);
        }
        while i < items.len()
            invariant
                i <= items@.len(),
                list@.len() == i,
                cx == old(self).facts(),
                t0 == old(self).tables(),
                self.whole(),
                self.facts() == cx,
                self.stack() == stk,
                stk == old(self).stack(),
                grows(t0, self.tables()),
                adds(t0, self.tables(), reached(cx, judgments_reads(cx, items@, i as nat))),
                shows_judgments(cx, self.tables(), self.tables().derived.len(), derived_name@, list@, items@, i as nat),
                judgments_fault(cx, stk, derived_name@, items@, i as nat) is None,
            decreases items@.len() - i,
        {
            let ghost t1 = self.tables();
        
            let ghost before = list@;
            let c = match self.compile_judgment_expr(derived_name, &items[i]) {
                Ok(c) => c,
                Err(error) => {
                    proof {
                        judgments_fault_kept(cx, stk, derived_name@, items@, (i + 1) as nat, items@.len());
                    }
                    return Err(error);
                },
            };
            list.push(c);
            proof {
                shows_judgments_grows(cx, t1, self.tables(), t1.derived.len(), self.tables().derived.len(), derived_name@, before, items@, i as nat);
                shows_judgments_same(cx, self.tables(), self.tables().derived.len(), derived_name@, before, list@, items@, i as nat);
                grows_on(t0, t1, self.tables());
                adds_reached(cx, t0, t1, self.tables(), judgments_reads(cx, items@, i as nat), judgment_reads(cx, items@[i as int]));
            }
            i = i + 1;
        }
        Ok(list)
    }

    /// An `if`; a `match` fallback in its `else` branch takes the dtype of the branch
    /// before it.
    fn compile_choice(
        &mut self,
        derived_name: &str,
        condition: &JudgmentExpr,
        then_expr: &ScalarExpr,
        else_expr: &ScalarExpr,
        Ghost(whole): Ghost<ScalarExpr>,
    ) -> (r: Result<CompiledScalarExpr, DenseCompileError>)
        requires
            old(self).whole(),
            whole matches ScalarExpr::If { condition: q, then_expr: x, else_expr: y } && *q
                == *condition && *x == *then_expr && *y == *else_expr,
        ensures
            match r {
                Ok(c) => {
                    &&& final(self).whole()
                    &&& final(self).facts() == old(self).facts()
                    &&& final(self).stack() == old(self).stack()
                    &&& grows(old(self).tables(), final(self).tables())
                    &&& shows_scalar(old(self).facts(), final(self).tables(), final(self).tables().derived.len(), derived_name@, c, whole)
                    &&& adds(old(self).tables(), final(self).tables(), reached(old(self).facts(), scalar_reads(old(self).facts(), whole)))
                    &&& scalar_fault(old(self).facts(), old(self).stack(), derived_name@, whole) is None
                },
                Err(error) => scalar_fault(old(self).facts(), old(self).stack(), derived_name@, whole) == Some(error@),
            },
        decreases budget(old(self).facts(), old(self).stack()), 1nat, whole, 0int,
    {
        let ghost t0 = self.tables();
        let q = match self.compile_judgment_expr(derived_name, condition) {
            Ok(q) => q,
            Err(error) => return Err(error),
        };
        let ghost t1 = self.tables();
        
        let x = match self.compile_scalar_expr(derived_name, then_expr) {
            Ok(x) => x,
            Err(error) => return Err(error),
        };
        let ghost t2 = self.tables();
        proof {
            let cx = self.facts();
            
            shows_judgment_grows(cx, t1, t2, t1.derived.len(), t2.derived.len(), derived_name@, q, *condition);
        }
        match else_expr {
            ScalarExpr::NoMatch { subject, patterns } => {
                let s = match self.compile_scalar_expr(derived_name, subject) {
                    Ok(s) => s,
                    Err(error) => return Err(error),
                };
                let ghost t3 = self.tables();
                let placeholder = match self.compile_scalar_expr(derived_name, then_expr) {
                    Ok(placeholder) => placeholder,
                    Err(error) => return Err(error),
                };
                let labels = self.match_labels(derived_name, subject, patterns);
                let ghost t4 = self.tables();
                let y = CompiledScalarExpr::NoMatch {
                    subject: Box::new(s),
                    placeholder: Box::new(placeholder),
                    labels,
                };
                proof {
                    let cx = self.facts();
                    grows_on(t2, t3, t4);
                    let (q_reads, x_reads, s_reads) = (judgment_reads(cx, *condition), scalar_reads(cx, *then_expr), scalar_reads(cx, **subject));
                    adds_reached(cx, t0, t1, t2, q_reads, x_reads);
                    adds_reached(cx, t2, t3, t4, s_reads, x_reads);
                    adds_reached(cx, t0, t2, t4, q_reads + x_reads, s_reads + x_reads);
                    assert(q_reads + x_reads + (s_reads + x_reads) =~= q_reads + x_reads + s_reads);
                    shows_judgment_grows(cx, t2, t4, t2.derived.len(), t4.derived.len(), derived_name@, q, *condition);
                    shows_scalar_grows(cx, t2, t4, t2.derived.len(), t4.derived.len(), derived_name@, x, *then_expr);
                    shows_scalar_grows(cx, t3, t4, t3.derived.len(), t4.derived.len(), derived_name@, s, **subject);
                    grows_on(t0, t1, t2);grows_on(t0, t2, t4);
                }
                Ok(
                    CompiledScalarExpr::If {
                        condition: Box::new(q),
                        then_expr: Box::new(x),
                        else_expr: Box::new(y),
                    },
                )
            },
            _ => {
                let y = match self.compile_scalar_expr(derived_name, else_expr) {
                    Ok(y) => y,
                    Err(error) => return Err(error),
                };
                let ghost t4 = self.tables();
                proof {
                    let cx = self.facts();
                    adds_reached(cx, t0, t1, t2, judgment_reads(cx, *condition), scalar_reads(cx, *then_expr));
                    adds_reached(cx, t0, t2, t4, judgment_reads(cx, *condition) + scalar_reads(cx, *then_expr), scalar_reads(cx, *else_expr));
                    shows_judgment_grows(cx, t2, t4, t2.derived.len(), t4.derived.len(), derived_name@, q, *condition);
                    shows_scalar_grows(cx, t2, t4, t2.derived.len(), t4.derived.len(), derived_name@, x, *then_expr);
                    grows_on(t0, t1, t2);grows_on(t0, t2, t4);
                }
                Ok(
                    CompiledScalarExpr::If {
                        condition: Box::new(q),
                        then_expr: Box::new(x),
                        else_expr: Box::new(y),
                    },
                )
            },
        }
    }

    /// A formula over the root rows.
    fn compile_scalar_expr(
        &mut self,
        derived_name: &str,
        expr: &ScalarExpr,
    ) -> (r: Result<CompiledScalarExpr, DenseCompileError>)
        requires
            old(self).whole(),
        ensures
            match r {
                Ok(c) => {
                    &&& final(self).whole()
                    &&& final(self).facts() == old(self).facts()
                    &&& final(self).stack() == old(self).stack()
                    &&& grows(old(self).tables(), final(self).tables())
                    &&& shows_scalar(old(self).facts(), final(self).tables(), final(self).tables().derived.len(), derived_name@, c, *expr)
                    &&& adds(old(self).tables(), final(self).tables(), reached(old(self).facts(), scalar_reads(old(self).facts(), *expr)))
                    &&& scalar_fault(old(self).facts(), old(self).stack(), derived_name@, *expr) is None
                },
                Err(error) => scalar_fault(old(self).facts(), old(self).stack(), derived_name@, *expr) == Some(error@),
            },
        decreases budget(old(self).facts(), old(self).stack()), 1nat, *expr, 1int,
    {
        let ghost t0 = self.tables();
        let ghost cx = self.facts();
        proof {
            grows_self(t0);
            adds_nothing(t0);
            reached_none(cx);
        }
        match expr {
            ScalarExpr::Literal(value) => Ok(CompiledScalarExpr::Literal(value.duplicate())),
            ScalarExpr::Input(name) => Ok(CompiledScalarExpr::Input({
                let input = self.root_input(name.as_str());
                proof {
                    reached_leaf(cx, Read::Input(name@));
                    inputs_kept(cx, t0, self.tables(), self.stack());
                }
                input
            })),
            ScalarExpr::InputOrElse { name, default } => {
                let input = {
                let input = self.root_input(name.as_str());
                proof {
                    reached_leaf(cx, Read::Input(name@));
                    inputs_kept(cx, t0, self.tables(), self.stack());
                }
                input
            };
                Ok(CompiledScalarExpr::InputOrElse { input, default: default.duplicate() })
            },
            ScalarExpr::ParameterLookup { parameter, index } => {
                let position = match self.parameter(parameter.as_str()) {
                    Ok(position) => position,
                    Err(error) => return Err(error),
                };
                proof {
                    reached_leaf(cx, Read::Parameter(parameter@));
                    inputs_kept(cx, t0, self.tables(), self.stack());
                }
                let ghost t1 = self.tables();
        
                match self.compile_scalar_expr(derived_name, index) {
                    Ok(key) => {
                        proof {
                            grows_on(t0, t1, self.tables());
                            adds_reached(cx, t0, t1, self.tables(), one(Read::Parameter(parameter@)), scalar_reads(cx, **index));
                        }
                        Ok(CompiledScalarExpr::ParameterLookup { parameter: position, index: Box::new(key) })
                    },
                    Err(error) => Err(error),
                }
            },
            ScalarExpr::Add(items) => match self.compile_scalar_items(derived_name, items) {
                Ok(list) => Ok(CompiledScalarExpr::Add(list)),
                Err(error) => Err(error),
            },
            ScalarExpr::Max(items) => match self.compile_scalar_items(derived_name, items) {
                Ok(list) => Ok(CompiledScalarExpr::Max(list)),
                Err(error) => Err(error),
            },
            ScalarExpr::Min(items) => match self.compile_scalar_items(derived_name, items) {
                Ok(list) => Ok(CompiledScalarExpr::Min(list)),
                Err(error) => Err(error),
            },
            ScalarExpr::Sub(left, right) => match self.compile_scalar_pair(derived_name, left, right, Ghost(*expr)) {
                Ok((x, y)) => Ok(CompiledScalarExpr::Sub(Box::new(x), Box::new(y))),
                Err(error) => Err(error),
            },
            ScalarExpr::Mul(left, right) => match self.compile_scalar_pair(derived_name, left, right, Ghost(*expr)) {
                Ok((x, y)) => Ok(CompiledScalarExpr::Mul(Box::new(x), Box::new(y))),
                Err(error) => Err(error),
            },
            ScalarExpr::Div(left, right) => match self.compile_scalar_pair(derived_name, left, right, Ghost(*expr)) {
                Ok((x, y)) => Ok(CompiledScalarExpr::Div(Box::new(x), Box::new(y))),
                Err(error) => Err(error),
            },
            ScalarExpr::Ceil(value) => match self.compile_scalar_expr(derived_name, value) {
                Ok(x) => Ok(CompiledScalarExpr::Ceil(Box::new(x))),
                Err(error) => Err(error),
            },
            ScalarExpr::Floor(value) => match self.compile_scalar_expr(derived_name, value) {
                Ok(x) => Ok(CompiledScalarExpr::Floor(Box::new(x))),
                Err(error) => Err(error),
            },
            ScalarExpr::PeriodStart => Ok(CompiledScalarExpr::PeriodStart),
            ScalarExpr::PeriodEnd => Ok(CompiledScalarExpr::PeriodEnd),
            ScalarExpr::DateAddDays { date, days } => match self.compile_scalar_pair(
                derived_name, date,
                days,
                Ghost(*expr),
            ) {
                Ok((x, y)) => Ok(
                    CompiledScalarExpr::DateShift {
                        unit: ShiftUnit::Days,
                        date: Box::new(x),
                        count: Box::new(y),
                    },
                ),
                Err(error) => Err(error),
            },
            ScalarExpr::DateAddMonths { date, months } => match self.compile_scalar_pair(
                derived_name, date,
                months,
                Ghost(*expr),
            ) {
                Ok((x, y)) => Ok(
                    CompiledScalarExpr::DateShift {
                        unit: ShiftUnit::Months,
                        date: Box::new(x),
                        count: Box::new(y),
                    },
                ),
                Err(error) => Err(error),
            },
            ScalarExpr::DateAddYears { date, years } => match self.compile_scalar_pair(
                derived_name, date,
                years,
                Ghost(*expr),
            ) {
                Ok((x, y)) => Ok(
                    CompiledScalarExpr::DateShift {
                        unit: ShiftUnit::Years,
                        date: Box::new(x),
                        count: Box::new(y),
                    },
                ),
                Err(error) => Err(error),
            },
            ScalarExpr::DaysBetween { from, to } => match self.compile_scalar_pair(
                derived_name, from,
                to,
                Ghost(*expr),
            ) {
                Ok((x, y)) => Ok(CompiledScalarExpr::DaysBetween { from: Box::new(x), to: Box::new(y) }),
                Err(error) => Err(error),
            },
            ScalarExpr::If { condition, then_expr, else_expr } => self.compile_choice(
                derived_name, condition,
                then_expr,
                else_expr,
                Ghost(*expr),
            ),
            ScalarExpr::NoMatch { .. } => Err(
                DenseCompileError::Unsupported(
                    owned(
                        "a `match` fallback (`no_match`) that is not the `else` branch of an `if`",
                    ),
                ),
            ),
            ScalarExpr::Derived(name) => {
                let program = self.program;
                let position = match find_index(&program.derived, name.as_str()) {
                    Some(position) => position,
                    None => return Err(
                        unknown_dependency("unknown scalar dependency `", name.as_str(), derived_name),
                    ),
                };
                let dependency = &program.derived[position];
                if self.is_foreign(dependency) {
                    return Err(
                        DenseCompileError::CrossEntityDependency {
                            derived: owned(derived_name),
                            dependency: name.clone(),
                            entity: dependency.entity.clone(),
                        },
                    );
                }
                match self.compile_derived(position) {
                    Ok(i) => Ok(CompiledScalarExpr::Derived(i)),
                    Err(error) => Err(error),
                }
            },
            ScalarExpr::CountRelated { relation, current_slot, related_slot, where_clause } => {
                let index = match self.relation(relation.as_str(), *current_slot, *related_slot) {
                    Ok(index) => index,
                    Err(error) => return Err(error),
                };
                let ghost t1 = self.tables();
        
                assert(relation_based(cx, t1, index as int));
                let ghost key = lookup_key(relation@, *current_slot as nat, *related_slot as nat);
                match where_clause {
                    None => {
                        assert(one(Read::Relation(key)) + Set::<Read>::empty() =~= one(
                            Read::Relation(key),
                        ));
                        Ok(CompiledScalarExpr::CountRelated { relation: index, predicate: None })
                    },
                    Some(w) => {
                        let depth = self.program.derived.len();
                        match self.compile_related_predicate(index, derived_name, depth, w) {
                            Ok(q) => {
                                proof {
                                    inputs_kept(cx, t1, self.tables(), self.stack());
                                    grows_on(t0, t1, self.tables());
                                    aggregate_added(
                                        cx,
                                        t0,
                                        t1,
                                        self.tables(),
                                        key,
                                        related_judgment_reads(cx, key, cx.rules(), **w),
                                    );
                                }
                                Ok(
                                    CompiledScalarExpr::CountRelated {
                                        relation: index,
                                        predicate: Some(Box::new(q)),
                                    },
                                )
                            },
                            Err(error) => Err(error),
                        }
                    },
                }
            },
            ScalarExpr::SumRelated { relation, current_slot, related_slot, value, where_clause } => {
                let index = match self.relation(relation.as_str(), *current_slot, *related_slot) {
                    Ok(index) => index,
                    Err(error) => return Err(error),
                };
                let ghost t1 = self.tables();
        
                assert(relation_based(cx, t1, index as int));
                let ghost key = lookup_key(relation@, *current_slot as nat, *related_slot as nat);
                let depth = self.program.derived.len();
                let v = match value {
                    RelatedValueRef::Input(name) => CompiledRelatedScalarExpr::Input(
                        self.related_input(index, name.as_str()),
                    ),
                    RelatedValueRef::Derived(name) => match self.compile_related_rule(
                        index,
                        depth,
                        name.as_str(),
                    ) {
                        Ok(v) => v,
                        Err(error) => return Err(error),
                    },
                };
                let ghost t2 = self.tables();
                proof {
                    inputs_kept(cx, t1, t2, self.stack());
                    grows_on(t0, t1, t2);
                    aggregate_added(cx, t0, t1, t2, key, value_reads(cx, key, *value));
                    let own = one(Read::Relation(key)) + value_reads(cx, key, *value);
                    assert(own + Set::<Read>::empty() =~= own);
                    assert(relation_grows(t1.relations[index as int], t2.relations[index as int]));
                }
                match where_clause {
                    None => Ok(
                        CompiledScalarExpr::SumRelated {
                            relation: index,
                            value: Box::new(v),
                            predicate: None,
                        },
                    ),
                    Some(w) => match self.compile_related_predicate(
                        index,
                        derived_name,
                        depth,
                        w,
                    ) {
                        Ok(q) => {
                            proof {
                                let t3 = self.tables();
                                inputs_kept(cx, t2, t3, self.stack());
                                grows_on(t0, t2, t3);
                                let test = related_judgment_reads(cx, key, cx.rules(), **w);
                                let own = one(Read::Relation(key)) + value_reads(cx, key, *value);
                                adds_on(t1, t2, t3, value_reads(cx, key, *value), test);
                                aggregate_added(
                                    cx,
                                    t0,
                                    t1,
                                    t3,
                                    key,
                                    value_reads(cx, key, *value) + test,
                                );
                                assert(own + test =~= one(Read::Relation(key)) + (value_reads(
                                    cx,
                                    key,
                                    *value,
                                ) + test));
                                assert(relation_grows(
                                    t2.relations[index as int],
                                    t3.relations[index as int],
                                ));
                                if let RelatedValueRef::Derived(name) = value {
                                    shows_related_rule_grows(
                                        cx,
                                        t2,
                                        t3,
                                        index as nat,
                                        depth as nat,
                                        v,
                                        name@,
                                    );
                                }
                            }
                            Ok(
                                CompiledScalarExpr::SumRelated {
                                    relation: index,
                                    value: Box::new(v),
                                    predicate: Some(Box::new(q)),
                                },
                            )
                        },
                        Err(error) => Err(error),
                    },
                }
            },
            ScalarExpr::OverPeriods { kind, value, n } => {
                let v = match self.compile_scalar_expr(derived_name, value) {
                    Ok(v) => v,
                    Err(error) => return Err(error),
                };
                let ghost t1 = self.tables();
        
                let m = match n {
                    None => None,
                    Some(n) => match self.compile_scalar_expr(derived_name, n) {
                        Ok(m) => Some(Box::new(m)),
                        Err(error) => return Err(error),
                    },
                };
                proof {
                    let t2 = self.tables();
                    grows_self(t1);
                    if let Some(n) = n {
                        grows_on(t0, t1, t2);
                        adds_reached(cx, t0, t1, t2, scalar_reads(cx, **value), scalar_reads(cx, **n));
                    } else {
                        assert(scalar_reads(cx, **value) + Set::<Read>::empty() =~= scalar_reads(
                            cx,
                            **value,
                        ));
                    }
                    shows_scalar_grows(
                        cx,
                        t1,
                        t2,
                        t1.derived.len(),
                        t2.derived.len(),
                        derived_name@,
                        v,
                        **value,
                    );
                    shows_scalar_nested(cx, t2, t2.derived.len(), derived_name@, v, **value);
                    if m is Some {
                        shows_scalar_nested(
                            cx,
                            t2,
                            t2.derived.len(),
                            derived_name@,
                            *(m->Some_0),
                            *(n->Some_0),
                        );
                    }
                }
                let mut inner = nested_over_periods_kind(&v);
                if inner.is_none() {
                    if let Some(m) = &m {
                        inner = nested_over_periods_kind(m);
                    }
                }
                if let Some(inner) = inner {
                    return Err(
                        DenseCompileError::NestedOverPeriods {
                            outer: kind.as_call_name(),
                            inner: inner.as_call_name(),
                        },
                    );
                }
                Ok(CompiledScalarExpr::OverPeriods { kind: *kind, value: Box::new(v), n: m })
            },
        }
    }

    /// A judgment over the root rows.
    fn compile_judgment_expr(
        &mut self,
        derived_name: &str,
        expr: &JudgmentExpr,
    ) -> (r: Result<CompiledJudgmentExpr, DenseCompileError>)
        requires
            old(self).whole(),
        ensures
            match r {
                Ok(c) => {
                    &&& final(self).whole()
                    &&& final(self).facts() == old(self).facts()
                    &&& final(self).stack() == old(self).stack()
                    &&& grows(old(self).tables(), final(self).tables())
                    &&& shows_judgment(old(self).facts(), final(self).tables(), final(self).tables().derived.len(), derived_name@, c, *expr)
                    &&& adds(old(self).tables(), final(self).tables(), reached(old(self).facts(), judgment_reads(old(self).facts(), *expr)))
                    &&& judgment_fault(old(self).facts(), old(self).stack(), derived_name@, *expr) is None
                },
                Err(error) => judgment_fault(old(self).facts(), old(self).stack(), derived_name@, *expr) == Some(error@),
            },
        decreases budget(old(self).facts(), old(self).stack()), 1nat, *expr, 1int,
    {
        let ghost t0 = self.tables();
        let ghost cx = self.facts();
        proof {
            grows_self(t0);
            adds_nothing(t0);
            reached_none(cx);
        }
        match expr {
            JudgmentExpr::Comparison { left, op, right } => {
                let x = match self.compile_scalar_expr(derived_name, left) {
                    Ok(x) => x,
                    Err(error) => return Err(error),
                };
                let ghost t1 = self.tables();
        
                let y = match self.compile_scalar_expr(derived_name, right) {
                    Ok(y) => y,
                    Err(error) => return Err(error),
                };
                proof {
                    shows_scalar_grows(cx, t1, self.tables(), t1.derived.len(), self.tables().derived.len(), derived_name@, x, *left);
                    grows_on(t0, t1, self.tables());
                    adds_reached(cx, t0, t1, self.tables(), scalar_reads(cx, *left), scalar_reads(cx, *right));
                }
                Ok(CompiledJudgmentExpr::Comparison { left: x, op: *op, right: y })
            },
            JudgmentExpr::And(items) => match self.compile_judgment_items(derived_name, items) {
                Ok(list) => Ok(CompiledJudgmentExpr::And(list)),
                Err(error) => Err(error),
            },
            JudgmentExpr::Or(items) => match self.compile_judgment_items(derived_name, items) {
                Ok(list) => Ok(CompiledJudgmentExpr::Or(list)),
                Err(error) => Err(error),
            },
            JudgmentExpr::Not(item) => match self.compile_judgment_expr(derived_name, item) {
                Ok(x) => Ok(CompiledJudgmentExpr::Not(Box::new(x))),
                Err(error) => Err(error),
            },
            JudgmentExpr::Derived(name) => {
                let program = self.program;
                let position = match find_index(&program.derived, name.as_str()) {
                    Some(position) => position,
                    None => return Err(
                        unknown_dependency("unknown judgment dependency `", name.as_str(), derived_name),
                    ),
                };
                let dependency = &program.derived[position];
                if self.is_foreign(dependency) {
                    return Err(
                        DenseCompileError::CrossEntityDependency {
                            derived: owned(derived_name),
                            dependency: name.clone(),
                            entity: dependency.entity.clone(),
                        },
                    );
                }
                match self.compile_derived(position) {
                    Ok(i) => Ok(CompiledJudgmentExpr::Derived(i)),
                    Err(error) => Err(error),
                }
            },
            JudgmentExpr::RelationMember { relation, .. } => {
                let mut message = owned("relation predicate `");
                message.append(relation.as_str());
                message.append("`");
                Err(DenseCompileError::Unsupported(message))
            },
        }
    }

    /// Two parts of a formula, the first one first.
    fn compile_related_pair(
        &mut self,
        relation: usize,
        rule: &str,
        depth: usize,
        a: &ScalarExpr,
        b: &ScalarExpr,
        Ghost(whole): Ghost<ScalarExpr>,
    ) -> (r: Result<(CompiledRelatedScalarExpr, CompiledRelatedScalarExpr), DenseCompileError>)
        requires
            old(self).based(),
            relation < old(self).tables().relations.len(),
            decreases_to!(whole => *a),
            decreases_to!(whole => *b),
        ensures
            match r {
                Ok((x, y)) => {
                    &&& final(self).based()
                    &&& final(self).facts() == old(self).facts()
                    &&& final(self).stack() == old(self).stack()
                    &&& only_inputs(old(self).tables(), final(self).tables())
                    &&& shows_related(old(self).facts(), final(self).tables(), relation as nat, rule@, depth as nat, x, *a)
                    &&& shows_related(old(self).facts(), final(self).tables(), relation as nat, rule@, depth as nat, y, *b)
                    &&& adds(old(self).tables(), final(self).tables(), related_reads(old(self).facts(), old(self).tables().lookups[relation as int], depth as nat, *a) + related_reads(old(self).facts(), old(self).tables().lookups[relation as int], depth as nat, *b))
                    &&& related_fault(old(self).facts(), info_of(old(self).tables().relations[relation as int]), depth as nat, *a) is None
                    &&& related_fault(old(self).facts(), info_of(old(self).tables().relations[relation as int]), depth as nat, *b) is None
                },
                Err(error) => earlier(related_fault(old(self).facts(), info_of(old(self).tables().relations[relation as int]), depth as nat, *a), related_fault(old(self).facts(), info_of(old(self).tables().relations[relation as int]), depth as nat, *b)) == Some(error@),
            },
        decreases depth as nat, 1nat, whole, 0int,
    {
        let ghost t0 = self.tables();
        let x = match self.compile_related_scalar(relation, rule, depth, a) {
            Ok(x) => x,
            Err(error) => return Err(error),
        };
        let ghost t1 = self.tables();
        assert(relation_grows(t0.relations[relation as int], t1.relations[relation as int]));
        let y = match self.compile_related_scalar(relation, rule, depth, b) {
            Ok(y) => y,
            Err(error) => return Err(error),
        };
        proof {
            let cx = self.facts();
            shows_related_grows(cx, t1, self.tables(), relation as nat, rule@, depth as nat, x, *a);
            only_inputs_on(t0, t1, self.tables());
            let key = t0.lookups[relation as int];
            adds_on(t0, t1, self.tables(), related_reads(cx, key, depth as nat, *a), related_reads(cx, key, depth as nat, *b));
            assert(relation_grows(t1.relations[relation as int], self.tables().relations[relation as int]));
        }
        Ok((x, y))
    }

    fn compile_related_items(
        &mut self,
        relation: usize,
        rule: &str,
        depth: usize,
        items: &Vec<ScalarExpr>,
    ) -> (r: Result<Vec<CompiledRelatedScalarExpr>, DenseCompileError>)
        requires
            old(self).based(),
            relation < old(self).tables().relations.len(),
        ensures
            match r {
                Ok(list) => {
                    &&& final(self).based()
                    &&& final(self).facts() == old(self).facts()
                    &&& final(self).stack() == old(self).stack()
                    &&& only_inputs(old(self).tables(), final(self).tables())
                    &&& list@.len() == items@.len()
                    &&& shows_relateds(old(self).facts(), final(self).tables(), relation as nat, rule@, depth as nat, list@, items@, items@.len())
                    &&& adds(old(self).tables(), final(self).tables(), relateds_reads(old(self).facts(), old(self).tables().lookups[relation as int], depth as nat, items@, items@.len()))
                    &&& relateds_fault(old(self).facts(), info_of(old(self).tables().relations[relation as int]), depth as nat, items@, items@.len()) is None
                },
                Err(error) => relateds_fault(old(self).facts(), info_of(old(self).tables().relations[relation as int]), depth as nat, items@, items@.len()) == Some(error@),
            },
        decreases depth as nat, 1nat, items@, 0int,
    {
        let ghost t0 = self.tables();
        let ghost cx = self.facts();
        let ghost info = info_of(t0.relations[relation as int]);
        let mut list: Vec<CompiledRelatedScalarExpr> = Vec::new();
        let mut i: usize = 0;
        let ghost key = t0.lookups[relation as int];
        proof {
            grows_self(t0);
            adds_nothing(t0);
        }
        while i < items.len()
            invariant
                i <= items@.len(),
                list@.len() == i,
                cx == old(self).facts(),
                t0 == old(self).tables(),
                self.based(),
                self.facts() == cx,
                self.stack() == old(self).stack(),
                only_inputs(t0, self.tables()),
                key == t0.lookups[relation as int],
                adds(t0, self.tables(), relateds_reads(cx, key, depth as nat, items@, i as nat)),
                relation < t0.relations.len(),
                info == info_of(t0.relations[relation as int]),
                info == info_of(self.tables().relations[relation as int]),
                shows_relateds(cx, self.tables(), relation as nat, rule@, depth as nat, list@, items@, i as nat),
                relateds_fault(cx, info, depth as nat, items@, i as nat) is None,
            decreases items@.len() - i,
        {
            let ghost t1 = self.tables();
        assert(relation_grows(t0.relations[relation as int], t1.relations[relation as int]));
            let ghost before = list@;
            let c = match self.compile_related_scalar(relation, rule, depth, &items[i]) {
                Ok(c) => c,
                Err(error) => {
                    proof {
                        relateds_fault_kept(cx, info, depth as nat, items@, (i + 1) as nat, items@.len());
                    }
                    return Err(error);
                },
            };
            list.push(c);
            proof {
                shows_relateds_grows(cx, t1, self.tables(), relation as nat, rule@, depth as nat, before, items@, i as nat);
                shows_relateds_same(cx, self.tables(), relation as nat, rule@, depth as nat, before, list@, items@, i as nat);
                only_inputs_on(t0, t1, self.tables());
                adds_on(t0, t1, self.tables(), relateds_reads(cx, key, depth as nat, items@, i as nat), related_reads(cx, key, depth as nat, items@[i as int]));
            assert(relation_grows(t1.relations[relation as int], self.tables().relations[relation as int]));
            }
            i = i + 1;
        }
        Ok(list)
    }

    fn compile_related_predicates(
        &mut self,
        relation: usize,
        rule: &str,
        depth: usize,
        items: &Vec<JudgmentExpr>,
    ) -> (r: Result<Vec<CompiledRelatedJudgmentExpr>, DenseCompileError>)
        requires
            old(self).based(),
            relation < old(self).tables().relations.len(),
        ensures
            match r {
                Ok(list) => {
                    &&& final(self).based()
                    &&& final(self).facts() == old(self).facts()
                    &&& final(self).stack() == old(self).stack()
                    &&& only_inputs(old(self).tables(), final(self).tables())
                    &&& list@.len() == items@.len()
                    &&& shows_related_judgments(old(self).facts(), final(self).tables(), relation as nat, rule@, depth as nat, list@, items@, items@.len())
                    &&& adds(old(self).tables(), final(self).tables(), related_judgments_reads(old(self).facts(), old(self).tables().lookups[relation as int], depth as nat, items@, items@.len()))
                    &&& related_judgments_fault(old(self).facts(), info_of(old(self).tables().relations[relation as int]), depth as nat, items@, items@.len()) is None
                },
                Err(error) => related_judgments_fault(old(self).facts(), info_of(old(self).tables().relations[relation as int]), depth as nat, items@, items@.len()) == Some(error@),
            },
        decreases depth as nat, 1nat, items@, 0int,
    {
        let ghost t0 = self.tables();
        let ghost cx = self.facts();
        let ghost info = info_of(t0.relations[relation as int]);
        let mut list: Vec<CompiledRelatedJudgmentExpr> = Vec::new();
        let mut i: usize = 0;
        let ghost key = t0.lookups[relation as int];
        proof {
            grows_self(t0);
            adds_nothing(t0);
        }
        while i < items.len()
            invariant
                i <= items@.len(),
                list@.len() == i,
                cx == old(self).facts(),
                t0 == old(self).tables(),
                self.based(),
                self.facts() == cx,
                self.stack() == old(self).stack(),
                only_inputs(t0, self.tables()),
                key == t0.lookups[relation as int],
                adds(t0, self.tables(), related_judgments_reads(cx, key, depth as nat, items@, i as nat)),
                relation < t0.relations.len(),
                info == info_of(t0.relations[relation as int]),
                info == info_of(self.tables().relations[relation as int]),
                shows_related_judgments(cx, self.tables(), relation as nat, rule@, depth as nat, list@, items@, i as nat),
                related_judgments_fault(cx, info, depth as nat, items@, i as nat) is None,
            decreases items@.len() - i,
        {
            let ghost t1 = self.tables();
        assert(relation_grows(t0.relations[relation as int], t1.relations[relation as int]));
            let ghost before = list@;
            let c = match self.compile_related_predicate(relation, rule, depth, &items[i]) {
                Ok(c) => c,
                Err(error) => {
                    proof {
                        related_judgments_fault_kept(cx, info, depth as nat, items@, (i + 1) as nat, items@.len());
                    }
                    return Err(error);
                },
            };
            list.push(c);
            proof {
                shows_related_judgments_grows(cx, t1, self.tables(), relation as nat, rule@, depth as nat, before, items@, i as nat);
                shows_related_judgments_same(cx, self.tables(), relation as nat, rule@, depth as nat, before, list@, items@, i as nat);
                only_inputs_on(t0, t1, self.tables());
                adds_on(t0, t1, self.tables(), related_judgments_reads(cx, key, depth as nat, items@, i as nat), related_judgment_reads(cx, key, depth as nat, items@[i as int]));
            assert(relation_grows(t1.relations[relation as int], self.tables().relations[relation as int]));
            }
            i = i + 1;
        }
        Ok(list)
    }

    /// An `if`; a `match` fallback in its `else` branch takes the dtype of the branch
    /// before it.
    fn compile_related_choice(
        &mut self,
        relation: usize,
        rule: &str,
        depth: usize,
        condition: &JudgmentExpr,
        then_expr: &ScalarExpr,
        else_expr: &ScalarExpr,
        Ghost(whole): Ghost<ScalarExpr>,
    ) -> (r: Result<CompiledRelatedScalarExpr, DenseCompileError>)
        requires
            old(self).based(),
            relation < old(self).tables().relations.len(),
            whole matches ScalarExpr::If { condition: q, then_expr: x, else_expr: y } && *q
                == *condition && *x == *then_expr && *y == *else_expr,
        ensures
            match r {
                Ok(c) => {
                    &&& final(self).based()
                    &&& final(self).facts() == old(self).facts()
                    &&& final(self).stack() == old(self).stack()
                    &&& only_inputs(old(self).tables(), final(self).tables())
                    &&& shows_related(old(self).facts(), final(self).tables(), relation as nat, rule@, depth as nat, c, whole)
                    &&& adds(old(self).tables(), final(self).tables(), related_reads(old(self).facts(), old(self).tables().lookups[relation as int], depth as nat, whole))
                    &&& related_fault(old(self).facts(), info_of(old(self).tables().relations[relation as int]), depth as nat, whole) is None
                },
                Err(error) => related_fault(old(self).facts(), info_of(old(self).tables().relations[relation as int]), depth as nat, whole) == Some(error@),
            },
        decreases depth as nat, 1nat, whole, 0int,
    {
        let ghost t0 = self.tables();
        let q = match self.compile_related_predicate(relation, rule, depth, condition) {
            Ok(q) => q,
            Err(error) => return Err(error),
        };
        let ghost t1 = self.tables();
        assert(relation_grows(t0.relations[relation as int], t1.relations[relation as int]));
        let x = match self.compile_related_scalar(relation, rule, depth, then_expr) {
            Ok(x) => x,
            Err(error) => return Err(error),
        };
        let ghost t2 = self.tables();
        proof {
            let cx = self.facts();
            assert(relation_grows(t0.relations[relation as int], t1.relations[relation as int]));
            assert(relation_grows(t1.relations[relation as int], t2.relations[relation as int]));
            shows_related_judgment_grows(cx, t1, t2, relation as nat, rule@, depth as nat, q, *condition);
        }
        match else_expr {
            ScalarExpr::NoMatch { subject, patterns } => {
                let s = match self.compile_related_scalar(relation, rule, depth, subject) {
                    Ok(s) => s,
                    Err(error) => return Err(error),
                };
                let ghost t3 = self.tables();
                assert(relation_grows(t2.relations[relation as int], t3.relations[relation as int]));
                let placeholder = match self.compile_related_scalar(relation, rule, depth, then_expr) {
                    Ok(placeholder) => placeholder,
                    Err(error) => return Err(error),
                };
                let labels = self.match_labels(rule, subject, patterns);
                let ghost t4 = self.tables();
                let y = CompiledRelatedScalarExpr::NoMatch {
                    subject: Box::new(s),
                    placeholder: Box::new(placeholder),
                    labels,
                };
                proof {
                    let cx = self.facts();
                    only_inputs_on(t2, t3, t4);
                    let key = t0.lookups[relation as int];
                    let (q_reads, x_reads, s_reads) = (related_judgment_reads(cx, key, depth as nat, *condition), related_reads(cx, key, depth as nat, *then_expr), related_reads(cx, key, depth as nat, **subject));
                    adds_on(t0, t1, t2, q_reads, x_reads);
                    adds_on(t2, t3, t4, s_reads, x_reads);
                    adds_on(t0, t2, t4, q_reads + x_reads, s_reads + x_reads);
                    assert(q_reads + x_reads + (s_reads + x_reads) =~= q_reads + x_reads + s_reads);
                    shows_related_judgment_grows(cx, t2, t4, relation as nat, rule@, depth as nat, q, *condition);
                    shows_related_grows(cx, t2, t4, relation as nat, rule@, depth as nat, x, *then_expr);
                    shows_related_grows(cx, t3, t4, relation as nat, rule@, depth as nat, s, **subject);
                    only_inputs_on(t0, t1, t2);only_inputs_on(t0, t2, t4);
                }
                Ok(
                    CompiledRelatedScalarExpr::If {
                        condition: Box::new(q),
                        then_expr: Box::new(x),
                        else_expr: Box::new(y),
                    },
                )
            },
            _ => {
                let y = match self.compile_related_scalar(relation, rule, depth, else_expr) {
                    Ok(y) => y,
                    Err(error) => return Err(error),
                };
                let ghost t4 = self.tables();
                proof {
                    let cx = self.facts();
                    let key = t0.lookups[relation as int];
                    adds_on(t0, t1, t2, related_judgment_reads(cx, key, depth as nat, *condition), related_reads(cx, key, depth as nat, *then_expr));
                    adds_on(t0, t2, t4, related_judgment_reads(cx, key, depth as nat, *condition) + related_reads(cx, key, depth as nat, *then_expr), related_reads(cx, key, depth as nat, *else_expr));
                    shows_related_judgment_grows(cx, t2, t4, relation as nat, rule@, depth as nat, q, *condition);
                    shows_related_grows(cx, t2, t4, relation as nat, rule@, depth as nat, x, *then_expr);
                    only_inputs_on(t0, t1, t2);only_inputs_on(t0, t2, t4);
                }
                Ok(
                    CompiledRelatedScalarExpr::If {
                        condition: Box::new(q),
                        then_expr: Box::new(x),
                        else_expr: Box::new(y),
                    },
                )
            },
        }
    }

    /// A formula over the related rows of a relation, with `depth` rules still to enter.
    fn compile_related_scalar(
        &mut self,
        relation: usize,
        rule: &str,
        depth: usize,
        expr: &ScalarExpr,
    ) -> (r: Result<CompiledRelatedScalarExpr, DenseCompileError>)
        requires
            old(self).based(),
            relation < old(self).tables().relations.len(),
        ensures
            match r {
                Ok(c) => {
                    &&& final(self).based()
                    &&& final(self).facts() == old(self).facts()
                    &&& final(self).stack() == old(self).stack()
                    &&& only_inputs(old(self).tables(), final(self).tables())
                    &&& shows_related(old(self).facts(), final(self).tables(), relation as nat, rule@, depth as nat, c, *expr)
                    &&& adds(old(self).tables(), final(self).tables(), related_reads(old(self).facts(), old(self).tables().lookups[relation as int], depth as nat, *expr))
                    &&& related_fault(old(self).facts(), info_of(old(self).tables().relations[relation as int]), depth as nat, *expr) is None
                },
                Err(error) => related_fault(old(self).facts(), info_of(old(self).tables().relations[relation as int]), depth as nat, *expr) == Some(error@),
            },
        decreases depth as nat, 1nat, *expr, 1int,
    {
        let ghost t0 = self.tables();
        let ghost cx = self.facts();
        proof {
            grows_self(t0);
            adds_nothing(t0);
        }
        match expr {
            ScalarExpr::Literal(value) => Ok(CompiledRelatedScalarExpr::Literal(value.duplicate())),
            ScalarExpr::Input(name) => Ok(CompiledRelatedScalarExpr::Input(self.related_input(relation, name.as_str()))),
            ScalarExpr::InputOrElse { name, default } => {
                let input = self.related_input(relation, name.as_str());
                Ok(CompiledRelatedScalarExpr::InputOrElse { input, default: default.duplicate() })
            },
            ScalarExpr::ParameterLookup { parameter, index } => {
                let position = match self.parameter(parameter.as_str()) {
                    Ok(position) => position,
                    Err(error) => return Err(error),
                };
                
                let ghost t1 = self.tables();
        assert(relation_grows(t0.relations[relation as int], t1.relations[relation as int]));
                match self.compile_related_scalar(relation, rule, depth, index) {
                    Ok(key) => {
                        proof {
                            grows_on(t0, t1, self.tables());
                            only_inputs_on(t0, t1, self.tables());
                            let key = t0.lookups[relation as int];
                            adds_on(t0, t1, self.tables(), one(Read::Parameter(parameter@)), related_reads(cx, key, depth as nat, **index));
            assert(relation_grows(t1.relations[relation as int], self.tables().relations[relation as int]));
                        }
                        Ok(CompiledRelatedScalarExpr::ParameterLookup { parameter: position, index: Box::new(key) })
                    },
                    Err(error) => Err(error),
                }
            },
            ScalarExpr::Add(items) => match self.compile_related_items(relation, rule, depth, items) {
                Ok(list) => Ok(CompiledRelatedScalarExpr::Add(list)),
                Err(error) => Err(error),
            },
            ScalarExpr::Max(items) => match self.compile_related_items(relation, rule, depth, items) {
                Ok(list) => Ok(CompiledRelatedScalarExpr::Max(list)),
                Err(error) => Err(error),
            },
            ScalarExpr::Min(items) => match self.compile_related_items(relation, rule, depth, items) {
                Ok(list) => Ok(CompiledRelatedScalarExpr::Min(list)),
                Err(error) => Err(error),
            },
            ScalarExpr::Sub(left, right) => match self.compile_related_pair(relation, rule, depth, left, right, Ghost(*expr)) {
                Ok((x, y)) => Ok(CompiledRelatedScalarExpr::Sub(Box::new(x), Box::new(y))),
                Err(error) => Err(error),
            },
            ScalarExpr::Mul(left, right) => match self.compile_related_pair(relation, rule, depth, left, right, Ghost(*expr)) {
                Ok((x, y)) => Ok(CompiledRelatedScalarExpr::Mul(Box::new(x), Box::new(y))),
                Err(error) => Err(error),
            },
            ScalarExpr::Div(left, right) => match self.compile_related_pair(relation, rule, depth, left, right, Ghost(*expr)) {
                Ok((x, y)) => Ok(CompiledRelatedScalarExpr::Div(Box::new(x), Box::new(y))),
                Err(error) => Err(error),
            },
            ScalarExpr::Ceil(value) => match self.compile_related_scalar(relation, rule, depth, value) {
                Ok(x) => Ok(CompiledRelatedScalarExpr::Ceil(Box::new(x))),
                Err(error) => Err(error),
            },
            ScalarExpr::Floor(value) => match self.compile_related_scalar(relation, rule, depth, value) {
                Ok(x) => Ok(CompiledRelatedScalarExpr::Floor(Box::new(x))),
                Err(error) => Err(error),
            },
            ScalarExpr::PeriodStart => Ok(CompiledRelatedScalarExpr::PeriodStart),
            ScalarExpr::PeriodEnd => Ok(CompiledRelatedScalarExpr::PeriodEnd),
            ScalarExpr::DateAddDays { date, days } => match self.compile_related_pair(
                relation, rule, depth, date,
                days,
                Ghost(*expr),
            ) {
                Ok((x, y)) => Ok(
                    CompiledRelatedScalarExpr::DateShift {
                        unit: ShiftUnit::Days,
                        date: Box::new(x),
                        count: Box::new(y),
                    },
                ),
                Err(error) => Err(error),
            },
            ScalarExpr::DateAddMonths { date, months } => match self.compile_related_pair(
                relation, rule, depth, date,
                months,
                Ghost(*expr),
            ) {
                Ok((x, y)) => Ok(
                    CompiledRelatedScalarExpr::DateShift {
                        unit: ShiftUnit::Months,
                        date: Box::new(x),
                        count: Box::new(y),
                    },
                ),
                Err(error) => Err(error),
            },
            ScalarExpr::DateAddYears { date, years } => match self.compile_related_pair(
                relation, rule, depth, date,
                years,
                Ghost(*expr),
            ) {
                Ok((x, y)) => Ok(
                    CompiledRelatedScalarExpr::DateShift {
                        unit: ShiftUnit::Years,
                        date: Box::new(x),
                        count: Box::new(y),
                    },
                ),
                Err(error) => Err(error),
            },
            ScalarExpr::DaysBetween { from, to } => match self.compile_related_pair(
                relation, rule, depth, from,
                to,
                Ghost(*expr),
            ) {
                Ok((x, y)) => Ok(CompiledRelatedScalarExpr::DaysBetween { from: Box::new(x), to: Box::new(y) }),
                Err(error) => Err(error),
            },
            ScalarExpr::If { condition, then_expr, else_expr } => self.compile_related_choice(
                relation, rule, depth, condition,
                then_expr,
                else_expr,
                Ghost(*expr),
            ),
            ScalarExpr::NoMatch { .. } => Err(
                DenseCompileError::Unsupported(
                    owned(
                        "a `match` fallback (`no_match`) that is not the `else` branch of an `if`",
                    ),
                ),
            ),
            ScalarExpr::Derived(name) => self.compile_related_rule(relation, depth, name.as_str()),
            ScalarExpr::CountRelated { relation, .. } => {
                let mut message = owned("aggregation over relation `");
                message.append(relation.as_str());
                message.append("` nested inside a related expression");
                Err(DenseCompileError::Unsupported(message))
            },
            ScalarExpr::SumRelated { relation, .. } => {
                let mut message = owned("aggregation over relation `");
                message.append(relation.as_str());
                message.append("` nested inside a related expression");
                Err(DenseCompileError::Unsupported(message))
            },
            ScalarExpr::OverPeriods { kind, .. } => {
                let mut message = owned("over-periods reduction `");
                message.append(kind.as_call_name());
                message.append("` nested inside a related expression");
                Err(DenseCompileError::Unsupported(message))
            },
        }
    }

    /// A test on the related rows of a relation, with `depth` rules still to enter.
    fn compile_related_predicate(
        &mut self,
        relation: usize,
        rule: &str,
        depth: usize,
        expr: &JudgmentExpr,
    ) -> (r: Result<CompiledRelatedJudgmentExpr, DenseCompileError>)
        requires
            old(self).based(),
            relation < old(self).tables().relations.len(),
        ensures
            match r {
                Ok(c) => {
                    &&& final(self).based()
                    &&& final(self).facts() == old(self).facts()
                    &&& final(self).stack() == old(self).stack()
                    &&& only_inputs(old(self).tables(), final(self).tables())
                    &&& shows_related_judgment(old(self).facts(), final(self).tables(), relation as nat, rule@, depth as nat, c, *expr)
                    &&& adds(old(self).tables(), final(self).tables(), related_judgment_reads(old(self).facts(), old(self).tables().lookups[relation as int], depth as nat, *expr))
                    &&& related_judgment_fault(old(self).facts(), info_of(old(self).tables().relations[relation as int]), depth as nat, *expr) is None
                },
                Err(error) => related_judgment_fault(old(self).facts(), info_of(old(self).tables().relations[relation as int]), depth as nat, *expr) == Some(error@),
            },
        decreases depth as nat, 1nat, *expr, 1int,
    {
        let ghost t0 = self.tables();
        let ghost cx = self.facts();
        proof {
            grows_self(t0);
            adds_nothing(t0);
        }
        match expr {
            JudgmentExpr::Comparison { left, op, right } => {
                let x = match self.compile_related_scalar(relation, rule, depth, left) {
                    Ok(x) => x,
                    Err(error) => return Err(error),
                };
                let ghost t1 = self.tables();
        assert(relation_grows(t0.relations[relation as int], t1.relations[relation as int]));
                let y = match self.compile_related_scalar(relation, rule, depth, right) {
                    Ok(y) => y,
                    Err(error) => return Err(error),
                };
                proof {
                    shows_related_grows(cx, t1, self.tables(), relation as nat, rule@, depth as nat, x, *left);
                    only_inputs_on(t0, t1, self.tables());
                    let key = t0.lookups[relation as int];
                    adds_on(t0, t1, self.tables(), related_reads(cx, key, depth as nat, *left), related_reads(cx, key, depth as nat, *right));
            assert(relation_grows(t1.relations[relation as int], self.tables().relations[relation as int]));
                }
                Ok(CompiledRelatedJudgmentExpr::Comparison { left: x, op: *op, right: y })
            },
            JudgmentExpr::And(items) => match self.compile_related_predicates(relation, rule, depth, items) {
                Ok(list) => Ok(CompiledRelatedJudgmentExpr::And(list)),
                Err(error) => Err(error),
            },
            JudgmentExpr::Or(items) => match self.compile_related_predicates(relation, rule, depth, items) {
                Ok(list) => Ok(CompiledRelatedJudgmentExpr::Or(list)),
                Err(error) => Err(error),
            },
            JudgmentExpr::Not(item) => match self.compile_related_predicate(relation, rule, depth, item) {
                Ok(x) => Ok(CompiledRelatedJudgmentExpr::Not(Box::new(x))),
                Err(error) => Err(error),
            },
            JudgmentExpr::Derived(name) => self.compile_related_judgment_rule(
                relation,
                depth,
                name.as_str(),
            ),
            JudgmentExpr::RelationMember { .. } => Ok(CompiledRelatedJudgmentExpr::Literal(true)),
        }
    }

    /// Two parts of a formula, the first one first.
    fn compile_current_pair(
        &mut self,
        derived_name: &str,
        entity: &str,
        depth: usize,
        a: &ScalarExpr,
        b: &ScalarExpr,
        Ghost(whole): Ghost<ScalarExpr>,
    ) -> (r: Result<(CompiledScalarExpr, CompiledScalarExpr), DenseCompileError>)
        requires
            old(self).based(),
            decreases_to!(whole => *a),
            decreases_to!(whole => *b),
        ensures
            match r {
                Ok((x, y)) => {
                    &&& final(self).based()
                    &&& final(self).facts() == old(self).facts()
                    &&& final(self).stack() == old(self).stack()
                    &&& only_inputs(old(self).tables(), final(self).tables())
                    &&& shows_current(old(self).facts(), final(self).tables(), derived_name@, depth as nat, x, *a)
                    &&& shows_current(old(self).facts(), final(self).tables(), derived_name@, depth as nat, y, *b)
                    &&& adds(old(self).tables(), final(self).tables(), current_reads(old(self).facts(), depth as nat, *a) + current_reads(old(self).facts(), depth as nat, *b))
                    &&& current_fault(old(self).facts(), derived_name@, entity@, depth as nat, *a) is None
                    &&& current_fault(old(self).facts(), derived_name@, entity@, depth as nat, *b) is None
                },
                Err(error) => earlier(current_fault(old(self).facts(), derived_name@, entity@, depth as nat, *a), current_fault(old(self).facts(), derived_name@, entity@, depth as nat, *b)) == Some(error@),
            },
        decreases depth as nat, 1nat, whole, 0int,
    {
        let ghost t0 = self.tables();
        let x = match self.compile_current_scalar_expr(derived_name, entity, depth, a) {
            Ok(x) => x,
            Err(error) => return Err(error),
        };
        let ghost t1 = self.tables();
        
        let y = match self.compile_current_scalar_expr(derived_name, entity, depth, b) {
            Ok(y) => y,
            Err(error) => return Err(error),
        };
        proof {
            let cx = self.facts();
            shows_current_grows(cx, t1, self.tables(), derived_name@, depth as nat, x, *a);
            only_inputs_on(t0, t1, self.tables());
            adds_on(t0, t1, self.tables(), current_reads(cx, depth as nat, *a), current_reads(cx, depth as nat, *b));
        }
        Ok((x, y))
    }

    fn compile_current_items(
        &mut self,
        derived_name: &str,
        entity: &str,
        depth: usize,
        items: &Vec<ScalarExpr>,
    ) -> (r: Result<Vec<CompiledScalarExpr>, DenseCompileError>)
        requires
            old(self).based(),
        ensures
            match r {
                Ok(list) => {
                    &&& final(self).based()
                    &&& final(self).facts() == old(self).facts()
                    &&& final(self).stack() == old(self).stack()
                    &&& only_inputs(old(self).tables(), final(self).tables())
                    &&& list@.len() == items@.len()
                    &&& shows_currents(old(self).facts(), final(self).tables(), derived_name@, depth as nat, list@, items@, items@.len())
                    &&& adds(old(self).tables(), final(self).tables(), currents_reads(old(self).facts(), depth as nat, items@, items@.len()))
                    &&& currents_fault(old(self).facts(), derived_name@, entity@, depth as nat, items@, items@.len()) is None
                },
                Err(error) => currents_fault(old(self).facts(), derived_name@, entity@, depth as nat, items@, items@.len()) == Some(error@),
            },
        decreases depth as nat, 1nat, items@, 0int,
    {
        let ghost t0 = self.tables();
        let ghost cx = self.facts();
        
        let mut list: Vec<CompiledScalarExpr> = Vec::new();
        let mut i: usize = 0;
        proof {
            grows_self(t0);
            adds_nothing(t0);
        }
        while i < items.len()
            invariant
                i <= items@.len(),
                list@.len() == i,
                cx == old(self).facts(),
                t0 == old(self).tables(),
                self.based(),
                self.facts() == cx,
                self.stack() == old(self).stack(),
                only_inputs(t0, self.tables()),
                adds(t0, self.tables(), currents_reads(cx, depth as nat, items@, i as nat)),
                shows_currents(cx, self.tables(), derived_name@, depth as nat, list@, items@, i as nat),
                currents_fault(cx, derived_name@, entity@, depth as nat, items@, i as nat) is None,
            decreases items@.len() - i,
        {
            let ghost t1 = self.tables();
        
            let ghost before = list@;
            let c = match self.compile_current_scalar_expr(derived_name, entity, depth, &items[i]) {
                Ok(c) => c,
                Err(error) => {
                    proof {
                        currents_fault_kept(cx, derived_name@, entity@, depth as nat, items@, (i + 1) as nat, items@.len());
                    }
                    return Err(error);
                },
            };
            list.push(c);
            proof {
                shows_currents_grows(cx, t1, self.tables(), derived_name@, depth as nat, before, items@, i as nat);
                shows_currents_same(cx, self.tables(), derived_name@, depth as nat, before, list@, items@, i as nat);
                only_inputs_on(t0, t1, self.tables());
                adds_on(t0, t1, self.tables(), currents_reads(cx, depth as nat, items@, i as nat), current_reads(cx, depth as nat, items@[i as int]));
            }
            i = i + 1;
        }
        Ok(list)
    }

    fn compile_current_judgments(
        &mut self,
        derived_name: &str,
        entity: &str,
        depth: usize,
        items: &Vec<JudgmentExpr>,
    ) -> (r: Result<Vec<CompiledJudgmentExpr>, DenseCompileError>)
        requires
            old(self).based(),
        ensures
            match r {
                Ok(list) => {
                    &&& final(self).based()
                    &&& final(self).facts() == old(self).facts()
                    &&& final(self).stack() == old(self).stack()
                    &&& only_inputs(old(self).tables(), final(self).tables())
                    &&& list@.len() == items@.len()
                    &&& shows_current_judgments(old(self).facts(), final(self).tables(), derived_name@, depth as nat, list@, items@, items@.len())
                    &&& adds(old(self).tables(), final(self).tables(), current_judgments_reads(old(self).facts(), depth as nat, items@, items@.len()))
                    &&& current_judgments_fault(old(self).facts(), derived_name@, entity@, depth as nat, items@, items@.len()) is None
                },
                Err(error) => current_judgments_fault(old(self).facts(), derived_name@, entity@, depth as nat, items@, items@.len()) == Some(error@),
            },
        decreases depth as nat, 1nat, items@, 0int,
    {
        let ghost t0 = self.tables();
        let ghost cx = self.facts();
        
        let mut list: Vec<CompiledJudgmentExpr> = Vec::new();
        let mut i: usize = 0;
        proof {
            grows_self(t0);
            adds_nothing(t0);
        }
        while i < items.len()
            invariant
                i <= items@.len(),
                list@.len() == i,
                cx == old(self).facts(),
                t0 == old(self).tables(),
                self.based(),
                self.facts() == cx,
                self.stack() == old(self).stack(),
                only_inputs(t0, self.tables()),
                adds(t0, self.tables(), current_judgments_reads(cx, depth as nat, items@, i as nat)),
                shows_current_judgments(cx, self.tables(), derived_name@, depth as nat, list@, items@, i as nat),
                current_judgments_fault(cx, derived_name@, entity@, depth as nat, items@, i as nat) is None,
            decreases items@.len() - i,
        {
            let ghost t1 = self.tables();
        
            let ghost before = list@;
            let c = match self.compile_current_judgment_expr(derived_name, entity, depth, &items[i]) {
                Ok(c) => c,
                Err(error) => {
                    proof {
                        current_judgments_fault_kept(cx, derived_name@, entity@, depth as nat, items@, (i + 1) as nat, items@.len());
                    }
                    return Err(error);
                },
            };
            list.push(c);
            proof {
                shows_current_judgments_grows(cx, t1, self.tables(), derived_name@, depth as nat, before, items@, i as nat);
                shows_current_judgments_same(cx, self.tables(), derived_name@, depth as nat, before, list@, items@, i as nat);
                only_inputs_on(t0, t1, self.tables());
                adds_on(t0, t1, self.tables(), current_judgments_reads(cx, depth as nat, items@, i as nat), current_judgment_reads(cx, depth as nat, items@[i as int]));
            }
            i = i + 1;
        }
        Ok(list)
    }

    /// An `if`; a `match` fallback in its `else` branch takes the dtype of the branch
    /// before it.
    fn compile_current_choice(
        &mut self,
        derived_name: &str,
        entity: &str,
        depth: usize,
        condition: &JudgmentExpr,
        then_expr: &ScalarExpr,
        else_expr: &ScalarExpr,
        Ghost(whole): Ghost<ScalarExpr>,
    ) -> (r: Result<CompiledScalarExpr, DenseCompileError>)
        requires
            old(self).based(),
            whole matches ScalarExpr::If { condition: q, then_expr: x, else_expr: y } && *q
                == *condition && *x == *then_expr && *y == *else_expr,
        ensures
            match r {
                Ok(c) => {
                    &&& final(self).based()
                    &&& final(self).facts() == old(self).facts()
                    &&& final(self).stack() == old(self).stack()
                    &&& only_inputs(old(self).tables(), final(self).tables())
                    &&& shows_current(old(self).facts(), final(self).tables(), derived_name@, depth as nat, c, whole)
                    &&& adds(old(self).tables(), final(self).tables(), current_reads(old(self).facts(), depth as nat, whole))
                    &&& current_fault(old(self).facts(), derived_name@, entity@, depth as nat, whole) is None
                },
                Err(error) => current_fault(old(self).facts(), derived_name@, entity@, depth as nat, whole) == Some(error@),
            },
        decreases depth as nat, 1nat, whole, 0int,
    {
        let ghost t0 = self.tables();
        let q = match self.compile_current_judgment_expr(derived_name, entity, depth, condition) {
            Ok(q) => q,
            Err(error) => return Err(error),
        };
        let ghost t1 = self.tables();
        
        let x = match self.compile_current_scalar_expr(derived_name, entity, depth, then_expr) {
            Ok(x) => x,
            Err(error) => return Err(error),
        };
        let ghost t2 = self.tables();
        proof {
            let cx = self.facts();
            
            shows_current_judgment_grows(cx, t1, t2, derived_name@, depth as nat, q, *condition);
        }
        match else_expr {
            ScalarExpr::NoMatch { subject, patterns } => {
                let s = match self.compile_current_scalar_expr(derived_name, entity, depth, subject) {
                    Ok(s) => s,
                    Err(error) => return Err(error),
                };
                let ghost t3 = self.tables();
                let placeholder = match self.compile_current_scalar_expr(derived_name, entity, depth, then_expr) {
                    Ok(placeholder) => placeholder,
                    Err(error) => return Err(error),
                };
                let labels = self.match_labels(derived_name, subject, patterns);
                let ghost t4 = self.tables();
                let y = CompiledScalarExpr::NoMatch {
                    subject: Box::new(s),
                    placeholder: Box::new(placeholder),
                    labels,
                };
                proof {
                    let cx = self.facts();
                    only_inputs_on(t2, t3, t4);
                    let (q_reads, x_reads, s_reads) = (current_judgment_reads(cx, depth as nat, *condition), current_reads(cx, depth as nat, *then_expr), current_reads(cx, depth as nat, **subject));
                    adds_on(t0, t1, t2, q_reads, x_reads);
                    adds_on(t2, t3, t4, s_reads, x_reads);
                    adds_on(t0, t2, t4, q_reads + x_reads, s_reads + x_reads);
                    assert(q_reads + x_reads + (s_reads + x_reads) =~= q_reads + x_reads + s_reads);
                    shows_current_judgment_grows(cx, t2, t4, derived_name@, depth as nat, q, *condition);
                    shows_current_grows(cx, t2, t4, derived_name@, depth as nat, x, *then_expr);
                    shows_current_grows(cx, t3, t4, derived_name@, depth as nat, s, **subject);
                    only_inputs_on(t0, t1, t2);only_inputs_on(t0, t2, t4);
                }
                Ok(
                    CompiledScalarExpr::If {
                        condition: Box::new(q),
                        then_expr: Box::new(x),
                        else_expr: Box::new(y),
                    },
                )
            },
            _ => {
                let y = match self.compile_current_scalar_expr(derived_name, entity, depth, else_expr) {
                    Ok(y) => y,
                    Err(error) => return Err(error),
                };
                let ghost t4 = self.tables();
                proof {
                    let cx = self.facts();
                    adds_on(t0, t1, t2, current_judgment_reads(cx, depth as nat, *condition), current_reads(cx, depth as nat, *then_expr));
                    adds_on(t0, t2, t4, current_judgment_reads(cx, depth as nat, *condition) + current_reads(cx, depth as nat, *then_expr), current_reads(cx, depth as nat, *else_expr));
                    shows_current_judgment_grows(cx, t2, t4, derived_name@, depth as nat, q, *condition);
                    shows_current_grows(cx, t2, t4, derived_name@, depth as nat, x, *then_expr);
                    only_inputs_on(t0, t1, t2);only_inputs_on(t0, t2, t4);
                }
                Ok(
                    CompiledScalarExpr::If {
                        condition: Box::new(q),
                        then_expr: Box::new(x),
                        else_expr: Box::new(y),
                    },
                )
            },
        }
    }

    /// A formula that is put in place over the root rows, with `depth` rules still to enter.
    fn compile_current_scalar_expr(
        &mut self,
        derived_name: &str,
        entity: &str,
        depth: usize,
        expr: &ScalarExpr,
    ) -> (r: Result<CompiledScalarExpr, DenseCompileError>)
        requires
            old(self).based(),
        ensures
            match r {
                Ok(c) => {
                    &&& final(self).based()
                    &&& final(self).facts() == old(self).facts()
                    &&& final(self).stack() == old(self).stack()
                    &&& only_inputs(old(self).tables(), final(self).tables())
                    &&& shows_current(old(self).facts(), final(self).tables(), derived_name@, depth as nat, c, *expr)
                    &&& adds(old(self).tables(), final(self).tables(), current_reads(old(self).facts(), depth as nat, *expr))
                    &&& current_fault(old(self).facts(), derived_name@, entity@, depth as nat, *expr) is None
                },
                Err(error) => current_fault(old(self).facts(), derived_name@, entity@, depth as nat, *expr) == Some(error@),
            },
        decreases depth as nat, 1nat, *expr, 1int,
    {
        let ghost t0 = self.tables();
        let ghost cx = self.facts();
        proof {
            grows_self(t0);
            adds_nothing(t0);
        }
        match expr {
            ScalarExpr::Literal(value) => Ok(CompiledScalarExpr::Literal(value.duplicate())),
            ScalarExpr::Input(name) => Ok(CompiledScalarExpr::Input(self.root_input(name.as_str()))),
            ScalarExpr::InputOrElse { name, default } => {
                let input = self.root_input(name.as_str());
                Ok(CompiledScalarExpr::InputOrElse { input, default: default.duplicate() })
            },
            ScalarExpr::ParameterLookup { parameter, index } => {
                let position = match self.parameter(parameter.as_str()) {
                    Ok(position) => position,
                    Err(error) => return Err(error),
                };
                
                let ghost t1 = self.tables();
        
                match self.compile_current_scalar_expr(derived_name, entity, depth, index) {
                    Ok(key) => {
                        proof {
                            grows_on(t0, t1, self.tables());
                            only_inputs_on(t0, t1, self.tables());
                            adds_on(t0, t1, self.tables(), one(Read::Parameter(parameter@)), current_reads(cx, depth as nat, **index));
                        }
                        Ok(CompiledScalarExpr::ParameterLookup { parameter: position, index: Box::new(key) })
                    },
                    Err(error) => Err(error),
                }
            },
            ScalarExpr::Add(items) => match self.compile_current_items(derived_name, entity, depth, items) {
                Ok(list) => Ok(CompiledScalarExpr::Add(list)),
                Err(error) => Err(error),
            },
            ScalarExpr::Max(items) => match self.compile_current_items(derived_name, entity, depth, items) {
                Ok(list) => Ok(CompiledScalarExpr::Max(list)),
                Err(error) => Err(error),
            },
            ScalarExpr::Min(items) => match self.compile_current_items(derived_name, entity, depth, items) {
                Ok(list) => Ok(CompiledScalarExpr::Min(list)),
                Err(error) => Err(error),
            },
            ScalarExpr::Sub(left, right) => match self.compile_current_pair(derived_name, entity, depth, left, right, Ghost(*expr)) {
                Ok((x, y)) => Ok(CompiledScalarExpr::Sub(Box::new(x), Box::new(y))),
                Err(error) => Err(error),
            },
            ScalarExpr::Mul(left, right) => match self.compile_current_pair(derived_name, entity, depth, left, right, Ghost(*expr)) {
                Ok((x, y)) => Ok(CompiledScalarExpr::Mul(Box::new(x), Box::new(y))),
                Err(error) => Err(error),
            },
            ScalarExpr::Div(left, right) => match self.compile_current_pair(derived_name, entity, depth, left, right, Ghost(*expr)) {
                Ok((x, y)) => Ok(CompiledScalarExpr::Div(Box::new(x), Box::new(y))),
                Err(error) => Err(error),
            },
            ScalarExpr::Ceil(value) => match self.compile_current_scalar_expr(derived_name, entity, depth, value) {
                Ok(x) => Ok(CompiledScalarExpr::Ceil(Box::new(x))),
                Err(error) => Err(error),
            },
            ScalarExpr::Floor(value) => match self.compile_current_scalar_expr(derived_name, entity, depth, value) {
                Ok(x) => Ok(CompiledScalarExpr::Floor(Box::new(x))),
                Err(error) => Err(error),
            },
            ScalarExpr::PeriodStart => Ok(CompiledScalarExpr::PeriodStart),
            ScalarExpr::PeriodEnd => Ok(CompiledScalarExpr::PeriodEnd),
            ScalarExpr::DateAddDays { date, days } => match self.compile_current_pair(
                derived_name, entity, depth, date,
                days,
                Ghost(*expr),
            ) {
                Ok((x, y)) => Ok(
                    CompiledScalarExpr::DateShift {
                        unit: ShiftUnit::Days,
                        date: Box::new(x),
                        count: Box::new(y),
                    },
                ),
                Err(error) => Err(error),
            },
            ScalarExpr::DateAddMonths { date, months } => match self.compile_current_pair(
                derived_name, entity, depth, date,
                months,
                Ghost(*expr),
            ) {
                Ok((x, y)) => Ok(
                    CompiledScalarExpr::DateShift {
                        unit: ShiftUnit::Months,
                        date: Box::new(x),
                        count: Box::new(y),
                    },
                ),
                Err(error) => Err(error),
            },
            ScalarExpr::DateAddYears { date, years } => match self.compile_current_pair(
                derived_name, entity, depth, date,
                years,
                Ghost(*expr),
            ) {
                Ok((x, y)) => Ok(
                    CompiledScalarExpr::DateShift {
                        unit: ShiftUnit::Years,
                        date: Box::new(x),
                        count: Box::new(y),
                    },
                ),
                Err(error) => Err(error),
            },
            ScalarExpr::DaysBetween { from, to } => match self.compile_current_pair(
                derived_name, entity, depth, from,
                to,
                Ghost(*expr),
            ) {
                Ok((x, y)) => Ok(CompiledScalarExpr::DaysBetween { from: Box::new(x), to: Box::new(y) }),
                Err(error) => Err(error),
            },
            ScalarExpr::If { condition, then_expr, else_expr } => self.compile_current_choice(
                derived_name, entity, depth, condition,
                then_expr,
                else_expr,
                Ghost(*expr),
            ),
            ScalarExpr::NoMatch { .. } => Err(
                DenseCompileError::Unsupported(
                    owned(
                        "a `match` fallback (`no_match`) that is not the `else` branch of an `if`",
                    ),
                ),
            ),
            ScalarExpr::Derived(name) => {
                proof {
                    assert(current_fault(cx, derived_name@, entity@, depth as nat, *expr) == current_rule_fault(cx, derived_name@, entity@, depth as nat, name@));
                    assert(current_reads(cx, depth as nat, *expr) == current_rule_reads(cx, depth as nat, name@));
                }
                let derived = match self.current_rule(
                    derived_name,
                    entity,
                    "unknown scalar dependency `",
                    name.as_str(),
                ) {
                    Ok(derived) => derived,
                    Err(error) => return Err(error),
                };
                match &derived.semantics {
                    DerivedSemantics::Judgment(_) => {
                        let mut message = owned("scalar expression cannot reference judgment derived value (`");
                        message.append(name.as_str());
                        message.append("`)");
                        Err(DenseCompileError::Unsupported(message))
                    },
                    DerivedSemantics::Scalar(inner) => {
                        if depth == 0 {
                            return Err(cyclic_error(name.as_str()));
                        }
                        self.compile_current_scalar_expr(name.as_str(), derived.entity.as_str(), depth - 1, inner)
                    },
                }
            },
            ScalarExpr::CountRelated { .. } => Err(
                DenseCompileError::Unsupported(
                    owned(
                        "current-entity derived relation predicates cannot aggregate another relation",
                    ),
                ),
            ),
            ScalarExpr::SumRelated { .. } => Err(
                DenseCompileError::Unsupported(
                    owned(
                        "current-entity derived relation predicates cannot aggregate another relation",
                    ),
                ),
            ),
            ScalarExpr::OverPeriods { kind, .. } => {
                let mut message = owned("over-periods reduction `");
                message.append(kind.as_call_name());
                message.append("` nested inside a current-entity related expression");
                Err(DenseCompileError::Unsupported(message))
            },
        }
    }

    /// A judgment that is put in place over the root rows, with `depth` rules still to enter.
    fn compile_current_judgment_expr(
        &mut self,
        derived_name: &str,
        entity: &str,
        depth: usize,
        expr: &JudgmentExpr,
    ) -> (r: Result<CompiledJudgmentExpr, DenseCompileError>)
        requires
            old(self).based(),
        ensures
            match r {
                Ok(c) => {
                    &&& final(self).based()
                    &&& final(self).facts() == old(self).facts()
                    &&& final(self).stack() == old(self).stack()
                    &&& only_inputs(old(self).tables(), final(self).tables())
                    &&& shows_current_judgment(old(self).facts(), final(self).tables(), derived_name@, depth as nat, c, *expr)
                    &&& adds(old(self).tables(), final(self).tables(), current_judgment_reads(old(self).facts(), depth as nat, *expr))
                    &&& current_judgment_fault(old(self).facts(), derived_name@, entity@, depth as nat, *expr) is None
                },
                Err(error) => current_judgment_fault(old(self).facts(), derived_name@, entity@, depth as nat, *expr) == Some(error@),
            },
        decreases depth as nat, 1nat, *expr, 1int,
    {
        let ghost t0 = self.tables();
        let ghost cx = self.facts();
        proof {
            grows_self(t0);
            adds_nothing(t0);
        }
        match expr {
            JudgmentExpr::Comparison { left, op, right } => {
                let x = match self.compile_current_scalar_expr(derived_name, entity, depth, left) {
                    Ok(x) => x,
                    Err(error) => return Err(error),
                };
                let ghost t1 = self.tables();
        
                let y = match self.compile_current_scalar_expr(derived_name, entity, depth, right) {
                    Ok(y) => y,
                    Err(error) => return Err(error),
                };
                proof {
                    shows_current_grows(cx, t1, self.tables(), derived_name@, depth as nat, x, *left);
                    only_inputs_on(t0, t1, self.tables());
                    adds_on(t0, t1, self.tables(), current_reads(cx, depth as nat, *left), current_reads(cx, depth as nat, *right));
                }
                Ok(CompiledJudgmentExpr::Comparison { left: x, op: *op, right: y })
            },
            JudgmentExpr::And(items) => match self.compile_current_judgments(derived_name, entity, depth, items) {
                Ok(list) => Ok(CompiledJudgmentExpr::And(list)),
                Err(error) => Err(error),
            },
            JudgmentExpr::Or(items) => match self.compile_current_judgments(derived_name, entity, depth, items) {
                Ok(list) => Ok(CompiledJudgmentExpr::Or(list)),
                Err(error) => Err(error),
            },
            JudgmentExpr::Not(item) => match self.compile_current_judgment_expr(derived_name, entity, depth, item) {
                Ok(x) => Ok(CompiledJudgmentExpr::Not(Box::new(x))),
                Err(error) => Err(error),
            },
            JudgmentExpr::Derived(name) => {
                proof {
                    assert(current_judgment_fault(cx, derived_name@, entity@, depth as nat, *expr) == current_judgment_rule_fault(cx, derived_name@, entity@, depth as nat, name@));
                    assert(current_judgment_reads(cx, depth as nat, *expr) == current_judgment_rule_reads(cx, depth as nat, name@));
                }
                let derived = match self.current_rule(
                    derived_name,
                    entity,
                    "unknown judgment dependency `",
                    name.as_str(),
                ) {
                    Ok(derived) => derived,
                    Err(error) => return Err(error),
                };
                match &derived.semantics {
                    DerivedSemantics::Scalar(_) => {
                        let mut message = owned("judgment expression cannot reference scalar derived value (`");
                        message.append(name.as_str());
                        message.append("`)");
                        Err(DenseCompileError::Unsupported(message))
                    },
                    DerivedSemantics::Judgment(inner) => {
                        if depth == 0 {
                            return Err(cyclic_error(name.as_str()));
                        }
                        self.compile_current_judgment_expr(name.as_str(), derived.entity.as_str(), depth - 1, inner)
                    },
                }
            },
            JudgmentExpr::RelationMember { relation, .. } => {
                let mut message = owned("current-entity relation predicate `");
                message.append(relation.as_str());
                message.append("`");
                Err(DenseCompileError::Unsupported(message))
            },
        }
    }
}

/// The first entity of the first `n` rules that is one.
pub open spec fn first_entity(rules: Seq<Derived>, n: nat) -> Option<Seq<char>>
    decreases n,
{
    if n == 0 || n > rules.len() {
        None
    } else {
        match first_entity(rules, (n - 1) as nat) {
            Some(entity) => Some(entity),
            None => if rules[n - 1].entity@ == SCALAR_ENTITY@ {
                None
            } else {
                Some(rules[n - 1].entity@)
            },
        }
    }
}

/// Whether all rules are of one entity, or of none.
pub open spec fn one_entity(rules: Seq<Derived>, entity: Seq<char>) -> bool {
    forall|i: int| #![trigger rules[i]]
        0 <= i < rules.len() ==> rules[i].entity@ == entity || rules[i].entity@ == SCALAR_ENTITY@
}

/// The root entity of a compilation: the requested one, else the only one that rules
/// have. Rules that all belong to no entity have the scalar one as their root.
pub open spec fn root_choice(program: Program, entity: Option<Seq<char>>) -> Result<
    Seq<char>,
    DenseErrorView,
> {
    match entity {
        Some(entity) => Ok(entity),
        None => match first_entity(program.derived@, program.derived@.len()) {
            None => Ok(SCALAR_ENTITY@),
            Some(first) => if one_entity(program.derived@, first) {
                Ok(first)
            } else {
                Err(DenseErrorView::AmbiguousRootEntity)
            },
        },
    }
}

/// The first fault of the first `n` rules that are of the root entity.
pub open spec fn compile_fault(cx: CompileFacts, n: nat) -> Option<DenseErrorView>
    decreases n,
{
    if n == 0 || n > cx.rules() {
        None
    } else {
        earlier(
            compile_fault(cx, (n - 1) as nat),
            if cx.rule_at((n - 1) as nat).entity@ == cx.root {
                rule_fault(
                    cx,
                    Seq::empty(),
                    cx.position(cx.rule_at((n - 1) as nat).name@)->Some_0,
                )
            } else {
                None
            },
        )
    }
}

/// Whether tables list what the rules of the root entity read, each thing once, and
/// nothing else.
pub open spec fn tables_read(cx: CompileFacts, t: Tables) -> bool {
    &&& forall|x: Read| lists(t, x) <==> #[trigger] program_reads(cx).contains(x)
    &&& tables_distinct(t)
}

/// Whether a compiled program stands for the rules of the root entity and all that
/// they refer to: its tables hold that, compiled, and no other input, relation, parameter
/// or rule. Their order is left open.
pub open spec fn stands_for(p: DenseCompiledProgram, cx: CompileFacts) -> bool {
    &&& p.root_entity@ == cx.root
    &&& exists|t: Tables| #[trigger]
        program_has(p, t) && tables_based(cx, t) && tables_shown(cx, t) && tables_read(cx, t)
}

/// A rule of the root entity is among the first ones.
proof fn root_rules_hold(cx: CompileFacts, i: nat, n: nat)
    requires
        i < n <= cx.rules(),
        cx.rule_at(i).entity@ == cx.root,
    ensures
        root_rules(cx, n).contains(Read::Rule(cx.rule_at(i).name@)),
    decreases n,
{
    if i + 1 < n {
        root_rules_hold(cx, i, (n - 1) as nat);
    }
}

/// A compiled program has the inputs, rules and parameters that the rules of its root
/// entity read, in turn, and relations where they read one; each input once.
pub proof fn compiled_programs_hold_what_is_read(p: DenseCompiledProgram, cx: CompileFacts)
    requires
        stands_for(p, cx),
    ensures
        forall|name: Seq<char>|
            #![trigger texts(p.root_inputs@).contains(name)]
            #![trigger reads_input(cx, name)]
            texts(p.root_inputs@).contains(name) <==> reads_input(cx, name),
        texts(p.root_inputs@).no_duplicates(),
        forall|name: Seq<char>|
            #![trigger position_of(p.derived@, name)]
            #![trigger is_compiled(cx, name)]
            position_of(p.derived@, name) is Some <==> is_compiled(cx, name),
        forall|name: Seq<char>| #[trigger]
            program_reads(cx).contains(Read::Parameter(name)) <==> exists|i: int|
                0 <= i < p.parameters@.len() && (#[trigger] p.parameters@[i]).parameter.name@
                    == name,
        p.relations@.len() > 0 <==> exists|key: RelationKeyView| #[trigger] reads_relation(cx, key),
{
    let t = choose|t: Tables| #[trigger]
        program_has(p, t) && tables_based(cx, t) && tables_shown(cx, t) && tables_read(cx, t);
    let all = program_reads(cx);
    reveal(tables_distinct);
    let inputs = texts(p.root_inputs@);
    assert forall|name: Seq<char>|
        #![trigger inputs.contains(name)]
        #![trigger reads_input(cx, name)]
        inputs.contains(name) <==> reads_input(cx, name) by {
        assert(lists(t, Read::Input(name)) <==> all.contains(Read::Input(name)));
        if inputs.contains(name) {
            let i = choose|i: int| 0 <= i < inputs.len() && inputs[i] == name;
            assert(t.root_inputs[i]@ == name);
        }
        if holds_text(t.root_inputs, name) {
            let i = choose|i: int| 0 <= i < t.root_inputs.len() && (#[trigger] t.root_inputs[i])@
                == name;
            assert(inputs[i] == name);
        }
    }
    assert forall|i: int, j: int|
        0 <= i < inputs.len() && 0 <= j < inputs.len() && i != j implies inputs[i] != inputs[j] by {
        assert(inputs[i] == t.root_inputs[i]@ && inputs[j] == t.root_inputs[j]@);
    }
    assert forall|name: Seq<char>|
        #![trigger position_of(p.derived@, name)]
        #![trigger is_compiled(cx, name)]
        position_of(p.derived@, name) is Some <==> is_compiled(cx, name) by {
        assert(lists(t, Read::Rule(name)) <==> all.contains(Read::Rule(name)));
        position_from_meaning(p.derived@, name, 0);
        if let Some(i) = position_of(p.derived@, name) {
            assert(t.derived[i as int].name@ == name);
        }
        if lists(t, Read::Rule(name)) {
            let i = choose|i: int| 0 <= i < t.derived.len() && (#[trigger] t.derived[i]).name@
                == name;
            assert(p.derived@[i].label_of() == name);
        }
    }
    assert forall|name: Seq<char>| #[trigger]
        all.contains(Read::Parameter(name)) <==> exists|i: int|
            0 <= i < p.parameters@.len() && (#[trigger] p.parameters@[i]).parameter.name@
                == name by {
        assert(lists(t, Read::Parameter(name)) <==> all.contains(Read::Parameter(name)));
    }
    if p.relations@.len() > 0 {
        let key = t.lookups[0];
        assert(t.lookups.contains(key));
        assert(lists(t, Read::Relation(key)) <==> all.contains(Read::Relation(key)));
        assert(reads_relation(cx, key));
    }
    if exists|key: RelationKeyView| #[trigger] reads_relation(cx, key) {
        let key = choose|key: RelationKeyView| #[trigger] reads_relation(cx, key);
        assert(lists(t, Read::Relation(key)) <==> all.contains(Read::Relation(key)));
    }
}

/// The rules of the root entity are compiled.
pub proof fn root_rules_are_compiled(cx: CompileFacts, i: nat)
    requires
        i < cx.rules(),
        cx.rule_at(i).entity@ == cx.root,
    ensures
        is_compiled(cx, cx.rule_at(i).name@),
{
    root_rules_hold(cx, i, cx.rules());
    reached_is_least(cx, root_rules(cx, cx.rules()));
}

/// Whatever a compiled rule reads itself is read: the rules, inputs, parameters and
/// relations that its formula names.
pub proof fn compiled_rules_are_read_through(cx: CompileFacts, name: Seq<char>)
    requires
        is_compiled(cx, name),
    ensures
        cx.position(name) matches Some(p) ==> (compiled_source(cx.rule_at(p)) matches Some(
            source,
        ) ==> source_reads(cx, source).subset_of(program_reads(cx))),
{
    reached_is_least(cx, root_rules(cx, cx.rules()));
    assert(brings(cx, Read::Rule(name)).subset_of(program_reads(cx)));
    reveal(brings);
}

proof fn compile_fault_kept(cx: CompileFacts, m: nat, n: nat)
    requires
        m <= n <= cx.rules(),
        compile_fault(cx, m) is Some,
    ensures
        compile_fault(cx, n) == compile_fault(cx, m),
    decreases n,
{
    if m < n {
        compile_fault_kept(cx, m, (n - 1) as nat);
    }
}

/// Tables that are compiled make a well-formed program.
proof fn tables_well_formed(p: DenseCompiledProgram, cx: CompileFacts, t: Tables)
    requires
        program_has(p, t),
        tables_based(cx, t),
        tables_shown(cx, t),
    ensures
        p.well_formed(),
{
    assert forall|i: int| #![trigger p.derived@[i]] 0 <= i < p.derived@.len() implies match
        p.derived@[i].semantics {
        CompiledSemantics::Scalar(e) => crate::dense::scalar_fits(p, i as nat, 2, e),
        CompiledSemantics::Judgment(e) => crate::dense::judgment_fits(p, i as nat, 2, e),
    } by {
        assert(rule_shown(cx, t, i));
        let c = t.derived[i];
        let at = cx.position(c.name@)->Some_0;
        match (compiled_source(cx.rule_at(at)), c.semantics) {
            (Some(DerivedSemantics::Scalar(e)), CompiledSemantics::Scalar(x)) => {
                shows_scalar_fits(cx, t, p, i as nat, c.name@, x, e);
            },
            (Some(DerivedSemantics::Judgment(e)), CompiledSemantics::Judgment(x)) => {
                shows_judgment_fits(cx, t, p, i as nat, c.name@, x, e);
            },
            _ => {},
        }
    }
    assert forall|i: int| #![trigger p.relations@[i]] 0 <= i < p.relations@.len() implies {
        &&& p.relations@[i].parent_relation matches Some(parent) ==> {
            &&& parent < i
            &&& p.relations@[parent as int].key@ == p.relations@[i].key@
        }
        &&& p.relations@[i].filter matches Some(filter) ==> crate::dense::related_judgment_fits(
            p,
            0,
            0,
            i as nat,
            filter,
        )
    } by {
        assert(relation_based(cx, t, i));
        assert(relation_filtered(cx, t, i));
        let key = t.lookups[i];
        if let Some(parent) = t.relations[i].parent_relation {
            assert(relation_based(cx, t, parent as int));
            let d = cx.derivation(key.name)->Some_0;
            assert(cx.derivation(d.source_relation@) is Some);
            chain_step(cx, key.name, d);
        }
        if let (Some(d), Some(filter)) = (cx.derivation(key.name), t.relations[i].filter) {
            shows_related_judgment_fits(
                cx,
                t,
                p,
                0,
                0,
                i as nat,
                Seq::empty(),
                cx.rules(),
                filter,
                d.predicate,
            );
        }
    }
}

/// What comes of compiling the rules of an entity.
pub open spec fn compiles_to(
    program: Program,
    entity: Option<Seq<char>>,
    r: Result<DenseCompiledProgram, DenseCompileError>,
) -> bool {
    match root_choice(program, entity) {
        Err(e) => r matches Err(error) && error@ == e,
        Ok(root) => {
            let cx = CompileFacts { program, root };
            if forall|i: int| #![trigger program.derived@[i]]
                0 <= i < program.derived@.len() ==> program.derived@[i].entity@ != root {
                r matches Err(error) && error@ == DenseErrorView::UnknownEntity(root)
            } else {
                match compile_fault(cx, cx.rules()) {
                    Some(e) => r matches Err(error) && error@ == e,
                    None => r matches Ok(p) && p.well_formed() && stands_for(p, cx),
                }
            }
        },
    }
}

impl DenseCompiledProgram {
    /// Compiles the rules of an entity of a compiled program's source, once its rounding is
    /// found in order.
    pub fn from_artifact(artifact: &CompiledProgramArtifact, entity: Option<&str>) -> (r: Result<
        DenseCompiledProgram,
        DenseCompileError,
    >)
        ensures
            match rounding_fault(artifact.program, artifact.program.derived@.len()) {
                Some(derived) => r matches Err(error) && error@ == DenseErrorView::Spec(
                    CompileErrorView::RoundingUnit { derived },
                ),
                None => compiles_to(
                    artifact.program,
                    match entity {
                        Some(e) => Some(e@),
                        None => None,
                    },
                    r,
                ),
            },
    {
        match validate_rounding(&artifact.program) {
            Ok(()) => {},
            Err(error) => return Err(DenseCompileError::Spec(error)),
        }
        DenseCompiledProgram::from_program(&artifact.program, entity)
    }

    /// Compiles the rules of an entity, and all that they refer to. Without a requested
    /// entity, the rules must be of one.
    pub fn from_program(program: &Program, entity: Option<&str>) -> (r: Result<
        DenseCompiledProgram,
        DenseCompileError,
    >)
        ensures
            compiles_to(
                *program,
                match entity {
                    Some(e) => Some(e@),
                    None => None,
                },
                r,
            ),
    {
        let root_entity = match entity {
            Some(entity) => owned(entity),
            None => match chosen_entity(program) {
                Ok(entity) => entity,
                Err(error) => return Err(error),
            },
        };
        let ghost cx = CompileFacts { program: *program, root: root_entity@ };
        let mut available = false;
        let mut i: usize = 0;
        while i < program.derived.len()
            invariant
                i <= program.derived@.len(),
                available == exists|j: int| #![trigger program.derived@[j]]
                    0 <= j < i && program.derived@[j].entity@ == root_entity@,
            decreases program.derived@.len() - i,
        {
            if same(program.derived[i].entity.as_str(), root_entity.as_str()) {
                assert(program.derived@[i as int].entity@ == root_entity@);
                available = true;
            }
            i = i + 1;
        }
        if !available {
            return Err(DenseCompileError::UnknownEntity(root_entity));
        }
        let mut compiler = DenseCompiler::new(program, root_entity);
        proof {
            reached_none(cx);
        }
        let mut i: usize = 0;
        while i < program.derived.len()
            invariant
                i <= program.derived@.len(),
                cx.program == *program,
                compiler.whole(),
                compiler.facts() == cx,
                compiler.stack() =~= Seq::<nat>::empty(),
                compiler.program == program,
                exists|j: int| #![trigger program.derived@[j]]
                    0 <= j < program.derived@.len() && program.derived@[j].entity@ == cx.root,
                root_choice(
                    *program,
                    match entity {
                        Some(e) => Some(e@),
                        None => None,
                    },
                ) == Ok::<Seq<char>, DenseErrorView>(cx.root),
                compile_fault(cx, i as nat) is None,
                listed(compiler.tables()) == reached(cx, root_rules(cx, i as nat)),
            decreases program.derived@.len() - i,
        {
            let derived = &program.derived[i];
            if same(derived.entity.as_str(), compiler.root_entity.as_str()) {
                proof {
                    position_from_meaning(program.derived@, derived.name@, 0);
                    assert(program.derived@[i as int].label_of() == derived.name@);
                }
                let position = match find_index(&program.derived, derived.name.as_str()) {
                    Some(position) => position,
                    None => i,
                };
                match compiler.compile_derived(position) {
                    Ok(_) => {
                        proof {
                            reached_both(
                                cx,
                                root_rules(cx, i as nat),
                                one(Read::Rule(derived.name@)),
                            );
                        }
                    },
                    Err(error) => {
                        proof {
                            assert(compiler.stack() == compiler.stack());
                            compile_fault_kept(cx, (i + 1) as nat, cx.rules());
                        }
                        return Err(error);
                    },
                }
            } else {
                let ghost none = Set::<Read>::empty();
                assert(root_rules(cx, i as nat) + none =~= root_rules(cx, i as nat));
            }
            i = i + 1;
        }
        let ghost t = compiler.tables();
        let p = DenseCompiledProgram {
            root_entity: compiler.root_entity,
            root_inputs: compiler.root_inputs,
            relations: compiler.relations,
            parameters: compiler.parameters,
            derived: compiler.derived,
        };
        proof {
            assert(program_has(p, t));
            tables_well_formed(p, cx, t);
            assert forall|x: Read| lists(t, x) <==> #[trigger] program_reads(cx).contains(x) by {
                listed_is(t, x);
            }
        }
        Ok(p)
    }
}

/// The only entity that rules have.
fn chosen_entity(program: &Program) -> (r: Result<String, DenseCompileError>)
    ensures
        match r {
            Ok(entity) => root_choice(*program, None) == Ok::<Seq<char>, DenseErrorView>(entity@),
            Err(error) => root_choice(*program, None) == Err::<Seq<char>, DenseErrorView>(error@),
        },
{
    let mut first: Option<&str> = None;
    let mut i: usize = 0;
    while i < program.derived.len()
        invariant
            i <= program.derived@.len(),
            first_entity(program.derived@, i as nat) == match first {
                Some(entity) => Some(entity@),
                None => None,
            },
        decreases program.derived@.len() - i,
    {
        let entity = program.derived[i].entity.as_str();
        if first.is_none() && !same(entity, SCALAR_ENTITY) {
            first = Some(entity);
        }
        i = i + 1;
    }
    let first = match first {
        Some(first) => first,
        None => return Ok(owned(SCALAR_ENTITY)),
    };
    let mut i: usize = 0;
    while i < program.derived.len()
        invariant
            i <= program.derived@.len(),
            first_entity(program.derived@, program.derived@.len()) == Some(first@),
            forall|j: int| #![trigger program.derived@[j]]
                0 <= j < i ==> program.derived@[j].entity@ == first@
                    || program.derived@[j].entity@ == SCALAR_ENTITY@,
        decreases program.derived@.len() - i,
    {
        let entity = program.derived[i].entity.as_str();
        if !same(entity, SCALAR_ENTITY) && !same(entity, first) {
            assert(!one_entity(program.derived@, first@)) by {
                assert(program.derived@[i as int].entity@ == entity@);
            }
            return Err(DenseCompileError::AmbiguousRootEntity);
        }
        i = i + 1;
    }
    Ok(owned(first))
}

} // verus!
