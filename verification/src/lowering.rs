//! What compilation of a program for one root entity gives.
//!
//! Two things are stated of each formula: the first reason for which it cannot be
//! compiled, in the order of its parts, and which compiled formula stands for it
//! over the tables of inputs, relations, parameters and rules. Rules of related
//! entities, and rules that a related formula reads of the root, are put in place.
use crate::compile::CompileErrorView;
use crate::column::{MatchLabels, ShiftUnit};
use crate::dense::{
    judgment_fits, judgments_fit, related_judgment_fits, related_judgments_fit,
    related_scalar_fits, related_scalars_fit, scalar_fits, scalars_fit, CompiledDerived,
    CompiledJudgmentExpr, CompiledParameter, CompiledRelatedJudgmentExpr,
    CompiledRelatedScalarExpr, CompiledScalarExpr, DenseCompiledProgram, DenseRelationSchema,
    RelationKeyView,
};
use crate::format::{operand_label, operand_labels};
use crate::model::{
    item_named, position_of, Derived, DerivedSemantics, JudgmentExpr, OverPeriodsKind, Program,
    RelatedValueRef, RelationDerivation, ScalarExpr, SCALAR_ENTITY,
};
use crate::reductions::{
    either, nested_in, nested_in_judgments, nested_in_related, nested_in_related_judgments,
    nested_judgment_kind, nested_kind, nested_related_judgment_kind, nested_related_kind,
};
use vstd::prelude::*;

verus! {

/// The model of a [`crate::compiler::DenseCompileError`].
pub ghost enum DenseErrorView {
    Spec(CompileErrorView),
    AmbiguousRootEntity,
    UnknownEntity(Seq<char>),
    Unsupported(Seq<char>),
    NestedOverPeriods { outer: Seq<char>, inner: Seq<char> },
    CrossEntityDependency { derived: Seq<char>, dependency: Seq<char>, entity: Seq<char> },
}

/// A program and the root entity that it is compiled for.
pub ghost struct CompileFacts {
    pub program: Program,
    pub root: Seq<char>,
}

impl CompileFacts {
    /// Number of rules.
    pub open spec fn rules(self) -> nat {
        self.program.derived@.len()
    }

    pub open spec fn rule_at(self, p: nat) -> Derived {
        self.program.derived@[p as int]
    }

    pub open spec fn position(self, name: Seq<char>) -> Option<nat> {
        position_of(self.program.derived@, name)
    }

    /// Whether a rule belongs to another entity than the root.
    pub open spec fn foreign(self, p: nat) -> bool {
        self.rule_at(p).entity@ != self.root && self.rule_at(p).entity@ != SCALAR_ENTITY@
    }

    /// How a failed `match` names its rule.
    pub open spec fn rule_label(self, rule: Seq<char>) -> Seq<char> {
        match item_named(self.program.derived@, rule) {
            Some(d) => match d.id {
                Some(id) => id@,
                None => rule,
            },
            None => rule,
        }
    }

    /// The derivation of a relation.
    pub open spec fn derivation(self, name: Seq<char>) -> Option<RelationDerivation> {
        match item_named(self.program.relations@, name) {
            Some(r) => r.derivation,
            None => None,
        }
    }
}

/// The entities of a relation's slots and the relation that supplies its rows.
pub ghost struct RelationInfo {
    pub current: Option<Seq<char>>,
    pub related: Option<Seq<char>>,
    pub name: Seq<char>,
}

pub open spec fn text_view(text: Option<String>) -> Option<Seq<char>> {
    match text {
        Some(t) => Some(t@),
        None => None,
    }
}

pub open spec fn info_of(schema: DenseRelationSchema) -> RelationInfo {
    RelationInfo {
        current: text_view(schema.current_entity),
        related: text_view(schema.related_entity),
        name: schema.key.name@,
    }
}

/// The first of two faults.
pub open spec fn earlier(a: Option<DenseErrorView>, b: Option<DenseErrorView>) -> Option<
    DenseErrorView,
> {
    if a is Some {
        a
    } else {
        b
    }
}

pub open spec fn unsupported(what: Seq<char>) -> Option<DenseErrorView> {
    Some(DenseErrorView::Unsupported(what))
}

/// A rule that is reached from itself.
pub open spec fn cyclic(name: Seq<char>) -> Option<DenseErrorView> {
    unsupported("cyclic dense compilation dependency involving `"@ + name + "`"@)
}

pub open spec fn crossing(derived: Seq<char>, dependency: Seq<char>, entity: Seq<char>) -> Option<
    DenseErrorView,
> {
    Some(DenseErrorView::CrossEntityDependency { derived, dependency, entity })
}

pub open spec fn no_match_outside_if() -> Option<DenseErrorView> {
    unsupported("a `match` fallback (`no_match`) that is not the `else` branch of an `if`"@)
}

/// The fault of a parameter that is read.
pub open spec fn parameter_fault(cx: CompileFacts, name: Seq<char>) -> Option<DenseErrorView> {
    if item_named(cx.program.parameters@, name) is None {
        unsupported("unknown parameter `"@ + name + "`"@)
    } else {
        None
    }
}

/// The number of further rules that can be entered from a stack of rules.
pub open spec fn budget(cx: CompileFacts, stack: Seq<nat>) -> nat {
    if stack.len() <= cx.rules() {
        (cx.rules() - stack.len()) as nat
    } else {
        0
    }
}

/// The formula that a rule is compiled from, and its commencement: that of its only
/// version where that has no end, or of the rule itself where it has no version.
pub open spec fn compiled_source(d: Derived) -> Option<DerivedSemantics> {
    if d.versions@.len() == 0 {
        Some(d.semantics)
    } else if d.versions@.len() == 1 && d.versions@[0].effective_to is None {
        Some(d.versions@[0].semantics)
    } else {
        None
    }
}

/// The first fault of a root rule, reached over the rules of `stack`.
pub open spec fn rule_fault(cx: CompileFacts, stack: Seq<nat>, p: nat) -> Option<DenseErrorView>
    decreases budget(cx, stack), 0nat, cx, 0int, 0nat,
{
    let d = cx.rule_at(p);
    let name = d.name@;
    if stack.contains(p) || stack.len() >= cx.rules() {
        cyclic(name)
    } else {
        match compiled_source(d) {
            None => unsupported(
                "versioned derived formulas in `"@ + name + "`; use generic API execution"@,
            ),
            Some(semantics) => if cx.foreign(p) {
                crossing(name, name, d.entity@)
            } else {
                match semantics {
                    DerivedSemantics::Scalar(e) => scalar_fault(cx, stack.push(p), name, e),
                    DerivedSemantics::Judgment(e) => judgment_fault(cx, stack.push(p), name, e),
                }
            },
        }
    }
}

/// The first fault of a root formula of `rule`, reached over the rules of `stack`.
pub open spec fn scalar_fault(cx: CompileFacts, stack: Seq<nat>, rule: Seq<char>, e: ScalarExpr) -> Option<DenseErrorView>
    decreases budget(cx, stack), 1nat, e, 1int, 0nat,
{
    match e {
        ScalarExpr::Literal(_) => None,
        ScalarExpr::Input(_) => None,
        ScalarExpr::InputOrElse { .. } => None,
        ScalarExpr::Derived(name) => match cx.position(name@) {
            None => unsupported(
                "unknown scalar dependency `"@ + name@ + "` referenced from `"@ + rule + "`"@,
            ),
            Some(p) => if cx.foreign(p) {
                crossing(rule, name@, cx.rule_at(p).entity@)
            } else {
                rule_fault(cx, stack, p)
            },
        },
        ScalarExpr::ParameterLookup { parameter, index } => earlier(
            parameter_fault(cx, parameter@),
            scalar_fault(cx, stack, rule, *index),
        ),
        ScalarExpr::Add(items) => scalars_fault(cx, stack, rule, items@, items@.len()),
        ScalarExpr::Max(items) => scalars_fault(cx, stack, rule, items@, items@.len()),
        ScalarExpr::Min(items) => scalars_fault(cx, stack, rule, items@, items@.len()),
        ScalarExpr::Sub(a, b) => earlier(scalar_fault(cx, stack, rule, *a), scalar_fault(cx, stack, rule, *b)),
        ScalarExpr::Mul(a, b) => earlier(scalar_fault(cx, stack, rule, *a), scalar_fault(cx, stack, rule, *b)),
        ScalarExpr::Div(a, b) => earlier(scalar_fault(cx, stack, rule, *a), scalar_fault(cx, stack, rule, *b)),
        ScalarExpr::Ceil(a) => scalar_fault(cx, stack, rule, *a),
        ScalarExpr::Floor(a) => scalar_fault(cx, stack, rule, *a),
        ScalarExpr::PeriodStart => None,
        ScalarExpr::PeriodEnd => None,
        ScalarExpr::DateAddDays { date, days } => earlier(scalar_fault(cx, stack, rule, *date), scalar_fault(cx, stack, rule, *days)),
        ScalarExpr::DateAddMonths { date, months } => earlier(scalar_fault(cx, stack, rule, *date), scalar_fault(cx, stack, rule, *months)),
        ScalarExpr::DateAddYears { date, years } => earlier(scalar_fault(cx, stack, rule, *date), scalar_fault(cx, stack, rule, *years)),
        ScalarExpr::DaysBetween { from, to } => earlier(scalar_fault(cx, stack, rule, *from), scalar_fault(cx, stack, rule, *to)),
        ScalarExpr::CountRelated { relation, current_slot, related_slot, where_clause } => {
            let key = lookup_key(relation@, current_slot as nat, related_slot as nat);
            earlier(
                relation_fault(cx, key),
                match where_clause {
                    Some(w) => related_judgment_fault(cx, relation_info(cx, key), cx.rules(), *w),
                    None => None,
                },
            )
        },
        ScalarExpr::SumRelated { relation, current_slot, related_slot, value, where_clause } => {
            let key = lookup_key(relation@, current_slot as nat, related_slot as nat);
            let info = relation_info(cx, key);
            earlier(
                earlier(
                    relation_fault(cx, key),
                    match value {
                        RelatedValueRef::Input(_) => None,
                        RelatedValueRef::Derived(name) => related_rule_fault(
                            cx,
                            info,
                            cx.rules(),
                            name@,
                        ),
                    },
                ),
                match where_clause {
                    Some(w) => related_judgment_fault(cx, info, cx.rules(), *w),
                    None => None,
                },
            )
        },
        ScalarExpr::If { condition, then_expr, else_expr } => earlier(
            earlier(judgment_fault(cx, stack, rule, *condition), scalar_fault(cx, stack, rule, *then_expr)),
            match *else_expr {
                ScalarExpr::NoMatch { subject, .. } => scalar_fault(cx, stack, rule, *subject),
                _ => scalar_fault(cx, stack, rule, *else_expr),
            },
        ),
        ScalarExpr::NoMatch { .. } => no_match_outside_if(),
        ScalarExpr::OverPeriods { kind, value, n } => earlier(
            earlier(
                scalar_fault(cx, stack, rule, *value),
                match n {
                    Some(n) => scalar_fault(cx, stack, rule, *n),
                    None => None,
                },
            ),
            match either(
                source_nested(*value),
                match n {
                    Some(n) => source_nested(*n),
                    None => None,
                },
            ) {
                Some(inner) => Some(
                    DenseErrorView::NestedOverPeriods {
                        outer: kind.call_name(),
                        inner: inner.call_name(),
                    },
                ),
                None => None,
            },
        ),
    }
}

/// The first fault of the first `n` items.
pub open spec fn scalars_fault(cx: CompileFacts, stack: Seq<nat>, rule: Seq<char>, items: Seq<ScalarExpr>, n: nat) -> Option<DenseErrorView>
    decreases budget(cx, stack), 1nat, items, 0int, n,
{
    if n == 0 || n > items.len() {
        None
    } else {
        earlier(
            scalars_fault(cx, stack, rule, items, (n - 1) as nat),
            scalar_fault(cx, stack, rule, items[n - 1]),
        )
    }
}

/// The first fault of a root judgment of `rule`, reached over the rules of `stack`.
pub open spec fn judgment_fault(cx: CompileFacts, stack: Seq<nat>, rule: Seq<char>, e: JudgmentExpr) -> Option<DenseErrorView>
    decreases budget(cx, stack), 1nat, e, 1int, 0nat,
{
    match e {
        JudgmentExpr::Comparison { left, right, .. } => earlier(scalar_fault(cx, stack, rule, left), scalar_fault(cx, stack, rule, right)),
        JudgmentExpr::Derived(name) => match cx.position(name@) {
            None => unsupported(
                "unknown judgment dependency `"@ + name@ + "` referenced from `"@ + rule + "`"@,
            ),
            Some(p) => if cx.foreign(p) {
                crossing(rule, name@, cx.rule_at(p).entity@)
            } else {
                rule_fault(cx, stack, p)
            },
        },
        JudgmentExpr::RelationMember { relation, .. } => unsupported("relation predicate `"@ + relation@ + "`"@),
        JudgmentExpr::And(items) => judgments_fault(cx, stack, rule, items@, items@.len()),
        JudgmentExpr::Or(items) => judgments_fault(cx, stack, rule, items@, items@.len()),
        JudgmentExpr::Not(item) => judgment_fault(cx, stack, rule, *item),
    }
}

/// The first fault of the first `n` items.
pub open spec fn judgments_fault(cx: CompileFacts, stack: Seq<nat>, rule: Seq<char>, items: Seq<JudgmentExpr>, n: nat) -> Option<DenseErrorView>
    decreases budget(cx, stack), 1nat, items, 0int, n,
{
    if n == 0 || n > items.len() {
        None
    } else {
        earlier(
            judgments_fault(cx, stack, rule, items, (n - 1) as nat),
            judgment_fault(cx, stack, rule, items[n - 1]),
        )
    }
}

/// A relation as a formula names it.
pub open spec fn lookup_key(name: Seq<char>, current_slot: nat, related_slot: nat) -> RelationKeyView {
    RelationKeyView { name, current_slot, related_slot }
}

/// How many derived relations a relation is derived over, within `fuel`.
pub open spec fn chain_within(cx: CompileFacts, fuel: nat, name: Seq<char>) -> Option<nat>
    decreases fuel,
{
    match cx.derivation(name) {
        None => Some(0),
        Some(d) => if cx.derivation(d.source_relation@) is None {
            Some(0)
        } else if fuel == 0 {
            None
        } else {
            match chain_within(cx, (fuel - 1) as nat, d.source_relation@) {
                Some(k) => Some(k + 1),
                None => None,
            }
        },
    }
}

/// How many derived relations a relation is derived over, where it is not over itself.
pub open spec fn chain(cx: CompileFacts, name: Seq<char>) -> Option<nat> {
    chain_within(cx, cx.program.relations@.len(), name)
}

/// The source of a derived relation, as its derivation names it.
pub open spec fn source_key(d: RelationDerivation) -> RelationKeyView {
    lookup_key(d.source_relation@, d.current_slot as nat, d.related_slot as nat)
}

/// The relation that supplies the rows of a relation, `k` derivations below it.
pub open spec fn base_key(cx: CompileFacts, k: nat, key: RelationKeyView) -> RelationKeyView
    decreases k,
{
    match cx.derivation(key.name) {
        None => key,
        Some(d) => if k == 0 {
            source_key(d)
        } else {
            base_key(cx, (k - 1) as nat, source_key(d))
        },
    }
}

pub open spec fn slot_entity(entities: Seq<String>, slot: usize) -> Option<Seq<char>> {
    if slot < entities.len() {
        Some(entities[slot as int]@)
    } else {
        None
    }
}

/// The entities of a relation's slots and the relation that supplies its rows.
pub open spec fn relation_info(cx: CompileFacts, key: RelationKeyView) -> RelationInfo {
    let name = base_key(cx, chain(cx, key.name).unwrap_or(0), key).name;
    match cx.derivation(key.name) {
        None => RelationInfo { current: None, related: None, name },
        Some(d) => RelationInfo {
            current: slot_entity(d.slot_entities@, d.current_slot),
            related: slot_entity(d.slot_entities@, d.related_slot),
            name,
        },
    }
}

/// The first fault of a relation over `k` derived ones: that of its source, then that
/// of its own predicate.
pub open spec fn relation_fault_at(cx: CompileFacts, k: nat, key: RelationKeyView) -> Option<
    DenseErrorView,
>
    decreases k,
{
    match cx.derivation(key.name) {
        None => None,
        Some(d) => earlier(
            if k == 0 {
                None
            } else {
                relation_fault_at(cx, (k - 1) as nat, source_key(d))
            },
            related_judgment_fault(cx, relation_info(cx, key), cx.rules(), d.predicate),
        ),
    }
}

/// The first fault of a relation.
pub open spec fn relation_fault(cx: CompileFacts, key: RelationKeyView) -> Option<DenseErrorView> {
    match chain(cx, key.name) {
        None => cyclic(key.name),
        Some(k) => relation_fault_at(cx, k, key),
    }
}

/// Whether a rule that a related formula reads is one of the relation's current rows.
pub open spec fn reads_current(cx: CompileFacts, info: RelationInfo, d: Derived) -> bool {
    info.current == Some(d.entity@) || d.entity@ == cx.root
}

/// Whether a rule that a related formula reads is of neither of the relation's entities.
pub open spec fn reads_neither(info: RelationInfo, d: Derived) -> bool {
    info.related is Some && info.related != Some(d.entity@)
}

/// The fault of a rule that a related formula reads.
pub open spec fn related_rule_fault(
    cx: CompileFacts,
    info: RelationInfo,
    depth: nat,
    name: Seq<char>,
) -> Option<DenseErrorView>
    decreases depth, 0nat, cx, 0int, 0nat,
{
    match cx.position(name) {
        None => unsupported("unknown related scalar dependency `"@ + name + "`"@),
        Some(p) => {
            let d = cx.rule_at(p);
            let current = reads_current(cx, info, d) || d.entity@ == SCALAR_ENTITY@;
            if !current && reads_neither(info, d) {
                unsupported(
                    "related scalar `"@ + name + "` has entity `"@ + d.entity@
                        + "`, which is neither current nor related for relation `"@ + info.name
                        + "`"@,
                )
            } else {
                match d.semantics {
                    DerivedSemantics::Judgment(_) => unsupported(
                        "related scalar expressions cannot reference judgment derived values (`"@
                            + name + "`)"@,
                    ),
                    DerivedSemantics::Scalar(e) => if depth == 0 {
                        cyclic(name)
                    } else if current {
                        current_fault(cx, name, d.entity@, (depth - 1) as nat, e)
                    } else {
                        related_fault(cx, info, (depth - 1) as nat, e)
                    },
                }
            }
        },
    }
}

/// The fault of a judgment rule that a related test reads.
pub open spec fn related_judgment_rule_fault(
    cx: CompileFacts,
    info: RelationInfo,
    depth: nat,
    name: Seq<char>,
) -> Option<DenseErrorView>
    decreases depth, 0nat, cx, 0int, 0nat,
{
    match cx.position(name) {
        None => unsupported("unknown related judgment dependency `"@ + name + "`"@),
        Some(p) => {
            let d = cx.rule_at(p);
            let current = reads_current(cx, info, d);
            if !current && reads_neither(info, d) {
                unsupported(
                    "related predicate `"@ + name + "` has entity `"@ + d.entity@
                        + "`, which is neither current nor related for relation `"@ + info.name
                        + "`"@,
                )
            } else {
                match d.semantics {
                    DerivedSemantics::Scalar(_) => unsupported(
                        "where-clause predicates cannot reference scalar derived values (`"@ + name
                            + "`)"@,
                    ),
                    DerivedSemantics::Judgment(e) => if depth == 0 {
                        cyclic(name)
                    } else if current {
                        current_judgment_fault(cx, name, d.entity@, (depth - 1) as nat, e)
                    } else {
                        related_judgment_fault(cx, info, (depth - 1) as nat, e)
                    },
                }
            }
        },
    }
}

/// Whether a rule of an entity may read a rule that is put in its place.
pub open spec fn crosses(cx: CompileFacts, entity: Seq<char>, d: Derived) -> bool {
    d.entity@ != entity && d.entity@ != cx.root && d.entity@ != SCALAR_ENTITY@
}

/// The fault of a rule that a formula put in place reads.
pub open spec fn current_rule_fault(
    cx: CompileFacts,
    rule: Seq<char>,
    entity: Seq<char>,
    depth: nat,
    name: Seq<char>,
) -> Option<DenseErrorView>
    decreases depth, 0nat, cx, 0int, 0nat,
{
    match cx.position(name) {
        None => unsupported(
            "unknown scalar dependency `"@ + name + "` referenced from `"@ + rule + "`"@,
        ),
        Some(p) => {
            let d = cx.rule_at(p);
            if crosses(cx, entity, d) {
                crossing(rule, name, d.entity@)
            } else {
                match d.semantics {
                    DerivedSemantics::Judgment(_) => unsupported(
                        "scalar expression cannot reference judgment derived value (`"@ + name
                            + "`)"@,
                    ),
                    DerivedSemantics::Scalar(e) => if depth == 0 {
                        cyclic(name)
                    } else {
                        current_fault(cx, name, d.entity@, (depth - 1) as nat, e)
                    },
                }
            }
        },
    }
}

/// The fault of a judgment rule that a formula put in place reads.
pub open spec fn current_judgment_rule_fault(
    cx: CompileFacts,
    rule: Seq<char>,
    entity: Seq<char>,
    depth: nat,
    name: Seq<char>,
) -> Option<DenseErrorView>
    decreases depth, 0nat, cx, 0int, 0nat,
{
    match cx.position(name) {
        None => unsupported(
            "unknown judgment dependency `"@ + name + "` referenced from `"@ + rule + "`"@,
        ),
        Some(p) => {
            let d = cx.rule_at(p);
            if crosses(cx, entity, d) {
                crossing(rule, name, d.entity@)
            } else {
                match d.semantics {
                    DerivedSemantics::Scalar(_) => unsupported(
                        "judgment expression cannot reference scalar derived value (`"@ + name
                            + "`)"@,
                    ),
                    DerivedSemantics::Judgment(e) => if depth == 0 {
                        cyclic(name)
                    } else {
                        current_judgment_fault(cx, name, d.entity@, (depth - 1) as nat, e)
                    },
                }
            }
        },
    }
}

/// The first reduction inside a formula, as its compiled form shows it.
pub open spec fn source_nested(e: ScalarExpr) -> Option<OverPeriodsKind>
    decreases e, 1int, 0nat,
{
    match e {
        ScalarExpr::OverPeriods { kind, .. } => Some(kind),
        ScalarExpr::ParameterLookup { index, .. } => source_nested(*index),
        ScalarExpr::Add(items) => sources_nested(items@, items@.len()),
        ScalarExpr::Max(items) => sources_nested(items@, items@.len()),
        ScalarExpr::Min(items) => sources_nested(items@, items@.len()),
        ScalarExpr::Sub(a, b) => either(source_nested(*a), source_nested(*b)),
        ScalarExpr::Mul(a, b) => either(source_nested(*a), source_nested(*b)),
        ScalarExpr::Div(a, b) => either(source_nested(*a), source_nested(*b)),
        ScalarExpr::Ceil(a) => source_nested(*a),
        ScalarExpr::Floor(a) => source_nested(*a),
        ScalarExpr::DateAddDays { date, days } => either(
            source_nested(*date),
            source_nested(*days),
        ),
        ScalarExpr::DateAddMonths { date, months } => either(
            source_nested(*date),
            source_nested(*months),
        ),
        ScalarExpr::DateAddYears { date, years } => either(
            source_nested(*date),
            source_nested(*years),
        ),
        ScalarExpr::DaysBetween { from, to } => either(source_nested(*from), source_nested(*to)),
        ScalarExpr::If { condition, then_expr, else_expr } => either(
            source_judgment_nested(*condition),
            either(
                source_nested(*then_expr),
                match *else_expr {
                    ScalarExpr::NoMatch { subject, .. } => either(
                        source_nested(*subject),
                        source_nested(*then_expr),
                    ),
                    _ => source_nested(*else_expr),
                },
            ),
        ),
        ScalarExpr::CountRelated { where_clause, .. } => match where_clause {
            Some(w) => source_judgment_nested(*w),
            None => None,
        },
        ScalarExpr::SumRelated { where_clause, .. } => match where_clause {
            Some(w) => source_judgment_nested(*w),
            None => None,
        },
        _ => None,
    }
}

/// The first reduction inside a judgment, as its compiled form shows it.
pub open spec fn source_judgment_nested(e: JudgmentExpr) -> Option<OverPeriodsKind>
    decreases e, 1int, 0nat,
{
    match e {
        JudgmentExpr::Comparison { left, right, .. } => either(
            source_nested(left),
            source_nested(right),
        ),
        JudgmentExpr::And(items) => source_judgments_nested(items@, items@.len()),
        JudgmentExpr::Or(items) => source_judgments_nested(items@, items@.len()),
        JudgmentExpr::Not(item) => source_judgment_nested(*item),
        _ => None,
    }
}

pub open spec fn source_judgments_nested(items: Seq<JudgmentExpr>, n: nat) -> Option<
    OverPeriodsKind,
>
    decreases items, 0int, n,
{
    if n == 0 || n > items.len() {
        None
    } else {
        either(
            source_judgments_nested(items, (n - 1) as nat),
            source_judgment_nested(items[n - 1]),
        )
    }
}

pub open spec fn sources_nested(items: Seq<ScalarExpr>, n: nat) -> Option<OverPeriodsKind>
    decreases items, 0int, n,
{
    if n == 0 || n > items.len() {
        None
    } else {
        either(sources_nested(items, (n - 1) as nat), source_nested(items[n - 1]))
    }
}

/// The first fault of a formula over related rows, with `depth` rules still to enter.
pub open spec fn related_fault(cx: CompileFacts, info: RelationInfo, depth: nat, e: ScalarExpr) -> Option<DenseErrorView>
    decreases depth, 1nat, e, 1int, 0nat,
{
    match e {
        ScalarExpr::Literal(_) => None,
        ScalarExpr::Input(_) => None,
        ScalarExpr::InputOrElse { .. } => None,
        ScalarExpr::Derived(name) => related_rule_fault(cx, info, depth, name@),
        ScalarExpr::ParameterLookup { parameter, index } => earlier(
            parameter_fault(cx, parameter@),
            related_fault(cx, info, depth, *index),
        ),
        ScalarExpr::Add(items) => relateds_fault(cx, info, depth, items@, items@.len()),
        ScalarExpr::Max(items) => relateds_fault(cx, info, depth, items@, items@.len()),
        ScalarExpr::Min(items) => relateds_fault(cx, info, depth, items@, items@.len()),
        ScalarExpr::Sub(a, b) => earlier(related_fault(cx, info, depth, *a), related_fault(cx, info, depth, *b)),
        ScalarExpr::Mul(a, b) => earlier(related_fault(cx, info, depth, *a), related_fault(cx, info, depth, *b)),
        ScalarExpr::Div(a, b) => earlier(related_fault(cx, info, depth, *a), related_fault(cx, info, depth, *b)),
        ScalarExpr::Ceil(a) => related_fault(cx, info, depth, *a),
        ScalarExpr::Floor(a) => related_fault(cx, info, depth, *a),
        ScalarExpr::PeriodStart => None,
        ScalarExpr::PeriodEnd => None,
        ScalarExpr::DateAddDays { date, days } => earlier(related_fault(cx, info, depth, *date), related_fault(cx, info, depth, *days)),
        ScalarExpr::DateAddMonths { date, months } => earlier(related_fault(cx, info, depth, *date), related_fault(cx, info, depth, *months)),
        ScalarExpr::DateAddYears { date, years } => earlier(related_fault(cx, info, depth, *date), related_fault(cx, info, depth, *years)),
        ScalarExpr::DaysBetween { from, to } => earlier(related_fault(cx, info, depth, *from), related_fault(cx, info, depth, *to)),
        ScalarExpr::CountRelated { relation, .. } => unsupported(
            "aggregation over relation `"@ + relation@ + "` nested inside a related expression"@,
        ),
        ScalarExpr::SumRelated { relation, .. } => unsupported(
            "aggregation over relation `"@ + relation@ + "` nested inside a related expression"@,
        ),
        ScalarExpr::If { condition, then_expr, else_expr } => earlier(
            earlier(related_judgment_fault(cx, info, depth, *condition), related_fault(cx, info, depth, *then_expr)),
            match *else_expr {
                ScalarExpr::NoMatch { subject, .. } => related_fault(cx, info, depth, *subject),
                _ => related_fault(cx, info, depth, *else_expr),
            },
        ),
        ScalarExpr::NoMatch { .. } => no_match_outside_if(),
        ScalarExpr::OverPeriods { kind, .. } => unsupported(
            "over-periods reduction `"@ + kind.call_name()
                + "` nested inside a related expression"@,
        ),
    }
}

/// The first fault of the first `n` items.
pub open spec fn relateds_fault(cx: CompileFacts, info: RelationInfo, depth: nat, items: Seq<ScalarExpr>, n: nat) -> Option<DenseErrorView>
    decreases depth, 1nat, items, 0int, n,
{
    if n == 0 || n > items.len() {
        None
    } else {
        earlier(
            relateds_fault(cx, info, depth, items, (n - 1) as nat),
            related_fault(cx, info, depth, items[n - 1]),
        )
    }
}

/// The first fault of a test on related rows, with `depth` rules still to enter.
pub open spec fn related_judgment_fault(cx: CompileFacts, info: RelationInfo, depth: nat, e: JudgmentExpr) -> Option<DenseErrorView>
    decreases depth, 1nat, e, 1int, 0nat,
{
    match e {
        JudgmentExpr::Comparison { left, right, .. } => earlier(related_fault(cx, info, depth, left), related_fault(cx, info, depth, right)),
        JudgmentExpr::Derived(name) => related_judgment_rule_fault(cx, info, depth, name@),
        JudgmentExpr::RelationMember { relation, .. } => None,
        JudgmentExpr::And(items) => related_judgments_fault(cx, info, depth, items@, items@.len()),
        JudgmentExpr::Or(items) => related_judgments_fault(cx, info, depth, items@, items@.len()),
        JudgmentExpr::Not(item) => related_judgment_fault(cx, info, depth, *item),
    }
}

/// The first fault of the first `n` items.
pub open spec fn related_judgments_fault(cx: CompileFacts, info: RelationInfo, depth: nat, items: Seq<JudgmentExpr>, n: nat) -> Option<DenseErrorView>
    decreases depth, 1nat, items, 0int, n,
{
    if n == 0 || n > items.len() {
        None
    } else {
        earlier(
            related_judgments_fault(cx, info, depth, items, (n - 1) as nat),
            related_judgment_fault(cx, info, depth, items[n - 1]),
        )
    }
}

/// The first fault of a formula of `rule` that is put in place, with `depth` rules still to enter.
pub open spec fn current_fault(cx: CompileFacts, rule: Seq<char>, entity: Seq<char>, depth: nat, e: ScalarExpr) -> Option<DenseErrorView>
    decreases depth, 1nat, e, 1int, 0nat,
{
    match e {
        ScalarExpr::Literal(_) => None,
        ScalarExpr::Input(_) => None,
        ScalarExpr::InputOrElse { .. } => None,
        ScalarExpr::Derived(name) => current_rule_fault(cx, rule, entity, depth, name@),
        ScalarExpr::ParameterLookup { parameter, index } => earlier(
            parameter_fault(cx, parameter@),
            current_fault(cx, rule, entity, depth, *index),
        ),
        ScalarExpr::Add(items) => currents_fault(cx, rule, entity, depth, items@, items@.len()),
        ScalarExpr::Max(items) => currents_fault(cx, rule, entity, depth, items@, items@.len()),
        ScalarExpr::Min(items) => currents_fault(cx, rule, entity, depth, items@, items@.len()),
        ScalarExpr::Sub(a, b) => earlier(current_fault(cx, rule, entity, depth, *a), current_fault(cx, rule, entity, depth, *b)),
        ScalarExpr::Mul(a, b) => earlier(current_fault(cx, rule, entity, depth, *a), current_fault(cx, rule, entity, depth, *b)),
        ScalarExpr::Div(a, b) => earlier(current_fault(cx, rule, entity, depth, *a), current_fault(cx, rule, entity, depth, *b)),
        ScalarExpr::Ceil(a) => current_fault(cx, rule, entity, depth, *a),
        ScalarExpr::Floor(a) => current_fault(cx, rule, entity, depth, *a),
        ScalarExpr::PeriodStart => None,
        ScalarExpr::PeriodEnd => None,
        ScalarExpr::DateAddDays { date, days } => earlier(current_fault(cx, rule, entity, depth, *date), current_fault(cx, rule, entity, depth, *days)),
        ScalarExpr::DateAddMonths { date, months } => earlier(current_fault(cx, rule, entity, depth, *date), current_fault(cx, rule, entity, depth, *months)),
        ScalarExpr::DateAddYears { date, years } => earlier(current_fault(cx, rule, entity, depth, *date), current_fault(cx, rule, entity, depth, *years)),
        ScalarExpr::DaysBetween { from, to } => earlier(current_fault(cx, rule, entity, depth, *from), current_fault(cx, rule, entity, depth, *to)),
        ScalarExpr::CountRelated { .. } => unsupported(
            "current-entity derived relation predicates cannot aggregate another relation"@,
        ),
        ScalarExpr::SumRelated { .. } => unsupported(
            "current-entity derived relation predicates cannot aggregate another relation"@,
        ),
        ScalarExpr::If { condition, then_expr, else_expr } => earlier(
            earlier(current_judgment_fault(cx, rule, entity, depth, *condition), current_fault(cx, rule, entity, depth, *then_expr)),
            match *else_expr {
                ScalarExpr::NoMatch { subject, .. } => current_fault(cx, rule, entity, depth, *subject),
                _ => current_fault(cx, rule, entity, depth, *else_expr),
            },
        ),
        ScalarExpr::NoMatch { .. } => no_match_outside_if(),
        ScalarExpr::OverPeriods { kind, .. } => unsupported(
            "over-periods reduction `"@ + kind.call_name()
                + "` nested inside a current-entity related expression"@,
        ),
    }
}

/// The first fault of the first `n` items.
pub open spec fn currents_fault(cx: CompileFacts, rule: Seq<char>, entity: Seq<char>, depth: nat, items: Seq<ScalarExpr>, n: nat) -> Option<DenseErrorView>
    decreases depth, 1nat, items, 0int, n,
{
    if n == 0 || n > items.len() {
        None
    } else {
        earlier(
            currents_fault(cx, rule, entity, depth, items, (n - 1) as nat),
            current_fault(cx, rule, entity, depth, items[n - 1]),
        )
    }
}

/// The first fault of a judgment of `rule` that is put in place, with `depth` rules still to enter.
pub open spec fn current_judgment_fault(cx: CompileFacts, rule: Seq<char>, entity: Seq<char>, depth: nat, e: JudgmentExpr) -> Option<DenseErrorView>
    decreases depth, 1nat, e, 1int, 0nat,
{
    match e {
        JudgmentExpr::Comparison { left, right, .. } => earlier(current_fault(cx, rule, entity, depth, left), current_fault(cx, rule, entity, depth, right)),
        JudgmentExpr::Derived(name) => current_judgment_rule_fault(cx, rule, entity, depth, name@),
        JudgmentExpr::RelationMember { relation, .. } => unsupported("current-entity relation predicate `"@ + relation@ + "`"@),
        JudgmentExpr::And(items) => current_judgments_fault(cx, rule, entity, depth, items@, items@.len()),
        JudgmentExpr::Or(items) => current_judgments_fault(cx, rule, entity, depth, items@, items@.len()),
        JudgmentExpr::Not(item) => current_judgment_fault(cx, rule, entity, depth, *item),
    }
}

/// The first fault of the first `n` items.
pub open spec fn current_judgments_fault(cx: CompileFacts, rule: Seq<char>, entity: Seq<char>, depth: nat, items: Seq<JudgmentExpr>, n: nat) -> Option<DenseErrorView>
    decreases depth, 1nat, items, 0int, n,
{
    if n == 0 || n > items.len() {
        None
    } else {
        earlier(
            current_judgments_fault(cx, rule, entity, depth, items, (n - 1) as nat),
            current_judgment_fault(cx, rule, entity, depth, items[n - 1]),
        )
    }
}

/// The tables of a compilation.
pub ghost struct Tables {
    pub root_inputs: Seq<String>,
    /// Each relation as formulas name it.
    pub lookups: Seq<RelationKeyView>,
    pub relations: Seq<DenseRelationSchema>,
    pub parameters: Seq<CompiledParameter>,
    pub derived: Seq<CompiledDerived>,
}

/// Whether labels are those of a `match` in a rule.
pub open spec fn labels_are(
    cx: CompileFacts,
    labels: MatchLabels,
    rule: Seq<char>,
    subject: ScalarExpr,
    patterns: Seq<ScalarExpr>,
) -> bool {
    &&& labels.rule@ == cx.rule_label(rule)
    &&& labels.subject@ == operand_label(subject)
    &&& labels.patterns@ == operand_labels(patterns, patterns.len())
}

/// Whether a position is that of an input.
pub open spec fn input_is(inputs: Seq<String>, i: usize, name: Seq<char>) -> bool {
    i < inputs.len() && inputs[i as int]@ == name
}

/// Whether a position is that of a parameter.
pub open spec fn parameter_is(t: Tables, i: usize, name: Seq<char>) -> bool {
    i < t.parameters.len() && t.parameters[i as int].parameter.name@ == name
}

/// Whether a compiled formula stands for a root formula of `rule`, over the rules below
/// `bound`.
pub open spec fn shows_scalar(cx: CompileFacts, t: Tables, bound: nat, rule: Seq<char>, c: CompiledScalarExpr, e: ScalarExpr) -> bool
    decreases cx.rules() + 1, 1nat, e, 1int, 0nat,
{
    match (e, c) {
        (ScalarExpr::Literal(value), CompiledScalarExpr::Literal(v)) => v == value,
        (ScalarExpr::Input(name), CompiledScalarExpr::Input(i)) => input_is(t.root_inputs, i, name@),
        (
            ScalarExpr::InputOrElse { name, default },
            CompiledScalarExpr::InputOrElse { input, default: v },
        ) => input_is(t.root_inputs, input, name@) && v == default,
        (
            ScalarExpr::ParameterLookup { parameter, index },
            CompiledScalarExpr::ParameterLookup { parameter: i, index: k },
        ) => parameter_is(t, i, parameter@) && shows_scalar(cx, t, bound, rule, *k, *index),
        (ScalarExpr::Add(items), CompiledScalarExpr::Add(list)) => list@.len() == items@.len()
            && shows_scalars(cx, t, bound, rule, list@, items@, items@.len()),
        (ScalarExpr::Max(items), CompiledScalarExpr::Max(list)) => list@.len() == items@.len()
            && shows_scalars(cx, t, bound, rule, list@, items@, items@.len()),
        (ScalarExpr::Min(items), CompiledScalarExpr::Min(list)) => list@.len() == items@.len()
            && shows_scalars(cx, t, bound, rule, list@, items@, items@.len()),
        (ScalarExpr::Sub(a, b), CompiledScalarExpr::Sub(x, y)) => shows_scalar(cx, t, bound, rule, *x, *a) && shows_scalar(cx, t, bound, rule, *y, *b),
        (ScalarExpr::Mul(a, b), CompiledScalarExpr::Mul(x, y)) => shows_scalar(cx, t, bound, rule, *x, *a) && shows_scalar(cx, t, bound, rule, *y, *b),
        (ScalarExpr::Div(a, b), CompiledScalarExpr::Div(x, y)) => shows_scalar(cx, t, bound, rule, *x, *a) && shows_scalar(cx, t, bound, rule, *y, *b),
        (ScalarExpr::Ceil(a), CompiledScalarExpr::Ceil(x)) => shows_scalar(cx, t, bound, rule, *x, *a),
        (ScalarExpr::Floor(a), CompiledScalarExpr::Floor(x)) => shows_scalar(cx, t, bound, rule, *x, *a),
        (ScalarExpr::PeriodStart, CompiledScalarExpr::PeriodStart) => true,
        (ScalarExpr::PeriodEnd, CompiledScalarExpr::PeriodEnd) => true,
        (
            ScalarExpr::DateAddDays { date, days },
            CompiledScalarExpr::DateShift { unit, date: d, count },
        ) => unit == ShiftUnit::Days && shows_scalar(cx, t, bound, rule, *d, *date) && shows_scalar(cx, t, bound, rule, *count, *days),
        (
            ScalarExpr::DateAddMonths { date, months },
            CompiledScalarExpr::DateShift { unit, date: d, count },
        ) => unit == ShiftUnit::Months && shows_scalar(cx, t, bound, rule, *d, *date) && shows_scalar(cx, t, bound, rule, *count, *months),
        (
            ScalarExpr::DateAddYears { date, years },
            CompiledScalarExpr::DateShift { unit, date: d, count },
        ) => unit == ShiftUnit::Years && shows_scalar(cx, t, bound, rule, *d, *date) && shows_scalar(cx, t, bound, rule, *count, *years),
        (
            ScalarExpr::DaysBetween { from, to },
            CompiledScalarExpr::DaysBetween { from: a, to: b },
        ) => shows_scalar(cx, t, bound, rule, *a, *from) && shows_scalar(cx, t, bound, rule, *b, *to),
        (
            ScalarExpr::If { condition, then_expr, else_expr },
            CompiledScalarExpr::If { condition: q, then_expr: x, else_expr: y },
        ) => {
            &&& shows_judgment(cx, t, bound, rule, *q, *condition)
            &&& shows_scalar(cx, t, bound, rule, *x, *then_expr)
            &&& match (*else_expr, *y) {
                (
                    ScalarExpr::NoMatch { subject, patterns },
                    CompiledScalarExpr::NoMatch { subject: s, placeholder, labels },
                ) => {
                    &&& shows_scalar(cx, t, bound, rule, *s, *subject)
                    &&& shows_scalar(cx, t, bound, rule, *placeholder, *then_expr)
                    &&& labels_are(cx, labels, rule, *subject, patterns@)
                },
                (ScalarExpr::NoMatch { .. }, _) => false,
                _ => shows_scalar(cx, t, bound, rule, *y, *else_expr),
            }
        },
        (ScalarExpr::Derived(name), CompiledScalarExpr::Derived(i)) => i < bound && i
            < t.derived.len() && t.derived[i as int].name@ == name@,
        (
            ScalarExpr::CountRelated { relation, current_slot, related_slot, where_clause },
            CompiledScalarExpr::CountRelated { relation: i, predicate },
        ) => {
            &&& i < t.lookups.len()
            &&& t.lookups[i as int] == lookup_key(
                relation@,
                current_slot as nat,
                related_slot as nat,
            )
            &&& match (where_clause, predicate) {
                (None, None) => true,
                (Some(w), Some(q)) => shows_related_judgment(
                    cx,
                    t,
                    i as nat,
                    rule,
                    cx.rules(),
                    *q,
                    *w,
                ),
                _ => false,
            }
        },
        (
            ScalarExpr::SumRelated { relation, current_slot, related_slot, value, where_clause },
            CompiledScalarExpr::SumRelated { relation: i, value: v, predicate },
        ) => {
            &&& i < t.lookups.len()
            &&& t.lookups[i as int] == lookup_key(
                relation@,
                current_slot as nat,
                related_slot as nat,
            )
            &&& match value {
                RelatedValueRef::Input(name) => *v matches CompiledRelatedScalarExpr::Input(k)
                    && input_is(t.relations[i as int].related_inputs@, k, name@),
                RelatedValueRef::Derived(name) => shows_related_rule(
                    cx,
                    t,
                    i as nat,
                    cx.rules(),
                    *v,
                    name@,
                ),
            }
            &&& match (where_clause, predicate) {
                (None, None) => true,
                (Some(w), Some(q)) => shows_related_judgment(
                    cx,
                    t,
                    i as nat,
                    rule,
                    cx.rules(),
                    *q,
                    *w,
                ),
                _ => false,
            }
        },
        (
            ScalarExpr::OverPeriods { kind, value, n },
            CompiledScalarExpr::OverPeriods { kind: k, value: v, n: m },
        ) => {
            &&& k == kind
            &&& shows_scalar(cx, t, bound, rule, *v, *value)
            &&& match (n, m) {
                (None, None) => true,
                (Some(n), Some(m)) => shows_scalar(cx, t, bound, rule, *m, *n),
                _ => false,
            }
        },
        _ => false,
    }
}

/// Whether the first `n` compiled formulas stand for the first `n` formulas.
pub open spec fn shows_scalars(cx: CompileFacts, t: Tables, bound: nat, rule: Seq<char>, list: Seq<CompiledScalarExpr>, items: Seq<ScalarExpr>, n: nat) -> bool
    decreases cx.rules() + 1, 1nat, items, 0int, n,
{
    n == 0 || n > items.len() || n > list.len() || (shows_scalars(cx, t, bound, rule, list, items, (n - 1) as nat) && shows_scalar(
        cx, t, bound, rule, list[n - 1], items[n - 1]))
}

/// Whether a compiled judgment stands for a root judgment of `rule`.
pub open spec fn shows_judgment(cx: CompileFacts, t: Tables, bound: nat, rule: Seq<char>, c: CompiledJudgmentExpr, e: JudgmentExpr) -> bool
    decreases cx.rules() + 1, 1nat, e, 1int, 0nat,
{
    match (e, c) {
        (
            JudgmentExpr::Comparison { left, op, right },
            CompiledJudgmentExpr::Comparison { left: x, op: o, right: y },
        ) => o == op && shows_scalar(cx, t, bound, rule, x, left) && shows_scalar(cx, t, bound, rule, y, right),
        (JudgmentExpr::And(items), CompiledJudgmentExpr::And(list)) => list@.len() == items@.len()
            && shows_judgments(cx, t, bound, rule, list@, items@, items@.len()),
        (JudgmentExpr::Or(items), CompiledJudgmentExpr::Or(list)) => list@.len() == items@.len()
            && shows_judgments(cx, t, bound, rule, list@, items@, items@.len()),
        (JudgmentExpr::Not(item), CompiledJudgmentExpr::Not(x)) => shows_judgment(cx, t, bound, rule, *x, *item),
        (JudgmentExpr::Derived(name), CompiledJudgmentExpr::Derived(i)) => i < bound && i
            < t.derived.len() && t.derived[i as int].name@ == name@,
        _ => false,
    }
}

pub open spec fn shows_judgments(cx: CompileFacts, t: Tables, bound: nat, rule: Seq<char>, list: Seq<CompiledJudgmentExpr>, items: Seq<JudgmentExpr>, n: nat) -> bool
    decreases cx.rules() + 1, 1nat, items, 0int, n,
{
    n == 0 || n > items.len() || n > list.len() || (shows_judgments(cx, t, bound, rule, list, items, (n - 1) as nat) && shows_judgment(
        cx, t, bound, rule, list[n - 1], items[n - 1]))
}

/// Whether a compiled formula stands for a formula over related rows in `rule`.
pub open spec fn shows_related(cx: CompileFacts, t: Tables, rel: nat, rule: Seq<char>, depth: nat, c: CompiledRelatedScalarExpr, e: ScalarExpr) -> bool
    decreases depth, 1nat, e, 1int, 0nat,
{
    match (e, c) {
        (ScalarExpr::Literal(value), CompiledRelatedScalarExpr::Literal(v)) => v == value,
        (ScalarExpr::Input(name), CompiledRelatedScalarExpr::Input(i)) => input_is(t.relations[rel as int].related_inputs@, i, name@),
        (
            ScalarExpr::InputOrElse { name, default },
            CompiledRelatedScalarExpr::InputOrElse { input, default: v },
        ) => input_is(t.relations[rel as int].related_inputs@, input, name@) && v == default,
        (
            ScalarExpr::ParameterLookup { parameter, index },
            CompiledRelatedScalarExpr::ParameterLookup { parameter: i, index: k },
        ) => parameter_is(t, i, parameter@) && shows_related(cx, t, rel, rule, depth, *k, *index),
        (ScalarExpr::Add(items), CompiledRelatedScalarExpr::Add(list)) => list@.len() == items@.len()
            && shows_relateds(cx, t, rel, rule, depth, list@, items@, items@.len()),
        (ScalarExpr::Max(items), CompiledRelatedScalarExpr::Max(list)) => list@.len() == items@.len()
            && shows_relateds(cx, t, rel, rule, depth, list@, items@, items@.len()),
        (ScalarExpr::Min(items), CompiledRelatedScalarExpr::Min(list)) => list@.len() == items@.len()
            && shows_relateds(cx, t, rel, rule, depth, list@, items@, items@.len()),
        (ScalarExpr::Sub(a, b), CompiledRelatedScalarExpr::Sub(x, y)) => shows_related(cx, t, rel, rule, depth, *x, *a) && shows_related(cx, t, rel, rule, depth, *y, *b),
        (ScalarExpr::Mul(a, b), CompiledRelatedScalarExpr::Mul(x, y)) => shows_related(cx, t, rel, rule, depth, *x, *a) && shows_related(cx, t, rel, rule, depth, *y, *b),
        (ScalarExpr::Div(a, b), CompiledRelatedScalarExpr::Div(x, y)) => shows_related(cx, t, rel, rule, depth, *x, *a) && shows_related(cx, t, rel, rule, depth, *y, *b),
        (ScalarExpr::Ceil(a), CompiledRelatedScalarExpr::Ceil(x)) => shows_related(cx, t, rel, rule, depth, *x, *a),
        (ScalarExpr::Floor(a), CompiledRelatedScalarExpr::Floor(x)) => shows_related(cx, t, rel, rule, depth, *x, *a),
        (ScalarExpr::PeriodStart, CompiledRelatedScalarExpr::PeriodStart) => true,
        (ScalarExpr::PeriodEnd, CompiledRelatedScalarExpr::PeriodEnd) => true,
        (
            ScalarExpr::DateAddDays { date, days },
            CompiledRelatedScalarExpr::DateShift { unit, date: d, count },
        ) => unit == ShiftUnit::Days && shows_related(cx, t, rel, rule, depth, *d, *date) && shows_related(cx, t, rel, rule, depth, *count, *days),
        (
            ScalarExpr::DateAddMonths { date, months },
            CompiledRelatedScalarExpr::DateShift { unit, date: d, count },
        ) => unit == ShiftUnit::Months && shows_related(cx, t, rel, rule, depth, *d, *date) && shows_related(cx, t, rel, rule, depth, *count, *months),
        (
            ScalarExpr::DateAddYears { date, years },
            CompiledRelatedScalarExpr::DateShift { unit, date: d, count },
        ) => unit == ShiftUnit::Years && shows_related(cx, t, rel, rule, depth, *d, *date) && shows_related(cx, t, rel, rule, depth, *count, *years),
        (
            ScalarExpr::DaysBetween { from, to },
            CompiledRelatedScalarExpr::DaysBetween { from: a, to: b },
        ) => shows_related(cx, t, rel, rule, depth, *a, *from) && shows_related(cx, t, rel, rule, depth, *b, *to),
        (
            ScalarExpr::If { condition, then_expr, else_expr },
            CompiledRelatedScalarExpr::If { condition: q, then_expr: x, else_expr: y },
        ) => {
            &&& shows_related_judgment(cx, t, rel, rule, depth, *q, *condition)
            &&& shows_related(cx, t, rel, rule, depth, *x, *then_expr)
            &&& match (*else_expr, *y) {
                (
                    ScalarExpr::NoMatch { subject, patterns },
                    CompiledRelatedScalarExpr::NoMatch { subject: s, placeholder, labels },
                ) => {
                    &&& shows_related(cx, t, rel, rule, depth, *s, *subject)
                    &&& shows_related(cx, t, rel, rule, depth, *placeholder, *then_expr)
                    &&& labels_are(cx, labels, rule, *subject, patterns@)
                },
                (ScalarExpr::NoMatch { .. }, _) => false,
                _ => shows_related(cx, t, rel, rule, depth, *y, *else_expr),
            }
        },
        (ScalarExpr::Derived(name), _) => shows_related_rule(cx, t, rel, depth, c, name@),
        _ => false,
    }
}

/// Whether the first `n` compiled formulas stand for the first `n` formulas.
pub open spec fn shows_relateds(cx: CompileFacts, t: Tables, rel: nat, rule: Seq<char>, depth: nat, list: Seq<CompiledRelatedScalarExpr>, items: Seq<ScalarExpr>, n: nat) -> bool
    decreases depth, 1nat, items, 0int, n,
{
    n == 0 || n > items.len() || n > list.len() || (shows_relateds(cx, t, rel, rule, depth, list, items, (n - 1) as nat) && shows_related(
        cx, t, rel, rule, depth, list[n - 1], items[n - 1]))
}

/// Whether a compiled test stands for a test on related rows in `rule`.
pub open spec fn shows_related_judgment(cx: CompileFacts, t: Tables, rel: nat, rule: Seq<char>, depth: nat, c: CompiledRelatedJudgmentExpr, e: JudgmentExpr) -> bool
    decreases depth, 1nat, e, 1int, 0nat,
{
    match (e, c) {
        (
            JudgmentExpr::Comparison { left, op, right },
            CompiledRelatedJudgmentExpr::Comparison { left: x, op: o, right: y },
        ) => o == op && shows_related(cx, t, rel, rule, depth, x, left) && shows_related(cx, t, rel, rule, depth, y, right),
        (JudgmentExpr::And(items), CompiledRelatedJudgmentExpr::And(list)) => list@.len() == items@.len()
            && shows_related_judgments(cx, t, rel, rule, depth, list@, items@, items@.len()),
        (JudgmentExpr::Or(items), CompiledRelatedJudgmentExpr::Or(list)) => list@.len() == items@.len()
            && shows_related_judgments(cx, t, rel, rule, depth, list@, items@, items@.len()),
        (JudgmentExpr::Not(item), CompiledRelatedJudgmentExpr::Not(x)) => shows_related_judgment(cx, t, rel, rule, depth, *x, *item),
        (JudgmentExpr::Derived(name), _) => shows_related_judgment_rule(cx, t, rel, depth, c, name@),
        (JudgmentExpr::RelationMember { .. }, CompiledRelatedJudgmentExpr::Literal(b)) => b,
        _ => false,
    }
}

pub open spec fn shows_related_judgments(cx: CompileFacts, t: Tables, rel: nat, rule: Seq<char>, depth: nat, list: Seq<CompiledRelatedJudgmentExpr>, items: Seq<JudgmentExpr>, n: nat) -> bool
    decreases depth, 1nat, items, 0int, n,
{
    n == 0 || n > items.len() || n > list.len() || (shows_related_judgments(cx, t, rel, rule, depth, list, items, (n - 1) as nat) && shows_related_judgment(
        cx, t, rel, rule, depth, list[n - 1], items[n - 1]))
}

/// Whether a compiled formula stands for a formula of `rule` that is put in place.
pub open spec fn shows_current(cx: CompileFacts, t: Tables, rule: Seq<char>, depth: nat, c: CompiledScalarExpr, e: ScalarExpr) -> bool
    decreases depth, 1nat, e, 1int, 0nat,
{
    match (e, c) {
        (ScalarExpr::Literal(value), CompiledScalarExpr::Literal(v)) => v == value,
        (ScalarExpr::Input(name), CompiledScalarExpr::Input(i)) => input_is(t.root_inputs, i, name@),
        (
            ScalarExpr::InputOrElse { name, default },
            CompiledScalarExpr::InputOrElse { input, default: v },
        ) => input_is(t.root_inputs, input, name@) && v == default,
        (
            ScalarExpr::ParameterLookup { parameter, index },
            CompiledScalarExpr::ParameterLookup { parameter: i, index: k },
        ) => parameter_is(t, i, parameter@) && shows_current(cx, t, rule, depth, *k, *index),
        (ScalarExpr::Add(items), CompiledScalarExpr::Add(list)) => list@.len() == items@.len()
            && shows_currents(cx, t, rule, depth, list@, items@, items@.len()),
        (ScalarExpr::Max(items), CompiledScalarExpr::Max(list)) => list@.len() == items@.len()
            && shows_currents(cx, t, rule, depth, list@, items@, items@.len()),
        (ScalarExpr::Min(items), CompiledScalarExpr::Min(list)) => list@.len() == items@.len()
            && shows_currents(cx, t, rule, depth, list@, items@, items@.len()),
        (ScalarExpr::Sub(a, b), CompiledScalarExpr::Sub(x, y)) => shows_current(cx, t, rule, depth, *x, *a) && shows_current(cx, t, rule, depth, *y, *b),
        (ScalarExpr::Mul(a, b), CompiledScalarExpr::Mul(x, y)) => shows_current(cx, t, rule, depth, *x, *a) && shows_current(cx, t, rule, depth, *y, *b),
        (ScalarExpr::Div(a, b), CompiledScalarExpr::Div(x, y)) => shows_current(cx, t, rule, depth, *x, *a) && shows_current(cx, t, rule, depth, *y, *b),
        (ScalarExpr::Ceil(a), CompiledScalarExpr::Ceil(x)) => shows_current(cx, t, rule, depth, *x, *a),
        (ScalarExpr::Floor(a), CompiledScalarExpr::Floor(x)) => shows_current(cx, t, rule, depth, *x, *a),
        (ScalarExpr::PeriodStart, CompiledScalarExpr::PeriodStart) => true,
        (ScalarExpr::PeriodEnd, CompiledScalarExpr::PeriodEnd) => true,
        (
            ScalarExpr::DateAddDays { date, days },
            CompiledScalarExpr::DateShift { unit, date: d, count },
        ) => unit == ShiftUnit::Days && shows_current(cx, t, rule, depth, *d, *date) && shows_current(cx, t, rule, depth, *count, *days),
        (
            ScalarExpr::DateAddMonths { date, months },
            CompiledScalarExpr::DateShift { unit, date: d, count },
        ) => unit == ShiftUnit::Months && shows_current(cx, t, rule, depth, *d, *date) && shows_current(cx, t, rule, depth, *count, *months),
        (
            ScalarExpr::DateAddYears { date, years },
            CompiledScalarExpr::DateShift { unit, date: d, count },
        ) => unit == ShiftUnit::Years && shows_current(cx, t, rule, depth, *d, *date) && shows_current(cx, t, rule, depth, *count, *years),
        (
            ScalarExpr::DaysBetween { from, to },
            CompiledScalarExpr::DaysBetween { from: a, to: b },
        ) => shows_current(cx, t, rule, depth, *a, *from) && shows_current(cx, t, rule, depth, *b, *to),
        (
            ScalarExpr::If { condition, then_expr, else_expr },
            CompiledScalarExpr::If { condition: q, then_expr: x, else_expr: y },
        ) => {
            &&& shows_current_judgment(cx, t, rule, depth, *q, *condition)
            &&& shows_current(cx, t, rule, depth, *x, *then_expr)
            &&& match (*else_expr, *y) {
                (
                    ScalarExpr::NoMatch { subject, patterns },
                    CompiledScalarExpr::NoMatch { subject: s, placeholder, labels },
                ) => {
                    &&& shows_current(cx, t, rule, depth, *s, *subject)
                    &&& shows_current(cx, t, rule, depth, *placeholder, *then_expr)
                    &&& labels_are(cx, labels, rule, *subject, patterns@)
                },
                (ScalarExpr::NoMatch { .. }, _) => false,
                _ => shows_current(cx, t, rule, depth, *y, *else_expr),
            }
        },
        (ScalarExpr::Derived(name), _) => match cx.position(name@) {
            None => false,
            Some(p) => match cx.rule_at(p).semantics {
                DerivedSemantics::Scalar(inner) => depth > 0 && shows_current(
                    cx,
                    t,
                    name@,
                    (depth - 1) as nat,
                    c,
                    inner,
                ),
                DerivedSemantics::Judgment(_) => false,
            },
        },
        _ => false,
    }
}

/// Whether the first `n` compiled formulas stand for the first `n` formulas.
pub open spec fn shows_currents(cx: CompileFacts, t: Tables, rule: Seq<char>, depth: nat, list: Seq<CompiledScalarExpr>, items: Seq<ScalarExpr>, n: nat) -> bool
    decreases depth, 1nat, items, 0int, n,
{
    n == 0 || n > items.len() || n > list.len() || (shows_currents(cx, t, rule, depth, list, items, (n - 1) as nat) && shows_current(
        cx, t, rule, depth, list[n - 1], items[n - 1]))
}

/// Whether a compiled judgment stands for a judgment of `rule` that is put in place.
pub open spec fn shows_current_judgment(cx: CompileFacts, t: Tables, rule: Seq<char>, depth: nat, c: CompiledJudgmentExpr, e: JudgmentExpr) -> bool
    decreases depth, 1nat, e, 1int, 0nat,
{
    match (e, c) {
        (
            JudgmentExpr::Comparison { left, op, right },
            CompiledJudgmentExpr::Comparison { left: x, op: o, right: y },
        ) => o == op && shows_current(cx, t, rule, depth, x, left) && shows_current(cx, t, rule, depth, y, right),
        (JudgmentExpr::And(items), CompiledJudgmentExpr::And(list)) => list@.len() == items@.len()
            && shows_current_judgments(cx, t, rule, depth, list@, items@, items@.len()),
        (JudgmentExpr::Or(items), CompiledJudgmentExpr::Or(list)) => list@.len() == items@.len()
            && shows_current_judgments(cx, t, rule, depth, list@, items@, items@.len()),
        (JudgmentExpr::Not(item), CompiledJudgmentExpr::Not(x)) => shows_current_judgment(cx, t, rule, depth, *x, *item),
        (JudgmentExpr::Derived(name), _) => match cx.position(name@) {
            None => false,
            Some(p) => match cx.rule_at(p).semantics {
                DerivedSemantics::Judgment(inner) => depth > 0 && shows_current_judgment(
                    cx,
                    t,
                    name@,
                    (depth - 1) as nat,
                    c,
                    inner,
                ),
                DerivedSemantics::Scalar(_) => false,
            },
        },
        _ => false,
    }
}

pub open spec fn shows_current_judgments(cx: CompileFacts, t: Tables, rule: Seq<char>, depth: nat, list: Seq<CompiledJudgmentExpr>, items: Seq<JudgmentExpr>, n: nat) -> bool
    decreases depth, 1nat, items, 0int, n,
{
    n == 0 || n > items.len() || n > list.len() || (shows_current_judgments(cx, t, rule, depth, list, items, (n - 1) as nat) && shows_current_judgment(
        cx, t, rule, depth, list[n - 1], items[n - 1]))
}

/// Whether a compiled formula stands for a rule that a related formula reads: put in
/// place over the root rows or over the related rows.
pub open spec fn shows_related_rule(
    cx: CompileFacts,
    t: Tables,
    rel: nat,
    depth: nat,
    c: CompiledRelatedScalarExpr,
    name: Seq<char>,
) -> bool
    decreases depth, 0nat, cx, 0int, 0nat,
{
    match cx.position(name) {
        None => false,
        Some(p) => {
            let d = cx.rule_at(p);
            let info = info_of(t.relations[rel as int]);
            match d.semantics {
                DerivedSemantics::Judgment(_) => false,
                DerivedSemantics::Scalar(e) => depth > 0 && if reads_current(cx, info, d)
                    || d.entity@ == SCALAR_ENTITY@ {
                    c matches CompiledRelatedScalarExpr::RootScalar(x) && shows_current(
                        cx,
                        t,
                        name,
                        (depth - 1) as nat,
                        *x,
                        e,
                    )
                } else {
                    shows_related(cx, t, rel, name, (depth - 1) as nat, c, e)
                },
            }
        },
    }
}

/// Whether a compiled test stands for a judgment rule that a related test reads.
pub open spec fn shows_related_judgment_rule(
    cx: CompileFacts,
    t: Tables,
    rel: nat,
    depth: nat,
    c: CompiledRelatedJudgmentExpr,
    name: Seq<char>,
) -> bool
    decreases depth, 0nat, cx, 0int, 0nat,
{
    match cx.position(name) {
        None => false,
        Some(p) => {
            let d = cx.rule_at(p);
            let info = info_of(t.relations[rel as int]);
            match d.semantics {
                DerivedSemantics::Scalar(_) => false,
                DerivedSemantics::Judgment(e) => depth > 0 && if reads_current(cx, info, d) {
                    c matches CompiledRelatedJudgmentExpr::RootJudgment(x)
                        && shows_current_judgment(cx, t, name, (depth - 1) as nat, *x, e)
                } else {
                    shows_related_judgment(cx, t, rel, name, (depth - 1) as nat, c, e)
                },
            }
        },
    }
}

/// Whether the second tables continue the first.
pub open spec fn grows(t: Tables, u: Tables) -> bool {
    &&& t.root_inputs.len() <= u.root_inputs.len()
    &&& forall|i: int| 0 <= i < t.root_inputs.len() ==> #[trigger] u.root_inputs[i] == t.root_inputs[i]
    &&& t.lookups.len() <= u.lookups.len()
    &&& forall|i: int| 0 <= i < t.lookups.len() ==> #[trigger] u.lookups[i] == t.lookups[i]
    &&& t.relations.len() <= u.relations.len()
    &&& forall|i: int| 0 <= i < t.relations.len() ==> #[trigger] relation_grows(t.relations[i], u.relations[i])
    &&& t.parameters.len() <= u.parameters.len()
    &&& forall|i: int| 0 <= i < t.parameters.len() ==> #[trigger] u.parameters[i] == t.parameters[i]
    &&& t.derived.len() <= u.derived.len()
    &&& forall|i: int| 0 <= i < t.derived.len() ==> #[trigger] u.derived[i] == t.derived[i]
}

/// Whether a relation is the same, with further inputs at most.
pub open spec fn relation_grows(a: DenseRelationSchema, b: DenseRelationSchema) -> bool {
    &&& a.key@ == b.key@
    &&& info_of(a) == info_of(b)
    &&& a.parent_relation == b.parent_relation
    &&& a.filter is Some ==> b.filter == a.filter
    &&& a.related_inputs@.len() <= b.related_inputs@.len()
    &&& forall|j: int|
        0 <= j < a.related_inputs@.len() ==> #[trigger] b.related_inputs@[j] == a.related_inputs@[j]
}

pub proof fn grows_on(t: Tables, u: Tables, v: Tables)
    requires
        grows(t, u),
        grows(u, v),
    ensures
        grows(t, v),
{
    assert forall|i: int| 0 <= i < t.relations.len() implies #[trigger] relation_grows(
        t.relations[i],
        v.relations[i],
    ) by {
        assert(relation_grows(t.relations[i], u.relations[i]));
        assert(relation_grows(u.relations[i], v.relations[i]));
        assert forall|j: int| 0 <= j < t.relations[i].related_inputs@.len() implies
            #[trigger] v.relations[i].related_inputs@[j] == t.relations[i].related_inputs@[j] by {
            assert(u.relations[i].related_inputs@[j] == t.relations[i].related_inputs@[j]);
        }
    }
    assert forall|i: int| 0 <= i < t.derived.len() implies #[trigger] v.derived[i]
        == t.derived[i] by {
        assert(u.derived[i] == t.derived[i]);
    }
    assert forall|i: int| 0 <= i < t.root_inputs.len() implies #[trigger] v.root_inputs[i]
        == t.root_inputs[i] by {
        assert(u.root_inputs[i] == t.root_inputs[i]);
    }
    assert forall|i: int| 0 <= i < t.lookups.len() implies #[trigger] v.lookups[i]
        == t.lookups[i] by {
        assert(u.lookups[i] == t.lookups[i]);
    }
    assert forall|i: int| 0 <= i < t.parameters.len() implies #[trigger] v.parameters[i]
        == t.parameters[i] by {
        assert(u.parameters[i] == t.parameters[i]);
    }
}

pub proof fn grows_self(t: Tables)
    ensures
        grows(t, t),
{
}

pub proof fn shows_scalar_grows(cx: CompileFacts, t: Tables, u: Tables, bound: nat, more: nat, rule: Seq<char>, c: CompiledScalarExpr, e: ScalarExpr)
    requires
        shows_scalar(cx, t, bound, rule, c, e),
        grows(t, u),
        t.lookups.len() == t.relations.len(),
        bound <= more,
    ensures
        shows_scalar(cx, u, more, rule, c, e),
    decreases cx.rules() + 1, 1nat, e, 1int, 0nat,
{
    match (e, c) {
        (ScalarExpr::ParameterLookup { index, .. }, CompiledScalarExpr::ParameterLookup { index: k, .. }) => {
            shows_scalar_grows(cx, t, u, bound, more, rule, *k, *index);
        },
        (ScalarExpr::Add(items), CompiledScalarExpr::Add(list)) => {
            shows_scalars_grows(cx, t, u, bound, more, rule, list@, items@, items@.len());
        },
        (ScalarExpr::Max(items), CompiledScalarExpr::Max(list)) => {
            shows_scalars_grows(cx, t, u, bound, more, rule, list@, items@, items@.len());
        },
        (ScalarExpr::Min(items), CompiledScalarExpr::Min(list)) => {
            shows_scalars_grows(cx, t, u, bound, more, rule, list@, items@, items@.len());
        },
        (ScalarExpr::Sub(a, b), CompiledScalarExpr::Sub(x, y)) => {
            shows_scalar_grows(cx, t, u, bound, more, rule, *x, *a);
            shows_scalar_grows(cx, t, u, bound, more, rule, *y, *b);
        },
        (ScalarExpr::Mul(a, b), CompiledScalarExpr::Mul(x, y)) => {
            shows_scalar_grows(cx, t, u, bound, more, rule, *x, *a);
            shows_scalar_grows(cx, t, u, bound, more, rule, *y, *b);
        },
        (ScalarExpr::Div(a, b), CompiledScalarExpr::Div(x, y)) => {
            shows_scalar_grows(cx, t, u, bound, more, rule, *x, *a);
            shows_scalar_grows(cx, t, u, bound, more, rule, *y, *b);
        },
        (ScalarExpr::Ceil(a), CompiledScalarExpr::Ceil(x)) => {
            shows_scalar_grows(cx, t, u, bound, more, rule, *x, *a);
        },
        (ScalarExpr::Floor(a), CompiledScalarExpr::Floor(x)) => {
            shows_scalar_grows(cx, t, u, bound, more, rule, *x, *a);
        },
        (ScalarExpr::DateAddDays { date, days }, CompiledScalarExpr::DateShift { date: d, count, .. }) => {
            shows_scalar_grows(cx, t, u, bound, more, rule, *d, *date);
            shows_scalar_grows(cx, t, u, bound, more, rule, *count, *days);
        },
        (ScalarExpr::DateAddMonths { date, months }, CompiledScalarExpr::DateShift { date: d, count, .. }) => {
            shows_scalar_grows(cx, t, u, bound, more, rule, *d, *date);
            shows_scalar_grows(cx, t, u, bound, more, rule, *count, *months);
        },
        (ScalarExpr::DateAddYears { date, years }, CompiledScalarExpr::DateShift { date: d, count, .. }) => {
            shows_scalar_grows(cx, t, u, bound, more, rule, *d, *date);
            shows_scalar_grows(cx, t, u, bound, more, rule, *count, *years);
        },
        (ScalarExpr::DaysBetween { from, to }, CompiledScalarExpr::DaysBetween { from: a, to: b }) => {
            shows_scalar_grows(cx, t, u, bound, more, rule, *a, *from);
            shows_scalar_grows(cx, t, u, bound, more, rule, *b, *to);
        },
        (
            ScalarExpr::If { condition, then_expr, else_expr },
            CompiledScalarExpr::If { condition: q, then_expr: x, else_expr: y },
        ) => {
            shows_judgment_grows(cx, t, u, bound, more, rule, *q, *condition);
            shows_scalar_grows(cx, t, u, bound, more, rule, *x, *then_expr);
            match (*else_expr, *y) {
                (
                    ScalarExpr::NoMatch { subject, .. },
                    CompiledScalarExpr::NoMatch { subject: s, placeholder, .. },
                ) => {
                    shows_scalar_grows(cx, t, u, bound, more, rule, *s, *subject);
                    shows_scalar_grows(cx, t, u, bound, more, rule, *placeholder, *then_expr);
                    
                },
                _ => {
                    shows_scalar_grows(cx, t, u, bound, more, rule, *y, *else_expr);
                },
            }
        },
        (ScalarExpr::CountRelated { where_clause, .. }, CompiledScalarExpr::CountRelated { relation: i, predicate }) => {
            assert(relation_grows(t.relations[i as int], u.relations[i as int]));
            if let (Some(w), Some(q)) = (where_clause, predicate) {
                shows_related_judgment_grows(cx, t, u, i as nat, rule, cx.rules(), *q, *w);
            }
        },
        (
            ScalarExpr::SumRelated { value, where_clause, .. },
            CompiledScalarExpr::SumRelated { relation: i, value: v, predicate },
        ) => {
            assert(relation_grows(t.relations[i as int], u.relations[i as int]));
            if let RelatedValueRef::Derived(name) = value {
                shows_related_rule_grows(cx, t, u, i as nat, cx.rules(), *v, name@);
            }
            if let (Some(w), Some(q)) = (where_clause, predicate) {
                shows_related_judgment_grows(cx, t, u, i as nat, rule, cx.rules(), *q, *w);
            }
        },
        (ScalarExpr::OverPeriods { value, n, .. }, CompiledScalarExpr::OverPeriods { value: v, n: m, .. }) => {
            shows_scalar_grows(cx, t, u, bound, more, rule, *v, *value);
            if let (Some(n), Some(m)) = (n, m) {
                shows_scalar_grows(cx, t, u, bound, more, rule, *m, *n);
            }
        },
        _ => {},
    }
}

pub proof fn shows_scalars_grows(cx: CompileFacts, t: Tables, u: Tables, bound: nat, more: nat, rule: Seq<char>, list: Seq<CompiledScalarExpr>, items: Seq<ScalarExpr>, n: nat)
    requires
        shows_scalars(cx, t, bound, rule, list, items, n),
        n <= items.len(),
        n <= list.len(),
        grows(t, u),
        t.lookups.len() == t.relations.len(),
        bound <= more,
    ensures
        shows_scalars(cx, u, more, rule, list, items, n),
    decreases cx.rules() + 1, 1nat, items, 0int, n,
{
    if n > 0 {
        shows_scalars_grows(cx, t, u, bound, more, rule, list, items, (n - 1) as nat);
        shows_scalar_grows(cx, t, u, bound, more, rule, list[n - 1], items[n - 1]);
    }
}

pub proof fn shows_judgment_grows(cx: CompileFacts, t: Tables, u: Tables, bound: nat, more: nat, rule: Seq<char>, c: CompiledJudgmentExpr, e: JudgmentExpr)
    requires
        shows_judgment(cx, t, bound, rule, c, e),
        grows(t, u),
        t.lookups.len() == t.relations.len(),
        bound <= more,
    ensures
        shows_judgment(cx, u, more, rule, c, e),
    decreases cx.rules() + 1, 1nat, e, 1int, 0nat,
{
    match (e, c) {
        (
            JudgmentExpr::Comparison { left, right, .. },
            CompiledJudgmentExpr::Comparison { left: x, right: y, .. },
        ) => {
            shows_scalar_grows(cx, t, u, bound, more, rule, x, left);
            shows_scalar_grows(cx, t, u, bound, more, rule, y, right);
        },
        (JudgmentExpr::And(items), CompiledJudgmentExpr::And(list)) => {
            shows_judgments_grows(cx, t, u, bound, more, rule, list@, items@, items@.len());
        },
        (JudgmentExpr::Or(items), CompiledJudgmentExpr::Or(list)) => {
            shows_judgments_grows(cx, t, u, bound, more, rule, list@, items@, items@.len());
        },
        (JudgmentExpr::Not(item), CompiledJudgmentExpr::Not(x)) => {
            shows_judgment_grows(cx, t, u, bound, more, rule, *x, *item);
        },
        _ => {},
    }
}

pub proof fn shows_judgments_grows(cx: CompileFacts, t: Tables, u: Tables, bound: nat, more: nat, rule: Seq<char>, list: Seq<CompiledJudgmentExpr>, items: Seq<JudgmentExpr>, n: nat)
    requires
        shows_judgments(cx, t, bound, rule, list, items, n),
        n <= items.len(),
        n <= list.len(),
        grows(t, u),
        t.lookups.len() == t.relations.len(),
        bound <= more,
    ensures
        shows_judgments(cx, u, more, rule, list, items, n),
    decreases cx.rules() + 1, 1nat, items, 0int, n,
{
    if n > 0 {
        shows_judgments_grows(cx, t, u, bound, more, rule, list, items, (n - 1) as nat);
        shows_judgment_grows(cx, t, u, bound, more, rule, list[n - 1], items[n - 1]);
    }
}

pub proof fn shows_related_grows(cx: CompileFacts, t: Tables, u: Tables, rel: nat, rule: Seq<char>, depth: nat, c: CompiledRelatedScalarExpr, e: ScalarExpr)
    requires
        shows_related(cx, t, rel, rule, depth, c, e),
        grows(t, u),
        rel < t.relations.len(),
        relation_grows(t.relations[rel as int], u.relations[rel as int]),
    ensures
        shows_related(cx, u, rel, rule, depth, c, e),
    decreases depth, 1nat, e, 1int, 0nat,
{
    match (e, c) {
        (ScalarExpr::ParameterLookup { index, .. }, CompiledRelatedScalarExpr::ParameterLookup { index: k, .. }) => {
            shows_related_grows(cx, t, u, rel, rule, depth, *k, *index);
        },
        (ScalarExpr::Add(items), CompiledRelatedScalarExpr::Add(list)) => {
            shows_relateds_grows(cx, t, u, rel, rule, depth, list@, items@, items@.len());
        },
        (ScalarExpr::Max(items), CompiledRelatedScalarExpr::Max(list)) => {
            shows_relateds_grows(cx, t, u, rel, rule, depth, list@, items@, items@.len());
        },
        (ScalarExpr::Min(items), CompiledRelatedScalarExpr::Min(list)) => {
            shows_relateds_grows(cx, t, u, rel, rule, depth, list@, items@, items@.len());
        },
        (ScalarExpr::Sub(a, b), CompiledRelatedScalarExpr::Sub(x, y)) => {
            shows_related_grows(cx, t, u, rel, rule, depth, *x, *a);
            shows_related_grows(cx, t, u, rel, rule, depth, *y, *b);
        },
        (ScalarExpr::Mul(a, b), CompiledRelatedScalarExpr::Mul(x, y)) => {
            shows_related_grows(cx, t, u, rel, rule, depth, *x, *a);
            shows_related_grows(cx, t, u, rel, rule, depth, *y, *b);
        },
        (ScalarExpr::Div(a, b), CompiledRelatedScalarExpr::Div(x, y)) => {
            shows_related_grows(cx, t, u, rel, rule, depth, *x, *a);
            shows_related_grows(cx, t, u, rel, rule, depth, *y, *b);
        },
        (ScalarExpr::Ceil(a), CompiledRelatedScalarExpr::Ceil(x)) => {
            shows_related_grows(cx, t, u, rel, rule, depth, *x, *a);
        },
        (ScalarExpr::Floor(a), CompiledRelatedScalarExpr::Floor(x)) => {
            shows_related_grows(cx, t, u, rel, rule, depth, *x, *a);
        },
        (ScalarExpr::DateAddDays { date, days }, CompiledRelatedScalarExpr::DateShift { date: d, count, .. }) => {
            shows_related_grows(cx, t, u, rel, rule, depth, *d, *date);
            shows_related_grows(cx, t, u, rel, rule, depth, *count, *days);
        },
        (ScalarExpr::DateAddMonths { date, months }, CompiledRelatedScalarExpr::DateShift { date: d, count, .. }) => {
            shows_related_grows(cx, t, u, rel, rule, depth, *d, *date);
            shows_related_grows(cx, t, u, rel, rule, depth, *count, *months);
        },
        (ScalarExpr::DateAddYears { date, years }, CompiledRelatedScalarExpr::DateShift { date: d, count, .. }) => {
            shows_related_grows(cx, t, u, rel, rule, depth, *d, *date);
            shows_related_grows(cx, t, u, rel, rule, depth, *count, *years);
        },
        (ScalarExpr::DaysBetween { from, to }, CompiledRelatedScalarExpr::DaysBetween { from: a, to: b }) => {
            shows_related_grows(cx, t, u, rel, rule, depth, *a, *from);
            shows_related_grows(cx, t, u, rel, rule, depth, *b, *to);
        },
        (
            ScalarExpr::If { condition, then_expr, else_expr },
            CompiledRelatedScalarExpr::If { condition: q, then_expr: x, else_expr: y },
        ) => {
            shows_related_judgment_grows(cx, t, u, rel, rule, depth, *q, *condition);
            shows_related_grows(cx, t, u, rel, rule, depth, *x, *then_expr);
            match (*else_expr, *y) {
                (
                    ScalarExpr::NoMatch { subject, .. },
                    CompiledRelatedScalarExpr::NoMatch { subject: s, placeholder, .. },
                ) => {
                    shows_related_grows(cx, t, u, rel, rule, depth, *s, *subject);
                    shows_related_grows(cx, t, u, rel, rule, depth, *placeholder, *then_expr);
                    
                },
                _ => {
                    shows_related_grows(cx, t, u, rel, rule, depth, *y, *else_expr);
                },
            }
        },
        (ScalarExpr::Derived(name), _) => {
            shows_related_rule_grows(cx, t, u, rel, depth, c, name@);
        },
        _ => {},
    }
}

pub proof fn shows_relateds_grows(cx: CompileFacts, t: Tables, u: Tables, rel: nat, rule: Seq<char>, depth: nat, list: Seq<CompiledRelatedScalarExpr>, items: Seq<ScalarExpr>, n: nat)
    requires
        shows_relateds(cx, t, rel, rule, depth, list, items, n),
        n <= items.len(),
        n <= list.len(),
        grows(t, u),
        rel < t.relations.len(),
        relation_grows(t.relations[rel as int], u.relations[rel as int]),
    ensures
        shows_relateds(cx, u, rel, rule, depth, list, items, n),
    decreases depth, 1nat, items, 0int, n,
{
    if n > 0 {
        shows_relateds_grows(cx, t, u, rel, rule, depth, list, items, (n - 1) as nat);
        shows_related_grows(cx, t, u, rel, rule, depth, list[n - 1], items[n - 1]);
    }
}

pub proof fn shows_related_judgment_grows(cx: CompileFacts, t: Tables, u: Tables, rel: nat, rule: Seq<char>, depth: nat, c: CompiledRelatedJudgmentExpr, e: JudgmentExpr)
    requires
        shows_related_judgment(cx, t, rel, rule, depth, c, e),
        grows(t, u),
        rel < t.relations.len(),
        relation_grows(t.relations[rel as int], u.relations[rel as int]),
    ensures
        shows_related_judgment(cx, u, rel, rule, depth, c, e),
    decreases depth, 1nat, e, 1int, 0nat,
{
    match (e, c) {
        (
            JudgmentExpr::Comparison { left, right, .. },
            CompiledRelatedJudgmentExpr::Comparison { left: x, right: y, .. },
        ) => {
            shows_related_grows(cx, t, u, rel, rule, depth, x, left);
            shows_related_grows(cx, t, u, rel, rule, depth, y, right);
        },
        (JudgmentExpr::And(items), CompiledRelatedJudgmentExpr::And(list)) => {
            shows_related_judgments_grows(cx, t, u, rel, rule, depth, list@, items@, items@.len());
        },
        (JudgmentExpr::Or(items), CompiledRelatedJudgmentExpr::Or(list)) => {
            shows_related_judgments_grows(cx, t, u, rel, rule, depth, list@, items@, items@.len());
        },
        (JudgmentExpr::Not(item), CompiledRelatedJudgmentExpr::Not(x)) => {
            shows_related_judgment_grows(cx, t, u, rel, rule, depth, *x, *item);
        },
        (JudgmentExpr::Derived(name), _) => {
            shows_related_judgment_rule_grows(cx, t, u, rel, depth, c, name@);
        },
        _ => {},
    }
}

pub proof fn shows_related_judgments_grows(cx: CompileFacts, t: Tables, u: Tables, rel: nat, rule: Seq<char>, depth: nat, list: Seq<CompiledRelatedJudgmentExpr>, items: Seq<JudgmentExpr>, n: nat)
    requires
        shows_related_judgments(cx, t, rel, rule, depth, list, items, n),
        n <= items.len(),
        n <= list.len(),
        grows(t, u),
        rel < t.relations.len(),
        relation_grows(t.relations[rel as int], u.relations[rel as int]),
    ensures
        shows_related_judgments(cx, u, rel, rule, depth, list, items, n),
    decreases depth, 1nat, items, 0int, n,
{
    if n > 0 {
        shows_related_judgments_grows(cx, t, u, rel, rule, depth, list, items, (n - 1) as nat);
        shows_related_judgment_grows(cx, t, u, rel, rule, depth, list[n - 1], items[n - 1]);
    }
}

pub proof fn shows_current_grows(cx: CompileFacts, t: Tables, u: Tables, rule: Seq<char>, depth: nat, c: CompiledScalarExpr, e: ScalarExpr)
    requires
        shows_current(cx, t, rule, depth, c, e),
        grows(t, u),
    ensures
        shows_current(cx, u, rule, depth, c, e),
    decreases depth, 1nat, e, 1int, 0nat,
{
    match (e, c) {
        (ScalarExpr::ParameterLookup { index, .. }, CompiledScalarExpr::ParameterLookup { index: k, .. }) => {
            shows_current_grows(cx, t, u, rule, depth, *k, *index);
        },
        (ScalarExpr::Add(items), CompiledScalarExpr::Add(list)) => {
            shows_currents_grows(cx, t, u, rule, depth, list@, items@, items@.len());
        },
        (ScalarExpr::Max(items), CompiledScalarExpr::Max(list)) => {
            shows_currents_grows(cx, t, u, rule, depth, list@, items@, items@.len());
        },
        (ScalarExpr::Min(items), CompiledScalarExpr::Min(list)) => {
            shows_currents_grows(cx, t, u, rule, depth, list@, items@, items@.len());
        },
        (ScalarExpr::Sub(a, b), CompiledScalarExpr::Sub(x, y)) => {
            shows_current_grows(cx, t, u, rule, depth, *x, *a);
            shows_current_grows(cx, t, u, rule, depth, *y, *b);
        },
        (ScalarExpr::Mul(a, b), CompiledScalarExpr::Mul(x, y)) => {
            shows_current_grows(cx, t, u, rule, depth, *x, *a);
            shows_current_grows(cx, t, u, rule, depth, *y, *b);
        },
        (ScalarExpr::Div(a, b), CompiledScalarExpr::Div(x, y)) => {
            shows_current_grows(cx, t, u, rule, depth, *x, *a);
            shows_current_grows(cx, t, u, rule, depth, *y, *b);
        },
        (ScalarExpr::Ceil(a), CompiledScalarExpr::Ceil(x)) => {
            shows_current_grows(cx, t, u, rule, depth, *x, *a);
        },
        (ScalarExpr::Floor(a), CompiledScalarExpr::Floor(x)) => {
            shows_current_grows(cx, t, u, rule, depth, *x, *a);
        },
        (ScalarExpr::DateAddDays { date, days }, CompiledScalarExpr::DateShift { date: d, count, .. }) => {
            shows_current_grows(cx, t, u, rule, depth, *d, *date);
            shows_current_grows(cx, t, u, rule, depth, *count, *days);
        },
        (ScalarExpr::DateAddMonths { date, months }, CompiledScalarExpr::DateShift { date: d, count, .. }) => {
            shows_current_grows(cx, t, u, rule, depth, *d, *date);
            shows_current_grows(cx, t, u, rule, depth, *count, *months);
        },
        (ScalarExpr::DateAddYears { date, years }, CompiledScalarExpr::DateShift { date: d, count, .. }) => {
            shows_current_grows(cx, t, u, rule, depth, *d, *date);
            shows_current_grows(cx, t, u, rule, depth, *count, *years);
        },
        (ScalarExpr::DaysBetween { from, to }, CompiledScalarExpr::DaysBetween { from: a, to: b }) => {
            shows_current_grows(cx, t, u, rule, depth, *a, *from);
            shows_current_grows(cx, t, u, rule, depth, *b, *to);
        },
        (
            ScalarExpr::If { condition, then_expr, else_expr },
            CompiledScalarExpr::If { condition: q, then_expr: x, else_expr: y },
        ) => {
            shows_current_judgment_grows(cx, t, u, rule, depth, *q, *condition);
            shows_current_grows(cx, t, u, rule, depth, *x, *then_expr);
            match (*else_expr, *y) {
                (
                    ScalarExpr::NoMatch { subject, .. },
                    CompiledScalarExpr::NoMatch { subject: s, placeholder, .. },
                ) => {
                    shows_current_grows(cx, t, u, rule, depth, *s, *subject);
                    shows_current_grows(cx, t, u, rule, depth, *placeholder, *then_expr);
                    
                },
                _ => {
                    shows_current_grows(cx, t, u, rule, depth, *y, *else_expr);
                },
            }
        },
        (ScalarExpr::Derived(name), _) => {
            let p = cx.position(name@)->Some_0;
            if let DerivedSemantics::Scalar(inner) = cx.rule_at(p).semantics {
                shows_current_grows(cx, t, u, name@, (depth - 1) as nat, c, inner);
            }
        },
        _ => {},
    }
}

pub proof fn shows_currents_grows(cx: CompileFacts, t: Tables, u: Tables, rule: Seq<char>, depth: nat, list: Seq<CompiledScalarExpr>, items: Seq<ScalarExpr>, n: nat)
    requires
        shows_currents(cx, t, rule, depth, list, items, n),
        n <= items.len(),
        n <= list.len(),
        grows(t, u),
    ensures
        shows_currents(cx, u, rule, depth, list, items, n),
    decreases depth, 1nat, items, 0int, n,
{
    if n > 0 {
        shows_currents_grows(cx, t, u, rule, depth, list, items, (n - 1) as nat);
        shows_current_grows(cx, t, u, rule, depth, list[n - 1], items[n - 1]);
    }
}

pub proof fn shows_current_judgment_grows(cx: CompileFacts, t: Tables, u: Tables, rule: Seq<char>, depth: nat, c: CompiledJudgmentExpr, e: JudgmentExpr)
    requires
        shows_current_judgment(cx, t, rule, depth, c, e),
        grows(t, u),
    ensures
        shows_current_judgment(cx, u, rule, depth, c, e),
    decreases depth, 1nat, e, 1int, 0nat,
{
    match (e, c) {
        (
            JudgmentExpr::Comparison { left, right, .. },
            CompiledJudgmentExpr::Comparison { left: x, right: y, .. },
        ) => {
            shows_current_grows(cx, t, u, rule, depth, x, left);
            shows_current_grows(cx, t, u, rule, depth, y, right);
        },
        (JudgmentExpr::And(items), CompiledJudgmentExpr::And(list)) => {
            shows_current_judgments_grows(cx, t, u, rule, depth, list@, items@, items@.len());
        },
        (JudgmentExpr::Or(items), CompiledJudgmentExpr::Or(list)) => {
            shows_current_judgments_grows(cx, t, u, rule, depth, list@, items@, items@.len());
        },
        (JudgmentExpr::Not(item), CompiledJudgmentExpr::Not(x)) => {
            shows_current_judgment_grows(cx, t, u, rule, depth, *x, *item);
        },
        (JudgmentExpr::Derived(name), _) => {
            let p = cx.position(name@)->Some_0;
            if let DerivedSemantics::Judgment(inner) = cx.rule_at(p).semantics {
                shows_current_judgment_grows(cx, t, u, name@, (depth - 1) as nat, c, inner);
            }
        },
        _ => {},
    }
}

pub proof fn shows_current_judgments_grows(cx: CompileFacts, t: Tables, u: Tables, rule: Seq<char>, depth: nat, list: Seq<CompiledJudgmentExpr>, items: Seq<JudgmentExpr>, n: nat)
    requires
        shows_current_judgments(cx, t, rule, depth, list, items, n),
        n <= items.len(),
        n <= list.len(),
        grows(t, u),
    ensures
        shows_current_judgments(cx, u, rule, depth, list, items, n),
    decreases depth, 1nat, items, 0int, n,
{
    if n > 0 {
        shows_current_judgments_grows(cx, t, u, rule, depth, list, items, (n - 1) as nat);
        shows_current_judgment_grows(cx, t, u, rule, depth, list[n - 1], items[n - 1]);
    }
}

pub proof fn shows_related_rule_grows(cx: CompileFacts, t: Tables, u: Tables, rel: nat, depth: nat, c: CompiledRelatedScalarExpr, name: Seq<char>)
    requires
        shows_related_rule(cx, t, rel, depth, c, name),
        grows(t, u),
        rel < t.relations.len(),
        relation_grows(t.relations[rel as int], u.relations[rel as int]),
    ensures
        shows_related_rule(cx, u, rel, depth, c, name),
    decreases depth, 0nat, cx, 0int, 0nat,
{
    let p = cx.position(name)->Some_0;
    let d = cx.rule_at(p);
    let info = info_of(t.relations[rel as int]);
    if let DerivedSemantics::Scalar(e) = d.semantics {
        if reads_current(cx, info, d) || d.entity@ == SCALAR_ENTITY@ {
            if let CompiledRelatedScalarExpr::RootScalar(x) = c {
                shows_current_grows(cx, t, u, name, (depth - 1) as nat, *x, e);
            }
        } else {
            shows_related_grows(cx, t, u, rel, name, (depth - 1) as nat, c, e);
        }
    }
}

pub proof fn shows_related_judgment_rule_grows(cx: CompileFacts, t: Tables, u: Tables, rel: nat, depth: nat, c: CompiledRelatedJudgmentExpr, name: Seq<char>)
    requires
        shows_related_judgment_rule(cx, t, rel, depth, c, name),
        grows(t, u),
        rel < t.relations.len(),
        relation_grows(t.relations[rel as int], u.relations[rel as int]),
    ensures
        shows_related_judgment_rule(cx, u, rel, depth, c, name),
    decreases depth, 0nat, cx, 0int, 0nat,
{
    let p = cx.position(name)->Some_0;
    let d = cx.rule_at(p);
    let info = info_of(t.relations[rel as int]);
    if let DerivedSemantics::Judgment(e) = d.semantics {
        if reads_current(cx, info, d) {
            if let CompiledRelatedJudgmentExpr::RootJudgment(x) = c {
                shows_current_judgment_grows(cx, t, u, name, (depth - 1) as nat, *x, e);
            }
        } else {
            shows_related_judgment_grows(cx, t, u, rel, name, (depth - 1) as nat, c, e);
        }
    }
}

/// Whether a compiled program has the tables.
pub open spec fn program_has(p: DenseCompiledProgram, t: Tables) -> bool {
    &&& p.root_inputs@ == t.root_inputs
    &&& p.relations@ == t.relations
    &&& p.parameters@ == t.parameters
    &&& p.derived@ == t.derived
    &&& t.lookups.len() == t.relations.len()
}

pub proof fn shows_scalar_fits(cx: CompileFacts, t: Tables, p: DenseCompiledProgram, bound: nat, rule: Seq<char>, c: CompiledScalarExpr, e: ScalarExpr)
    requires
        shows_scalar(cx, t, bound, rule, c, e),
        program_has(p, t),
    ensures
        scalar_fits(p, bound, 2, c),
    decreases cx.rules() + 1, 1nat, e, 1int, 0nat,
{
    match (e, c) {
        (ScalarExpr::ParameterLookup { index, .. }, CompiledScalarExpr::ParameterLookup { index: k, .. }) => {
            shows_scalar_fits(cx, t, p, bound, rule, *k, *index);
        },
        (ScalarExpr::Add(items), CompiledScalarExpr::Add(list)) => {
            shows_scalars_fits(cx, t, p, bound, rule, list@, items@, items@.len());
        },
        (ScalarExpr::Max(items), CompiledScalarExpr::Max(list)) => {
            shows_scalars_fits(cx, t, p, bound, rule, list@, items@, items@.len());
        },
        (ScalarExpr::Min(items), CompiledScalarExpr::Min(list)) => {
            shows_scalars_fits(cx, t, p, bound, rule, list@, items@, items@.len());
        },
        (ScalarExpr::Sub(a, b), CompiledScalarExpr::Sub(x, y)) => {
            shows_scalar_fits(cx, t, p, bound, rule, *x, *a);
            shows_scalar_fits(cx, t, p, bound, rule, *y, *b);
        },
        (ScalarExpr::Mul(a, b), CompiledScalarExpr::Mul(x, y)) => {
            shows_scalar_fits(cx, t, p, bound, rule, *x, *a);
            shows_scalar_fits(cx, t, p, bound, rule, *y, *b);
        },
        (ScalarExpr::Div(a, b), CompiledScalarExpr::Div(x, y)) => {
            shows_scalar_fits(cx, t, p, bound, rule, *x, *a);
            shows_scalar_fits(cx, t, p, bound, rule, *y, *b);
        },
        (ScalarExpr::Ceil(a), CompiledScalarExpr::Ceil(x)) => {
            shows_scalar_fits(cx, t, p, bound, rule, *x, *a);
        },
        (ScalarExpr::Floor(a), CompiledScalarExpr::Floor(x)) => {
            shows_scalar_fits(cx, t, p, bound, rule, *x, *a);
        },
        (ScalarExpr::DateAddDays { date, days }, CompiledScalarExpr::DateShift { date: d, count, .. }) => {
            shows_scalar_fits(cx, t, p, bound, rule, *d, *date);
            shows_scalar_fits(cx, t, p, bound, rule, *count, *days);
        },
        (ScalarExpr::DateAddMonths { date, months }, CompiledScalarExpr::DateShift { date: d, count, .. }) => {
            shows_scalar_fits(cx, t, p, bound, rule, *d, *date);
            shows_scalar_fits(cx, t, p, bound, rule, *count, *months);
        },
        (ScalarExpr::DateAddYears { date, years }, CompiledScalarExpr::DateShift { date: d, count, .. }) => {
            shows_scalar_fits(cx, t, p, bound, rule, *d, *date);
            shows_scalar_fits(cx, t, p, bound, rule, *count, *years);
        },
        (ScalarExpr::DaysBetween { from, to }, CompiledScalarExpr::DaysBetween { from: a, to: b }) => {
            shows_scalar_fits(cx, t, p, bound, rule, *a, *from);
            shows_scalar_fits(cx, t, p, bound, rule, *b, *to);
        },
        (
            ScalarExpr::If { condition, then_expr, else_expr },
            CompiledScalarExpr::If { condition: q, then_expr: x, else_expr: y },
        ) => {
            shows_judgment_fits(cx, t, p, bound, rule, *q, *condition);
            shows_scalar_fits(cx, t, p, bound, rule, *x, *then_expr);
            match (*else_expr, *y) {
                (
                    ScalarExpr::NoMatch { subject, .. },
                    CompiledScalarExpr::NoMatch { subject: s, placeholder, .. },
                ) => {
                    shows_scalar_fits(cx, t, p, bound, rule, *s, *subject);
                    shows_scalar_fits(cx, t, p, bound, rule, *placeholder, *then_expr);
                    assert(scalar_fits(p, bound, 2, *y));
                },
                _ => {
                    shows_scalar_fits(cx, t, p, bound, rule, *y, *else_expr);
                },
            }
        },
        (ScalarExpr::CountRelated { where_clause, .. }, CompiledScalarExpr::CountRelated { relation: i, predicate }) => {
            if let (Some(w), Some(q)) = (where_clause, predicate) {
                shows_related_judgment_fits(cx, t, p, bound, 2, i as nat, rule, cx.rules(), *q, *w);
            }
        },
        (
            ScalarExpr::SumRelated { value, where_clause, .. },
            CompiledScalarExpr::SumRelated { relation: i, value: v, predicate },
        ) => {
            if let RelatedValueRef::Derived(name) = value {
                shows_related_rule_fits(cx, t, p, bound, 2, i as nat, cx.rules(), *v, name@);
            }
            assert(related_scalar_fits(p, bound, 2, i as nat, *v));
            if let (Some(w), Some(q)) = (where_clause, predicate) {
                shows_related_judgment_fits(cx, t, p, bound, 2, i as nat, rule, cx.rules(), *q, *w);
            }
        },
        (ScalarExpr::OverPeriods { value, n, .. }, CompiledScalarExpr::OverPeriods { value: v, n: m, .. }) => {
            shows_scalar_fits(cx, t, p, bound, rule, *v, *value);
            if let (Some(n), Some(m)) = (n, m) {
                shows_scalar_fits(cx, t, p, bound, rule, *m, *n);
            }
        },
        _ => {},
    }
}

proof fn shows_scalars_fits(cx: CompileFacts, t: Tables, p: DenseCompiledProgram, bound: nat, rule: Seq<char>, list: Seq<CompiledScalarExpr>, items: Seq<ScalarExpr>, n: nat)
    requires
        shows_scalars(cx, t, bound, rule, list, items, n),
        n <= items.len(),
        n <= list.len(),
        program_has(p, t),
    ensures
        scalars_fit(p, bound, 2, list, n),
    decreases cx.rules() + 1, 1nat, items, 0int, n,
{
    if n > 0 {
        shows_scalars_fits(cx, t, p, bound, rule, list, items, (n - 1) as nat);
        shows_scalar_fits(cx, t, p, bound, rule, list[n - 1], items[n - 1]);
    }
}

pub proof fn shows_judgment_fits(cx: CompileFacts, t: Tables, p: DenseCompiledProgram, bound: nat, rule: Seq<char>, c: CompiledJudgmentExpr, e: JudgmentExpr)
    requires
        shows_judgment(cx, t, bound, rule, c, e),
        program_has(p, t),
    ensures
        judgment_fits(p, bound, 2, c),
    decreases cx.rules() + 1, 1nat, e, 1int, 0nat,
{
    match (e, c) {
        (
            JudgmentExpr::Comparison { left, right, .. },
            CompiledJudgmentExpr::Comparison { left: x, right: y, .. },
        ) => {
            shows_scalar_fits(cx, t, p, bound, rule, x, left);
            shows_scalar_fits(cx, t, p, bound, rule, y, right);
        },
        (JudgmentExpr::And(items), CompiledJudgmentExpr::And(list)) => {
            shows_judgments_fits(cx, t, p, bound, rule, list@, items@, items@.len());
        },
        (JudgmentExpr::Or(items), CompiledJudgmentExpr::Or(list)) => {
            shows_judgments_fits(cx, t, p, bound, rule, list@, items@, items@.len());
        },
        (JudgmentExpr::Not(item), CompiledJudgmentExpr::Not(x)) => {
            shows_judgment_fits(cx, t, p, bound, rule, *x, *item);
        },
        _ => {},
    }
}

proof fn shows_judgments_fits(cx: CompileFacts, t: Tables, p: DenseCompiledProgram, bound: nat, rule: Seq<char>, list: Seq<CompiledJudgmentExpr>, items: Seq<JudgmentExpr>, n: nat)
    requires
        shows_judgments(cx, t, bound, rule, list, items, n),
        n <= items.len(),
        n <= list.len(),
        program_has(p, t),
    ensures
        judgments_fit(p, bound, 2, list, n),
    decreases cx.rules() + 1, 1nat, items, 0int, n,
{
    if n > 0 {
        shows_judgments_fits(cx, t, p, bound, rule, list, items, (n - 1) as nat);
        shows_judgment_fits(cx, t, p, bound, rule, list[n - 1], items[n - 1]);
    }
}

proof fn shows_related_fits(cx: CompileFacts, t: Tables, p: DenseCompiledProgram, bound: nat, level: nat, rel: nat, rule: Seq<char>, depth: nat, c: CompiledRelatedScalarExpr, e: ScalarExpr)
    requires
        shows_related(cx, t, rel, rule, depth, c, e),
        program_has(p, t),
    ensures
        related_scalar_fits(p, bound, level, rel, c),
    decreases depth, 1nat, e, 1int, 0nat,
{
    match (e, c) {
        (ScalarExpr::ParameterLookup { index, .. }, CompiledRelatedScalarExpr::ParameterLookup { index: k, .. }) => {
            shows_related_fits(cx, t, p, bound, level, rel, rule, depth, *k, *index);
        },
        (ScalarExpr::Add(items), CompiledRelatedScalarExpr::Add(list)) => {
            shows_relateds_fits(cx, t, p, bound, level, rel, rule, depth, list@, items@, items@.len());
        },
        (ScalarExpr::Max(items), CompiledRelatedScalarExpr::Max(list)) => {
            shows_relateds_fits(cx, t, p, bound, level, rel, rule, depth, list@, items@, items@.len());
        },
        (ScalarExpr::Min(items), CompiledRelatedScalarExpr::Min(list)) => {
            shows_relateds_fits(cx, t, p, bound, level, rel, rule, depth, list@, items@, items@.len());
        },
        (ScalarExpr::Sub(a, b), CompiledRelatedScalarExpr::Sub(x, y)) => {
            shows_related_fits(cx, t, p, bound, level, rel, rule, depth, *x, *a);
            shows_related_fits(cx, t, p, bound, level, rel, rule, depth, *y, *b);
        },
        (ScalarExpr::Mul(a, b), CompiledRelatedScalarExpr::Mul(x, y)) => {
            shows_related_fits(cx, t, p, bound, level, rel, rule, depth, *x, *a);
            shows_related_fits(cx, t, p, bound, level, rel, rule, depth, *y, *b);
        },
        (ScalarExpr::Div(a, b), CompiledRelatedScalarExpr::Div(x, y)) => {
            shows_related_fits(cx, t, p, bound, level, rel, rule, depth, *x, *a);
            shows_related_fits(cx, t, p, bound, level, rel, rule, depth, *y, *b);
        },
        (ScalarExpr::Ceil(a), CompiledRelatedScalarExpr::Ceil(x)) => {
            shows_related_fits(cx, t, p, bound, level, rel, rule, depth, *x, *a);
        },
        (ScalarExpr::Floor(a), CompiledRelatedScalarExpr::Floor(x)) => {
            shows_related_fits(cx, t, p, bound, level, rel, rule, depth, *x, *a);
        },
        (ScalarExpr::DateAddDays { date, days }, CompiledRelatedScalarExpr::DateShift { date: d, count, .. }) => {
            shows_related_fits(cx, t, p, bound, level, rel, rule, depth, *d, *date);
            shows_related_fits(cx, t, p, bound, level, rel, rule, depth, *count, *days);
        },
        (ScalarExpr::DateAddMonths { date, months }, CompiledRelatedScalarExpr::DateShift { date: d, count, .. }) => {
            shows_related_fits(cx, t, p, bound, level, rel, rule, depth, *d, *date);
            shows_related_fits(cx, t, p, bound, level, rel, rule, depth, *count, *months);
        },
        (ScalarExpr::DateAddYears { date, years }, CompiledRelatedScalarExpr::DateShift { date: d, count, .. }) => {
            shows_related_fits(cx, t, p, bound, level, rel, rule, depth, *d, *date);
            shows_related_fits(cx, t, p, bound, level, rel, rule, depth, *count, *years);
        },
        (ScalarExpr::DaysBetween { from, to }, CompiledRelatedScalarExpr::DaysBetween { from: a, to: b }) => {
            shows_related_fits(cx, t, p, bound, level, rel, rule, depth, *a, *from);
            shows_related_fits(cx, t, p, bound, level, rel, rule, depth, *b, *to);
        },
        (
            ScalarExpr::If { condition, then_expr, else_expr },
            CompiledRelatedScalarExpr::If { condition: q, then_expr: x, else_expr: y },
        ) => {
            shows_related_judgment_fits(cx, t, p, bound, level, rel, rule, depth, *q, *condition);
            shows_related_fits(cx, t, p, bound, level, rel, rule, depth, *x, *then_expr);
            match (*else_expr, *y) {
                (
                    ScalarExpr::NoMatch { subject, .. },
                    CompiledRelatedScalarExpr::NoMatch { subject: s, placeholder, .. },
                ) => {
                    shows_related_fits(cx, t, p, bound, level, rel, rule, depth, *s, *subject);
                    shows_related_fits(cx, t, p, bound, level, rel, rule, depth, *placeholder, *then_expr);
                    assert(related_scalar_fits(p, bound, level, rel, *y));
                },
                _ => {
                    shows_related_fits(cx, t, p, bound, level, rel, rule, depth, *y, *else_expr);
                },
            }
        },
        (ScalarExpr::Derived(name), _) => {
            shows_related_rule_fits(cx, t, p, bound, level, rel, depth, c, name@);
        },
        _ => {},
    }
}

proof fn shows_relateds_fits(cx: CompileFacts, t: Tables, p: DenseCompiledProgram, bound: nat, level: nat, rel: nat, rule: Seq<char>, depth: nat, list: Seq<CompiledRelatedScalarExpr>, items: Seq<ScalarExpr>, n: nat)
    requires
        shows_relateds(cx, t, rel, rule, depth, list, items, n),
        n <= items.len(),
        n <= list.len(),
        program_has(p, t),
    ensures
        related_scalars_fit(p, bound, level, rel, list, n),
    decreases depth, 1nat, items, 0int, n,
{
    if n > 0 {
        shows_relateds_fits(cx, t, p, bound, level, rel, rule, depth, list, items, (n - 1) as nat);
        shows_related_fits(cx, t, p, bound, level, rel, rule, depth, list[n - 1], items[n - 1]);
    }
}

pub proof fn shows_related_judgment_fits(cx: CompileFacts, t: Tables, p: DenseCompiledProgram, bound: nat, level: nat, rel: nat, rule: Seq<char>, depth: nat, c: CompiledRelatedJudgmentExpr, e: JudgmentExpr)
    requires
        shows_related_judgment(cx, t, rel, rule, depth, c, e),
        program_has(p, t),
    ensures
        related_judgment_fits(p, bound, level, rel, c),
    decreases depth, 1nat, e, 1int, 0nat,
{
    match (e, c) {
        (
            JudgmentExpr::Comparison { left, right, .. },
            CompiledRelatedJudgmentExpr::Comparison { left: x, right: y, .. },
        ) => {
            shows_related_fits(cx, t, p, bound, level, rel, rule, depth, x, left);
            shows_related_fits(cx, t, p, bound, level, rel, rule, depth, y, right);
        },
        (JudgmentExpr::And(items), CompiledRelatedJudgmentExpr::And(list)) => {
            shows_related_judgments_fits(cx, t, p, bound, level, rel, rule, depth, list@, items@, items@.len());
        },
        (JudgmentExpr::Or(items), CompiledRelatedJudgmentExpr::Or(list)) => {
            shows_related_judgments_fits(cx, t, p, bound, level, rel, rule, depth, list@, items@, items@.len());
        },
        (JudgmentExpr::Not(item), CompiledRelatedJudgmentExpr::Not(x)) => {
            shows_related_judgment_fits(cx, t, p, bound, level, rel, rule, depth, *x, *item);
        },
        (JudgmentExpr::Derived(name), _) => {
            shows_related_judgment_rule_fits(cx, t, p, bound, level, rel, depth, c, name@);
        },
        _ => {},
    }
}

proof fn shows_related_judgments_fits(cx: CompileFacts, t: Tables, p: DenseCompiledProgram, bound: nat, level: nat, rel: nat, rule: Seq<char>, depth: nat, list: Seq<CompiledRelatedJudgmentExpr>, items: Seq<JudgmentExpr>, n: nat)
    requires
        shows_related_judgments(cx, t, rel, rule, depth, list, items, n),
        n <= items.len(),
        n <= list.len(),
        program_has(p, t),
    ensures
        related_judgments_fit(p, bound, level, rel, list, n),
    decreases depth, 1nat, items, 0int, n,
{
    if n > 0 {
        shows_related_judgments_fits(cx, t, p, bound, level, rel, rule, depth, list, items, (n - 1) as nat);
        shows_related_judgment_fits(cx, t, p, bound, level, rel, rule, depth, list[n - 1], items[n - 1]);
    }
}

proof fn shows_current_fits(cx: CompileFacts, t: Tables, p: DenseCompiledProgram, bound: nat, level: nat, rule: Seq<char>, depth: nat, c: CompiledScalarExpr, e: ScalarExpr)
    requires
        shows_current(cx, t, rule, depth, c, e),
        program_has(p, t),
    ensures
        scalar_fits(p, bound, level, c),
    decreases depth, 1nat, e, 1int, 0nat,
{
    match (e, c) {
        (ScalarExpr::ParameterLookup { index, .. }, CompiledScalarExpr::ParameterLookup { index: k, .. }) => {
            shows_current_fits(cx, t, p, bound, level, rule, depth, *k, *index);
        },
        (ScalarExpr::Add(items), CompiledScalarExpr::Add(list)) => {
            shows_currents_fits(cx, t, p, bound, level, rule, depth, list@, items@, items@.len());
        },
        (ScalarExpr::Max(items), CompiledScalarExpr::Max(list)) => {
            shows_currents_fits(cx, t, p, bound, level, rule, depth, list@, items@, items@.len());
        },
        (ScalarExpr::Min(items), CompiledScalarExpr::Min(list)) => {
            shows_currents_fits(cx, t, p, bound, level, rule, depth, list@, items@, items@.len());
        },
        (ScalarExpr::Sub(a, b), CompiledScalarExpr::Sub(x, y)) => {
            shows_current_fits(cx, t, p, bound, level, rule, depth, *x, *a);
            shows_current_fits(cx, t, p, bound, level, rule, depth, *y, *b);
        },
        (ScalarExpr::Mul(a, b), CompiledScalarExpr::Mul(x, y)) => {
            shows_current_fits(cx, t, p, bound, level, rule, depth, *x, *a);
            shows_current_fits(cx, t, p, bound, level, rule, depth, *y, *b);
        },
        (ScalarExpr::Div(a, b), CompiledScalarExpr::Div(x, y)) => {
            shows_current_fits(cx, t, p, bound, level, rule, depth, *x, *a);
            shows_current_fits(cx, t, p, bound, level, rule, depth, *y, *b);
        },
        (ScalarExpr::Ceil(a), CompiledScalarExpr::Ceil(x)) => {
            shows_current_fits(cx, t, p, bound, level, rule, depth, *x, *a);
        },
        (ScalarExpr::Floor(a), CompiledScalarExpr::Floor(x)) => {
            shows_current_fits(cx, t, p, bound, level, rule, depth, *x, *a);
        },
        (ScalarExpr::DateAddDays { date, days }, CompiledScalarExpr::DateShift { date: d, count, .. }) => {
            shows_current_fits(cx, t, p, bound, level, rule, depth, *d, *date);
            shows_current_fits(cx, t, p, bound, level, rule, depth, *count, *days);
        },
        (ScalarExpr::DateAddMonths { date, months }, CompiledScalarExpr::DateShift { date: d, count, .. }) => {
            shows_current_fits(cx, t, p, bound, level, rule, depth, *d, *date);
            shows_current_fits(cx, t, p, bound, level, rule, depth, *count, *months);
        },
        (ScalarExpr::DateAddYears { date, years }, CompiledScalarExpr::DateShift { date: d, count, .. }) => {
            shows_current_fits(cx, t, p, bound, level, rule, depth, *d, *date);
            shows_current_fits(cx, t, p, bound, level, rule, depth, *count, *years);
        },
        (ScalarExpr::DaysBetween { from, to }, CompiledScalarExpr::DaysBetween { from: a, to: b }) => {
            shows_current_fits(cx, t, p, bound, level, rule, depth, *a, *from);
            shows_current_fits(cx, t, p, bound, level, rule, depth, *b, *to);
        },
        (
            ScalarExpr::If { condition, then_expr, else_expr },
            CompiledScalarExpr::If { condition: q, then_expr: x, else_expr: y },
        ) => {
            shows_current_judgment_fits(cx, t, p, bound, level, rule, depth, *q, *condition);
            shows_current_fits(cx, t, p, bound, level, rule, depth, *x, *then_expr);
            match (*else_expr, *y) {
                (
                    ScalarExpr::NoMatch { subject, .. },
                    CompiledScalarExpr::NoMatch { subject: s, placeholder, .. },
                ) => {
                    shows_current_fits(cx, t, p, bound, level, rule, depth, *s, *subject);
                    shows_current_fits(cx, t, p, bound, level, rule, depth, *placeholder, *then_expr);
                    assert(scalar_fits(p, bound, level, *y));
                },
                _ => {
                    shows_current_fits(cx, t, p, bound, level, rule, depth, *y, *else_expr);
                },
            }
        },
        (ScalarExpr::Derived(name), _) => {
            let at = cx.position(name@)->Some_0;
            if let DerivedSemantics::Scalar(inner) = cx.rule_at(at).semantics {
                shows_current_fits(cx, t, p, bound, level, name@, (depth - 1) as nat, c, inner);
            }
        },
        _ => {},
    }
}

proof fn shows_currents_fits(cx: CompileFacts, t: Tables, p: DenseCompiledProgram, bound: nat, level: nat, rule: Seq<char>, depth: nat, list: Seq<CompiledScalarExpr>, items: Seq<ScalarExpr>, n: nat)
    requires
        shows_currents(cx, t, rule, depth, list, items, n),
        n <= items.len(),
        n <= list.len(),
        program_has(p, t),
    ensures
        scalars_fit(p, bound, level, list, n),
    decreases depth, 1nat, items, 0int, n,
{
    if n > 0 {
        shows_currents_fits(cx, t, p, bound, level, rule, depth, list, items, (n - 1) as nat);
        shows_current_fits(cx, t, p, bound, level, rule, depth, list[n - 1], items[n - 1]);
    }
}

proof fn shows_current_judgment_fits(cx: CompileFacts, t: Tables, p: DenseCompiledProgram, bound: nat, level: nat, rule: Seq<char>, depth: nat, c: CompiledJudgmentExpr, e: JudgmentExpr)
    requires
        shows_current_judgment(cx, t, rule, depth, c, e),
        program_has(p, t),
    ensures
        judgment_fits(p, bound, level, c),
    decreases depth, 1nat, e, 1int, 0nat,
{
    match (e, c) {
        (
            JudgmentExpr::Comparison { left, right, .. },
            CompiledJudgmentExpr::Comparison { left: x, right: y, .. },
        ) => {
            shows_current_fits(cx, t, p, bound, level, rule, depth, x, left);
            shows_current_fits(cx, t, p, bound, level, rule, depth, y, right);
        },
        (JudgmentExpr::And(items), CompiledJudgmentExpr::And(list)) => {
            shows_current_judgments_fits(cx, t, p, bound, level, rule, depth, list@, items@, items@.len());
        },
        (JudgmentExpr::Or(items), CompiledJudgmentExpr::Or(list)) => {
            shows_current_judgments_fits(cx, t, p, bound, level, rule, depth, list@, items@, items@.len());
        },
        (JudgmentExpr::Not(item), CompiledJudgmentExpr::Not(x)) => {
            shows_current_judgment_fits(cx, t, p, bound, level, rule, depth, *x, *item);
        },
        (JudgmentExpr::Derived(name), _) => {
            let at = cx.position(name@)->Some_0;
            if let DerivedSemantics::Judgment(inner) = cx.rule_at(at).semantics {
                shows_current_judgment_fits(cx, t, p, bound, level, name@, (depth - 1) as nat, c, inner);
            }
        },
        _ => {},
    }
}

proof fn shows_current_judgments_fits(cx: CompileFacts, t: Tables, p: DenseCompiledProgram, bound: nat, level: nat, rule: Seq<char>, depth: nat, list: Seq<CompiledJudgmentExpr>, items: Seq<JudgmentExpr>, n: nat)
    requires
        shows_current_judgments(cx, t, rule, depth, list, items, n),
        n <= items.len(),
        n <= list.len(),
        program_has(p, t),
    ensures
        judgments_fit(p, bound, level, list, n),
    decreases depth, 1nat, items, 0int, n,
{
    if n > 0 {
        shows_current_judgments_fits(cx, t, p, bound, level, rule, depth, list, items, (n - 1) as nat);
        shows_current_judgment_fits(cx, t, p, bound, level, rule, depth, list[n - 1], items[n - 1]);
    }
}

proof fn shows_related_rule_fits(cx: CompileFacts, t: Tables, p: DenseCompiledProgram, bound: nat, level: nat, rel: nat, depth: nat, c: CompiledRelatedScalarExpr, name: Seq<char>)
    requires
        shows_related_rule(cx, t, rel, depth, c, name),
        program_has(p, t),
    ensures
        related_scalar_fits(p, bound, level, rel, c),
    decreases depth, 0nat, cx, 0int, 0nat,
{
    let at = cx.position(name)->Some_0;
    let d = cx.rule_at(at);
    let info = info_of(t.relations[rel as int]);
    if let DerivedSemantics::Scalar(e) = d.semantics {
        if reads_current(cx, info, d) || d.entity@ == SCALAR_ENTITY@ {
            if let CompiledRelatedScalarExpr::RootScalar(x) = c {
                shows_current_fits(cx, t, p, bound, level, name, (depth - 1) as nat, *x, e);
            }
        } else {
            shows_related_fits(cx, t, p, bound, level, rel, name, (depth - 1) as nat, c, e);
        }
    }
}

proof fn shows_related_judgment_rule_fits(cx: CompileFacts, t: Tables, p: DenseCompiledProgram, bound: nat, level: nat, rel: nat, depth: nat, c: CompiledRelatedJudgmentExpr, name: Seq<char>)
    requires
        shows_related_judgment_rule(cx, t, rel, depth, c, name),
        program_has(p, t),
    ensures
        related_judgment_fits(p, bound, level, rel, c),
    decreases depth, 0nat, cx, 0int, 0nat,
{
    let at = cx.position(name)->Some_0;
    let d = cx.rule_at(at);
    let info = info_of(t.relations[rel as int]);
    if let DerivedSemantics::Judgment(e) = d.semantics {
        if reads_current(cx, info, d) {
            if let CompiledRelatedJudgmentExpr::RootJudgment(x) = c {
                shows_current_judgment_fits(cx, t, p, bound, level, name, (depth - 1) as nat, *x, e);
            }
        } else {
            shows_related_judgment_fits(cx, t, p, bound, level, rel, name, (depth - 1) as nat, c, e);
        }
    }
}

/// The reductions inside a compiled formula are those inside the formula.
pub proof fn shows_scalar_nested(cx: CompileFacts, t: Tables, bound: nat, rule: Seq<char>, c: CompiledScalarExpr, e: ScalarExpr)
    requires
        shows_scalar(cx, t, bound, rule, c, e),
    ensures
        nested_kind(c) == source_nested(e),
    decreases cx.rules() + 1, 1nat, e, 1int, 0nat,
{
    match (e, c) {
        (ScalarExpr::ParameterLookup { index, .. }, CompiledScalarExpr::ParameterLookup { index: k, .. }) => {
            shows_scalar_nested(cx, t, bound, rule, *k, *index);
        },
        (ScalarExpr::Add(items), CompiledScalarExpr::Add(list)) => {
            shows_scalars_nested(cx, t, bound, rule, list@, items@, items@.len());
        },
        (ScalarExpr::Max(items), CompiledScalarExpr::Max(list)) => {
            shows_scalars_nested(cx, t, bound, rule, list@, items@, items@.len());
        },
        (ScalarExpr::Min(items), CompiledScalarExpr::Min(list)) => {
            shows_scalars_nested(cx, t, bound, rule, list@, items@, items@.len());
        },
        (ScalarExpr::Sub(a, b), CompiledScalarExpr::Sub(x, y)) => {
            shows_scalar_nested(cx, t, bound, rule, *x, *a);
            shows_scalar_nested(cx, t, bound, rule, *y, *b);
        },
        (ScalarExpr::Mul(a, b), CompiledScalarExpr::Mul(x, y)) => {
            shows_scalar_nested(cx, t, bound, rule, *x, *a);
            shows_scalar_nested(cx, t, bound, rule, *y, *b);
        },
        (ScalarExpr::Div(a, b), CompiledScalarExpr::Div(x, y)) => {
            shows_scalar_nested(cx, t, bound, rule, *x, *a);
            shows_scalar_nested(cx, t, bound, rule, *y, *b);
        },
        (ScalarExpr::Ceil(a), CompiledScalarExpr::Ceil(x)) => {
            shows_scalar_nested(cx, t, bound, rule, *x, *a);
        },
        (ScalarExpr::Floor(a), CompiledScalarExpr::Floor(x)) => {
            shows_scalar_nested(cx, t, bound, rule, *x, *a);
        },
        (ScalarExpr::DateAddDays { date, days }, CompiledScalarExpr::DateShift { date: d, count, .. }) => {
            shows_scalar_nested(cx, t, bound, rule, *d, *date);
            shows_scalar_nested(cx, t, bound, rule, *count, *days);
        },
        (ScalarExpr::DateAddMonths { date, months }, CompiledScalarExpr::DateShift { date: d, count, .. }) => {
            shows_scalar_nested(cx, t, bound, rule, *d, *date);
            shows_scalar_nested(cx, t, bound, rule, *count, *months);
        },
        (ScalarExpr::DateAddYears { date, years }, CompiledScalarExpr::DateShift { date: d, count, .. }) => {
            shows_scalar_nested(cx, t, bound, rule, *d, *date);
            shows_scalar_nested(cx, t, bound, rule, *count, *years);
        },
        (ScalarExpr::DaysBetween { from, to }, CompiledScalarExpr::DaysBetween { from: a, to: b }) => {
            shows_scalar_nested(cx, t, bound, rule, *a, *from);
            shows_scalar_nested(cx, t, bound, rule, *b, *to);
        },
        (
            ScalarExpr::If { condition, then_expr, else_expr },
            CompiledScalarExpr::If { condition: q, then_expr: x, else_expr: y },
        ) => {
            shows_judgment_nested(cx, t, bound, rule, *q, *condition);
            shows_scalar_nested(cx, t, bound, rule, *x, *then_expr);
            match (*else_expr, *y) {
                (
                    ScalarExpr::NoMatch { subject, .. },
                    CompiledScalarExpr::NoMatch { subject: s, placeholder, .. },
                ) => {
                    shows_scalar_nested(cx, t, bound, rule, *s, *subject);
                    shows_scalar_nested(cx, t, bound, rule, *placeholder, *then_expr);
                    assert(nested_kind(*y) == either(nested_kind(*s), nested_kind(*placeholder)));
                },
                _ => {
                    shows_scalar_nested(cx, t, bound, rule, *y, *else_expr);
                },
            }
        },
        (
            ScalarExpr::CountRelated { where_clause, .. },
            CompiledScalarExpr::CountRelated { relation, predicate },
        ) => {
            if let (Some(w), Some(q)) = (where_clause, predicate) {
                shows_related_judgment_nested(cx, t, relation as nat, rule, cx.rules(), *q, *w);
            }
        },
        (
            ScalarExpr::SumRelated { value, where_clause, .. },
            CompiledScalarExpr::SumRelated { relation, value: v, predicate },
        ) => {
            if let (Some(w), Some(q)) = (where_clause, predicate) {
                shows_related_judgment_nested(cx, t, relation as nat, rule, cx.rules(), *q, *w);
            }
            if let RelatedValueRef::Derived(name) = value {
                shows_related_rule_nested(cx, t, relation as nat, cx.rules(), *v, name@);
            }
        },
        _ => {},
    }
}

proof fn shows_scalars_nested(cx: CompileFacts, t: Tables, bound: nat, rule: Seq<char>, list: Seq<CompiledScalarExpr>, items: Seq<ScalarExpr>, n: nat)
    requires
        shows_scalars(cx, t, bound, rule, list, items, n),
        n <= items.len(),
        n <= list.len(),
    ensures
        nested_in(list, n) == sources_nested(items, n),
    decreases cx.rules() + 1, 1nat, items, 0int, n,
{
    if n > 0 {
        shows_scalars_nested(cx, t, bound, rule, list, items, (n - 1) as nat);
        shows_scalar_nested(cx, t, bound, rule, list[n - 1], items[n - 1]);
    }
}

proof fn shows_judgment_nested(cx: CompileFacts, t: Tables, bound: nat, rule: Seq<char>, c: CompiledJudgmentExpr, e: JudgmentExpr)
    requires
        shows_judgment(cx, t, bound, rule, c, e),
    ensures
        nested_judgment_kind(c) == source_judgment_nested(e),
    decreases cx.rules() + 1, 1nat, e, 1int, 0nat,
{
    match (e, c) {
        (JudgmentExpr::Comparison { left, right, .. }, CompiledJudgmentExpr::Comparison { left: x, right: y, .. }) => {
            shows_scalar_nested(cx, t, bound, rule, x, left);
            shows_scalar_nested(cx, t, bound, rule, y, right);
        },
        (JudgmentExpr::And(items), CompiledJudgmentExpr::And(list)) => {
            shows_judgments_nested(cx, t, bound, rule, list@, items@, items@.len());
        },
        (JudgmentExpr::Or(items), CompiledJudgmentExpr::Or(list)) => {
            shows_judgments_nested(cx, t, bound, rule, list@, items@, items@.len());
        },
        (JudgmentExpr::Not(item), CompiledJudgmentExpr::Not(x)) => {
            shows_judgment_nested(cx, t, bound, rule, *x, *item);
        },
        _ => {},
    }
}

proof fn shows_judgments_nested(cx: CompileFacts, t: Tables, bound: nat, rule: Seq<char>, list: Seq<CompiledJudgmentExpr>, items: Seq<JudgmentExpr>, n: nat)
    requires
        shows_judgments(cx, t, bound, rule, list, items, n),
        n <= items.len(),
        n <= list.len(),
    ensures
        nested_in_judgments(list, n) == source_judgments_nested(items, n),
    decreases cx.rules() + 1, 1nat, items, 0int, n,
{
    if n > 0 {
        shows_judgments_nested(cx, t, bound, rule, list, items, (n - 1) as nat);
        shows_judgment_nested(cx, t, bound, rule, list[n - 1], items[n - 1]);
    }
}

proof fn shows_related_nested(cx: CompileFacts, t: Tables, rel: nat, rule: Seq<char>, depth: nat, c: CompiledRelatedScalarExpr, e: ScalarExpr)
    requires
        shows_related(cx, t, rel, rule, depth, c, e),
    ensures
        nested_related_kind(c) is None,
        source_nested(e) is None,
    decreases depth, 1nat, e, 1int, 0nat,
{
    match (e, c) {
        (ScalarExpr::ParameterLookup { index, .. }, CompiledRelatedScalarExpr::ParameterLookup { index: k, .. }) => {
            shows_related_nested(cx, t, rel, rule, depth, *k, *index);
        },
        (ScalarExpr::Add(items), CompiledRelatedScalarExpr::Add(list)) => {
            shows_relateds_nested(cx, t, rel, rule, depth, list@, items@, items@.len());
        },
        (ScalarExpr::Max(items), CompiledRelatedScalarExpr::Max(list)) => {
            shows_relateds_nested(cx, t, rel, rule, depth, list@, items@, items@.len());
        },
        (ScalarExpr::Min(items), CompiledRelatedScalarExpr::Min(list)) => {
            shows_relateds_nested(cx, t, rel, rule, depth, list@, items@, items@.len());
        },
        (ScalarExpr::Sub(a, b), CompiledRelatedScalarExpr::Sub(x, y)) => {
            shows_related_nested(cx, t, rel, rule, depth, *x, *a);
            shows_related_nested(cx, t, rel, rule, depth, *y, *b);
        },
        (ScalarExpr::Mul(a, b), CompiledRelatedScalarExpr::Mul(x, y)) => {
            shows_related_nested(cx, t, rel, rule, depth, *x, *a);
            shows_related_nested(cx, t, rel, rule, depth, *y, *b);
        },
        (ScalarExpr::Div(a, b), CompiledRelatedScalarExpr::Div(x, y)) => {
            shows_related_nested(cx, t, rel, rule, depth, *x, *a);
            shows_related_nested(cx, t, rel, rule, depth, *y, *b);
        },
        (ScalarExpr::Ceil(a), CompiledRelatedScalarExpr::Ceil(x)) => {
            shows_related_nested(cx, t, rel, rule, depth, *x, *a);
        },
        (ScalarExpr::Floor(a), CompiledRelatedScalarExpr::Floor(x)) => {
            shows_related_nested(cx, t, rel, rule, depth, *x, *a);
        },
        (ScalarExpr::DateAddDays { date, days }, CompiledRelatedScalarExpr::DateShift { date: d, count, .. }) => {
            shows_related_nested(cx, t, rel, rule, depth, *d, *date);
            shows_related_nested(cx, t, rel, rule, depth, *count, *days);
        },
        (ScalarExpr::DateAddMonths { date, months }, CompiledRelatedScalarExpr::DateShift { date: d, count, .. }) => {
            shows_related_nested(cx, t, rel, rule, depth, *d, *date);
            shows_related_nested(cx, t, rel, rule, depth, *count, *months);
        },
        (ScalarExpr::DateAddYears { date, years }, CompiledRelatedScalarExpr::DateShift { date: d, count, .. }) => {
            shows_related_nested(cx, t, rel, rule, depth, *d, *date);
            shows_related_nested(cx, t, rel, rule, depth, *count, *years);
        },
        (ScalarExpr::DaysBetween { from, to }, CompiledRelatedScalarExpr::DaysBetween { from: a, to: b }) => {
            shows_related_nested(cx, t, rel, rule, depth, *a, *from);
            shows_related_nested(cx, t, rel, rule, depth, *b, *to);
        },
        (
            ScalarExpr::If { condition, then_expr, else_expr },
            CompiledRelatedScalarExpr::If { condition: q, then_expr: x, else_expr: y },
        ) => {
            shows_related_judgment_nested(cx, t, rel, rule, depth, *q, *condition);
            shows_related_nested(cx, t, rel, rule, depth, *x, *then_expr);
            match (*else_expr, *y) {
                (
                    ScalarExpr::NoMatch { subject, .. },
                    CompiledRelatedScalarExpr::NoMatch { subject: s, placeholder, .. },
                ) => {
                    shows_related_nested(cx, t, rel, rule, depth, *s, *subject);
                    shows_related_nested(cx, t, rel, rule, depth, *placeholder, *then_expr);
                    assert(nested_related_kind(*y) == either(
                        nested_related_kind(*s),
                        nested_related_kind(*placeholder),
                    ));
                },
                _ => {
                    shows_related_nested(cx, t, rel, rule, depth, *y, *else_expr);
                },
            }
        },
        (ScalarExpr::Derived(name), _) => {
            shows_related_rule_nested(cx, t, rel, depth, c, name@);
        },
        _ => {},
    }
}

proof fn shows_relateds_nested(cx: CompileFacts, t: Tables, rel: nat, rule: Seq<char>, depth: nat, list: Seq<CompiledRelatedScalarExpr>, items: Seq<ScalarExpr>, n: nat)
    requires
        shows_relateds(cx, t, rel, rule, depth, list, items, n),
        n <= items.len(),
        n <= list.len(),
    ensures
        nested_in_related(list, n) is None,
        sources_nested(items, n) is None,
    decreases depth, 1nat, items, 0int, n,
{
    if n > 0 {
        shows_relateds_nested(cx, t, rel, rule, depth, list, items, (n - 1) as nat);
        shows_related_nested(cx, t, rel, rule, depth, list[n - 1], items[n - 1]);
    }
}

proof fn shows_related_judgment_nested(cx: CompileFacts, t: Tables, rel: nat, rule: Seq<char>, depth: nat, c: CompiledRelatedJudgmentExpr, e: JudgmentExpr)
    requires
        shows_related_judgment(cx, t, rel, rule, depth, c, e),
    ensures
        nested_related_judgment_kind(c) is None,
        source_judgment_nested(e) is None,
    decreases depth, 1nat, e, 1int, 0nat,
{
    match (e, c) {
        (JudgmentExpr::Comparison { left, right, .. }, CompiledRelatedJudgmentExpr::Comparison { left: x, right: y, .. }) => {
            shows_related_nested(cx, t, rel, rule, depth, x, left);
            shows_related_nested(cx, t, rel, rule, depth, y, right);
        },
        (JudgmentExpr::And(items), CompiledRelatedJudgmentExpr::And(list)) => {
            shows_related_judgments_nested(cx, t, rel, rule, depth, list@, items@, items@.len());
        },
        (JudgmentExpr::Or(items), CompiledRelatedJudgmentExpr::Or(list)) => {
            shows_related_judgments_nested(cx, t, rel, rule, depth, list@, items@, items@.len());
        },
        (JudgmentExpr::Not(item), CompiledRelatedJudgmentExpr::Not(x)) => {
            shows_related_judgment_nested(cx, t, rel, rule, depth, *x, *item);
        },
        (JudgmentExpr::Derived(name), _) => {
            shows_related_judgment_rule_nested(cx, t, rel, depth, c, name@);
        },
        _ => {},
    }
}

proof fn shows_related_judgments_nested(cx: CompileFacts, t: Tables, rel: nat, rule: Seq<char>, depth: nat, list: Seq<CompiledRelatedJudgmentExpr>, items: Seq<JudgmentExpr>, n: nat)
    requires
        shows_related_judgments(cx, t, rel, rule, depth, list, items, n),
        n <= items.len(),
        n <= list.len(),
    ensures
        nested_in_related_judgments(list, n) is None,
        source_judgments_nested(items, n) is None,
    decreases depth, 1nat, items, 0int, n,
{
    if n > 0 {
        shows_related_judgments_nested(cx, t, rel, rule, depth, list, items, (n - 1) as nat);
        shows_related_judgment_nested(cx, t, rel, rule, depth, list[n - 1], items[n - 1]);
    }
}

proof fn shows_current_nested(cx: CompileFacts, t: Tables, rule: Seq<char>, depth: nat, c: CompiledScalarExpr, e: ScalarExpr)
    requires
        shows_current(cx, t, rule, depth, c, e),
    ensures
        nested_kind(c) is None,
    decreases depth, 1nat, e, 1int, 0nat,
{
    match (e, c) {
        (ScalarExpr::ParameterLookup { index, .. }, CompiledScalarExpr::ParameterLookup { index: k, .. }) => {
            shows_current_nested(cx, t, rule, depth, *k, *index);
        },
        (ScalarExpr::Add(items), CompiledScalarExpr::Add(list)) => {
            shows_currents_nested(cx, t, rule, depth, list@, items@, items@.len());
        },
        (ScalarExpr::Max(items), CompiledScalarExpr::Max(list)) => {
            shows_currents_nested(cx, t, rule, depth, list@, items@, items@.len());
        },
        (ScalarExpr::Min(items), CompiledScalarExpr::Min(list)) => {
            shows_currents_nested(cx, t, rule, depth, list@, items@, items@.len());
        },
        (ScalarExpr::Sub(a, b), CompiledScalarExpr::Sub(x, y)) => {
            shows_current_nested(cx, t, rule, depth, *x, *a);
            shows_current_nested(cx, t, rule, depth, *y, *b);
        },
        (ScalarExpr::Mul(a, b), CompiledScalarExpr::Mul(x, y)) => {
            shows_current_nested(cx, t, rule, depth, *x, *a);
            shows_current_nested(cx, t, rule, depth, *y, *b);
        },
        (ScalarExpr::Div(a, b), CompiledScalarExpr::Div(x, y)) => {
            shows_current_nested(cx, t, rule, depth, *x, *a);
            shows_current_nested(cx, t, rule, depth, *y, *b);
        },
        (ScalarExpr::Ceil(a), CompiledScalarExpr::Ceil(x)) => {
            shows_current_nested(cx, t, rule, depth, *x, *a);
        },
        (ScalarExpr::Floor(a), CompiledScalarExpr::Floor(x)) => {
            shows_current_nested(cx, t, rule, depth, *x, *a);
        },
        (ScalarExpr::DateAddDays { date, days }, CompiledScalarExpr::DateShift { date: d, count, .. }) => {
            shows_current_nested(cx, t, rule, depth, *d, *date);
            shows_current_nested(cx, t, rule, depth, *count, *days);
        },
        (ScalarExpr::DateAddMonths { date, months }, CompiledScalarExpr::DateShift { date: d, count, .. }) => {
            shows_current_nested(cx, t, rule, depth, *d, *date);
            shows_current_nested(cx, t, rule, depth, *count, *months);
        },
        (ScalarExpr::DateAddYears { date, years }, CompiledScalarExpr::DateShift { date: d, count, .. }) => {
            shows_current_nested(cx, t, rule, depth, *d, *date);
            shows_current_nested(cx, t, rule, depth, *count, *years);
        },
        (ScalarExpr::DaysBetween { from, to }, CompiledScalarExpr::DaysBetween { from: a, to: b }) => {
            shows_current_nested(cx, t, rule, depth, *a, *from);
            shows_current_nested(cx, t, rule, depth, *b, *to);
        },
        (
            ScalarExpr::If { condition, then_expr, else_expr },
            CompiledScalarExpr::If { condition: q, then_expr: x, else_expr: y },
        ) => {
            shows_current_judgment_nested(cx, t, rule, depth, *q, *condition);
            shows_current_nested(cx, t, rule, depth, *x, *then_expr);
            match (*else_expr, *y) {
                (
                    ScalarExpr::NoMatch { subject, .. },
                    CompiledScalarExpr::NoMatch { subject: s, placeholder, .. },
                ) => {
                    shows_current_nested(cx, t, rule, depth, *s, *subject);
                    shows_current_nested(cx, t, rule, depth, *placeholder, *then_expr);
                    assert(nested_kind(*y) == either(nested_kind(*s), nested_kind(*placeholder)));
                },
                _ => {
                    shows_current_nested(cx, t, rule, depth, *y, *else_expr);
                },
            }
        },
        (ScalarExpr::Derived(name), _) => {
            let p = cx.position(name@)->Some_0;
            if let DerivedSemantics::Scalar(inner) = cx.rule_at(p).semantics {
                shows_current_nested(cx, t, name@, (depth - 1) as nat, c, inner);
            }
        },
        _ => {},
    }
}

proof fn shows_currents_nested(cx: CompileFacts, t: Tables, rule: Seq<char>, depth: nat, list: Seq<CompiledScalarExpr>, items: Seq<ScalarExpr>, n: nat)
    requires
        shows_currents(cx, t, rule, depth, list, items, n),
        n <= items.len(),
        n <= list.len(),
    ensures
        nested_in(list, n) is None,
    decreases depth, 1nat, items, 0int, n,
{
    if n > 0 {
        shows_currents_nested(cx, t, rule, depth, list, items, (n - 1) as nat);
        shows_current_nested(cx, t, rule, depth, list[n - 1], items[n - 1]);
    }
}

proof fn shows_current_judgment_nested(cx: CompileFacts, t: Tables, rule: Seq<char>, depth: nat, c: CompiledJudgmentExpr, e: JudgmentExpr)
    requires
        shows_current_judgment(cx, t, rule, depth, c, e),
    ensures
        nested_judgment_kind(c) is None,
    decreases depth, 1nat, e, 1int, 0nat,
{
    match (e, c) {
        (JudgmentExpr::Comparison { left, right, .. }, CompiledJudgmentExpr::Comparison { left: x, right: y, .. }) => {
            shows_current_nested(cx, t, rule, depth, x, left);
            shows_current_nested(cx, t, rule, depth, y, right);
        },
        (JudgmentExpr::And(items), CompiledJudgmentExpr::And(list)) => {
            shows_current_judgments_nested(cx, t, rule, depth, list@, items@, items@.len());
        },
        (JudgmentExpr::Or(items), CompiledJudgmentExpr::Or(list)) => {
            shows_current_judgments_nested(cx, t, rule, depth, list@, items@, items@.len());
        },
        (JudgmentExpr::Not(item), CompiledJudgmentExpr::Not(x)) => {
            shows_current_judgment_nested(cx, t, rule, depth, *x, *item);
        },
        (JudgmentExpr::Derived(name), _) => {
            let p = cx.position(name@)->Some_0;
            if let DerivedSemantics::Judgment(inner) = cx.rule_at(p).semantics {
                shows_current_judgment_nested(cx, t, name@, (depth - 1) as nat, c, inner);
            }
        },
        _ => {},
    }
}

proof fn shows_current_judgments_nested(cx: CompileFacts, t: Tables, rule: Seq<char>, depth: nat, list: Seq<CompiledJudgmentExpr>, items: Seq<JudgmentExpr>, n: nat)
    requires
        shows_current_judgments(cx, t, rule, depth, list, items, n),
        n <= items.len(),
        n <= list.len(),
    ensures
        nested_in_judgments(list, n) is None,
    decreases depth, 1nat, items, 0int, n,
{
    if n > 0 {
        shows_current_judgments_nested(cx, t, rule, depth, list, items, (n - 1) as nat);
        shows_current_judgment_nested(cx, t, rule, depth, list[n - 1], items[n - 1]);
    }
}

/// A rule that a related formula reads holds no reduction.
proof fn shows_related_rule_nested(cx: CompileFacts, t: Tables, rel: nat, depth: nat, c: CompiledRelatedScalarExpr, name: Seq<char>)
    requires
        shows_related_rule(cx, t, rel, depth, c, name),
    ensures
        nested_related_kind(c) is None,
    decreases depth, 0nat, cx, 0int, 0nat,
{
    let d = cx.rule_at(cx.position(name)->Some_0);
    let info = info_of(t.relations[rel as int]);
    if let DerivedSemantics::Scalar(e) = d.semantics {
        if reads_current(cx, info, d) || d.entity@ == SCALAR_ENTITY@ {
            if let CompiledRelatedScalarExpr::RootScalar(x) = c {
                shows_current_nested(cx, t, name, (depth - 1) as nat, *x, e);
            }
        } else {
            shows_related_nested(cx, t, rel, name, (depth - 1) as nat, c, e);
        }
    }
}

/// A judgment rule that a related test reads holds no reduction.
proof fn shows_related_judgment_rule_nested(cx: CompileFacts, t: Tables, rel: nat, depth: nat, c: CompiledRelatedJudgmentExpr, name: Seq<char>)
    requires
        shows_related_judgment_rule(cx, t, rel, depth, c, name),
    ensures
        nested_related_judgment_kind(c) is None,
    decreases depth, 0nat, cx, 0int, 0nat,
{
    let d = cx.rule_at(cx.position(name)->Some_0);
    let info = info_of(t.relations[rel as int]);
    if let DerivedSemantics::Judgment(e) = d.semantics {
        if reads_current(cx, info, d) {
            if let CompiledRelatedJudgmentExpr::RootJudgment(x) = c {
                shows_current_judgment_nested(cx, t, name, (depth - 1) as nat, *x, e);
            }
        } else {
            shows_related_judgment_nested(cx, t, rel, name, (depth - 1) as nat, c, e);
        }
    }
}

/// Whether a stack holds distinct rules.
pub open spec fn stacked(cx: CompileFacts, stack: Seq<nat>) -> bool {
    &&& stack.no_duplicates()
    &&& forall|k: int| #![trigger stack[k]]
        0 <= k < stack.len() ==> stack[k] < cx.rules() && cx.position(
            cx.rule_at(stack[k]).name@,
        ) == Some(stack[k])
}

/// Whether no rule of a stack is compiled yet.
pub open spec fn uncompiled(cx: CompileFacts, t: Tables, stack: Seq<nat>) -> bool {
    forall|k: int, i: int| #![trigger stack[k], t.derived[i]]
        0 <= k < stack.len() && 0 <= i < t.derived.len() ==> t.derived[i].name@ != cx.rule_at(
            stack[k],
        ).name@
}

/// Whether compiled rules are free of faults over any stack of uncompiled rules.
pub open spec fn settled(cx: CompileFacts, t: Tables) -> bool {
    forall|i: int, stack: Seq<nat>| #![trigger t.derived[i], rule_fault(cx, stack, cx.position(t.derived[i].name@)->Some_0)]
        0 <= i < t.derived.len() && stacked(cx, stack) && uncompiled(cx, t, stack) ==> rule_fault(
            cx,
            stack,
            cx.position(t.derived[i].name@)->Some_0,
        ) is None
}

pub proof fn shows_scalar_settled(cx: CompileFacts, t: Tables, stack: Seq<nat>, other: Seq<nat>, bound: nat, rule: Seq<char>, c: CompiledScalarExpr, e: ScalarExpr)
    requires
        shows_scalar(cx, t, bound, rule, c, e),
        scalar_fault(cx, stack, rule, e) is None,
        settled(cx, t),
        stacked(cx, other),
        uncompiled(cx, t, other),
    ensures
        scalar_fault(cx, other, rule, e) is None,
    decreases cx.rules() + 1, 1nat, e, 1int, 0nat,
{
    match (e, c) {
        (ScalarExpr::ParameterLookup { index, .. }, CompiledScalarExpr::ParameterLookup { index: k, .. }) => {
            shows_scalar_settled(cx, t, stack, other, bound, rule, *k, *index);
        },
        (ScalarExpr::Add(items), CompiledScalarExpr::Add(list)) => {
            shows_scalars_settled(cx, t, stack, other, bound, rule, list@, items@, items@.len());
        },
        (ScalarExpr::Max(items), CompiledScalarExpr::Max(list)) => {
            shows_scalars_settled(cx, t, stack, other, bound, rule, list@, items@, items@.len());
        },
        (ScalarExpr::Min(items), CompiledScalarExpr::Min(list)) => {
            shows_scalars_settled(cx, t, stack, other, bound, rule, list@, items@, items@.len());
        },
        (ScalarExpr::Sub(a, b), CompiledScalarExpr::Sub(x, y)) => {
            shows_scalar_settled(cx, t, stack, other, bound, rule, *x, *a);
            shows_scalar_settled(cx, t, stack, other, bound, rule, *y, *b);
        },
        (ScalarExpr::Mul(a, b), CompiledScalarExpr::Mul(x, y)) => {
            shows_scalar_settled(cx, t, stack, other, bound, rule, *x, *a);
            shows_scalar_settled(cx, t, stack, other, bound, rule, *y, *b);
        },
        (ScalarExpr::Div(a, b), CompiledScalarExpr::Div(x, y)) => {
            shows_scalar_settled(cx, t, stack, other, bound, rule, *x, *a);
            shows_scalar_settled(cx, t, stack, other, bound, rule, *y, *b);
        },
        (ScalarExpr::Ceil(a), CompiledScalarExpr::Ceil(x)) => {
            shows_scalar_settled(cx, t, stack, other, bound, rule, *x, *a);
        },
        (ScalarExpr::Floor(a), CompiledScalarExpr::Floor(x)) => {
            shows_scalar_settled(cx, t, stack, other, bound, rule, *x, *a);
        },
        (ScalarExpr::DateAddDays { date, days }, CompiledScalarExpr::DateShift { date: d, count, .. }) => {
            shows_scalar_settled(cx, t, stack, other, bound, rule, *d, *date);
            shows_scalar_settled(cx, t, stack, other, bound, rule, *count, *days);
        },
        (ScalarExpr::DateAddMonths { date, months }, CompiledScalarExpr::DateShift { date: d, count, .. }) => {
            shows_scalar_settled(cx, t, stack, other, bound, rule, *d, *date);
            shows_scalar_settled(cx, t, stack, other, bound, rule, *count, *months);
        },
        (ScalarExpr::DateAddYears { date, years }, CompiledScalarExpr::DateShift { date: d, count, .. }) => {
            shows_scalar_settled(cx, t, stack, other, bound, rule, *d, *date);
            shows_scalar_settled(cx, t, stack, other, bound, rule, *count, *years);
        },
        (ScalarExpr::DaysBetween { from, to }, CompiledScalarExpr::DaysBetween { from: a, to: b }) => {
            shows_scalar_settled(cx, t, stack, other, bound, rule, *a, *from);
            shows_scalar_settled(cx, t, stack, other, bound, rule, *b, *to);
        },
        (
            ScalarExpr::If { condition, then_expr, else_expr },
            CompiledScalarExpr::If { condition: q, then_expr: x, else_expr: y },
        ) => {
            shows_judgment_settled(cx, t, stack, other, bound, rule, *q, *condition);
            shows_scalar_settled(cx, t, stack, other, bound, rule, *x, *then_expr);
            match (*else_expr, *y) {
                (
                    ScalarExpr::NoMatch { subject, .. },
                    CompiledScalarExpr::NoMatch { subject: s, placeholder, .. },
                ) => {
                    shows_scalar_settled(cx, t, stack, other, bound, rule, *s, *subject);
                    shows_scalar_settled(cx, t, stack, other, bound, rule, *placeholder, *then_expr);
                    
                },
                _ => {
                    shows_scalar_settled(cx, t, stack, other, bound, rule, *y, *else_expr);
                },
            }
        },
        (ScalarExpr::OverPeriods { value, n, .. }, CompiledScalarExpr::OverPeriods { value: v, n: m, .. }) => {
            shows_scalar_settled(cx, t, stack, other, bound, rule, *v, *value);
            if let (Some(n), Some(m)) = (n, m) {
                shows_scalar_settled(cx, t, stack, other, bound, rule, *m, *n);
            }
        },
        (ScalarExpr::Derived(name), CompiledScalarExpr::Derived(i)) => {
            assert(t.derived[i as int].name@ == name@);
            assert(rule_fault(cx, other, cx.position(t.derived[i as int].name@)->Some_0) is None);
        },
        _ => {},
    }
}

proof fn shows_scalars_settled(cx: CompileFacts, t: Tables, stack: Seq<nat>, other: Seq<nat>, bound: nat, rule: Seq<char>, list: Seq<CompiledScalarExpr>, items: Seq<ScalarExpr>, n: nat)
    requires
        shows_scalars(cx, t, bound, rule, list, items, n),
        n <= items.len(),
        n <= list.len(),
        scalars_fault(cx, stack, rule, items, n) is None,
        settled(cx, t),
        stacked(cx, other),
        uncompiled(cx, t, other),
    ensures
        scalars_fault(cx, other, rule, items, n) is None,
    decreases cx.rules() + 1, 1nat, items, 0int, n,
{
    if n > 0 {
        shows_scalars_settled(cx, t, stack, other, bound, rule, list, items, (n - 1) as nat);
        shows_scalar_settled(cx, t, stack, other, bound, rule, list[n - 1], items[n - 1]);
    }
}

pub proof fn shows_judgment_settled(cx: CompileFacts, t: Tables, stack: Seq<nat>, other: Seq<nat>, bound: nat, rule: Seq<char>, c: CompiledJudgmentExpr, e: JudgmentExpr)
    requires
        shows_judgment(cx, t, bound, rule, c, e),
        judgment_fault(cx, stack, rule, e) is None,
        settled(cx, t),
        stacked(cx, other),
        uncompiled(cx, t, other),
    ensures
        judgment_fault(cx, other, rule, e) is None,
    decreases cx.rules() + 1, 1nat, e, 1int, 0nat,
{
    match (e, c) {
        (
            JudgmentExpr::Comparison { left, right, .. },
            CompiledJudgmentExpr::Comparison { left: x, right: y, .. },
        ) => {
            shows_scalar_settled(cx, t, stack, other, bound, rule, x, left);
            shows_scalar_settled(cx, t, stack, other, bound, rule, y, right);
        },
        (JudgmentExpr::And(items), CompiledJudgmentExpr::And(list)) => {
            shows_judgments_settled(cx, t, stack, other, bound, rule, list@, items@, items@.len());
        },
        (JudgmentExpr::Or(items), CompiledJudgmentExpr::Or(list)) => {
            shows_judgments_settled(cx, t, stack, other, bound, rule, list@, items@, items@.len());
        },
        (JudgmentExpr::Not(item), CompiledJudgmentExpr::Not(x)) => {
            shows_judgment_settled(cx, t, stack, other, bound, rule, *x, *item);
        },
        (JudgmentExpr::Derived(name), CompiledJudgmentExpr::Derived(i)) => {
            assert(t.derived[i as int].name@ == name@);
            assert(rule_fault(cx, other, cx.position(t.derived[i as int].name@)->Some_0) is None);
        },
        _ => {},
    }
}

proof fn shows_judgments_settled(cx: CompileFacts, t: Tables, stack: Seq<nat>, other: Seq<nat>, bound: nat, rule: Seq<char>, list: Seq<CompiledJudgmentExpr>, items: Seq<JudgmentExpr>, n: nat)
    requires
        shows_judgments(cx, t, bound, rule, list, items, n),
        n <= items.len(),
        n <= list.len(),
        judgments_fault(cx, stack, rule, items, n) is None,
        settled(cx, t),
        stacked(cx, other),
        uncompiled(cx, t, other),
    ensures
        judgments_fault(cx, other, rule, items, n) is None,
    decreases cx.rules() + 1, 1nat, items, 0int, n,
{
    if n > 0 {
        shows_judgments_settled(cx, t, stack, other, bound, rule, list, items, (n - 1) as nat);
        shows_judgment_settled(cx, t, stack, other, bound, rule, list[n - 1], items[n - 1]);
    }
}

/// A stack that lacks a rule is shorter than the rules.
pub proof fn stack_has_room(cx: CompileFacts, stack: Seq<nat>, p: nat)
    requires
        stacked(cx, stack),
        p < cx.rules(),
        cx.position(cx.rule_at(p).name@) == Some(p),
        !stack.contains(p),
    ensures
        stack.len() < cx.rules(),
        stacked(cx, stack.push(p)),
{
    let longer = stack.push(p);
    assert(longer.no_duplicates()) by {
        assert forall|i: int, j: int| 0 <= i < longer.len() && 0 <= j < longer.len() && i
            != j implies longer[i] != longer[j] by {
            if i == stack.len() {
                assert(stack[j] != p);
            } else if j == stack.len() {
                assert(stack[i] != p);
            } else {
                assert(stack[i] != stack[j]);
            }
        }
    }
    longer.unique_seq_to_set();
    let all = Set::new(|k: nat| k < cx.rules());
    nats_below(cx.rules());
    assert(longer.to_set().subset_of(all)) by {
        assert forall|k: nat| longer.to_set().contains(k) implies all.contains(k) by {
            let i = choose|i: int| 0 <= i < longer.len() && longer[i] == k;
            if i < stack.len() {
                assert(stack[i] < cx.rules());
            }
        }
    }
    vstd::set_lib::lemma_len_subset(longer.to_set(), all);
}

proof fn nats_below(n: nat)
    ensures
        Set::new(|k: nat| k < n).finite(),
        Set::new(|k: nat| k < n).len() == n,
    decreases n,
{
    let all = Set::new(|k: nat| k < n);
    if n == 0 {
        assert(all =~= Set::empty());
    } else {
        nats_below((n - 1) as nat);
        let fewer = Set::new(|k: nat| k < n - 1);
        assert(fewer =~= Set::new(|k: nat| k < (n - 1) as nat));
        assert(all =~= fewer.insert((n - 1) as nat));
    }
}

} // verus!
