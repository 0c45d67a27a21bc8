//! What the rules of a root entity read, and what the tables of a compilation list.
//!
//! A formula reads inputs, parameters, relations and rules by their names. A rule that
//! is read brings what its own formula reads, and a derived relation what its predicate
//! reads, in turn. The tables of a compilation list that, each thing once, and nothing
//! else.
use crate::dense::RelationKeyView;
use crate::lowering::{
    compiled_source, lookup_key, reads_current, relation_info, source_key, CompileFacts, Tables,
};
use crate::model::{
    DerivedSemantics, JudgmentExpr, RelatedValueRef, RelationDerivation, ScalarExpr,
    SCALAR_ENTITY,
};
use vstd::prelude::*;

verus! {

/// What a formula may read.
pub ghost enum Read {
    /// An input of the root rows.
    Input(Seq<char>),
    Parameter(Seq<char>),
    /// A relation as a formula names it.
    Relation(RelationKeyView),
    /// An input of the related rows of a relation.
    Related(RelationKeyView, Seq<char>),
    /// A rule of the root rows.
    Rule(Seq<char>),
}

pub open spec fn one(x: Read) -> Set<Read> {
    Set::empty().insert(x)
}

/// What a root formula reads itself.
pub open spec fn scalar_reads(cx: CompileFacts, e: ScalarExpr) -> Set<Read>
    decreases e, 1int, 0nat,
{
    match e {
        ScalarExpr::Input(name) => one(Read::Input(name@)),
        ScalarExpr::InputOrElse { name, .. } => one(Read::Input(name@)),
        ScalarExpr::Derived(name) => one(Read::Rule(name@)),
        ScalarExpr::ParameterLookup { parameter, index } => one(Read::Parameter(parameter@)) + scalar_reads(cx, *index),
        ScalarExpr::Add(items) => scalars_reads(cx, items@, items@.len()),
        ScalarExpr::Max(items) => scalars_reads(cx, items@, items@.len()),
        ScalarExpr::Min(items) => scalars_reads(cx, items@, items@.len()),
        ScalarExpr::Sub(a, b) => scalar_reads(cx, *a) + scalar_reads(cx, *b),
        ScalarExpr::Mul(a, b) => scalar_reads(cx, *a) + scalar_reads(cx, *b),
        ScalarExpr::Div(a, b) => scalar_reads(cx, *a) + scalar_reads(cx, *b),
        ScalarExpr::Ceil(a) => scalar_reads(cx, *a),
        ScalarExpr::Floor(a) => scalar_reads(cx, *a),
        ScalarExpr::DateAddDays { date, days } => scalar_reads(cx, *date) + scalar_reads(cx, *days),
        ScalarExpr::DateAddMonths { date, months } => scalar_reads(cx, *date) + scalar_reads(cx, *months),
        ScalarExpr::DateAddYears { date, years } => scalar_reads(cx, *date) + scalar_reads(cx, *years),
        ScalarExpr::DaysBetween { from, to } => scalar_reads(cx, *from) + scalar_reads(cx, *to),
        ScalarExpr::If { condition, then_expr, else_expr } => judgment_reads(cx, *condition) + scalar_reads(cx, *then_expr) + match *else_expr {
            ScalarExpr::NoMatch { subject, .. } => scalar_reads(cx, *subject),
            _ => scalar_reads(cx, *else_expr),
        },
        ScalarExpr::CountRelated { relation, current_slot, related_slot, where_clause } => {
            let key = lookup_key(relation@, current_slot as nat, related_slot as nat);
            one(Read::Relation(key)) + where_reads(cx, key, where_clause)
        },
        ScalarExpr::SumRelated { relation, current_slot, related_slot, value, where_clause } => {
            let key = lookup_key(relation@, current_slot as nat, related_slot as nat);
            one(Read::Relation(key)) + value_reads(cx, key, value) + where_reads(
                cx,
                key,
                where_clause,
            )
        },
        ScalarExpr::OverPeriods { value, n, .. } => scalar_reads(cx, *value) + match n {
            Some(n) => scalar_reads(cx, *n),
            None => Set::empty(),
        },
        _ => Set::empty(),
    }
}

/// What the first `n` formulas read.
pub open spec fn scalars_reads(cx: CompileFacts, items: Seq<ScalarExpr>, n: nat) -> Set<Read>
    decreases items, 0int, n,
{
    if n == 0 || n > items.len() {
        Set::empty()
    } else {
        scalars_reads(cx, items, (n - 1) as nat) + scalar_reads(cx, items[n - 1])
    }
}

/// What a root judgment reads itself.
pub open spec fn judgment_reads(cx: CompileFacts, e: JudgmentExpr) -> Set<Read>
    decreases e, 1int, 0nat,
{
    match e {
        JudgmentExpr::Comparison { left, right, .. } => scalar_reads(cx, left) + scalar_reads(cx, right),
        JudgmentExpr::Derived(name) => one(Read::Rule(name@)),
        JudgmentExpr::And(items) => judgments_reads(cx, items@, items@.len()),
        JudgmentExpr::Or(items) => judgments_reads(cx, items@, items@.len()),
        JudgmentExpr::Not(item) => judgment_reads(cx, *item),
        JudgmentExpr::RelationMember { .. } => Set::empty(),
    }
}

/// What the first `n` judgments read.
pub open spec fn judgments_reads(cx: CompileFacts, items: Seq<JudgmentExpr>, n: nat) -> Set<Read>
    decreases items, 0int, n,
{
    if n == 0 || n > items.len() {
        Set::empty()
    } else {
        judgments_reads(cx, items, (n - 1) as nat) + judgment_reads(cx, items[n - 1])
    }
}

/// What the `where` clause of an aggregate over a relation reads.
pub open spec fn where_reads(
    cx: CompileFacts,
    key: RelationKeyView,
    where_clause: Option<Box<JudgmentExpr>>,
) -> Set<Read> {
    match where_clause {
        Some(w) => related_judgment_reads(cx, key, cx.rules(), *w),
        None => Set::empty(),
    }
}

/// What the summed value of an aggregate over a relation reads.
pub open spec fn value_reads(
    cx: CompileFacts,
    key: RelationKeyView,
    value: RelatedValueRef,
) -> Set<Read> {
    match value {
        RelatedValueRef::Input(name) => one(Read::Related(key, name@)),
        RelatedValueRef::Derived(name) => related_rule_reads(cx, key, cx.rules(), name@),
    }
}

/// What a formula over the related rows of a relation reads, with `depth` rules still to
/// put in place.
pub open spec fn related_reads(cx: CompileFacts, key: RelationKeyView, depth: nat, e: ScalarExpr) -> Set<Read>
    decreases depth, 1nat, e, 1int, 0nat,
{
    match e {
        ScalarExpr::Input(name) => one(Read::Related(key, name@)),
        ScalarExpr::InputOrElse { name, .. } => one(Read::Related(key, name@)),
        ScalarExpr::Derived(name) => related_rule_reads(cx, key, depth, name@),
        ScalarExpr::ParameterLookup { parameter, index } => one(Read::Parameter(parameter@)) + related_reads(cx, key, depth, *index),
        ScalarExpr::Add(items) => relateds_reads(cx, key, depth, items@, items@.len()),
        ScalarExpr::Max(items) => relateds_reads(cx, key, depth, items@, items@.len()),
        ScalarExpr::Min(items) => relateds_reads(cx, key, depth, items@, items@.len()),
        ScalarExpr::Sub(a, b) => related_reads(cx, key, depth, *a) + related_reads(cx, key, depth, *b),
        ScalarExpr::Mul(a, b) => related_reads(cx, key, depth, *a) + related_reads(cx, key, depth, *b),
        ScalarExpr::Div(a, b) => related_reads(cx, key, depth, *a) + related_reads(cx, key, depth, *b),
        ScalarExpr::Ceil(a) => related_reads(cx, key, depth, *a),
        ScalarExpr::Floor(a) => related_reads(cx, key, depth, *a),
        ScalarExpr::DateAddDays { date, days } => related_reads(cx, key, depth, *date) + related_reads(cx, key, depth, *days),
        ScalarExpr::DateAddMonths { date, months } => related_reads(cx, key, depth, *date) + related_reads(cx, key, depth, *months),
        ScalarExpr::DateAddYears { date, years } => related_reads(cx, key, depth, *date) + related_reads(cx, key, depth, *years),
        ScalarExpr::DaysBetween { from, to } => related_reads(cx, key, depth, *from) + related_reads(cx, key, depth, *to),
        ScalarExpr::If { condition, then_expr, else_expr } => related_judgment_reads(cx, key, depth, *condition) + related_reads(cx, key, depth, *then_expr) + match *else_expr {
            ScalarExpr::NoMatch { subject, .. } => related_reads(cx, key, depth, *subject),
            _ => related_reads(cx, key, depth, *else_expr),
        },
        _ => Set::empty(),
    }
}

pub open spec fn relateds_reads(cx: CompileFacts, key: RelationKeyView, depth: nat, items: Seq<ScalarExpr>, n: nat) -> Set<Read>
    decreases depth, 1nat, items, 0int, n,
{
    if n == 0 || n > items.len() {
        Set::empty()
    } else {
        relateds_reads(cx, key, depth, items, (n - 1) as nat) + related_reads(cx, key, depth, items[n - 1])
    }
}

/// What a test on the related rows of a relation reads.
pub open spec fn related_judgment_reads(cx: CompileFacts, key: RelationKeyView, depth: nat, e: JudgmentExpr) -> Set<Read>
    decreases depth, 1nat, e, 1int, 0nat,
{
    match e {
        JudgmentExpr::Comparison { left, right, .. } => related_reads(cx, key, depth, left) + related_reads(cx, key, depth, right),
        JudgmentExpr::Derived(name) => related_judgment_rule_reads(cx, key, depth, name@),
        JudgmentExpr::And(items) => related_judgments_reads(cx, key, depth, items@, items@.len()),
        JudgmentExpr::Or(items) => related_judgments_reads(cx, key, depth, items@, items@.len()),
        JudgmentExpr::Not(item) => related_judgment_reads(cx, key, depth, *item),
        JudgmentExpr::RelationMember { .. } => Set::empty(),
    }
}

pub open spec fn related_judgments_reads(cx: CompileFacts, key: RelationKeyView, depth: nat, items: Seq<JudgmentExpr>, n: nat) -> Set<Read>
    decreases depth, 1nat, items, 0int, n,
{
    if n == 0 || n > items.len() {
        Set::empty()
    } else {
        related_judgments_reads(cx, key, depth, items, (n - 1) as nat) + related_judgment_reads(
            cx,
            key, depth,
            items[n - 1],
        )
    }
}

/// What a formula that is put in place over the root rows reads, with `depth` rules still
/// to put in place.
pub open spec fn current_reads(cx: CompileFacts, depth: nat, e: ScalarExpr) -> Set<Read>
    decreases depth, 1nat, e, 1int, 0nat,
{
    match e {
        ScalarExpr::Input(name) => one(Read::Input(name@)),
        ScalarExpr::InputOrElse { name, .. } => one(Read::Input(name@)),
        ScalarExpr::Derived(name) => current_rule_reads(cx, depth, name@),
        ScalarExpr::ParameterLookup { parameter, index } => one(Read::Parameter(parameter@)) + current_reads(cx, depth, *index),
        ScalarExpr::Add(items) => currents_reads(cx, depth, items@, items@.len()),
        ScalarExpr::Max(items) => currents_reads(cx, depth, items@, items@.len()),
        ScalarExpr::Min(items) => currents_reads(cx, depth, items@, items@.len()),
        ScalarExpr::Sub(a, b) => current_reads(cx, depth, *a) + current_reads(cx, depth, *b),
        ScalarExpr::Mul(a, b) => current_reads(cx, depth, *a) + current_reads(cx, depth, *b),
        ScalarExpr::Div(a, b) => current_reads(cx, depth, *a) + current_reads(cx, depth, *b),
        ScalarExpr::Ceil(a) => current_reads(cx, depth, *a),
        ScalarExpr::Floor(a) => current_reads(cx, depth, *a),
        ScalarExpr::DateAddDays { date, days } => current_reads(cx, depth, *date) + current_reads(cx, depth, *days),
        ScalarExpr::DateAddMonths { date, months } => current_reads(cx, depth, *date) + current_reads(cx, depth, *months),
        ScalarExpr::DateAddYears { date, years } => current_reads(cx, depth, *date) + current_reads(cx, depth, *years),
        ScalarExpr::DaysBetween { from, to } => current_reads(cx, depth, *from) + current_reads(cx, depth, *to),
        ScalarExpr::If { condition, then_expr, else_expr } => current_judgment_reads(cx, depth, *condition) + current_reads(cx, depth, *then_expr) + match *else_expr {
            ScalarExpr::NoMatch { subject, .. } => current_reads(cx, depth, *subject),
            _ => current_reads(cx, depth, *else_expr),
        },
        _ => Set::empty(),
    }
}

pub open spec fn currents_reads(cx: CompileFacts, depth: nat, items: Seq<ScalarExpr>, n: nat) -> Set<Read>
    decreases depth, 1nat, items, 0int, n,
{
    if n == 0 || n > items.len() {
        Set::empty()
    } else {
        currents_reads(cx, depth, items, (n - 1) as nat) + current_reads(cx, depth, items[n - 1])
    }
}

/// What a judgment that is put in place over the root rows reads.
pub open spec fn current_judgment_reads(cx: CompileFacts, depth: nat, e: JudgmentExpr) -> Set<Read>
    decreases depth, 1nat, e, 1int, 0nat,
{
    match e {
        JudgmentExpr::Comparison { left, right, .. } => current_reads(cx, depth, left) + current_reads(cx, depth, right),
        JudgmentExpr::Derived(name) => current_judgment_rule_reads(cx, depth, name@),
        JudgmentExpr::And(items) => current_judgments_reads(cx, depth, items@, items@.len()),
        JudgmentExpr::Or(items) => current_judgments_reads(cx, depth, items@, items@.len()),
        JudgmentExpr::Not(item) => current_judgment_reads(cx, depth, *item),
        JudgmentExpr::RelationMember { .. } => Set::empty(),
    }
}

pub open spec fn current_judgments_reads(cx: CompileFacts, depth: nat, items: Seq<JudgmentExpr>, n: nat) -> Set<Read>
    decreases depth, 1nat, items, 0int, n,
{
    if n == 0 || n > items.len() {
        Set::empty()
    } else {
        current_judgments_reads(cx, depth, items, (n - 1) as nat) + current_judgment_reads(
            cx,
            depth,
            items[n - 1],
        )
    }
}

/// What a rule that a related formula names reads: over the root rows for a rule of the
/// current rows or of no entity, else over the related rows.
pub open spec fn related_rule_reads(
    cx: CompileFacts,
    key: RelationKeyView,
    depth: nat,
    name: Seq<char>,
) -> Set<Read>
    decreases depth, 0nat, cx, 0int, 0nat,
{
    match cx.position(name) {
        None => Set::empty(),
        Some(p) => {
            let d = cx.rule_at(p);
            match d.semantics {
                DerivedSemantics::Judgment(_) => Set::empty(),
                DerivedSemantics::Scalar(e) => if depth == 0 {
                    Set::empty()
                } else if reads_current(cx, relation_info(cx, key), d) || d.entity@
                    == SCALAR_ENTITY@ {
                    current_reads(cx, (depth - 1) as nat, e)
                } else {
                    related_reads(cx, key, (depth - 1) as nat, e)
                },
            }
        },
    }
}

/// What a judgment rule that a related test names reads.
pub open spec fn related_judgment_rule_reads(
    cx: CompileFacts,
    key: RelationKeyView,
    depth: nat,
    name: Seq<char>,
) -> Set<Read>
    decreases depth, 0nat, cx, 0int, 0nat,
{
    match cx.position(name) {
        None => Set::empty(),
        Some(p) => {
            let d = cx.rule_at(p);
            match d.semantics {
                DerivedSemantics::Scalar(_) => Set::empty(),
                DerivedSemantics::Judgment(e) => if depth == 0 {
                    Set::empty()
                } else if reads_current(cx, relation_info(cx, key), d) {
                    current_judgment_reads(cx, (depth - 1) as nat, e)
                } else {
                    related_judgment_reads(cx, key, (depth - 1) as nat, e)
                },
            }
        },
    }
}

/// What a rule that is put in place over the root rows reads.
pub open spec fn current_rule_reads(cx: CompileFacts, depth: nat, name: Seq<char>) -> Set<Read>
    decreases depth, 0nat, cx, 0int, 0nat,
{
    match cx.position(name) {
        None => Set::empty(),
        Some(p) => match cx.rule_at(p).semantics {
            DerivedSemantics::Judgment(_) => Set::empty(),
            DerivedSemantics::Scalar(e) => if depth == 0 {
                Set::empty()
            } else {
                current_reads(cx, (depth - 1) as nat, e)
            },
        },
    }
}

/// What a judgment rule that is put in place over the root rows reads.
pub open spec fn current_judgment_rule_reads(cx: CompileFacts, depth: nat, name: Seq<char>) -> Set<
    Read,
>
    decreases depth, 0nat, cx, 0int, 0nat,
{
    match cx.position(name) {
        None => Set::empty(),
        Some(p) => match cx.rule_at(p).semantics {
            DerivedSemantics::Scalar(_) => Set::empty(),
            DerivedSemantics::Judgment(e) => if depth == 0 {
                Set::empty()
            } else {
                current_judgment_reads(cx, (depth - 1) as nat, e)
            },
        },
    }
}

/// What a compiled formula's source reads itself.
pub open spec fn source_reads(cx: CompileFacts, source: DerivedSemantics) -> Set<Read> {
    match source {
        DerivedSemantics::Scalar(e) => scalar_reads(cx, e),
        DerivedSemantics::Judgment(e) => judgment_reads(cx, e),
    }
}

/// What a derived relation brings: its source, where that is derived as well, and what
/// its predicate reads.
pub open spec fn derivation_reads(
    cx: CompileFacts,
    key: RelationKeyView,
    d: RelationDerivation,
) -> Set<Read> {
    (if cx.derivation(d.source_relation@) is Some {
        one(Read::Relation(source_key(d)))
    } else {
        Set::empty()
    }) + related_judgment_reads(cx, key, cx.rules(), d.predicate)
}

/// What a thing that is read brings with it: a rule what its formula reads, a relation
/// what its derivation reads.
#[verifier::opaque]
pub open spec fn brings(cx: CompileFacts, x: Read) -> Set<Read> {
    match x {
        Read::Rule(name) => match cx.position(name) {
            Some(p) => match compiled_source(cx.rule_at(p)) {
                Some(source) => source_reads(cx, source),
                None => Set::empty(),
            },
            None => Set::empty(),
        },
        Read::Relation(key) => match cx.derivation(key.name) {
            Some(d) => derivation_reads(cx, key, d),
            None => Set::empty(),
        },
        _ => Set::empty(),
    }
}

/// Whether a set holds all that its members bring.
pub open spec fn is_closed(cx: CompileFacts, s: Set<Read>) -> bool {
    forall|x: Read| s.contains(x) ==> #[trigger] brings(cx, x).subset_of(s)
}

/// Whether something is in each set that holds what is read at first and all that its
/// members bring.
pub open spec fn is_reached(cx: CompileFacts, first: Set<Read>, x: Read) -> bool {
    forall|s: Set<Read>| #[trigger] is_closed(cx, s) && first.subset_of(s) ==> s.contains(x)
}

/// What is read in turn, from what is read at first: the least set that holds the latter
/// and all that its members bring.
#[verifier::opaque]
pub open spec fn reached(cx: CompileFacts, first: Set<Read>) -> Set<Read> {
    Set::new(|x: Read| is_reached(cx, first, x))
}

/// The rules of the root entity among the first `n`.
pub open spec fn root_rules(cx: CompileFacts, n: nat) -> Set<Read>
    decreases n,
{
    if n == 0 || n > cx.rules() {
        Set::empty()
    } else {
        root_rules(cx, (n - 1) as nat) + if cx.rule_at((n - 1) as nat).entity@ == cx.root {
            one(Read::Rule(cx.rule_at((n - 1) as nat).name@))
        } else {
            Set::empty()
        }
    }
}

/// What the rules of the root entity read, in turn, with those rules themselves.
pub open spec fn program_reads(cx: CompileFacts) -> Set<Read> {
    reached(cx, root_rules(cx, cx.rules()))
}

/// Whether a rule of the root rows is compiled: one of the root entity, or one that a
/// compiled rule refers to.
pub open spec fn is_compiled(cx: CompileFacts, name: Seq<char>) -> bool {
    program_reads(cx).contains(Read::Rule(name))
}

/// Whether a compiled rule, or a formula put in place over the root rows, reads an input.
pub open spec fn reads_input(cx: CompileFacts, name: Seq<char>) -> bool {
    program_reads(cx).contains(Read::Input(name))
}

/// Whether a compiled rule aggregates a relation, or a derived relation so read has it as
/// its derived source.
pub open spec fn reads_relation(cx: CompileFacts, key: RelationKeyView) -> bool {
    program_reads(cx).contains(Read::Relation(key))
}

pub open spec fn holds_text(list: Seq<String>, name: Seq<char>) -> bool {
    exists|i: int| 0 <= i < list.len() && (#[trigger] list[i])@ == name
}

/// Whether tables list something.
pub open spec fn lists(t: Tables, x: Read) -> bool {
    match x {
        Read::Input(name) => holds_text(t.root_inputs, name),
        Read::Parameter(name) => exists|i: int|
            0 <= i < t.parameters.len() && (#[trigger] t.parameters[i]).parameter.name@ == name,
        Read::Relation(key) => t.lookups.contains(key),
        Read::Related(key, name) => exists|i: int|
            0 <= i < t.lookups.len() && #[trigger] t.lookups[i] == key && holds_text(
                t.relations[i].related_inputs@,
                name,
            ),
        Read::Rule(name) => exists|i: int|
            0 <= i < t.derived.len() && (#[trigger] t.derived[i]).name@ == name,
    }
}

/// All that tables list.
#[verifier::opaque]
pub open spec fn listed(t: Tables) -> Set<Read> {
    Set::new(|x: Read| lists(t, x))
}

pub open spec fn distinct_texts(list: Seq<String>) -> bool {
    forall|i: int, j: int|
        0 <= i < j < list.len() ==> (#[trigger] list[i])@ != (#[trigger] list[j])@
}

/// Whether tables list each thing once.
#[verifier::opaque]
pub open spec fn tables_distinct(t: Tables) -> bool {
    &&& distinct_texts(t.root_inputs)
    &&& t.lookups.no_duplicates()
    &&& forall|i: int|
        0 <= i < t.relations.len() ==> #[trigger] distinct_texts(t.relations[i].related_inputs@)
    &&& forall|i: int, j: int|
        0 <= i < j < t.parameters.len() ==> (#[trigger] t.parameters[i]).parameter.name@ != (
        #[trigger] t.parameters[j]).parameter.name@
}

pub proof fn listed_is(t: Tables, x: Read)
    ensures
        listed(t).contains(x) == lists(t, x),
{
    reveal(listed);
}

/// What is read at first is reached, with all that it brings, and nothing that another
/// such set lacks.
pub proof fn reached_is_least(cx: CompileFacts, first: Set<Read>)
    ensures
        first.subset_of(reached(cx, first)),
        is_closed(cx, reached(cx, first)),
        forall|s: Set<Read>| #[trigger] is_closed(cx, s) && first.subset_of(s) ==> reached(
            cx,
            first,
        ).subset_of(s),
{
    reveal(reached);
    let r = reached(cx, first);
    assert forall|x: Read| r.contains(x) implies #[trigger] brings(cx, x).subset_of(r) by {
        assert forall|y: Read| brings(cx, x).contains(y) implies r.contains(y) by {
            assert forall|s: Set<Read>| #[trigger] is_closed(cx, s) && first.subset_of(
                s,
            ) implies s.contains(y) by {
                assert(is_reached(cx, first, x));
                assert(s.contains(x));
                assert(brings(cx, x).subset_of(s));
            }
        }
    }
}

/// More is reached from more.
pub proof fn reached_grows(cx: CompileFacts, a: Set<Read>, b: Set<Read>)
    requires
        a.subset_of(b),
    ensures
        reached(cx, a).subset_of(reached(cx, b)),
{
    reached_is_least(cx, a);
    reached_is_least(cx, b);
}

pub proof fn closed_both(cx: CompileFacts, a: Set<Read>, b: Set<Read>)
    requires
        is_closed(cx, a),
        is_closed(cx, b),
    ensures
        is_closed(cx, a + b),
{
    assert forall|x: Read| (a + b).contains(x) implies #[trigger] brings(cx, x).subset_of(a + b) by {
        if a.contains(x) {
            assert(brings(cx, x).subset_of(a));
        } else {
            assert(brings(cx, x).subset_of(b));
        }
    }
}

/// What two parts reach is what each of them reaches.
pub proof fn reached_both(cx: CompileFacts, a: Set<Read>, b: Set<Read>)
    ensures
        reached(cx, a + b) == reached(cx, a) + reached(cx, b),
{
    reached_is_least(cx, a);
    reached_is_least(cx, b);
    reached_is_least(cx, a + b);
    closed_both(cx, reached(cx, a), reached(cx, b));
    reached_grows(cx, a, a + b);
    reached_grows(cx, b, a + b);
    assert((a + b).subset_of(reached(cx, a) + reached(cx, b)));
    assert(reached(cx, a + b) =~= reached(cx, a) + reached(cx, b));
}

pub proof fn reached_none(cx: CompileFacts)
    ensures
        reached(cx, Set::empty()) == Set::<Read>::empty(),
{
    reached_is_least(cx, Set::empty());
    assert(is_closed(cx, Set::<Read>::empty()));
    assert(reached(cx, Set::empty()) =~= Set::<Read>::empty());
}

/// A thing is reached with what is reached from all that it brings.
pub proof fn reached_step(cx: CompileFacts, x: Read)
    ensures
        reached(cx, one(x)) == one(x) + reached(cx, brings(cx, x)),
{
    let b = brings(cx, x);
    reached_is_least(cx, one(x));
    reached_is_least(cx, b);
    let r = reached(cx, one(x));
    assert(r.contains(x));
    assert(b.subset_of(r));
    let s = one(x) + reached(cx, b);
    assert(is_closed(cx, s)) by {
        assert forall|y: Read| s.contains(y) implies #[trigger] brings(cx, y).subset_of(s) by {
            if y == x {
                assert(b.subset_of(reached(cx, b)));
            } else {
                assert(brings(cx, y).subset_of(reached(cx, b)));
            }
        }
    }
    assert(one(x).subset_of(s));
    assert(reached(cx, b).subset_of(r));
    assert(r =~= s);
}

/// Inputs and parameters bring nothing.
pub proof fn reached_leaf(cx: CompileFacts, x: Read)
    requires
        !(x is Rule) && !(x is Relation),
    ensures
        reached(cx, one(x)) == one(x),
{
    reveal(brings);
    reached_step(cx, x);
    reached_none(cx);
    assert(one(x) + Set::<Read>::empty() =~= one(x));
}

/// What tables list is what they listed and what was read, where the list is closed and
/// no more was added.
pub proof fn listed_on(cx: CompileFacts, before: Set<Read>, after: Set<Read>, first: Set<Read>)
    requires
        is_closed(cx, after),
        before.subset_of(after),
        first.subset_of(after),
        after.subset_of(before + reached(cx, first)),
    ensures
        after == before + reached(cx, first),
{
    reached_is_least(cx, first);
    assert(after =~= before + reached(cx, first));
}

/// Tables that only inputs and parameters were added to list no other rule or relation,
/// so that what they list stays closed.
pub proof fn listed_closed(cx: CompileFacts, t: Tables, u: Tables)
    requires
        is_closed(cx, listed(t)),
        listed(t).subset_of(listed(u)),
        u.lookups == t.lookups,
        u.derived == t.derived,
    ensures
        is_closed(cx, listed(u)),
{
    assert forall|x: Read| listed(u).contains(x) implies #[trigger] brings(cx, x).subset_of(
        listed(u),
    ) by {
        listed_is(t, x);
        listed_is(u, x);
        if x is Rule || x is Relation {
            assert(listed(t).contains(x));
            assert(brings(cx, x).subset_of(listed(t)));
        } else {
            reveal(brings);
        }
    }
}

/// Whether the second tables list what the first do, and what is in the set.
pub open spec fn adds(t: Tables, u: Tables, s: Set<Read>) -> bool {
    listed(u) == listed(t) + s
}

pub proof fn adds_nothing(t: Tables)
    ensures
        adds(t, t, Set::empty()),
{
    assert(listed(t) + Set::<Read>::empty() =~= listed(t));
}

pub proof fn adds_on(t: Tables, u: Tables, v: Tables, a: Set<Read>, b: Set<Read>)
    requires
        adds(t, u, a),
        adds(u, v, b),
    ensures
        adds(t, v, a + b),
{
    assert(listed(t) + a + b =~= listed(t) + (a + b));
}

pub proof fn adds_reached(
    cx: CompileFacts,
    t: Tables,
    u: Tables,
    v: Tables,
    a: Set<Read>,
    b: Set<Read>,
)
    requires
        adds(t, u, reached(cx, a)),
        adds(u, v, reached(cx, b)),
    ensures
        adds(t, v, reached(cx, a + b)),
{
    adds_on(t, u, v, reached(cx, a), reached(cx, b));
    reached_both(cx, a, b);
}

/// A root input that is added.
pub proof fn input_added(t: Tables, u: Tables, name: Seq<char>)
    requires
        u.root_inputs.len() == t.root_inputs.len() + 1,
        forall|i: int| 0 <= i < t.root_inputs.len() ==> #[trigger] u.root_inputs[i] == t.root_inputs[i],
        u.root_inputs[t.root_inputs.len() as int]@ == name,
        !holds_text(t.root_inputs, name),
        u.lookups == t.lookups,
        u.relations == t.relations,
        u.parameters == t.parameters,
        u.derived == t.derived,
        tables_distinct(t),
    ensures
        tables_distinct(u),
        listed(u) == listed(t) + one(Read::Input(name)),
{
    reveal(tables_distinct);
    assert forall|x: Read| #[trigger] listed(u).contains(x) == (listed(t) + one(
        Read::Input(name),
    )).contains(x) by {
        listed_is(t, x);
        listed_is(u, x);
        if let Read::Input(n) = x {
            if holds_text(u.root_inputs, n) {
                let i = choose|i: int|
                    0 <= i < u.root_inputs.len() && (#[trigger] u.root_inputs[i])@ == n;
                if i < t.root_inputs.len() {
                    assert(t.root_inputs[i]@ == n);
                }
            }
            if holds_text(t.root_inputs, n) {
                let i = choose|i: int|
                    0 <= i < t.root_inputs.len() && (#[trigger] t.root_inputs[i])@ == n;
                assert(u.root_inputs[i]@ == n);
            }
            if n == name {
                assert(u.root_inputs[t.root_inputs.len() as int]@ == n);
            }
        }
    }
    assert(listed(u) =~= listed(t) + one(Read::Input(name)));
    assert(distinct_texts(u.root_inputs)) by {
        assert forall|i: int, j: int| 0 <= i < j < u.root_inputs.len() implies (
        #[trigger] u.root_inputs[i])@ != (#[trigger] u.root_inputs[j])@ by {
            assert(u.root_inputs[i] == t.root_inputs[i]);
            if j < t.root_inputs.len() {
                assert(u.root_inputs[j] == t.root_inputs[j]);
            } else {
                assert(t.root_inputs[i]@ != name);
            }
        }
    }
}

/// A parameter that is added.
pub proof fn parameter_added(t: Tables, u: Tables, name: Seq<char>)
    requires
        u.parameters.len() == t.parameters.len() + 1,
        forall|i: int| 0 <= i < t.parameters.len() ==> #[trigger] u.parameters[i] == t.parameters[i],
        u.parameters[t.parameters.len() as int].parameter.name@ == name,
        forall|i: int|
            0 <= i < t.parameters.len() ==> (#[trigger] t.parameters[i]).parameter.name@ != name,
        u.root_inputs == t.root_inputs,
        u.lookups == t.lookups,
        u.relations == t.relations,
        u.derived == t.derived,
        tables_distinct(t),
    ensures
        tables_distinct(u),
        listed(u) == listed(t) + one(Read::Parameter(name)),
{
    reveal(tables_distinct);
    assert forall|x: Read| #[trigger] listed(u).contains(x) == (listed(t) + one(
        Read::Parameter(name),
    )).contains(x) by {
        listed_is(t, x);
        listed_is(u, x);
        if let Read::Parameter(n) = x {
            if lists(u, x) {
                let i = choose|i: int|
                    0 <= i < u.parameters.len() && (#[trigger] u.parameters[i]).parameter.name@
                        == n;
                if i < t.parameters.len() {
                    assert(t.parameters[i].parameter.name@ == n);
                }
            }
            if lists(t, x) {
                let i = choose|i: int|
                    0 <= i < t.parameters.len() && (#[trigger] t.parameters[i]).parameter.name@
                        == n;
                assert(u.parameters[i].parameter.name@ == n);
            }
            if n == name {
                assert(u.parameters[t.parameters.len() as int].parameter.name@ == n);
            }
        }
    }
    assert(listed(u) =~= listed(t) + one(Read::Parameter(name)));
    assert forall|i: int, j: int| 0 <= i < j < u.parameters.len() implies (
    #[trigger] u.parameters[i]).parameter.name@ != (
    #[trigger] u.parameters[j]).parameter.name@ by {
        assert(u.parameters[i] == t.parameters[i]);
        if j < t.parameters.len() {
            assert(u.parameters[j] == t.parameters[j]);
        } else {
            assert(t.parameters[i].parameter.name@ != name);
        }
    }
}

/// An input of related rows that is added.
pub proof fn related_input_added(t: Tables, u: Tables, rel: int, name: Seq<char>)
    requires
        0 <= rel < t.relations.len(),
        t.lookups.len() == t.relations.len(),
        u.relations.len() == t.relations.len(),
        forall|i: int|
            0 <= i < t.relations.len() && i != rel ==> #[trigger] u.relations[i] == t.relations[i],
        u.relations[rel].related_inputs@.len() == t.relations[rel].related_inputs@.len() + 1,
        forall|i: int|
            0 <= i < t.relations[rel].related_inputs@.len()
                ==> #[trigger] u.relations[rel].related_inputs@[i]
                == t.relations[rel].related_inputs@[i],
        u.relations[rel].related_inputs@[t.relations[rel].related_inputs@.len() as int]@ == name,
        !holds_text(t.relations[rel].related_inputs@, name),
        u.root_inputs == t.root_inputs,
        u.lookups == t.lookups,
        u.parameters == t.parameters,
        u.derived == t.derived,
        tables_distinct(t),
    ensures
        tables_distinct(u),
        listed(u) == listed(t) + one(Read::Related(t.lookups[rel], name)),
{
    reveal(tables_distinct);
    let a = t.relations[rel].related_inputs@;
    let b = u.relations[rel].related_inputs@;
    let key = t.lookups[rel];
    assert forall|x: Read| #[trigger] listed(u).contains(x) == (listed(t) + one(
        Read::Related(key, name),
    )).contains(x) by {
        listed_is(t, x);
        listed_is(u, x);
        if let Read::Related(k, n) = x {
            if lists(u, x) {
                let i = choose|i: int|
                    0 <= i < u.lookups.len() && #[trigger] u.lookups[i] == k && holds_text(
                        u.relations[i].related_inputs@,
                        n,
                    );
                assert(t.lookups[i] == k);
                if i == rel {
                    let j = choose|j: int| 0 <= j < b.len() && (#[trigger] b[j])@ == n;
                    if j < a.len() {
                        assert(a[j]@ == n);
                    }
                } else {
                    assert(u.relations[i] == t.relations[i]);
                }
            }
            if lists(t, x) {
                let i = choose|i: int|
                    0 <= i < t.lookups.len() && #[trigger] t.lookups[i] == k && holds_text(
                        t.relations[i].related_inputs@,
                        n,
                    );
                assert(u.lookups[i] == k);
                if i == rel {
                    let j = choose|j: int| 0 <= j < a.len() && (#[trigger] a[j])@ == n;
                    assert(b[j]@ == n);
                } else {
                    assert(u.relations[i] == t.relations[i]);
                }
            }
            if k == key && n == name {
                assert(u.lookups[rel] == k);
                assert(b[a.len() as int]@ == n);
            }
        }
    }
    assert(listed(u) =~= listed(t) + one(Read::Related(key, name)));
    assert forall|i: int| 0 <= i < u.relations.len() implies #[trigger] distinct_texts(
        u.relations[i].related_inputs@,
    ) by {
        assert(distinct_texts(t.relations[i].related_inputs@));
        if i == rel {
            assert forall|p: int, q: int| 0 <= p < q < b.len() implies (#[trigger] b[p])@ != (
            #[trigger] b[q])@ by {
                assert(b[p] == a[p]);
                if q < a.len() {
                    assert(b[q] == a[q]);
                } else {
                    assert(a[p]@ != name);
                }
            }
        } else {
            assert(u.relations[i] == t.relations[i]);
        }
    }
}

/// A relation without inputs that is added.
pub proof fn relation_added(t: Tables, u: Tables, key: RelationKeyView)
    requires
        t.lookups.len() == t.relations.len(),
        u.lookups == t.lookups.push(key),
        u.relations.len() == t.relations.len() + 1,
        forall|i: int| 0 <= i < t.relations.len() ==> #[trigger] u.relations[i] == t.relations[i],
        u.relations[t.relations.len() as int].related_inputs@.len() == 0,
        !t.lookups.contains(key),
        u.root_inputs == t.root_inputs,
        u.parameters == t.parameters,
        u.derived == t.derived,
        tables_distinct(t),
    ensures
        tables_distinct(u),
        listed(u) == listed(t) + one(Read::Relation(key)),
{
    reveal(tables_distinct);
    let n = t.lookups.len() as int;
    assert forall|x: Read| #[trigger] listed(u).contains(x) == (listed(t) + one(
        Read::Relation(key),
    )).contains(x) by {
        listed_is(t, x);
        listed_is(u, x);
        match x {
            Read::Relation(k) => {
                if u.lookups.contains(k) {
                    let i = choose|i: int| 0 <= i < u.lookups.len() && u.lookups[i] == k;
                    if i < n {
                        assert(t.lookups[i] == k);
                    }
                }
                if t.lookups.contains(k) {
                    let i = choose|i: int| 0 <= i < t.lookups.len() && t.lookups[i] == k;
                    assert(u.lookups[i] == k);
                }
                if k == key {
                    assert(u.lookups[n] == k);
                }
            },
            Read::Related(k, name) => {
                if lists(u, x) {
                    let i = choose|i: int|
                        0 <= i < u.lookups.len() && #[trigger] u.lookups[i] == k && holds_text(
                            u.relations[i].related_inputs@,
                            name,
                        );
                    assert(i < n);
                    assert(t.lookups[i] == k);
                    assert(u.relations[i] == t.relations[i]);
                }
                if lists(t, x) {
                    let i = choose|i: int|
                        0 <= i < t.lookups.len() && #[trigger] t.lookups[i] == k && holds_text(
                            t.relations[i].related_inputs@,
                            name,
                        );
                    assert(u.lookups[i] == k);
                    assert(u.relations[i] == t.relations[i]);
                }
            },
            _ => {},
        }
    }
    assert(listed(u) =~= listed(t) + one(Read::Relation(key)));
    assert forall|i: int| 0 <= i < u.relations.len() implies #[trigger] distinct_texts(
        u.relations[i].related_inputs@,
    ) by {
        if i < n {
            assert(distinct_texts(t.relations[i].related_inputs@));
            assert(u.relations[i] == t.relations[i]);
        }
    }
    assert(u.lookups.no_duplicates()) by {
        assert forall|i: int, j: int|
            0 <= i < u.lookups.len() && 0 <= j < u.lookups.len() && i != j implies u.lookups[i]
            != u.lookups[j] by {
            if i < n && j < n {
                assert(t.lookups[i] != t.lookups[j]);
            } else if i < n {
                assert(t.lookups.contains(t.lookups[i]));
            } else if j < n {
                assert(t.lookups.contains(t.lookups[j]));
            }
        }
    }
}

/// A rule that is added.
pub proof fn rule_added(t: Tables, u: Tables, name: Seq<char>)
    requires
        u.derived.len() == t.derived.len() + 1,
        forall|i: int| 0 <= i < t.derived.len() ==> #[trigger] u.derived[i] == t.derived[i],
        u.derived[t.derived.len() as int].name@ == name,
        u.root_inputs == t.root_inputs,
        u.lookups == t.lookups,
        u.relations == t.relations,
        u.parameters == t.parameters,
    ensures
        tables_distinct(u) == tables_distinct(t),
        listed(u) == listed(t) + one(Read::Rule(name)),
{
    reveal(tables_distinct);
    assert forall|x: Read| #[trigger] listed(u).contains(x) == (listed(t) + one(
        Read::Rule(name),
    )).contains(x) by {
        listed_is(t, x);
        listed_is(u, x);
        if let Read::Rule(n) = x {
            if lists(u, x) {
                let i = choose|i: int|
                    0 <= i < u.derived.len() && (#[trigger] u.derived[i]).name@ == n;
                if i < t.derived.len() {
                    assert(t.derived[i].name@ == n);
                }
            }
            if lists(t, x) {
                let i = choose|i: int|
                    0 <= i < t.derived.len() && (#[trigger] t.derived[i]).name@ == n;
                assert(u.derived[i].name@ == n);
            }
            if n == name {
                assert(u.derived[t.derived.len() as int].name@ == n);
            }
        }
    }
    assert(listed(u) =~= listed(t) + one(Read::Rule(name)));
}

/// Tables that differ in the filters of relations list the same.
pub proof fn filters_aside(t: Tables, u: Tables)
    requires
        u.root_inputs == t.root_inputs,
        u.lookups == t.lookups,
        u.parameters == t.parameters,
        u.derived == t.derived,
        t.lookups.len() == t.relations.len(),
        u.relations.len() == t.relations.len(),
        forall|i: int|
            0 <= i < t.relations.len() ==> (#[trigger] u.relations[i]).related_inputs
                == t.relations[i].related_inputs,
    ensures
        tables_distinct(u) == tables_distinct(t),
        listed(u) == listed(t),
{
    reveal(tables_distinct);
    assert forall|x: Read| #[trigger] listed(u).contains(x) == listed(t).contains(x) by {
        listed_is(t, x);
        listed_is(u, x);
        if let Read::Related(k, name) = x {
            if lists(u, x) {
                let i = choose|i: int|
                    0 <= i < u.lookups.len() && #[trigger] u.lookups[i] == k && holds_text(
                        u.relations[i].related_inputs@,
                        name,
                    );
                assert(t.lookups[i] == k);
                assert(u.relations[i].related_inputs == t.relations[i].related_inputs);
            }
            if lists(t, x) {
                let i = choose|i: int|
                    0 <= i < t.lookups.len() && #[trigger] t.lookups[i] == k && holds_text(
                        t.relations[i].related_inputs@,
                        name,
                    );
                assert(u.lookups[i] == k);
                assert(u.relations[i].related_inputs == t.relations[i].related_inputs);
            }
        }
    }
    assert(listed(u) =~= listed(t));
    assert((forall|i: int|
        0 <= i < t.relations.len() ==> #[trigger] distinct_texts(t.relations[i].related_inputs@))
        == (forall|i: int|
        0 <= i < u.relations.len() ==> #[trigger] distinct_texts(u.relations[i].related_inputs@)))
        by {
        assert forall|i: int| 0 <= i < t.relations.len() implies distinct_texts(
            t.relations[i].related_inputs@,
        ) == distinct_texts(u.relations[i].related_inputs@) by {
            assert(u.relations[i].related_inputs == t.relations[i].related_inputs);
        }
    }
}

} // verus!
