//! Typing the relations of an artifact as its rules execute them.
use crate::agreement::{relations_alike, rules_agree};
use crate::engine::{judgment_meaning, judgment_terminates, scalar_meaning, scalar_terminates};
use crate::semantics::{input_value, Facts};
use crate::column::copied_texts;
use crate::compile::{
    rounding_fault, validate_rounding, CompileError, CompileErrorView, CompiledProgramArtifact,
};
use crate::lines::{join, joined_by};
use crate::model::{
    Program, RelationSchema, DataSet, PeriodView, Named, same_positions,
};
use crate::relation_typing::{
    check_program, is_violation, kinds_text, same_texts, violation_views, violations_ascend,
    RelationTypingReport, ViolationView,
};
use crate::schedule::holds_text;
use crate::text::{
    int_text, opt_text, owned, precedes, same, sorted_texts, sorted_texts_meaning, text_lt,
    text_lt_irreflexive, text_lt_total, text_lt_transitive, texts, usize_text,
};
use crate::usages::{
    agreed_kind, orientations_of, program_usages, relation_usage_orientations, sorted_usages,
    usage_width, RelationUsageOrientation, UsageView,
};
use vstd::prelude::*;
use vstd::string::*;

verus! {

/// The entity kinds that the caller gives a relation, in tuple order.
#[derive(Debug)]
pub struct RelationOverride {
    /// The relation's name, or its short name where that is unique.
    pub relation: String,
    pub kinds: Vec<String>,
}

/// Where the kinds of a relation were taken from.
#[derive(Clone, Copy, Debug, PartialEq, Eq, Structural)]
pub enum TypingSource {
    /// From what the rules read.
    Inferred,
    /// From the caller.
    Override,
}

impl TypingSource {
    pub open spec fn name(self) -> Seq<char> {
        match self {
            TypingSource::Inferred => "inferred"@,
            TypingSource::Override => "override"@,
        }
    }

    pub fn as_str(self) -> (r: &'static str)
        ensures
            r@ == self.name(),
    {
        match self {
            TypingSource::Inferred => "inferred",
            TypingSource::Override => "override",
        }
    }
}

/// A relation whose kinds the migration set.
#[derive(Debug)]
pub struct RelationTypingChange {
    pub relation: String,
    /// The kinds before; empty for an untyped relation.
    pub previous: Vec<String>,
    pub slot_entities: Vec<String>,
    pub source: TypingSource,
}

/// The model of a [`RelationTypingChange`].
pub ghost struct ChangeView {
    pub relation: Seq<char>,
    pub previous: Seq<Seq<char>>,
    pub slot_entities: Seq<Seq<char>>,
    pub source: TypingSource,
}

impl RelationTypingChange {
    pub open spec fn view(&self) -> ChangeView {
        ChangeView {
            relation: self.relation@,
            previous: texts(self.previous@),
            slot_entities: texts(self.slot_entities@),
            source: self.source,
        }
    }
}

pub open spec fn change_views(list: Seq<RelationTypingChange>) -> Seq<ChangeView> {
    list.map_values(|c: RelationTypingChange| c@)
}

/// A typed artifact, with what was set.
#[derive(Debug)]
pub struct ArtifactRelationMigration {
    pub artifact: CompiledProgramArtifact,
    pub changes: Vec<RelationTypingChange>,
}

/// Why an artifact could not be typed.
#[derive(Debug)]
pub enum ArtifactRelationMigrationError {
    /// The program declares what no program may.
    Spec(CompileError),
    /// An override names no data relation, or several.
    UnknownRelation { relation: String, hint: String },
    OverrideArity { relation: String, arity: usize, found: usize },
    OverrideContradictsExecution {
        relation: String,
        slot: usize,
        given: String,
        executed: String,
    },
    DeclarationContradictsExecution {
        relation: String,
        declared: Vec<String>,
        executed: String,
    },
    /// Relations whose kinds the rules do not determine, a line each.
    Uninferable(String),
    /// The typed artifact has violations still.
    StillIllTyped(RelationTypingReport),
}

/// The model of an [`ArtifactRelationMigrationError`].
pub ghost enum MigrationErrorView {
    Spec(CompileErrorView),
    UnknownRelation { relation: Seq<char>, hint: Seq<char> },
    OverrideArity { relation: Seq<char>, arity: nat, found: nat },
    OverrideContradictsExecution {
        relation: Seq<char>,
        slot: nat,
        given: Seq<char>,
        executed: Seq<char>,
    },
    DeclarationContradictsExecution {
        relation: Seq<char>,
        declared: Seq<Seq<char>>,
        executed: Seq<char>,
    },
    Uninferable(Seq<char>),
    StillIllTyped(Seq<ViolationView>),
}

impl ArtifactRelationMigrationError {
    pub open spec fn view(&self) -> MigrationErrorView {
        match *self {
            ArtifactRelationMigrationError::Spec(error) => MigrationErrorView::Spec(error@),
            ArtifactRelationMigrationError::UnknownRelation { relation, hint } => {
                MigrationErrorView::UnknownRelation { relation: relation@, hint: hint@ }
            },
            ArtifactRelationMigrationError::OverrideArity { relation, arity, found } => {
                MigrationErrorView::OverrideArity {
                    relation: relation@,
                    arity: arity as nat,
                    found: found as nat,
                }
            },
            ArtifactRelationMigrationError::OverrideContradictsExecution {
                relation,
                slot,
                given,
                executed,
            } => MigrationErrorView::OverrideContradictsExecution {
                relation: relation@,
                slot: slot as nat,
                given: given@,
                executed: executed@,
            },
            ArtifactRelationMigrationError::DeclarationContradictsExecution {
                relation,
                declared,
                executed,
            } => MigrationErrorView::DeclarationContradictsExecution {
                relation: relation@,
                declared: texts(declared@),
                executed: executed@,
            },
            ArtifactRelationMigrationError::Uninferable(text) => MigrationErrorView::Uninferable(
                text@,
            ),
            ArtifactRelationMigrationError::StillIllTyped(report) => {
                MigrationErrorView::StillIllTyped(violation_views(report.violations@))
            },
        }
    }
}

/// The data relations among the first `n`: those that are not derived.
pub open spec fn data_relations(relations: Seq<RelationSchema>, n: nat) -> Seq<Seq<char>>
    decreases n,
{
    if n == 0 || n > relations.len() {
        Seq::empty()
    } else if relations[n - 1].derivation is None {
        data_relations(relations, (n - 1) as nat).push(relations[n - 1].name@)
    } else {
        data_relations(relations, (n - 1) as nat)
    }
}

/// Whether a text ends with another.
pub open spec fn ends(s: Seq<char>, suffix: Seq<char>) -> bool {
    suffix.len() <= s.len() && s.skip(s.len() - suffix.len()) == suffix
}

/// The texts among the first `n` with the suffix.
pub open spec fn with_suffix(list: Seq<Seq<char>>, suffix: Seq<char>, n: nat) -> Seq<Seq<char>>
    decreases n,
{
    if n == 0 || n > list.len() {
        Seq::empty()
    } else if ends(list[n - 1], suffix) {
        with_suffix(list, suffix, (n - 1) as nat).push(list[n - 1])
    } else {
        with_suffix(list, suffix, (n - 1) as nat)
    }
}

/// Texts in backquotes.
pub open spec fn ticked(list: Seq<Seq<char>>) -> Seq<Seq<char>> {
    list.map_values(|t: Seq<char>| "`"@ + t + "`"@)
}

/// The data relation that an override names: by its name, or by its short name.
pub open spec fn override_target(p: Program, name: Seq<char>) -> Result<
    Seq<char>,
    MigrationErrorView,
> {
    let data = data_relations(p.relations@, p.relations@.len());
    if data.contains(name) {
        Ok(name)
    } else {
        let found = with_suffix(data, "#relation."@ + name, data.len());
        if found.len() == 1 {
            Ok(found[0])
        } else if found.len() == 0 {
            Err(MigrationErrorView::UnknownRelation { relation: name, hint: Seq::empty() })
        } else {
            Err(
                MigrationErrorView::UnknownRelation {
                    relation: name,
                    hint: " uniquely; it matches "@ + joined_by(ticked(found), found.len(), ", "@),
                },
            )
        }
    }
}

/// The data relations that the first `n` overrides name.
pub open spec fn override_targets(p: Program, overrides: Seq<RelationOverride>, n: nat) -> Result<
    Seq<Seq<char>>,
    MigrationErrorView,
>
    decreases n,
{
    if n == 0 || n > overrides.len() {
        Ok(Seq::empty())
    } else {
        match override_targets(p, overrides, (n - 1) as nat) {
            Err(error) => Err(error),
            Ok(before) => match override_target(p, overrides[n - 1].relation@) {
                Ok(name) => Ok(before.push(name)),
                Err(error) => Err(error),
            },
        }
    }
}

/// The last of the first `n` overrides of a relation.
pub open spec fn override_at(targets: Seq<Seq<char>>, relation: Seq<char>, n: nat) -> Option<nat>
    decreases n,
{
    if n == 0 || n > targets.len() {
        None
    } else if targets[n - 1] == relation {
        Some((n - 1) as nat)
    } else {
        override_at(targets, relation, (n - 1) as nat)
    }
}

/// The kinds of the rows that rules read on the slots of a relation.
pub open spec fn executed_kinds(p: Program, relation: Seq<char>) -> Option<
    Seq<Option<Seq<char>>>,
> {
    let usages = sorted_usages(program_usages(p));
    if usages.map_values(|u: UsageView| u.relation).contains(relation) {
        Some(usage_kinds(usages, relation))
    } else {
        None
    }
}

pub open spec fn usage_kinds(usages: Seq<UsageView>, relation: Seq<char>) -> Seq<
    Option<Seq<char>>,
> {
    Seq::new(
        usage_width(usages, relation, usages.len()),
        |slot: int| agreed_kind(usages, relation, slot),
    )
}

/// The first slot among the first `n` whose kind the rules contradict.
pub open spec fn contradicted(
    kinds: Seq<Seq<char>>,
    executed: Seq<Option<Seq<char>>>,
    n: nat,
) -> Option<nat>
    decreases n,
{
    if n == 0 || n > kinds.len() || n > executed.len() {
        None
    } else {
        match contradicted(kinds, executed, (n - 1) as nat) {
            Some(slot) => Some(slot),
            None => match executed[n - 1] {
                Some(kind) => if kind != kinds[n - 1] {
                    Some((n - 1) as nat)
                } else {
                    None
                },
                None => None,
            },
        }
    }
}

pub open spec fn shorter(a: nat, b: nat) -> nat {
    if a < b {
        a
    } else {
        b
    }
}

/// Known kinds as they are, unknown ones as a question mark.
pub open spec fn shown(executed: Seq<Option<Seq<char>>>) -> Seq<Seq<char>> {
    executed.map_values(
        |kind: Option<Seq<char>>|
            match kind {
                Some(k) => k,
                None => "?"@,
            },
    )
}

pub open spec fn executed_text(executed: Seq<Option<Seq<char>>>) -> Seq<char> {
    kinds_text(shown(executed))
}

pub open spec fn all_known(executed: Seq<Option<Seq<char>>>) -> bool {
    forall|i: int| 0 <= i < executed.len() ==> #[trigger] executed[i] is Some
}

/// What the migration does with a relation.
pub ghost enum TypingStep {
    Keep,
    Retype { kinds: Seq<Seq<char>>, source: TypingSource },
    /// The rules do not determine the kinds.
    Open(Seq<char>),
    Fail(MigrationErrorView),
}

/// What the migration does with a relation that is used so, for which the caller gave
/// these kinds.
pub open spec fn typing_step(
    relation: RelationSchema,
    given: Option<Seq<Seq<char>>>,
    executed: Option<Seq<Option<Seq<char>>>>,
) -> TypingStep {
    let declared = texts(relation.slot_entities@);
    let name = relation.name@;
    if relation.derivation is Some {
        TypingStep::Keep
    } else {
        match given {
            Some(kinds) => if kinds.len() != relation.arity {
                TypingStep::Fail(
                    MigrationErrorView::OverrideArity {
                        relation: name,
                        arity: relation.arity as nat,
                        found: kinds.len(),
                    },
                )
            } else {
                let slot = match executed {
                    Some(e) => contradicted(kinds, e, shorter(kinds.len(), e.len())),
                    None => None,
                };
                match slot {
                    Some(slot) => TypingStep::Fail(
                        MigrationErrorView::OverrideContradictsExecution {
                            relation: name,
                            slot,
                            given: kinds[slot as int],
                            executed: executed->Some_0[slot as int]->Some_0,
                        },
                    ),
                    None => if declared == kinds {
                        TypingStep::Keep
                    } else {
                        TypingStep::Retype { kinds, source: TypingSource::Override }
                    },
                }
            },
            None => match executed {
                None => TypingStep::Keep,
                Some(e) => if declared.len() > 0 {
                    match contradicted(declared, e, shorter(declared.len(), e.len())) {
                        Some(_) => TypingStep::Fail(
                            MigrationErrorView::DeclarationContradictsExecution {
                                relation: name,
                                declared,
                                executed: executed_text(e),
                            },
                        ),
                        None => TypingStep::Keep,
                    }
                } else if e.len() == relation.arity && all_known(e) {
                    TypingStep::Retype { kinds: shown(e), source: TypingSource::Inferred }
                } else {
                    TypingStep::Open(
                        "  "@ + name + " (arity "@ + int_text(relation.arity as int)
                            + "; executable usage determines "@ + executed_text(e) + ")"@,
                    )
                },
            },
        }
    }
}

/// What the migration does with the relation at a place.
pub open spec fn step_at(
    p: Program,
    overrides: Seq<RelationOverride>,
    targets: Seq<Seq<char>>,
    i: int,
) -> TypingStep {
    let relation = p.relations@[i];
    let given = match override_at(targets, relation.name@, targets.len()) {
        Some(k) => Some(texts(overrides[k as int].kinds@)),
        None => None,
    };
    typing_step(relation, given, executed_kinds(p, relation.name@))
}

/// The first failure among the first `n` relations.
pub open spec fn first_failure(
    p: Program,
    overrides: Seq<RelationOverride>,
    targets: Seq<Seq<char>>,
    n: nat,
) -> Option<MigrationErrorView>
    decreases n,
{
    if n == 0 || n > p.relations@.len() {
        None
    } else {
        match first_failure(p, overrides, targets, (n - 1) as nat) {
            Some(error) => Some(error),
            None => match step_at(p, overrides, targets, n - 1) {
                TypingStep::Fail(error) => Some(error),
                _ => None,
            },
        }
    }
}

/// The relations among the first `n` whose kinds the rules do not determine, a line each.
pub open spec fn open_lines(
    p: Program,
    overrides: Seq<RelationOverride>,
    targets: Seq<Seq<char>>,
    n: nat,
) -> Seq<Seq<char>>
    decreases n,
{
    if n == 0 || n > p.relations@.len() {
        Seq::empty()
    } else {
        let before = open_lines(p, overrides, targets, (n - 1) as nat);
        match step_at(p, overrides, targets, n - 1) {
            TypingStep::Open(line) => before.push(line),
            _ => before,
        }
    }
}

/// What is set on the first `n` relations.
pub open spec fn changes_among(
    p: Program,
    overrides: Seq<RelationOverride>,
    targets: Seq<Seq<char>>,
    n: nat,
) -> Seq<ChangeView>
    decreases n,
{
    if n == 0 || n > p.relations@.len() {
        Seq::empty()
    } else {
        let before = changes_among(p, overrides, targets, (n - 1) as nat);
        match step_at(p, overrides, targets, n - 1) {
            TypingStep::Retype { kinds, source } => before.push(
                ChangeView {
                    relation: p.relations@[n - 1].name@,
                    previous: texts(p.relations@[n - 1].slot_entities@),
                    slot_entities: kinds,
                    source,
                },
            ),
            _ => before,
        }
    }
}

/// Whether a relation has the kinds that the step sets, and is otherwise as before.
pub open spec fn retyped_relation(
    before: RelationSchema,
    after: RelationSchema,
    step: TypingStep,
) -> bool {
    match step {
        TypingStep::Retype { kinds, .. } => texts(after.slot_entities@) == kinds && after == (
        RelationSchema { slot_entities: after.slot_entities, ..before }),
        _ => after == before,
    }
}

/// Whether a program has the kinds that the migration sets, and is otherwise as before:
/// its rules read the same slots.
pub open spec fn retyped(
    p: Program,
    overrides: Seq<RelationOverride>,
    targets: Seq<Seq<char>>,
    after: Program,
) -> bool {
    &&& after == (Program { relations: after.relations, ..p })
    &&& after.relations@.len() == p.relations@.len()
    &&& forall|i: int|
        0 <= i < p.relations@.len() ==> retyped_relation(
            p.relations@[i],
            #[trigger] after.relations@[i],
            step_at(p, overrides, targets, i),
        )
}

pub open spec fn is_report(p: Program, found: Seq<ViolationView>) -> bool {
    &&& found.len() > 0
    &&& violations_ascend(found)
    &&& forall|v: ViolationView| #[trigger] found.contains(v) <==> is_violation(p, v)
}

/// Whether violations are those of the retyped program.
pub open spec fn ill_typed_still(
    p: Program,
    overrides: Seq<RelationOverride>,
    targets: Seq<Seq<char>>,
    found: Seq<ViolationView>,
) -> bool {
    exists|after: Program| #[trigger]
        retyped(p, overrides, targets, after) && is_report(after, found)
}

/// What comes of typing the relations of an artifact. The overrides are taken in the order of
/// their names.
pub open spec fn migrated(
    a: CompiledProgramArtifact,
    overrides: Seq<RelationOverride>,
    r: Result<ArtifactRelationMigration, ArtifactRelationMigrationError>,
) -> bool {
    match rounding_fault(a.program, a.program.derived@.len()) {
        Some(derived) => r matches Err(error) && error@ == MigrationErrorView::Spec(
            CompileErrorView::RoundingUnit { derived },
        ),
        None => retyped_as(a, by_name(overrides), r),
    }
}

/// An override put before the first that does not precede it by name.
pub open spec fn slotted(s: Seq<RelationOverride>, x: RelationOverride) -> Seq<RelationOverride>
    decreases s.len(),
{
    if s.len() == 0 || !text_lt(s[0].relation@, x.relation@) {
        seq![x] + s
    } else {
        seq![s[0]] + slotted(s.drop_first(), x)
    }
}

/// Overrides in the order of their names.
pub open spec fn by_name(s: Seq<RelationOverride>) -> Seq<RelationOverride>
    decreases s.len(),
{
    if s.len() == 0 {
        s
    } else {
        slotted(by_name(s.drop_first()), s[0])
    }
}

/// Whether no name comes before an earlier one.
pub open spec fn names_rise(s: Seq<RelationOverride>) -> bool {
    forall|i: int, j: int|
        0 <= i < j < s.len() ==> !text_lt(
            (#[trigger] s[j]).relation@,
            (#[trigger] s[i]).relation@,
        )
}

proof fn slotted_rises(s: Seq<RelationOverride>, x: RelationOverride)
    requires
        names_rise(s),
    ensures
        names_rise(slotted(s, x)),
        slotted(s, x).to_multiset() == s.to_multiset().insert(x),
        forall|i: int|
            0 <= i < slotted(s, x).len() ==> #[trigger] slotted(s, x)[i] == x || s.contains(
                slotted(s, x)[i],
            ),
    decreases s.len(),
{
    broadcast use vstd::seq_lib::group_to_multiset_ensures;

    let r = slotted(s, x);
    if s.len() == 0 || !text_lt(s[0].relation@, x.relation@) {
        assert(r =~= s.insert(0, x));
        assert forall|i: int, j: int| 0 <= i < j < r.len() implies !text_lt(
            (#[trigger] r[j]).relation@,
            (#[trigger] r[i]).relation@,
        ) by {
            assert(r[j] == s[j - 1]);
            if i > 0 {
                assert(r[i] == s[i - 1]);
            } else if text_lt(s[j - 1].relation@, x.relation@) {
                text_lt_total(s[0].relation@, x.relation@);
                if s[0].relation@ != x.relation@ {
                    text_lt_transitive(s[j - 1].relation@, x.relation@, s[0].relation@);
                }
                if j - 1 > 0 {
                    assert(!text_lt(s[j - 1].relation@, s[0].relation@));
                }
            }
        }
        assert forall|i: int| 0 <= i < r.len() implies #[trigger] r[i] == x || s.contains(r[i]) by {
            if i > 0 {
                assert(r[i] == s[i - 1]);
            }
        }
    } else {
        let tail = s.drop_first();
        assert forall|i: int, j: int| 0 <= i < j < tail.len() implies !text_lt(
            (#[trigger] tail[j]).relation@,
            (#[trigger] tail[i]).relation@,
        ) by {
            assert(tail[j] == s[j + 1] && tail[i] == s[i + 1]);
        }
        slotted_rises(tail, x);
        let rest = slotted(tail, x);
        assert(r =~= rest.insert(0, s[0]));
        assert(s =~= tail.insert(0, s[0]));
        assert(r.to_multiset() =~= s.to_multiset().insert(x));
        assert forall|j: int| 0 < j < r.len() implies !text_lt(
            (#[trigger] r[j]).relation@,
            s[0].relation@,
        ) by {
            assert(r[j] == rest[j - 1]);
            if rest[j - 1] == x {
                if text_lt(x.relation@, s[0].relation@) {
                    text_lt_transitive(x.relation@, s[0].relation@, x.relation@);
                    text_lt_irreflexive(x.relation@);
                }
            } else {
                let k = tail.index_of(rest[j - 1]);
                assert(tail.contains(rest[j - 1]));
                assert(s[k + 1] == tail[k]);
            }
        }
        assert forall|i: int, j: int| 0 <= i < j < r.len() implies !text_lt(
            (#[trigger] r[j]).relation@,
            (#[trigger] r[i]).relation@,
        ) by {
            if i > 0 {
                assert(r[j] == rest[j - 1] && r[i] == rest[i - 1]);
            }
        }
        assert forall|i: int| 0 <= i < r.len() implies #[trigger] r[i] == x || s.contains(r[i]) by {
            if i > 0 {
                assert(r[i] == rest[i - 1]);
                if rest[i - 1] != x {
                    assert(tail.contains(rest[i - 1]));
                    let k = tail.index_of(rest[i - 1]);
                    assert(s[k + 1] == tail[k]);
                }
            } else {
                assert(s.contains(s[0]));
            }
        }
    }
}

/// The order in which overrides are taken holds each of them, by rising names: which were
/// given first has no effect but among those of one name.
pub proof fn overrides_are_taken_by_name(overrides: Seq<RelationOverride>)
    ensures
        names_rise(by_name(overrides)),
        by_name(overrides).to_multiset() == overrides.to_multiset(),
    decreases overrides.len(),
{
    broadcast use vstd::seq_lib::group_to_multiset_ensures;

    if overrides.len() > 0 {
        let tail = overrides.drop_first();
        overrides_are_taken_by_name(tail);
        slotted_rises(by_name(tail), overrides[0]);
        assert(overrides =~= tail.insert(0, overrides[0]));
    }
}

/// Puts an override before the first that does not precede it by name.
fn slot_override(v: &mut Vec<RelationOverride>, x: RelationOverride)
    ensures
        final(v)@ == slotted(old(v)@, x),
{
    let mut i: usize = 0;
    assert(v@.take(0) + slotted(v@.skip(0), x) =~= slotted(v@, x)) by {
        assert(v@.skip(0) =~= v@);
    }
    while i < v.len() && precedes(v[i].relation.as_str(), x.relation.as_str())
        invariant
            i <= v@.len(),
            v@ == old(v)@,
            slotted(v@, x) == v@.take(i as int) + slotted(v@.skip(i as int), x),
        decreases v@.len() - i,
    {
        proof {
            let rest = v@.skip(i as int);
            assert(rest[0] == v@[i as int]);
            assert(rest.drop_first() =~= v@.skip(i + 1));
            assert(v@.take(i as int) + (seq![rest[0]] + slotted(rest.drop_first(), x)) =~= v@.take(
                i + 1,
            ) + slotted(v@.skip(i + 1), x));
        }
        i = i + 1;
    }
    let ghost before = v@;
    let ghost rest = v@.skip(i as int);
    assert(i < v@.len() ==> rest[0] == v@[i as int]);
    assert(slotted(rest, x) =~= seq![x] + rest);
    v.insert(i, x);
    assert(v@ =~= before.take(i as int) + (seq![x] + rest));
}

/// The overrides in the order of their names.
fn sort_overrides(overrides: Vec<RelationOverride>) -> (r: Vec<RelationOverride>)
    ensures
        r@ == by_name(overrides@),
{
    let ghost all = overrides@;
    let mut rest = overrides;
    let mut r: Vec<RelationOverride> = Vec::new();
    proof {
        assert(all.skip(all.len() as int) =~= Seq::<RelationOverride>::empty());
        assert(rest@ =~= all.take(rest@.len() as int));
    }
    while rest.len() > 0
        invariant
            rest@.len() <= all.len(),
            rest@ == all.take(rest@.len() as int),
            r@ == by_name(all.skip(rest@.len() as int)),
        decreases rest@.len(),
    {
        let ghost n = rest@.len();
        match rest.pop() {
            Some(last) => {
                proof {
                    assert(rest@ =~= all.take(n - 1));
                    assert(all.skip(n - 1).drop_first() =~= all.skip(n as int));
                    assert(all.skip(n - 1)[0] == last);
                }
                slot_override(&mut r, last);
            },
            None => {},
        }
    }
    assert(all.skip(0) =~= all);
    r
}

/// What comes of typing the relations of an artifact with overrides in this order.
pub open spec fn retyped_as(
    a: CompiledProgramArtifact,
    overrides: Seq<RelationOverride>,
    r: Result<ArtifactRelationMigration, ArtifactRelationMigrationError>,
) -> bool {
    let p = a.program;
    let n = p.relations@.len();
    match override_targets(p, overrides, overrides.len()) {
        Err(error) => match r {
            Ok(_) => false,
            Err(e) => e@ == error,
        },
        Ok(targets) => match first_failure(p, overrides, targets, n) {
            Some(error) => match r {
                Ok(_) => false,
                Err(e) => e@ == error,
            },
            None => {
                let open = open_lines(p, overrides, targets, n);
                if open.len() > 0 {
                    match r {
                        Ok(_) => false,
                        Err(e) => e@ == MigrationErrorView::Uninferable(
                            joined_by(open, open.len(), "\n"@),
                        ),
                    }
                } else {
                    match r {
                        Ok(m) => {
                            &&& m.artifact == (CompiledProgramArtifact {
                                program: m.artifact.program,
                                ..a
                            })
                            &&& retyped(p, overrides, targets, m.artifact.program)
                            &&& change_views(m.changes@) == changes_among(p, overrides, targets, n)
                            &&& forall|v: ViolationView| !is_violation(m.artifact.program, v)
                        },
                        Err(e) => match e {
                            ArtifactRelationMigrationError::StillIllTyped(report) => {
                                ill_typed_still(
                                    p,
                                    overrides,
                                    targets,
                                    violation_views(report.violations@),
                                )
                            },
                            _ => false,
                        },
                    }
                }
            },
        },
    }
}

fn find_data_relations(program: &Program) -> (r: Vec<String>)
    ensures
        texts(r@) == data_relations(program.relations@, program.relations@.len()),
{
    let mut names: Vec<String> = Vec::new();
    let mut i: usize = 0;
    assert(texts(names@) =~= data_relations(program.relations@, 0));
    while i < program.relations.len()
        invariant
            i <= program.relations@.len(),
            texts(names@) == data_relations(program.relations@, i as nat),
        decreases program.relations@.len() - i,
    {
        if program.relations[i].derivation.is_none() {
            let ghost before = names@;
            names.push(program.relations[i].name.clone());
            assert(texts(names@) =~= texts(before).push(program.relations@[i as int].name@));
        }
        i = i + 1;
    }
    names
}

pub(crate) fn ends_with(s: &str, suffix: &str) -> (r: bool)
    ensures
        r == ends(s@, suffix@),
{
    let len = s.unicode_len();
    let n = suffix.unicode_len();
    if n > len {
        return false;
    }
    assert(s@.subrange(len - n, len as int) =~= s@.skip(len - n));
    same(s.substring_char(len - n, len), suffix)
}

fn find_with_suffix(list: &Vec<String>, suffix: &str) -> (r: Vec<String>)
    ensures
        texts(r@) == with_suffix(texts(list@), suffix@, list@.len()),
{
    let ghost all = texts(list@);
    let mut out: Vec<String> = Vec::new();
    let mut i: usize = 0;
    assert(texts(out@) =~= with_suffix(all, suffix@, 0));
    while i < list.len()
        invariant
            i <= list@.len(),
            all == texts(list@),
            texts(out@) == with_suffix(all, suffix@, i as nat),
        decreases list@.len() - i,
    {
        assert(all[i as int] == list@[i as int]@);
        if ends_with(list[i].as_str(), suffix) {
            let ghost before = out@;
            out.push(list[i].clone());
            assert(texts(out@) =~= texts(before).push(all[i as int]));
        }
        i = i + 1;
    }
    out
}

fn tick_all(list: &Vec<String>) -> (r: Vec<String>)
    ensures
        texts(r@) == ticked(texts(list@)),
{
    let ghost all = texts(list@);
    let mut out: Vec<String> = Vec::new();
    let mut i: usize = 0;
    while i < list.len()
        invariant
            i <= list@.len(),
            all == texts(list@),
            texts(out@) =~= ticked(all).take(i as int),
        decreases list@.len() - i,
    {
        let ghost before = out@;
        let mut text = owned("`");
        text.append(list[i].as_str());
        text.append("`");
        out.push(text);
        proof {
            assert(all[i as int] == list@[i as int]@);
            assert(texts(out@) =~= texts(before).push(ticked(all)[i as int]));
            assert(ticked(all).take(i + 1) =~= ticked(all).take(i as int).push(
                ticked(all)[i as int],
            ));
        }
        i = i + 1;
    }
    assert(ticked(all).take(i as int) =~= ticked(all));
    out
}

pub open spec fn target_of(r: Result<String, ArtifactRelationMigrationError>) -> Result<
    Seq<char>,
    MigrationErrorView,
> {
    match r {
        Ok(name) => Ok(name@),
        Err(error) => Err(error@),
    }
}

fn resolve_override(program: &Program, data: &Vec<String>, name: &str) -> (r: Result<
    String,
    ArtifactRelationMigrationError,
>)
    requires
        texts(data@) == data_relations(program.relations@, program.relations@.len()),
    ensures
        target_of(r) == override_target(*program, name@),
{
    if holds_text(data, name) {
        return Ok(owned(name));
    }
    let mut suffix = owned("#relation.");
    suffix.append(name);
    assert(data@.len() == texts(data@).len());
    let mut found = find_with_suffix(data, suffix.as_str());
    assert(found@.len() == texts(found@).len());
    if found.len() == 1 {
        assert(texts(found@)[0] == found@[0]@);
        return Ok(found[0].clone());
    }
    if found.len() == 0 {
        let hint = String::new();
        assert(hint@ =~= Seq::<char>::empty());
        return Err(
            ArtifactRelationMigrationError::UnknownRelation { relation: owned(name), hint },
        );
    }
    let mut hint = owned(" uniquely; it matches ");
    let quoted_names = tick_all(&found);
    assert(quoted_names@.len() == texts(quoted_names@).len());
    hint.append(join(&quoted_names, ", ").as_str());
    Err(ArtifactRelationMigrationError::UnknownRelation { relation: owned(name), hint })
}

pub open spec fn targets_of(r: Result<Vec<String>, ArtifactRelationMigrationError>) -> Result<
    Seq<Seq<char>>,
    MigrationErrorView,
> {
    match r {
        Ok(names) => Ok(texts(names@)),
        Err(error) => Err(error@),
    }
}

proof fn target_error_stays(p: Program, overrides: Seq<RelationOverride>, n: nat, m: nat)
    requires
        n <= m <= overrides.len(),
        override_targets(p, overrides, n) is Err,
    ensures
        override_targets(p, overrides, m) == override_targets(p, overrides, n),
    decreases m,
{
    if n < m {
        target_error_stays(p, overrides, n, (m - 1) as nat);
    }
}

fn resolve_overrides(program: &Program, overrides: &Vec<RelationOverride>) -> (r: Result<
    Vec<String>,
    ArtifactRelationMigrationError,
>)
    ensures
        targets_of(r) == override_targets(*program, overrides@, overrides@.len()),
        r matches Ok(names) ==> names@.len() == overrides@.len(),
{
    let data = find_data_relations(program);
    let mut names: Vec<String> = Vec::new();
    let mut i: usize = 0;
    assert(texts(names@) =~= Seq::empty());
    while i < overrides.len()
        invariant
            i <= overrides@.len(),
            texts(data@) == data_relations(program.relations@, program.relations@.len()),
            override_targets(*program, overrides@, i as nat) == Ok::<
                Seq<Seq<char>>,
                MigrationErrorView,
            >(texts(names@)),
            names@.len() == i,
        decreases overrides@.len() - i,
    {
        let ghost before = names@;
        match resolve_override(program, &data, overrides[i].relation.as_str()) {
            Ok(name) => {
                names.push(name);
                assert(texts(names@) =~= texts(before).push(name@));
            },
            Err(error) => {
                proof {
                    assert(override_targets(*program, overrides@, (i + 1) as nat) == Err::<
                        Seq<Seq<char>>,
                        MigrationErrorView,
                    >(error@));
                    target_error_stays(*program, overrides@, (i + 1) as nat, overrides@.len());
                }
                return Err(error);
            },
        }
        i = i + 1;
    }
    Ok(names)
}

fn last_override(targets: &Vec<String>, relation: &str) -> (r: Option<usize>)
    ensures
        override_at(texts(targets@), relation@, targets@.len()) == match r {
            Some(i) => Some(i as nat),
            None => None,
        },
        r matches Some(i) ==> i < targets@.len(),
{
    let ghost all = texts(targets@);
    let mut i: usize = targets.len();
    while i > 0
        invariant
            i <= targets@.len(),
            all == texts(targets@),
            override_at(all, relation@, targets@.len()) == override_at(all, relation@, i as nat),
        decreases i,
    {
        assert(all[i - 1] == targets@[i - 1]@);
        if same(targets[i - 1].as_str(), relation) {
            return Some(i - 1);
        }
        i = i - 1;
    }
    None
}

pub open spec fn kind_texts(kinds: Seq<Option<String>>) -> Seq<Option<Seq<char>>> {
    kinds.map_values(|k: Option<String>| opt_text(k))
}

/// The orientation of a relation, where rules use it.
fn find_usage(list: &Vec<RelationUsageOrientation>, relation: &str, Ghost(p): Ghost<Program>) -> (r:
    Option<usize>)
    requires
        orientations_of(list@, sorted_usages(program_usages(p))),
    ensures
        r matches Some(i) ==> i < list@.len(),
        executed_kinds(p, relation@) == match r {
            Some(i) => Some(kind_texts(list@[i as int].slot_entities@)),
            None => None,
        },
{
    let ghost usages = sorted_usages(program_usages(p));
    let ghost relations = usages.map_values(|u: UsageView| u.relation);
    let ghost names = sorted_texts(relations);
    proof {
        sorted_texts_meaning(relations);
    }
    let mut i: usize = 0;
    while i < list.len()
        invariant
            i <= list@.len(),
            usages == sorted_usages(program_usages(p)),
            relations == usages.map_values(|u: UsageView| u.relation),
            names == sorted_texts(relations),
            orientations_of(list@, usages),
            forall|y: Seq<char>| #[trigger] names.contains(y) <==> relations.contains(y),
            forall|j: int| 0 <= j < i ==> #[trigger] names[j] != relation@,
        decreases list@.len() - i,
    {
        assert(list@[i as int].relation@ == names[i as int]);
        if same(list[i].relation.as_str(), relation) {
            proof {
                assert(names.contains(relation@));
                assert(kind_texts(list@[i as int].slot_entities@) =~= usage_kinds(
                    usages,
                    relation@,
                ));
            }
            return Some(i);
        }
        i = i + 1;
    }
    assert(!names.contains(relation@));
    None
}

fn find_contradicted(kinds: &Vec<String>, executed: &Vec<Option<String>>) -> (r: Option<usize>)
    ensures
        contradicted(
            texts(kinds@),
            kind_texts(executed@),
            shorter(kinds@.len(), executed@.len()),
        ) == match r {
            Some(slot) => Some(slot as nat),
            None => None,
        },
        r matches Some(slot) ==> slot < kinds@.len() && slot < executed@.len()
            && executed@[slot as int] is Some,
{
    let ghost (ks, es) = (texts(kinds@), kind_texts(executed@));
    let ghost n = shorter(kinds@.len(), executed@.len());
    let mut slot: usize = 0;
    while slot < kinds.len() && slot < executed.len()
        invariant
            slot <= n,
            ks == texts(kinds@),
            es == kind_texts(executed@),
            n == shorter(kinds@.len(), executed@.len()),
            contradicted(ks, es, slot as nat) is None,
        decreases n - slot,
    {
        assert(ks[slot as int] == kinds@[slot as int]@);
        assert(es[slot as int] == opt_text(executed@[slot as int]));
        if let Some(kind) = &executed[slot] {
            if !same(kind.as_str(), kinds[slot].as_str()) {
                proof {
                    assert(contradicted(ks, es, (slot + 1) as nat) == Some(slot as nat));
                    contradiction_stays(ks, es, (slot + 1) as nat, n);
                }
                return Some(slot);
            }
        }
        slot = slot + 1;
    }
    None
}

proof fn contradiction_stays(
    kinds: Seq<Seq<char>>,
    executed: Seq<Option<Seq<char>>>,
    n: nat,
    m: nat,
)
    requires
        n <= m <= kinds.len(),
        m <= executed.len(),
        contradicted(kinds, executed, n) is Some,
    ensures
        contradicted(kinds, executed, m) == contradicted(kinds, executed, n),
    decreases m,
{
    if n < m {
        contradiction_stays(kinds, executed, n, (m - 1) as nat);
    }
}

fn show_kinds(executed: &Vec<Option<String>>) -> (r: Vec<String>)
    ensures
        texts(r@) == shown(kind_texts(executed@)),
{
    let ghost all = shown(kind_texts(executed@));
    let mut out: Vec<String> = Vec::new();
    let mut i: usize = 0;
    while i < executed.len()
        invariant
            i <= executed@.len(),
            all == shown(kind_texts(executed@)),
            texts(out@) =~= all.take(i as int),
        decreases executed@.len() - i,
    {
        let ghost before = out@;
        let text = match &executed[i] {
            Some(kind) => kind.clone(),
            None => owned("?"),
        };
        out.push(text);
        proof {
            assert(texts(out@) =~= texts(before).push(all[i as int]));
            assert(all.take(i + 1) =~= all.take(i as int).push(all[i as int]));
        }
        i = i + 1;
    }
    assert(all.take(i as int) =~= all);
    out
}

fn format_executed(executed: &Vec<Option<String>>) -> (r: String)
    ensures
        r@ == executed_text(kind_texts(executed@)),
{
    crate::relation_typing::format_kinds(&show_kinds(executed))
}

fn are_all_known(executed: &Vec<Option<String>>) -> (r: bool)
    ensures
        r == all_known(kind_texts(executed@)),
{
    let mut i: usize = 0;
    while i < executed.len()
        invariant
            i <= executed@.len(),
            forall|j: int| 0 <= j < i ==> #[trigger] kind_texts(executed@)[j] is Some,
        decreases executed@.len() - i,
    {
        if executed[i].is_none() {
            assert(kind_texts(executed@)[i as int] is None);
            return false;
        }
        i = i + 1;
    }
    true
}

/// What to do with a relation.
#[derive(Debug)]
enum Step {
    Keep,
    Retype { kinds: Vec<String>, source: TypingSource },
    Open(String),
}

spec fn step_of(r: Result<Step, ArtifactRelationMigrationError>) -> TypingStep {
    match r {
        Ok(Step::Keep) => TypingStep::Keep,
        Ok(Step::Retype { kinds, source }) => TypingStep::Retype { kinds: texts(kinds@), source },
        Ok(Step::Open(line)) => TypingStep::Open(line@),
        Err(error) => TypingStep::Fail(error@),
    }
}

fn type_overridden(
    relation: &RelationSchema,
    kinds: &Vec<String>,
    executed: Option<&Vec<Option<String>>>,
) -> (r: Result<Step, ArtifactRelationMigrationError>)
    requires
        relation.derivation is None,
    ensures
        step_of(r) == typing_step(
            *relation,
            Some(texts(kinds@)),
            match executed {
                Some(e) => Some(kind_texts(e@)),
                None => None,
            },
        ),
{
    assert(kinds@.len() == texts(kinds@).len());
    if kinds.len() != relation.arity {
        return Err(
            ArtifactRelationMigrationError::OverrideArity {
                relation: relation.name.clone(),
                arity: relation.arity,
                found: kinds.len(),
            },
        );
    }
    if let Some(e) = executed {
        assert(e@.len() == kind_texts(e@).len());
        if let Some(slot) = find_contradicted(kinds, e) {
            if let Some(kind) = &e[slot] {
                assert(kind_texts(e@)[slot as int] == Some(kind@));
                assert(texts(kinds@)[slot as int] == kinds@[slot as int]@);
                return Err(
                    ArtifactRelationMigrationError::OverrideContradictsExecution {
                        relation: relation.name.clone(),
                        slot,
                        given: kinds[slot].clone(),
                        executed: kind.clone(),
                    },
                );
            }
        }
    }
    if same_texts(&relation.slot_entities, kinds) {
        Ok(Step::Keep)
    } else {
        Ok(Step::Retype { kinds: copied_texts(kinds), source: TypingSource::Override })
    }
}

fn type_executed(relation: &RelationSchema, e: &Vec<Option<String>>) -> (r: Result<
    Step,
    ArtifactRelationMigrationError,
>)
    requires
        relation.derivation is None,
    ensures
        step_of(r) == typing_step(*relation, None, Some(kind_texts(e@))),
{
    assert(e@.len() == kind_texts(e@).len());
    assert(relation.slot_entities@.len() == texts(relation.slot_entities@).len());
    if relation.slot_entities.len() > 0 {
        if find_contradicted(&relation.slot_entities, e).is_some() {
            return Err(
                ArtifactRelationMigrationError::DeclarationContradictsExecution {
                    relation: relation.name.clone(),
                    declared: copied_texts(&relation.slot_entities),
                    executed: format_executed(e),
                },
            );
        }
        return Ok(Step::Keep);
    }
    if e.len() == relation.arity && are_all_known(e) {
        Ok(Step::Retype { kinds: show_kinds(e), source: TypingSource::Inferred })
    } else {
        let mut line = owned("  ");
        line.append(relation.name.as_str());
        line.append(" (arity ");
        line.append(usize_text(relation.arity).as_str());
        line.append("; executable usage determines ");
        line.append(format_executed(e).as_str());
        line.append(")");
        Ok(Step::Open(line))
    }
}

fn type_relation(
    relation: &RelationSchema,
    given: Option<&Vec<String>>,
    executed: Option<&Vec<Option<String>>>,
) -> (r: Result<Step, ArtifactRelationMigrationError>)
    ensures
        step_of(r) == typing_step(
            *relation,
            match given {
                Some(kinds) => Some(texts(kinds@)),
                None => None,
            },
            match executed {
                Some(e) => Some(kind_texts(e@)),
                None => None,
            },
        ),
{
    if relation.derivation.is_some() {
        return Ok(Step::Keep);
    }
    match given {
        Some(kinds) => type_overridden(relation, kinds, executed),
        None => match executed {
            None => Ok(Step::Keep),
            Some(e) => type_executed(relation, e),
        },
    }
}

proof fn failure_stays(
    p: Program,
    overrides: Seq<RelationOverride>,
    targets: Seq<Seq<char>>,
    n: nat,
    m: nat,
)
    requires
        n <= m <= p.relations@.len(),
        first_failure(p, overrides, targets, n) is Some,
    ensures
        first_failure(p, overrides, targets, m) == first_failure(p, overrides, targets, n),
    decreases m,
{
    if n < m {
        failure_stays(p, overrides, targets, n, (m - 1) as nat);
    }
}

impl RelationSchema {
    fn set_slot_entities(&mut self, kinds: Vec<String>)
        ensures
            *final(self) == (RelationSchema { slot_entities: kinds, ..*old(self) }),
    {
        self.slot_entities = kinds;
    }
}

/// Types the relations of an artifact as its rules execute them.
///
/// An untyped data relation that rules read gets the kinds of the rows that they read on
/// its slots. Overrides supply the kinds that the rules leave open, and retype a relation
/// whose declaration contradicts what is executed. The slots that rules read are never
/// moved, and the result has no typing violation.
pub fn migrate_artifact_relation_typing(
    artifact: CompiledProgramArtifact,
    overrides: Vec<RelationOverride>,
) -> (r: Result<ArtifactRelationMigration, ArtifactRelationMigrationError>)
    ensures
        migrated(artifact, overrides@, r),
{
    match validate_rounding(&artifact.program) {
        Ok(()) => {},
        Err(error) => {
            return Err(ArtifactRelationMigrationError::Spec(error));
        },
    }
    let overrides = sort_overrides(overrides);
    retype_artifact(artifact, &overrides)
}

fn retype_artifact(artifact: CompiledProgramArtifact, overrides: &Vec<RelationOverride>) -> (r:
    Result<ArtifactRelationMigration, ArtifactRelationMigrationError>)
    ensures
        retyped_as(artifact, overrides@, r),
{
    let ghost p = artifact.program;
    let mut typed = artifact;
    let executed = relation_usage_orientations(&typed.program);
    let targets = match resolve_overrides(&typed.program, overrides) {
        Ok(targets) => targets,
        Err(error) => {
            return Err(error);
        },
    };
    let ghost ts = texts(targets@);
    let mut changes: Vec<RelationTypingChange> = Vec::new();
    let mut open: Vec<String> = Vec::new();
    let mut i: usize = 0;
    proof {
        assert(change_views(changes@) =~= changes_among(p, overrides@, ts, 0));
        assert(texts(open@) =~= open_lines(p, overrides@, ts, 0));
        assert(ts.len() == targets@.len());
    }
    while i < typed.program.relations.len()
        invariant
            i <= p.relations@.len(),
            p == artifact.program,
            override_targets(p, overrides@, overrides@.len()) == Ok::<
                Seq<Seq<char>>,
                MigrationErrorView,
            >(ts),
            ts == texts(targets@),
            targets@.len() == overrides@.len(),
            orientations_of(executed@, sorted_usages(program_usages(p))),
            typed == (CompiledProgramArtifact { program: typed.program, ..artifact }),
            typed.program == (Program { relations: typed.program.relations, ..p }),
            typed.program.relations@.len() == p.relations@.len(),
            forall|j: int|
                i <= j < p.relations@.len() ==> #[trigger] typed.program.relations@[j]
                    == p.relations@[j],
            forall|j: int|
                0 <= j < i ==> retyped_relation(
                    p.relations@[j],
                    #[trigger] typed.program.relations@[j],
                    step_at(p, overrides@, ts, j),
                ),
            first_failure(p, overrides@, ts, i as nat) is None,
            change_views(changes@) == changes_among(p, overrides@, ts, i as nat),
            texts(open@) == open_lines(p, overrides@, ts, i as nat),
        decreases p.relations@.len() - i,
    {
        let relation = &typed.program.relations[i];
        assert(*relation == p.relations@[i as int]);
        let usage = match find_usage(&executed, relation.name.as_str(), Ghost(p)) {
            Some(k) => Some(&executed[k].slot_entities),
            None => None,
        };
        let given = match last_override(&targets, relation.name.as_str()) {
            Some(k) => Some(&overrides[k].kinds),
            None => None,
        };
        let step = type_relation(relation, given, usage);
        assert(step_of(step) == step_at(p, overrides@, ts, i as int));
        match step {
            Err(error) => {
                proof {
                    assert(first_failure(p, overrides@, ts, (i + 1) as nat) == Some(error@));
                    failure_stays(p, overrides@, ts, (i + 1) as nat, p.relations@.len());
                }
                return Err(error);
            },
            Ok(Step::Keep) => {},
            Ok(Step::Open(line)) => {
                let ghost before = open@;
                open.push(line);
                assert(texts(open@) =~= texts(before).push(line@));
            },
            Ok(Step::Retype { kinds, source }) => {
                let ghost before = changes@;
                let change = RelationTypingChange {
                    relation: relation.name.clone(),
                    previous: copied_texts(&relation.slot_entities),
                    slot_entities: copied_texts(&kinds),
                    source,
                };
                changes.push(change);
                assert(change_views(changes@) =~= change_views(before).push(change@));
                typed.program.relations[i].set_slot_entities(kinds);
            },
        }
        i = i + 1;
    }
    assert(open@.len() == texts(open@).len());
    if open.len() > 0 {
        return Err(ArtifactRelationMigrationError::Uninferable(join(&open, "\n")));
    }
    assert(retyped(p, overrides@, ts, typed.program));
    match check_program(&typed.program) {
        Err(report) => {
            proof {
                let found = violation_views(report.violations@);
                assert(found.len() > 0) by {
                    if found.len() == 0 {
                        assert forall|v: ViolationView| !is_violation(typed.program, v) by {
                            assert(!found.contains(v));
                        }
                    }
                }
                assert(is_report(typed.program, found));
                assert(ill_typed_still(p, overrides@, ts, found));
            }
            Err(ArtifactRelationMigrationError::StillIllTyped(report))
        },
        Ok(()) => Ok(ArtifactRelationMigration { artifact: typed, changes }),
    }
}

/// A migration types an artifact as it executes: it changes no value.
pub proof fn migration_changes_no_value(
    a: CompiledProgramArtifact,
    overrides: Seq<RelationOverride>,
    r: Result<ArtifactRelationMigration, ArtifactRelationMigrationError>,
    data: DataSet,
    period: PeriodView,
    name: Seq<char>,
    ent: Seq<char>,
)
    requires
        migrated(a, overrides, r),
    ensures
        r matches Ok(m) ==> {
            let cx = Facts { program: a.program, data: data@, period };
            let cy = Facts { program: m.artifact.program, data: data@, period };
            &&& scalar_terminates(cx, name, ent) ==> scalar_meaning(cx, name, ent)
                == scalar_meaning(cy, name, ent)
            &&& judgment_terminates(cx, name, ent) ==> judgment_meaning(cx, name, ent)
                == judgment_meaning(cy, name, ent)
        },
{
    if let Ok(m) = r {
        let p = a.program;
        let q = m.artifact.program;
        let cx = Facts { program: p, data: data@, period };
        let cy = Facts { program: q, data: data@, period };
        assert(q.units == p.units && q.derived == p.derived && q.parameters == p.parameters);
        assert forall|n: Seq<char>|
            #![trigger p.relation(n)]
            #![trigger q.relation(n)]
            relations_alike(p.relation(n), q.relation(n)) by {
            assert forall|i: int| 0 <= i < p.relations@.len() implies (
            #[trigger] q.relations@[i]).label_of() == p.relations@[i].label_of() by {}
            same_positions(p.relations@, q.relations@, n, 0);
        }
        assert forall|n: Seq<char>, id: Seq<char>| #[trigger]
            input_value(cx, n, id) == input_value(cy, n, id) by {}
        rules_agree(cx, cy, name, ent);
    }
}

} // verus!
