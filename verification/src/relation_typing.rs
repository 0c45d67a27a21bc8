//! Entity typing of the relations that a program executes.
//!
//! Entity ids are plain strings, and an aggregation finds tuples by relation, slot and id.
//! A relation without entity kinds cannot be checked against tuples: one that is stored in
//! the other orientation silently aggregates nothing. So each relation that is read
//! declares one entity kind per slot, and the slot that is read from holds the kind of the
//! entity that is evaluated.
use crate::column::copied_texts;
use crate::lines::{join, joined_by};
use crate::model::{
    find_named, item_named, position_from_meaning, position_of, Derived, DerivedSemantics, DerivedVersion, JudgmentExpr, Program,
    RelatedValueRef, RelationDerivation, RelationSchema, ScalarExpr, SCALAR_ENTITY,
};
use crate::schedule::holds_text;
use crate::text::{insert_sorted, int_text, opt_text, owned, precedes, same, sorted_texts, text_lt, text_lt_irreflexive, text_lt_total, text_lt_transitive, texts, usize_text};
use crate::usages::{context_of, kind_of, opt_str, sole, sole_text};
use vstd::prelude::*;
use vstd::string::*;

verus! {

/// What is wrong with a relation that is executed.
#[derive(Clone, Copy, Debug, PartialEq, Eq, Structural)]
pub enum RelationTypingCode {
    /// An executed relation declares no slot entity kinds.
    UntypedRelation,
    /// A declared slot entity list does not have one kind per slot.
    SlotEntityCount,
    /// An aggregation reads a slot outside the relation's arity.
    SlotOutOfRange,
    /// The slot that an aggregation keys its entity id on holds another kind.
    CurrentSlotEntityMismatch,
    /// A related rule is evaluated on ids of a different declared kind.
    RelatedSlotEntityMismatch,
    /// A membership test reads slots whose kinds contradict its context.
    MembershipSlotEntityMismatch,
    /// A derived relation declares slot kinds that its source contradicts.
    DerivedRelationSourceConflict,
    /// An aggregation over a derived relation addresses other slots than the derivation.
    DerivedRelationSlotsDiverge,
}

impl RelationTypingCode {
    pub open spec fn name(self) -> Seq<char> {
        match self {
            RelationTypingCode::UntypedRelation => "untyped_relation"@,
            RelationTypingCode::SlotEntityCount => "relation_slot_entity_count"@,
            RelationTypingCode::SlotOutOfRange => "relation_slot_out_of_range"@,
            RelationTypingCode::CurrentSlotEntityMismatch => {
                "relation_current_slot_entity_mismatch"@
            },
            RelationTypingCode::RelatedSlotEntityMismatch => {
                "relation_related_slot_entity_mismatch"@
            },
            RelationTypingCode::MembershipSlotEntityMismatch => {
                "relation_membership_slot_entity_mismatch"@
            },
            RelationTypingCode::DerivedRelationSourceConflict => {
                "derived_relation_source_slot_conflict"@
            },
            RelationTypingCode::DerivedRelationSlotsDiverge => "derived_relation_slots_diverge"@,
        }
    }

    pub fn as_str(self) -> (r: &'static str)
        ensures
            r@ == self.name(),
    {
        match self {
            RelationTypingCode::UntypedRelation => "untyped_relation",
            RelationTypingCode::SlotEntityCount => "relation_slot_entity_count",
            RelationTypingCode::SlotOutOfRange => "relation_slot_out_of_range",
            RelationTypingCode::CurrentSlotEntityMismatch => {
                "relation_current_slot_entity_mismatch"
            },
            RelationTypingCode::RelatedSlotEntityMismatch => {
                "relation_related_slot_entity_mismatch"
            },
            RelationTypingCode::MembershipSlotEntityMismatch => {
                "relation_membership_slot_entity_mismatch"
            },
            RelationTypingCode::DerivedRelationSourceConflict => {
                "derived_relation_source_slot_conflict"
            },
            RelationTypingCode::DerivedRelationSlotsDiverge => "derived_relation_slots_diverge",
        }
    }

    /// The place of a code in the order of a report.
    pub open spec fn rank(self) -> int {
        match self {
            RelationTypingCode::UntypedRelation => 0,
            RelationTypingCode::SlotEntityCount => 1,
            RelationTypingCode::SlotOutOfRange => 2,
            RelationTypingCode::CurrentSlotEntityMismatch => 3,
            RelationTypingCode::RelatedSlotEntityMismatch => 4,
            RelationTypingCode::MembershipSlotEntityMismatch => 5,
            RelationTypingCode::DerivedRelationSourceConflict => 6,
            RelationTypingCode::DerivedRelationSlotsDiverge => 7,
        }
    }

    fn place(self) -> (r: u8)
        ensures
            r == self.rank(),
    {
        match self {
            RelationTypingCode::UntypedRelation => 0,
            RelationTypingCode::SlotEntityCount => 1,
            RelationTypingCode::SlotOutOfRange => 2,
            RelationTypingCode::CurrentSlotEntityMismatch => 3,
            RelationTypingCode::RelatedSlotEntityMismatch => 4,
            RelationTypingCode::MembershipSlotEntityMismatch => 5,
            RelationTypingCode::DerivedRelationSourceConflict => 6,
            RelationTypingCode::DerivedRelationSlotsDiverge => 7,
        }
    }
}

/// A relation that is executed against its types.
#[derive(Debug)]
pub struct RelationTypingViolation {
    pub code: RelationTypingCode,
    pub relation: String,
    /// The rule or derived relation whose formula is ill-typed.
    pub citing: String,
    pub message: String,
}

/// The model of a [`RelationTypingViolation`].
pub ghost struct ViolationView {
    pub code: RelationTypingCode,
    pub relation: Seq<char>,
    pub citing: Seq<char>,
    pub message: Seq<char>,
}

impl RelationTypingViolation {
    pub open spec fn view(&self) -> ViolationView {
        ViolationView {
            code: self.code,
            relation: self.relation@,
            citing: self.citing@,
            message: self.message@,
        }
    }

    /// The violation as a line: its code and its message.
    pub fn to_text(&self) -> (r: String)
        ensures
            r@ == "["@ + self.code.name() + "] "@ + self.message@,
    {
        let mut text = owned("[");
        text.append(self.code.as_str());
        text.append("] ");
        text.append(self.message.as_str());
        text
    }
}

pub open spec fn violation_views(list: Seq<RelationTypingViolation>) -> Seq<ViolationView> {
    list.map_values(|v: RelationTypingViolation| v@)
}

/// Violations, ascending, each once.
#[derive(Debug)]
pub struct RelationTypingReport {
    pub violations: Vec<RelationTypingViolation>,
}

/// The relations of the untyped violations among the first `n`.
pub open spec fn untyped_among(list: Seq<RelationTypingViolation>, n: nat) -> Seq<Seq<char>>
    decreases n,
{
    if n == 0 || n > list.len() {
        Seq::empty()
    } else if list[n - 1].code == RelationTypingCode::UntypedRelation {
        untyped_among(list, (n - 1) as nat).push(list[n - 1].relation@)
    } else {
        untyped_among(list, (n - 1) as nat)
    }
}

/// The text of the first `n` violations, a line each.
pub open spec fn report_text(list: Seq<RelationTypingViolation>, n: nat) -> Seq<char>
    decreases n,
{
    if n == 0 || n > list.len() {
        Seq::empty()
    } else {
        let line = "["@ + list[n - 1].code.name() + "] "@ + list[n - 1].message@;
        if n == 1 {
            line
        } else {
            report_text(list, (n - 1) as nat) + "\n"@ + line
        }
    }
}

impl RelationTypingReport {
    /// Relations that the report says are untyped, in name order.
    pub fn untyped_relations(&self) -> (r: Vec<String>)
        ensures
            texts(r@) == sorted_texts(untyped_among(self.violations@, self.violations@.len())),
    {
        let mut names: Vec<String> = Vec::new();
        let list = &self.violations;
        let mut i: usize = 0;
        assert(texts(names@) =~= sorted_texts(untyped_among(list@, 0)));
        while i < list.len()
            invariant
                i <= list@.len(),
                *list == self.violations,
                texts(names@) == sorted_texts(untyped_among(list@, i as nat)),
            decreases list@.len() - i,
        {
            if list[i].code == RelationTypingCode::UntypedRelation {
                assert(untyped_among(list@, (i + 1) as nat).drop_last() =~= untyped_among(
                    list@,
                    i as nat,
                ));
                insert_sorted(&mut names, list[i].relation.clone());
            }
            i = i + 1;
        }
        names
    }

    /// The report as text, a line per violation.
    pub fn to_text(&self) -> (r: String)
        ensures
            r@ == report_text(self.violations@, self.violations@.len()),
    {
        let mut text = String::new();
        let list = &self.violations;
        let mut i: usize = 0;
        while i < list.len()
            invariant
                i <= list@.len(),
                *list == self.violations,
                text@ == report_text(list@, i as nat),
            decreases list@.len() - i,
        {
            if i > 0 {
                text.append("\n");
                text.append(list[i].to_text().as_str());
            } else {
                text = list[i].to_text();
            }
            i = i + 1;
        }
        text
    }
}

pub(crate) fn push_text(text: &str, out: &mut Vec<String>)
    ensures
        texts(final(out)@) == texts(old(out)@) + seq![text@],
{
    let ghost before = out@;
    out.push(owned(text));
    assert(texts(out@) =~= texts(before) + seq![text@]);
}

/// The rules that a formula reads on its own row. What an aggregation reads belongs to
/// the aggregation's related rows.
pub open spec fn scalar_refs(e: ScalarExpr) -> Seq<Seq<char>>
    decreases e, 1int, 0nat,
{
    match e {
        ScalarExpr::Literal(_) => Seq::empty(),
        ScalarExpr::PeriodStart => Seq::empty(),
        ScalarExpr::PeriodEnd => Seq::empty(),
        ScalarExpr::Input(_) => Seq::empty(),
        ScalarExpr::InputOrElse { .. } => Seq::empty(),
        ScalarExpr::Derived(name) => seq![name@],
        ScalarExpr::ParameterLookup { index, .. } => scalar_refs(*index),
        ScalarExpr::Add(items) => scalar_refss(items@, items@.len()),
        ScalarExpr::Max(items) => scalar_refss(items@, items@.len()),
        ScalarExpr::Min(items) => scalar_refss(items@, items@.len()),
        ScalarExpr::Sub(a, b) => scalar_refs(*a) + scalar_refs(*b),
        ScalarExpr::Mul(a, b) => scalar_refs(*a) + scalar_refs(*b),
        ScalarExpr::Div(a, b) => scalar_refs(*a) + scalar_refs(*b),
        ScalarExpr::Ceil(a) => scalar_refs(*a),
        ScalarExpr::Floor(a) => scalar_refs(*a),
        ScalarExpr::DateAddDays { date, days } => scalar_refs(*date) + scalar_refs(*days),
        ScalarExpr::DateAddMonths { date, months } => scalar_refs(*date) + scalar_refs(*months),
        ScalarExpr::DateAddYears { date, years } => scalar_refs(*date) + scalar_refs(*years),
        ScalarExpr::DaysBetween { from, to } => scalar_refs(*from) + scalar_refs(*to),
        ScalarExpr::CountRelated { .. } => Seq::empty(),
        ScalarExpr::SumRelated { .. } => Seq::empty(),
        ScalarExpr::If { condition, then_expr, else_expr } => judgment_refs(*condition) + scalar_refs(
            *then_expr) + scalar_refs(*else_expr),
        ScalarExpr::NoMatch { subject, .. } => scalar_refs(*subject),
        ScalarExpr::OverPeriods { value, n, .. } => scalar_refs(*value) + match n {
            Some(n) => scalar_refs(*n),
            None => Seq::empty(),
        },
    }
}

pub open spec fn scalar_refss(items: Seq<ScalarExpr>, n: nat) -> Seq<Seq<char>>
    decreases items, 0int, n,
{
    if n == 0 || n > items.len() {
        Seq::empty()
    } else {
        scalar_refss(items, (n - 1) as nat) + scalar_refs(items[n - 1])
    }
}

/// The rules that a judgment reads on its own row.
pub open spec fn judgment_refs(e: JudgmentExpr) -> Seq<Seq<char>>
    decreases e, 1int, 0nat,
{
    match e {
        JudgmentExpr::Comparison { left, right, .. } => scalar_refs(left) + scalar_refs(right),
        JudgmentExpr::Derived(name) => seq![name@],
        JudgmentExpr::RelationMember { .. } => Seq::empty(),
        JudgmentExpr::And(items) => judgment_refss(items@, items@.len()),
        JudgmentExpr::Or(items) => judgment_refss(items@, items@.len()),
        JudgmentExpr::Not(item) => judgment_refs(*item),
    }
}

pub open spec fn judgment_refss(items: Seq<JudgmentExpr>, n: nat) -> Seq<Seq<char>>
    decreases items, 0int, n,
{
    if n == 0 || n > items.len() {
        Seq::empty()
    } else {
        judgment_refss(items, (n - 1) as nat) + judgment_refs(items[n - 1])
    }
}

fn collect_scalar_derived_two(
    a: &ScalarExpr,
    b: &ScalarExpr,
    out: &mut Vec<String>,
    Ghost(whole): Ghost<ScalarExpr>,
)
    requires
        decreases_to!(whole => *a),
        decreases_to!(whole => *b),
    ensures
        texts(final(out)@) == texts(old(out)@) + (scalar_refs(*a) + scalar_refs(*b)),
    decreases whole, 0int,
{
    let ghost before = texts(out@);
    collect_scalar_derived(a, out);
    collect_scalar_derived(b, out);
    assert(texts(out@) =~= before + (scalar_refs(*a) + scalar_refs(*b)));
}

fn collect_scalar_derived_items(items: &Vec<ScalarExpr>,
    out: &mut Vec<String>,
)
    ensures
        texts(final(out)@) == texts(old(out)@) + scalar_refss(items@, items@.len()),
    decreases items@, 0int,
{
    let ghost before = texts(out@);
    let mut i: usize = 0;
    assert(texts(out@) =~= before + scalar_refss(items@, 0));
    while i < items.len()
        invariant
            i <= items@.len(),
            texts(out@) == before + scalar_refss(items@, i as nat),
        decreases items@.len() - i,
    {
        collect_scalar_derived(&items[i], out);
        assert(texts(out@) =~= before + scalar_refss(items@, (i + 1) as nat));
        i = i + 1;
    }
}

/// Adds the rules that a formula reads on its own row.
fn collect_scalar_derived(expr: &ScalarExpr,
    out: &mut Vec<String>,
)
    ensures
        texts(final(out)@) == texts(old(out)@) + scalar_refs(*expr),
    decreases *expr, 1int,
{
    let ghost before = texts(out@);
    match expr {
        ScalarExpr::Literal(_) | ScalarExpr::PeriodStart | ScalarExpr::PeriodEnd => {
            assert(before + Seq::<Seq<char>>::empty() =~= before);
        },
        ScalarExpr::Input(_) => {
            assert(before + Seq::<Seq<char>>::empty() =~= before);
        },
        ScalarExpr::InputOrElse { .. } => {
            assert(before + Seq::<Seq<char>>::empty() =~= before);
        },
        ScalarExpr::Derived(name) => {
            push_text(name.as_str(), out);
        },
        ScalarExpr::ParameterLookup { index, .. } => collect_scalar_derived(index, out),
        ScalarExpr::Add(items) => collect_scalar_derived_items(items, out),
        ScalarExpr::Max(items) => collect_scalar_derived_items(items, out),
        ScalarExpr::Min(items) => collect_scalar_derived_items(items, out),
        ScalarExpr::Sub(a, b) => collect_scalar_derived_two(a, b, out, Ghost(*expr)),
        ScalarExpr::Mul(a, b) => collect_scalar_derived_two(a, b, out, Ghost(*expr)),
        ScalarExpr::Div(a, b) => collect_scalar_derived_two(a, b, out, Ghost(*expr)),
        ScalarExpr::Ceil(a) => collect_scalar_derived(a, out),
        ScalarExpr::Floor(a) => collect_scalar_derived(a, out),
        ScalarExpr::DateAddDays { date, days } => collect_scalar_derived_two(date, days, out, Ghost(*expr)),
        ScalarExpr::DateAddMonths { date, months } => collect_scalar_derived_two(date, months, out, Ghost(*expr)),
        ScalarExpr::DateAddYears { date, years } => collect_scalar_derived_two(date, years, out, Ghost(*expr)),
        ScalarExpr::DaysBetween { from, to } => collect_scalar_derived_two(from, to, out, Ghost(*expr)),
        ScalarExpr::CountRelated { .. } => {
            assert(before + Seq::<Seq<char>>::empty() =~= before);
        },
        ScalarExpr::SumRelated { .. } => {
            assert(before + Seq::<Seq<char>>::empty() =~= before);
        },
        ScalarExpr::If { condition, then_expr, else_expr } => {
            collect_judgment_derived(condition, out);
            collect_scalar_derived(then_expr, out);
            collect_scalar_derived(else_expr, out);
            assert(texts(out@) =~= before + scalar_refs(*expr));
        },
        ScalarExpr::NoMatch { subject, .. } => collect_scalar_derived(subject, out),
        ScalarExpr::OverPeriods { value, n, .. } => {
            collect_scalar_derived(value, out);
            if let Some(n) = n {
                collect_scalar_derived(n, out);
            }
            assert(texts(out@) =~= before + scalar_refs(*expr));
        },
    }
}

fn collect_judgment_derived_items(items: &Vec<JudgmentExpr>,
    out: &mut Vec<String>,
)
    ensures
        texts(final(out)@) == texts(old(out)@) + judgment_refss(items@, items@.len()),
    decreases items@, 0int,
{
    let ghost before = texts(out@);
    let mut i: usize = 0;
    assert(texts(out@) =~= before + judgment_refss(items@, 0));
    while i < items.len()
        invariant
            i <= items@.len(),
            texts(out@) == before + judgment_refss(items@, i as nat),
        decreases items@.len() - i,
    {
        collect_judgment_derived(&items[i], out);
        assert(texts(out@) =~= before + judgment_refss(items@, (i + 1) as nat));
        i = i + 1;
    }
}

/// Adds the rules that a judgment reads on its own row.
fn collect_judgment_derived(expr: &JudgmentExpr,
    out: &mut Vec<String>,
)
    ensures
        texts(final(out)@) == texts(old(out)@) + judgment_refs(*expr),
    decreases *expr, 1int,
{
    let ghost before = texts(out@);
    match expr {
        JudgmentExpr::Comparison { left, right, .. } => {
            collect_scalar_derived(left, out);
            collect_scalar_derived(right, out);
            assert(texts(out@) =~= before + judgment_refs(*expr));
        },
        JudgmentExpr::Derived(name) => push_text(name.as_str(), out),
        JudgmentExpr::RelationMember { .. } => {
            assert(before + Seq::<Seq<char>>::empty() =~= before);
        },
        JudgmentExpr::And(items) => collect_judgment_derived_items(items, out),
        JudgmentExpr::Or(items) => collect_judgment_derived_items(items, out),
        JudgmentExpr::Not(item) => collect_judgment_derived(item, out),
    }
}

/// The relations that a formula reads.
pub open spec fn scalar_used(e: ScalarExpr) -> Seq<Seq<char>>
    decreases e, 1int, 0nat,
{
    match e {
        ScalarExpr::Literal(_) => Seq::empty(),
        ScalarExpr::PeriodStart => Seq::empty(),
        ScalarExpr::PeriodEnd => Seq::empty(),
        ScalarExpr::Input(_) => Seq::empty(),
        ScalarExpr::InputOrElse { .. } => Seq::empty(),
        ScalarExpr::Derived(_) => Seq::empty(),
        ScalarExpr::ParameterLookup { index, .. } => scalar_used(*index),
        ScalarExpr::Add(items) => scalar_useds(items@, items@.len()),
        ScalarExpr::Max(items) => scalar_useds(items@, items@.len()),
        ScalarExpr::Min(items) => scalar_useds(items@, items@.len()),
        ScalarExpr::Sub(a, b) => scalar_used(*a) + scalar_used(*b),
        ScalarExpr::Mul(a, b) => scalar_used(*a) + scalar_used(*b),
        ScalarExpr::Div(a, b) => scalar_used(*a) + scalar_used(*b),
        ScalarExpr::Ceil(a) => scalar_used(*a),
        ScalarExpr::Floor(a) => scalar_used(*a),
        ScalarExpr::DateAddDays { date, days } => scalar_used(*date) + scalar_used(*days),
        ScalarExpr::DateAddMonths { date, months } => scalar_used(*date) + scalar_used(*months),
        ScalarExpr::DateAddYears { date, years } => scalar_used(*date) + scalar_used(*years),
        ScalarExpr::DaysBetween { from, to } => scalar_used(*from) + scalar_used(*to),
        ScalarExpr::CountRelated { relation, where_clause, .. } => seq![relation@] + match where_clause {
            Some(w) => judgment_used(*w),
            None => Seq::empty(),
        },
        ScalarExpr::SumRelated { relation, where_clause, .. } => seq![relation@] + match where_clause {
            Some(w) => judgment_used(*w),
            None => Seq::empty(),
        },
        ScalarExpr::If { condition, then_expr, else_expr } => judgment_used(*condition) + scalar_used(
            *then_expr) + scalar_used(*else_expr),
        ScalarExpr::NoMatch { subject, .. } => scalar_used(*subject),
        ScalarExpr::OverPeriods { value, n, .. } => scalar_used(*value) + match n {
            Some(n) => scalar_used(*n),
            None => Seq::empty(),
        },
    }
}

pub open spec fn scalar_useds(items: Seq<ScalarExpr>, n: nat) -> Seq<Seq<char>>
    decreases items, 0int, n,
{
    if n == 0 || n > items.len() {
        Seq::empty()
    } else {
        scalar_useds(items, (n - 1) as nat) + scalar_used(items[n - 1])
    }
}

/// The relations that a judgment reads.
pub open spec fn judgment_used(e: JudgmentExpr) -> Seq<Seq<char>>
    decreases e, 1int, 0nat,
{
    match e {
        JudgmentExpr::Comparison { left, right, .. } => scalar_used(left) + scalar_used(right),
        JudgmentExpr::Derived(_) => Seq::empty(),
        JudgmentExpr::RelationMember { relation, .. } => seq![relation@],
        JudgmentExpr::And(items) => judgment_useds(items@, items@.len()),
        JudgmentExpr::Or(items) => judgment_useds(items@, items@.len()),
        JudgmentExpr::Not(item) => judgment_used(*item),
    }
}

pub open spec fn judgment_useds(items: Seq<JudgmentExpr>, n: nat) -> Seq<Seq<char>>
    decreases items, 0int, n,
{
    if n == 0 || n > items.len() {
        Seq::empty()
    } else {
        judgment_useds(items, (n - 1) as nat) + judgment_used(items[n - 1])
    }
}

fn collect_scalar_used_two(
    a: &ScalarExpr,
    b: &ScalarExpr,
    out: &mut Vec<String>,
    Ghost(whole): Ghost<ScalarExpr>,
)
    requires
        decreases_to!(whole => *a),
        decreases_to!(whole => *b),
    ensures
        texts(final(out)@) == texts(old(out)@) + (scalar_used(*a) + scalar_used(*b)),
    decreases whole, 0int,
{
    let ghost before = texts(out@);
    collect_scalar_used(a, out);
    collect_scalar_used(b, out);
    assert(texts(out@) =~= before + (scalar_used(*a) + scalar_used(*b)));
}

fn collect_scalar_used_items(items: &Vec<ScalarExpr>,
    out: &mut Vec<String>,
)
    ensures
        texts(final(out)@) == texts(old(out)@) + scalar_useds(items@, items@.len()),
    decreases items@, 0int,
{
    let ghost before = texts(out@);
    let mut i: usize = 0;
    assert(texts(out@) =~= before + scalar_useds(items@, 0));
    while i < items.len()
        invariant
            i <= items@.len(),
            texts(out@) == before + scalar_useds(items@, i as nat),
        decreases items@.len() - i,
    {
        collect_scalar_used(&items[i], out);
        assert(texts(out@) =~= before + scalar_useds(items@, (i + 1) as nat));
        i = i + 1;
    }
}

/// Adds the relations that a formula reads.
fn collect_scalar_used(expr: &ScalarExpr,
    out: &mut Vec<String>,
)
    ensures
        texts(final(out)@) == texts(old(out)@) + scalar_used(*expr),
    decreases *expr, 1int,
{
    let ghost before = texts(out@);
    match expr {
        ScalarExpr::Literal(_) | ScalarExpr::PeriodStart | ScalarExpr::PeriodEnd => {
            assert(before + Seq::<Seq<char>>::empty() =~= before);
        },
        ScalarExpr::Input(_) => {
            assert(before + Seq::<Seq<char>>::empty() =~= before);
        },
        ScalarExpr::InputOrElse { .. } => {
            assert(before + Seq::<Seq<char>>::empty() =~= before);
        },
        ScalarExpr::Derived(_) => {
            assert(before + Seq::<Seq<char>>::empty() =~= before);
        },
        ScalarExpr::ParameterLookup { index, .. } => collect_scalar_used(index, out),
        ScalarExpr::Add(items) => collect_scalar_used_items(items, out),
        ScalarExpr::Max(items) => collect_scalar_used_items(items, out),
        ScalarExpr::Min(items) => collect_scalar_used_items(items, out),
        ScalarExpr::Sub(a, b) => collect_scalar_used_two(a, b, out, Ghost(*expr)),
        ScalarExpr::Mul(a, b) => collect_scalar_used_two(a, b, out, Ghost(*expr)),
        ScalarExpr::Div(a, b) => collect_scalar_used_two(a, b, out, Ghost(*expr)),
        ScalarExpr::Ceil(a) => collect_scalar_used(a, out),
        ScalarExpr::Floor(a) => collect_scalar_used(a, out),
        ScalarExpr::DateAddDays { date, days } => collect_scalar_used_two(date, days, out, Ghost(*expr)),
        ScalarExpr::DateAddMonths { date, months } => collect_scalar_used_two(date, months, out, Ghost(*expr)),
        ScalarExpr::DateAddYears { date, years } => collect_scalar_used_two(date, years, out, Ghost(*expr)),
        ScalarExpr::DaysBetween { from, to } => collect_scalar_used_two(from, to, out, Ghost(*expr)),
        ScalarExpr::CountRelated { relation, where_clause, .. } => {
            push_text(relation.as_str(), out);
            if let Some(w) = where_clause {
                collect_judgment_used(w, out);
            }
            assert(texts(out@) =~= before + scalar_used(*expr));
        },
        ScalarExpr::SumRelated { relation, where_clause, .. } => {
            push_text(relation.as_str(), out);
            if let Some(w) = where_clause {
                collect_judgment_used(w, out);
            }
            assert(texts(out@) =~= before + scalar_used(*expr));
        },
        ScalarExpr::If { condition, then_expr, else_expr } => {
            collect_judgment_used(condition, out);
            collect_scalar_used(then_expr, out);
            collect_scalar_used(else_expr, out);
            assert(texts(out@) =~= before + scalar_used(*expr));
        },
        ScalarExpr::NoMatch { subject, .. } => collect_scalar_used(subject, out),
        ScalarExpr::OverPeriods { value, n, .. } => {
            collect_scalar_used(value, out);
            if let Some(n) = n {
                collect_scalar_used(n, out);
            }
            assert(texts(out@) =~= before + scalar_used(*expr));
        },
    }
}

fn collect_judgment_used_items(items: &Vec<JudgmentExpr>,
    out: &mut Vec<String>,
)
    ensures
        texts(final(out)@) == texts(old(out)@) + judgment_useds(items@, items@.len()),
    decreases items@, 0int,
{
    let ghost before = texts(out@);
    let mut i: usize = 0;
    assert(texts(out@) =~= before + judgment_useds(items@, 0));
    while i < items.len()
        invariant
            i <= items@.len(),
            texts(out@) == before + judgment_useds(items@, i as nat),
        decreases items@.len() - i,
    {
        collect_judgment_used(&items[i], out);
        assert(texts(out@) =~= before + judgment_useds(items@, (i + 1) as nat));
        i = i + 1;
    }
}

/// Adds the relations that a judgment reads.
pub(crate) fn collect_judgment_used(expr: &JudgmentExpr,
    out: &mut Vec<String>,
)
    ensures
        texts(final(out)@) == texts(old(out)@) + judgment_used(*expr),
    decreases *expr, 1int,
{
    let ghost before = texts(out@);
    match expr {
        JudgmentExpr::Comparison { left, right, .. } => {
            collect_scalar_used(left, out);
            collect_scalar_used(right, out);
            assert(texts(out@) =~= before + judgment_used(*expr));
        },
        JudgmentExpr::Derived(_) => {
            assert(before + Seq::<Seq<char>>::empty() =~= before);
        },
        JudgmentExpr::RelationMember { relation, .. } => push_text(relation.as_str(), out),
        JudgmentExpr::And(items) => collect_judgment_used_items(items, out),
        JudgmentExpr::Or(items) => collect_judgment_used_items(items, out),
        JudgmentExpr::Not(item) => collect_judgment_used(item, out),
    }
}

/// The entity kinds of a relation's slots, over at most `fuel` relations: its own, or
/// those of the relation that it filters.
pub open spec fn effective_within(p: Program, fuel: nat, relation: Seq<char>) -> Option<
    Seq<Seq<char>>,
>
    decreases fuel,
{
    if fuel == 0 {
        None
    } else {
        match item_named(p.relations@, relation) {
            None => None,
            Some(schema) => match schema.derivation {
                Some(d) => if d.slot_entities@.len() > 0 {
                    Some(texts(d.slot_entities@))
                } else if schema.slot_entities@.len() > 0 {
                    Some(texts(schema.slot_entities@))
                } else {
                    effective_within(p, (fuel - 1) as nat, d.source_relation@)
                },
                None => if schema.slot_entities@.len() > 0 {
                    Some(texts(schema.slot_entities@))
                } else {
                    None
                },
            },
        }
    }
}

/// The entity kinds of a relation's slots. Distinct relations are no more than all, so
/// that a chain which does not end among them runs in a circle, and has none.
pub open spec fn effective_kinds(p: Program, relation: Seq<char>) -> Option<Seq<Seq<char>>> {
    effective_within(p, p.relations@.len(), relation)
}

pub open spec fn texts_of(kinds: Option<Vec<String>>) -> Option<Seq<Seq<char>>> {
    match kinds {
        Some(k) => Some(texts(k@)),
        None => None,
    }
}

fn effective_slot_entities_inner(program: &Program, fuel: usize, relation: &str) -> (r: Option<
    Vec<String>,
>)
    ensures
        texts_of(r) == effective_within(*program, fuel as nat, relation@),
    decreases fuel,
{
    if fuel == 0 {
        return None;
    }
    match find_named(&program.relations, relation) {
        None => None,
        Some(schema) => match &schema.derivation {
            Some(d) => {
                if d.slot_entities.len() > 0 {
                    Some(copied_texts(&d.slot_entities))
                } else if schema.slot_entities.len() > 0 {
                    Some(copied_texts(&schema.slot_entities))
                } else {
                    effective_slot_entities_inner(program, fuel - 1, d.source_relation.as_str())
                }
            },
            None => {
                if schema.slot_entities.len() > 0 {
                    Some(copied_texts(&schema.slot_entities))
                } else {
                    None
                }
            },
        },
    }
}

/// The entity kind of each slot of a relation, or nothing where neither it nor a relation
/// that it filters declares them.
pub fn effective_slot_entities(program: &Program, relation: &str) -> (r: Option<Vec<String>>)
    ensures
        texts_of(r) == effective_kinds(*program, relation@),
{
    effective_slot_entities_inner(program, program.relations.len(), relation)
}

/// Kinds in brackets, separated by commas.
pub open spec fn kinds_text(kinds: Seq<Seq<char>>) -> Seq<char> {
    "["@ + joined_by(kinds, kinds.len(), ", "@) + "]"@
}

pub(crate) fn format_kinds(kinds: &Vec<String>) -> (r: String)
    ensures
        r@ == kinds_text(texts(kinds@)),
{
    let mut text = owned("[");
    text.append(join(kinds, ", ").as_str());
    text.append("]");
    text
}

/// The kinds of an executed relation that declares one per slot.
pub open spec fn typed_kinds(p: Program, relation: Seq<char>) -> Option<Seq<Seq<char>>> {
    match item_named(p.relations@, relation) {
        None => None,
        Some(schema) => match effective_kinds(p, relation) {
            Some(kinds) if kinds.len() == schema.arity => Some(kinds),
            _ => None,
        },
    }
}

/// The violation of an executed relation without kinds, or with a wrong number of them.
pub open spec fn typing_violation(p: Program, relation: Seq<char>, citing: Seq<char>) -> Seq<
    ViolationView,
> {
    match item_named(p.relations@, relation) {
        None => Seq::empty(),
        Some(schema) => match effective_kinds(p, relation) {
            None => seq![
                ViolationView {
                    code: RelationTypingCode::UntypedRelation,
                    relation,
                    citing,
                    message: "relation `"@ + relation + "` (arity "@ + int_text(schema.arity as int)
                        + ") is executed by `"@ + citing
                        + "` but declares no entity kind for its tuple slots. Relation entity typing is mandatory: without slot kinds a dataset tuple stored in the other orientation aggregates nothing and yields a silent zero. Declare `data_relation.arguments` (one entity kind per slot, in tuple order) and recompile, or type an existing artifact with `axiom-rules-engine migrate artifact`"@,
                },
            ],
            Some(kinds) => if kinds.len() != schema.arity {
                seq![
                    ViolationView {
                        code: RelationTypingCode::SlotEntityCount,
                        relation,
                        citing,
                        message: "relation `"@ + relation + "` has arity "@ + int_text(
                            schema.arity as int,
                        ) + " but declares "@ + int_text(kinds.len() as int)
                            + " slot entity kinds "@ + kinds_text(kinds),
                    },
                ]
            } else {
                Seq::empty()
            },
        },
    }
}

fn push_violation(
    out: &mut Vec<RelationTypingViolation>,
    code: RelationTypingCode,
    relation: &str,
    citing: &str,
    message: String,
)
    ensures
        violation_views(final(out)@) == violation_views(old(out)@) + seq![
            ViolationView { code, relation: relation@, citing: citing@, message: message@ },
        ],
{
    let ghost before = out@;
    out.push(
        RelationTypingViolation { code, relation: owned(relation), citing: owned(citing), message },
    );
    assert(violation_views(out@) =~= violation_views(before) + seq![
        ViolationView { code, relation: relation@, citing: citing@, message: message@ },
    ]);
}

/// The kinds of an executed relation, with a violation where it does not declare one per
/// slot.
fn typed_slots(
    program: &Program,
    relation: &str,
    citing: &str,
    out: &mut Vec<RelationTypingViolation>,
) -> (r: Option<Vec<String>>)
    ensures
        texts_of(r) == typed_kinds(*program, relation@),
        violation_views(final(out)@) == violation_views(old(out)@) + typing_violation(
            *program,
            relation@,
            citing@,
        ),
{
    let ghost before = violation_views(out@);
    let schema = match find_named(&program.relations, relation) {
        Some(schema) => schema,
        None => {
            assert(before + Seq::<ViolationView>::empty() =~= before);
            return None;
        },
    };
    let kinds = match effective_slot_entities(program, relation) {
        Some(kinds) => kinds,
        None => {
            let mut message = owned("relation `");
            message.append(relation);
            message.append("` (arity ");
            message.append(usize_text(schema.arity).as_str());
            message.append(") is executed by `");
            message.append(citing);
            message.append(
                "` but declares no entity kind for its tuple slots. Relation entity typing is mandatory: without slot kinds a dataset tuple stored in the other orientation aggregates nothing and yields a silent zero. Declare `data_relation.arguments` (one entity kind per slot, in tuple order) and recompile, or type an existing artifact with `axiom-rules-engine migrate artifact`",
            );
            push_violation(
                out,
                RelationTypingCode::UntypedRelation,
                relation,
                citing,
                message,
            );
            return None;
        },
    };
    if kinds.len() != schema.arity {
        let mut message = owned("relation `");
        message.append(relation);
        message.append("` has arity ");
        message.append(usize_text(schema.arity).as_str());
        message.append(" but declares ");
        message.append(usize_text(kinds.len()).as_str());
        message.append(" slot entity kinds ");
        message.append(format_kinds(&kinds).as_str());
        push_violation(out, RelationTypingCode::SlotEntityCount, relation, citing, message);
        return None;
    }
    assert(before + Seq::<ViolationView>::empty() =~= before);
    Some(kinds)
}

/// The slots that an aggregation reads: those of the derivation for a derived relation.
pub open spec fn read_slots(p: Program, relation: Seq<char>, current: usize, related: usize) -> (
    usize,
    usize,
) {
    match item_named(p.relations@, relation) {
        Some(schema) => match schema.derivation {
            Some(d) => (d.current_slot, d.related_slot),
            None => (current, related),
        },
        None => (current, related),
    }
}

/// The declared kind of the rows that an aggregation relates.
pub open spec fn related_kind_at(
    p: Program,
    relation: Seq<char>,
    current_slot: usize,
    related_slot: usize,
) -> Option<Seq<char>> {
    let (current, related) = read_slots(p, relation, current_slot, related_slot);
    match typed_kinds(p, relation) {
        Some(kinds) => if current < kinds.len() && related < kinds.len() {
            Some(kinds[related as int])
        } else {
            None
        },
        None => None,
    }
}

/// The violation of an aggregation over a derived relation by other slots.
pub open spec fn diverging(
    p: Program,
    relation: Seq<char>,
    current_slot: usize,
    related_slot: usize,
    citing: Seq<char>,
) -> Seq<ViolationView> {
    let (current, related) = read_slots(p, relation, current_slot, related_slot);
    if current == current_slot && related == related_slot {
        Seq::empty()
    } else {
        seq![
            ViolationView {
                code: RelationTypingCode::DerivedRelationSlotsDiverge,
                relation,
                citing,
                message: "`"@ + citing + "` aggregates derived relation `"@ + relation
                    + "` with slots ("@ + int_text(current_slot as int) + ", "@ + int_text(
                    related_slot as int,
                ) + "), but the derivation traverses its source with slots ("@ + int_text(
                    current as int,
                ) + ", "@ + int_text(related as int)
                    + "); recompile so the aggregate uses the derivation's slots"@,
            },
        ]
    }
}

/// The entity of the filtered rows of a derived relation.
pub open spec fn filtered_entity(p: Program, relation: Seq<char>) -> Option<Seq<char>> {
    match item_named(p.relations@, relation) {
        Some(schema) => match schema.derivation {
            Some(d) => opt_text(d.entity),
            None => None,
        },
        None => None,
    }
}

/// The violation of an aggregation from rows of another kind than its slot declares.
pub open spec fn current_mismatch(
    p: Program,
    relation: Seq<char>,
    kinds: Seq<Seq<char>>,
    current: usize,
    entity: Option<Seq<char>>,
    citing: Seq<char>,
) -> Seq<ViolationView> {
    match entity {
        Some(e) => if e != kinds[current as int] && filtered_entity(p, relation) != Some(e) {
            seq![
                ViolationView {
                    code: RelationTypingCode::CurrentSlotEntityMismatch,
                    relation,
                    citing,
                    message: "`"@ + citing + "` evaluates on `"@ + e
                        + "` ids and aggregates relation `"@ + relation + "` keyed on slot "@
                        + int_text(current as int) + ", which declares `"@ + kinds[current as int]
                        + "` (slot kinds "@ + kinds_text(kinds)
                        + "); so the lookup can never match those ids. Declare the kinds in tuple order and recompile"@,
                },
            ]
        } else {
            Seq::empty()
        },
        None => Seq::empty(),
    }
}

/// The violation of a rule that is evaluated on related rows of another kind.
pub open spec fn related_mismatch(
    p: Program,
    relation: Seq<char>,
    kinds: Seq<Seq<char>>,
    related: usize,
    name: Seq<char>,
    citing: Seq<char>,
) -> Seq<ViolationView> {
    match item_named(p.derived@, name) {
        Some(d) => if d.entity@ == SCALAR_ENTITY@ || d.entity@ == kinds[related as int] {
            Seq::empty()
        } else {
            seq![
                ViolationView {
                    code: RelationTypingCode::RelatedSlotEntityMismatch,
                    relation,
                    citing,
                    message: "`"@ + citing + "` evaluates `"@ + name + "` (entity `"@ + d.entity@
                        + "`) on the ids in slot "@ + int_text(related as int) + " of relation `"@
                        + relation + "`, which declares `"@ + kinds[related as int]
                        + "` (slot kinds "@ + kinds_text(kinds) + ")"@,
                },
            ]
        },
        None => Seq::empty(),
    }
}

pub open spec fn related_mismatches(
    p: Program,
    relation: Seq<char>,
    kinds: Seq<Seq<char>>,
    related: usize,
    names: Seq<Seq<char>>,
    n: nat,
    citing: Seq<char>,
) -> Seq<ViolationView>
    decreases n,
{
    if n == 0 || n > names.len() {
        Seq::empty()
    } else {
        related_mismatches(p, relation, kinds, related, names, (n - 1) as nat, citing)
            + related_mismatch(p, relation, kinds, related, names[n - 1], citing)
    }
}

/// The rules that an aggregation evaluates on related rows.
pub open spec fn related_refs(
    value: Option<RelatedValueRef>,
    where_clause: Option<Box<JudgmentExpr>>,
) -> Seq<Seq<char>> {
    (match value {
        Some(RelatedValueRef::Derived(name)) => seq![name@],
        _ => Seq::empty(),
    }) + match where_clause {
        Some(w) => judgment_refs(*w),
        None => Seq::empty(),
    }
}

/// The violations of an aggregation itself.
pub open spec fn aggregation_violations(
    p: Program,
    relation: Seq<char>,
    current_slot: usize,
    related_slot: usize,
    value: Option<RelatedValueRef>,
    where_clause: Option<Box<JudgmentExpr>>,
    entity: Option<Seq<char>>,
    citing: Seq<char>,
) -> Seq<ViolationView> {
    let (current, related) = read_slots(p, relation, current_slot, related_slot);
    let refs = related_refs(value, where_clause);
    typing_violation(p, relation, citing) + diverging(
        p,
        relation,
        current_slot,
        related_slot,
        citing,
    ) + match typed_kinds(p, relation) {
        None => Seq::empty(),
        Some(kinds) => if current >= kinds.len() || related >= kinds.len() {
            seq![
                ViolationView {
                    code: RelationTypingCode::SlotOutOfRange,
                    relation,
                    citing,
                    message: "`"@ + citing + "` reads relation `"@ + relation + "` at slots ("@
                        + int_text(current as int) + ", "@ + int_text(related as int)
                        + "), outside its arity "@ + int_text(kinds.len() as int),
                },
            ]
        } else {
            current_mismatch(p, relation, kinds, current, entity, citing) + related_mismatches(
                p,
                relation,
                kinds,
                related,
                refs,
                refs.len(),
                citing,
            )
        },
    }
}

/// The violation of a membership test on one slot.
pub open spec fn member_mismatch(
    relation: Seq<char>,
    kinds: Seq<Seq<char>>,
    slot: usize,
    expected: Option<Seq<char>>,
    citing: Seq<char>,
) -> Seq<ViolationView> {
    match expected {
        Some(e) => if kinds[slot as int] != e {
            seq![
                ViolationView {
                    code: RelationTypingCode::MembershipSlotEntityMismatch,
                    relation,
                    citing,
                    message: "`"@ + citing + "` tests whether a `"@ + e + "` id is in slot "@
                        + int_text(slot as int) + " of relation `"@ + relation
                        + "`, which declares `"@ + kinds[slot as int] + "` (slot kinds "@
                        + kinds_text(kinds) + ")"@,
                },
            ]
        } else {
            Seq::empty()
        },
        None => Seq::empty(),
    }
}

/// The violations of a membership test.
pub open spec fn membership_violations(
    p: Program,
    relation: Seq<char>,
    current_slot: usize,
    related_slot: usize,
    membership: Option<(Option<Seq<char>>, Option<Seq<char>>)>,
    citing: Seq<char>,
) -> Seq<ViolationView> {
    typing_violation(p, relation, citing) + match typed_kinds(p, relation) {
        None => Seq::empty(),
        Some(kinds) => if current_slot >= kinds.len() || related_slot >= kinds.len() {
            seq![
                ViolationView {
                    code: RelationTypingCode::SlotOutOfRange,
                    relation,
                    citing,
                    message: "`"@ + citing + "` tests membership in relation `"@ + relation
                        + "` at slots ("@ + int_text(current_slot as int) + ", "@ + int_text(
                        related_slot as int,
                    ) + "), outside its arity "@ + int_text(kinds.len() as int),
                },
            ]
        } else {
            match membership {
                Some((current, related)) => member_mismatch(
                    relation,
                    kinds,
                    current_slot,
                    current,
                    citing,
                ) + member_mismatch(relation, kinds, related_slot, related, citing),
                None => Seq::empty(),
            }
        },
    }
}

fn slots_text(message: &mut String, current: usize, related: usize)
    ensures
        final(message)@ == old(message)@ + int_text(current as int) + ", "@ + int_text(
            related as int,
        ),
{
    message.append(usize_text(current).as_str());
    message.append(", ");
    message.append(usize_text(related).as_str());
}

/// Adds the violation of a membership test on one slot.
fn check_member_slot(
    relation: &str,
    kinds: &Vec<String>,
    slot: usize,
    expected: Option<&str>,
    citing: &str,
    out: &mut Vec<RelationTypingViolation>,
)
    requires
        slot < kinds@.len(),
    ensures
        violation_views(final(out)@) == violation_views(old(out)@) + member_mismatch(
            relation@,
            texts(kinds@),
            slot,
            kind_of(expected),
            citing@,
        ),
{
    let ghost before = violation_views(out@);
    assert(before + Seq::<ViolationView>::empty() =~= before);
    if let Some(e) = expected {
        let kind = kinds[slot].as_str();
        assert(texts(kinds@)[slot as int] == kind@);
        if !same(kind, e) {
            let mut message = owned("`");
            message.append(citing);
            message.append("` tests whether a `");
            message.append(e);
            message.append("` id is in slot ");
            message.append(usize_text(slot).as_str());
            message.append(" of relation `");
            message.append(relation);
            message.append("`, which declares `");
            message.append(kind);
            message.append("` (slot kinds ");
            message.append(format_kinds(kinds).as_str());
            message.append(")");
            push_violation(
                out,
                RelationTypingCode::MembershipSlotEntityMismatch,
                relation,
                citing,
                message,
            );
        }
    }
}

/// Adds the violations of a membership test.
fn check_membership(
    program: &Program,
    relation: &str,
    current_slot: usize,
    related_slot: usize,
    membership: Option<(Option<&str>, Option<&str>)>,
    citing: &str,
    out: &mut Vec<RelationTypingViolation>,
)
    ensures
        violation_views(final(out)@) == violation_views(old(out)@) + membership_violations(
            *program,
            relation@,
            current_slot,
            related_slot,
            context_of(membership),
            citing@,
        ),
{
    let ghost before = violation_views(out@);
    let ghost whole = membership_violations(
        *program,
        relation@,
        current_slot,
        related_slot,
        context_of(membership),
        citing@,
    );
    let kinds = match typed_slots(program, relation, citing, out) {
        Some(kinds) => kinds,
        None => {
            assert(violation_views(out@) =~= before + whole);
            return ;
        },
    };
    if current_slot >= kinds.len() || related_slot >= kinds.len() {
        let mut message = owned("`");
        message.append(citing);
        message.append("` tests membership in relation `");
        message.append(relation);
        message.append("` at slots (");
        slots_text(&mut message, current_slot, related_slot);
        message.append("), outside its arity ");
        message.append(usize_text(kinds.len()).as_str());
        push_violation(out, RelationTypingCode::SlotOutOfRange, relation, citing, message);
        assert(violation_views(out@) =~= before + whole);
        return ;
    }
    if let Some((current, related)) = membership {
        check_member_slot(relation, &kinds, current_slot, current, citing, out);
        check_member_slot(relation, &kinds, related_slot, related, citing, out);
    }
    assert(violation_views(out@) =~= before + whole);
}

/// Adds the violation of a rule that is evaluated on related rows of another kind.
fn check_related_rule(
    program: &Program,
    relation: &str,
    kinds: &Vec<String>,
    related: usize,
    name: &str,
    citing: &str,
    out: &mut Vec<RelationTypingViolation>,
)
    requires
        related < kinds@.len(),
    ensures
        violation_views(final(out)@) == violation_views(old(out)@) + related_mismatch(
            *program,
            relation@,
            texts(kinds@),
            related,
            name@,
            citing@,
        ),
{
    let ghost before = violation_views(out@);
    assert(before + Seq::<ViolationView>::empty() =~= before);
    if let Some(rule) = find_named(&program.derived, name) {
        let kind = kinds[related].as_str();
        assert(texts(kinds@)[related as int] == kind@);
        let entity = rule.entity.as_str();
        if !same(entity, SCALAR_ENTITY) && !same(entity, kind) {
            let mut message = owned("`");
            message.append(citing);
            message.append("` evaluates `");
            message.append(name);
            message.append("` (entity `");
            message.append(entity);
            message.append("`) on the ids in slot ");
            message.append(usize_text(related).as_str());
            message.append(" of relation `");
            message.append(relation);
            message.append("`, which declares `");
            message.append(kind);
            message.append("` (slot kinds ");
            message.append(format_kinds(kinds).as_str());
            message.append(")");
            push_violation(
                out,
                RelationTypingCode::RelatedSlotEntityMismatch,
                relation,
                citing,
                message,
            );
        }
    }
}

/// Adds the violation of an aggregation from rows of another kind than its slot declares.
fn check_current(
    program: &Program,
    relation: &str,
    kinds: &Vec<String>,
    current: usize,
    entity: Option<&str>,
    citing: &str,
    out: &mut Vec<RelationTypingViolation>,
)
    requires
        current < kinds@.len(),
    ensures
        violation_views(final(out)@) == violation_views(old(out)@) + current_mismatch(
            *program,
            relation@,
            texts(kinds@),
            current,
            kind_of(entity),
            citing@,
        ),
{
    let ghost before = violation_views(out@);
    assert(before + Seq::<ViolationView>::empty() =~= before);
    if let Some(e) = entity {
        let kind = kinds[current].as_str();
        assert(texts(kinds@)[current as int] == kind@);
        let filtered = match find_named(&program.relations, relation) {
            Some(schema) => match &schema.derivation {
                Some(d) => opt_str(&d.entity),
                None => None,
            },
            None => None,
        };
        let own = match filtered {
            Some(f) => same(f, e),
            None => false,
        };
        if !same(e, kind) && !own {
            let mut message = owned("`");
            message.append(citing);
            message.append("` evaluates on `");
            message.append(e);
            message.append("` ids and aggregates relation `");
            message.append(relation);
            message.append("` keyed on slot ");
            message.append(usize_text(current).as_str());
            message.append(", which declares `");
            message.append(kind);
            message.append("` (slot kinds ");
            message.append(format_kinds(kinds).as_str());
            message.append(
                "); so the lookup can never match those ids. Declare the kinds in tuple order and recompile",
            );
            push_violation(
                out,
                RelationTypingCode::CurrentSlotEntityMismatch,
                relation,
                citing,
                message,
            );
        }
    }
}

fn collect_related_refs(
    value: Option<&RelatedValueRef>,
    where_clause: &Option<Box<JudgmentExpr>>,
) -> (r: Vec<String>)
    ensures
        texts(r@) == related_refs(
            match value {
                Some(v) => Some(*v),
                None => None,
            },
            *where_clause,
        ),
{
    let mut refs: Vec<String> = Vec::new();
    assert(texts(refs@) =~= Seq::empty());
    if let Some(RelatedValueRef::Derived(name)) = value {
        push_text(name.as_str(), &mut refs);
    }
    let ghost first = texts(refs@);
    assert(first =~= match value {
        Some(RelatedValueRef::Derived(name)) => seq![name@],
        _ => Seq::empty(),
    });
    if let Some(w) = where_clause {
        collect_judgment_derived(w, &mut refs);
    }
    assert(texts(refs@) =~= first + match *where_clause {
        Some(w) => judgment_refs(*w),
        None => Seq::empty(),
    });
    refs
}

/// Adds the violations of an aggregation itself, and gives the kind of its related rows.
fn check_aggregation(
    program: &Program,
    relation: &str,
    current_slot: usize,
    related_slot: usize,
    value: Option<&RelatedValueRef>,
    where_clause: &Option<Box<JudgmentExpr>>,
    entity: Option<&str>,
    citing: &str,
    out: &mut Vec<RelationTypingViolation>,
) -> (r: Option<String>)
    ensures
        violation_views(final(out)@) == violation_views(old(out)@) + aggregation_violations(
            *program,
            relation@,
            current_slot,
            related_slot,
            match value {
                Some(v) => Some(*v),
                None => None,
            },
            *where_clause,
            kind_of(entity),
            citing@,
        ),
        opt_text(r) == related_kind_at(*program, relation@, current_slot, related_slot),
{
    let ghost before = violation_views(out@);
    let ghost whole = aggregation_violations(
        *program,
        relation@,
        current_slot,
        related_slot,
        match value {
            Some(v) => Some(*v),
            None => None,
        },
        *where_clause,
        kind_of(entity),
        citing@,
    );
    let kinds = typed_slots(program, relation, citing, out);
    let (current, related) = match find_named(&program.relations, relation) {
        Some(schema) => match &schema.derivation {
            Some(d) => (d.current_slot, d.related_slot),
            None => (current_slot, related_slot),
        },
        None => (current_slot, related_slot),
    };
    if current != current_slot || related != related_slot {
        let mut message = owned("`");
        message.append(citing);
        message.append("` aggregates derived relation `");
        message.append(relation);
        message.append("` with slots (");
        slots_text(&mut message, current_slot, related_slot);
        message.append("), but the derivation traverses its source with slots (");
        slots_text(&mut message, current, related);
        message.append("); recompile so the aggregate uses the derivation's slots");
        push_violation(
            out,
            RelationTypingCode::DerivedRelationSlotsDiverge,
            relation,
            citing,
            message,
        );
    }
    let ghost first = typing_violation(*program, relation@, citing@) + diverging(
        *program,
        relation@,
        current_slot,
        related_slot,
        citing@,
    );
    assert(violation_views(out@) =~= before + first);
    let kinds = match kinds {
        Some(kinds) => kinds,
        None => {
            assert(violation_views(out@) =~= before + whole);
            return None;
        },
    };
    if current >= kinds.len() || related >= kinds.len() {
        let mut message = owned("`");
        message.append(citing);
        message.append("` reads relation `");
        message.append(relation);
        message.append("` at slots (");
        slots_text(&mut message, current, related);
        message.append("), outside its arity ");
        message.append(usize_text(kinds.len()).as_str());
        push_violation(out, RelationTypingCode::SlotOutOfRange, relation, citing, message);
        assert(violation_views(out@) =~= before + whole);
        return None;
    }
    check_current(program, relation, &kinds, current, entity, citing, out);
    let refs = collect_related_refs(value, where_clause);
    let ghost second = violation_views(out@);
    let mut i: usize = 0;
    assert(violation_views(out@) =~= second + related_mismatches(
        *program,
        relation@,
        texts(kinds@),
        related,
        texts(refs@),
        0,
        citing@,
    ));
    while i < refs.len()
        invariant
            i <= refs@.len(),
            related < kinds@.len(),
            violation_views(out@) == second + related_mismatches(
                *program,
                relation@,
                texts(kinds@),
                related,
                texts(refs@),
                i as nat,
                citing@,
            ),
        decreases refs@.len() - i,
    {
        assert(texts(refs@)[i as int] == refs@[i as int]@);
        check_related_rule(program, relation, &kinds, related, refs[i].as_str(), citing, out);
        assert(violation_views(out@) =~= second + related_mismatches(
            *program,
            relation@,
            texts(kinds@),
            related,
            texts(refs@),
            (i + 1) as nat,
            citing@,
        ));
        i = i + 1;
    }
    assert(violation_views(out@) =~= before + whole);
    assert(texts(kinds@)[related as int] == kinds@[related as int]@);
    Some(kinds[related].clone())
}

/// The typing violations of a formula that is evaluated on rows of `entity`.
pub open spec fn scalar_violations(e: ScalarExpr, p: Program, entity: Option<Seq<char>>, membership: Option<(Option<Seq<char>>, Option<Seq<char>>)>, citing: Seq<char>) -> Seq<ViolationView>
    decreases e, 1int, 0nat,
{
    match e {
        ScalarExpr::Literal(_) => Seq::empty(),
        ScalarExpr::PeriodStart => Seq::empty(),
        ScalarExpr::PeriodEnd => Seq::empty(),
        ScalarExpr::Input(_) => Seq::empty(),
        ScalarExpr::InputOrElse { .. } => Seq::empty(),
        ScalarExpr::Derived(_) => Seq::empty(),
        ScalarExpr::ParameterLookup { index, .. } => scalar_violations(*index, p, entity, membership, citing),
        ScalarExpr::Add(items) => scalar_violationss(items@, items@.len(), p, entity, membership, citing),
        ScalarExpr::Max(items) => scalar_violationss(items@, items@.len(), p, entity, membership, citing),
        ScalarExpr::Min(items) => scalar_violationss(items@, items@.len(), p, entity, membership, citing),
        ScalarExpr::Sub(a, b) => scalar_violations(*a, p, entity, membership, citing) + scalar_violations(*b, p, entity, membership, citing),
        ScalarExpr::Mul(a, b) => scalar_violations(*a, p, entity, membership, citing) + scalar_violations(*b, p, entity, membership, citing),
        ScalarExpr::Div(a, b) => scalar_violations(*a, p, entity, membership, citing) + scalar_violations(*b, p, entity, membership, citing),
        ScalarExpr::Ceil(a) => scalar_violations(*a, p, entity, membership, citing),
        ScalarExpr::Floor(a) => scalar_violations(*a, p, entity, membership, citing),
        ScalarExpr::DateAddDays { date, days } => scalar_violations(*date, p, entity, membership, citing) + scalar_violations(*days, p, entity, membership, citing),
        ScalarExpr::DateAddMonths { date, months } => scalar_violations(*date, p, entity, membership, citing) + scalar_violations(*months, p, entity, membership, citing),
        ScalarExpr::DateAddYears { date, years } => scalar_violations(*date, p, entity, membership, citing) + scalar_violations(*years, p, entity, membership, citing),
        ScalarExpr::DaysBetween { from, to } => scalar_violations(*from, p, entity, membership, citing) + scalar_violations(*to, p, entity, membership, citing),
        ScalarExpr::CountRelated { relation, current_slot, related_slot, where_clause, .. } => {
            let related = related_kind_at(p, relation@, current_slot, related_slot);
            aggregation_violations(
                p,
                relation@,
                current_slot,
                related_slot,
                None,
                where_clause,
                entity,
                citing,
            ) + match where_clause {
                Some(w) => judgment_violations(*w, p, related, None, citing),
                None => Seq::empty(),
            }
        },
        ScalarExpr::SumRelated { relation, current_slot, related_slot, value, where_clause } => {
            let related = related_kind_at(p, relation@, current_slot, related_slot);
            aggregation_violations(
                p,
                relation@,
                current_slot,
                related_slot,
                Some(value),
                where_clause,
                entity,
                citing,
            ) + match where_clause {
                Some(w) => judgment_violations(*w, p, related, None, citing),
                None => Seq::empty(),
            }
        },
        ScalarExpr::If { condition, then_expr, else_expr } => judgment_violations(*condition, p, entity, membership, citing) + scalar_violations(
            *then_expr, p, entity, membership, citing) + scalar_violations(*else_expr, p, entity, membership, citing),
        ScalarExpr::NoMatch { subject, .. } => scalar_violations(*subject, p, entity, membership, citing),
        ScalarExpr::OverPeriods { value, n, .. } => scalar_violations(*value, p, entity, membership, citing) + match n {
            Some(n) => scalar_violations(*n, p, entity, membership, citing),
            None => Seq::empty(),
        },
    }
}

pub open spec fn scalar_violationss(items: Seq<ScalarExpr>, n: nat, p: Program, entity: Option<Seq<char>>, membership: Option<(Option<Seq<char>>, Option<Seq<char>>)>, citing: Seq<char>) -> Seq<ViolationView>
    decreases items, 0int, n,
{
    if n == 0 || n > items.len() {
        Seq::empty()
    } else {
        scalar_violationss(items, (n - 1) as nat, p, entity, membership, citing) + scalar_violations(items[n - 1], p, entity, membership, citing)
    }
}

/// The typing violations of a judgment. `membership` has the kinds of the two rows that
/// a predicate of a derived relation is evaluated on.
pub open spec fn judgment_violations(e: JudgmentExpr, p: Program, entity: Option<Seq<char>>, membership: Option<(Option<Seq<char>>, Option<Seq<char>>)>, citing: Seq<char>) -> Seq<ViolationView>
    decreases e, 1int, 0nat,
{
    match e {
        JudgmentExpr::Comparison { left, right, .. } => scalar_violations(left, p, entity, membership, citing) + scalar_violations(right, p, entity, membership, citing),
        JudgmentExpr::Derived(_) => Seq::empty(),
        JudgmentExpr::RelationMember { relation, current_slot, related_slot } => membership_violations(
            p,
            relation@,
            current_slot,
            related_slot,
            membership,
            citing,
        ),
        JudgmentExpr::And(items) => judgment_violationss(items@, items@.len(), p, entity, membership, citing),
        JudgmentExpr::Or(items) => judgment_violationss(items@, items@.len(), p, entity, membership, citing),
        JudgmentExpr::Not(item) => judgment_violations(*item, p, entity, membership, citing),
    }
}

pub open spec fn judgment_violationss(items: Seq<JudgmentExpr>, n: nat, p: Program, entity: Option<Seq<char>>, membership: Option<(Option<Seq<char>>, Option<Seq<char>>)>, citing: Seq<char>) -> Seq<ViolationView>
    decreases items, 0int, n,
{
    if n == 0 || n > items.len() {
        Seq::empty()
    } else {
        judgment_violationss(items, (n - 1) as nat, p, entity, membership, citing) + judgment_violations(items[n - 1], p, entity, membership, citing)
    }
}

fn check_scalar_two(
    a: &ScalarExpr,
    b: &ScalarExpr,
    program: &Program,
    entity: Option<&str>,
    membership: Option<(Option<&str>, Option<&str>)>,
    citing: &str,
    out: &mut Vec<RelationTypingViolation>,
    Ghost(whole): Ghost<ScalarExpr>,
)
    requires
        decreases_to!(whole => *a),
        decreases_to!(whole => *b),
    ensures
        violation_views(final(out)@) == violation_views(old(out)@) + (scalar_violations(*a, *program, kind_of(entity), context_of(membership), citing@) + scalar_violations(*b, *program, kind_of(entity), context_of(membership), citing@)),
    decreases whole, 0int,
{
    let ghost before = violation_views(out@);
    check_scalar(a, program, entity, membership, citing, out);
    check_scalar(b, program, entity, membership, citing, out);
    assert(violation_views(out@) =~= before + (scalar_violations(*a, *program, kind_of(entity), context_of(membership), citing@) + scalar_violations(*b, *program, kind_of(entity), context_of(membership), citing@)));
}

fn check_scalar_items(items: &Vec<ScalarExpr>,
    program: &Program,
    entity: Option<&str>,
    membership: Option<(Option<&str>, Option<&str>)>,
    citing: &str,
    out: &mut Vec<RelationTypingViolation>,
)
    ensures
        violation_views(final(out)@) == violation_views(old(out)@) + scalar_violationss(items@, items@.len(), *program, kind_of(entity), context_of(membership), citing@),
    decreases items@, 0int,
{
    let ghost before = violation_views(out@);
    let mut i: usize = 0;
    assert(violation_views(out@) =~= before + scalar_violationss(items@, 0, *program, kind_of(entity), context_of(membership), citing@));
    while i < items.len()
        invariant
            i <= items@.len(),
            violation_views(out@) == before + scalar_violationss(items@, i as nat, *program, kind_of(entity), context_of(membership), citing@),
        decreases items@.len() - i,
    {
        check_scalar(&items[i], program, entity, membership, citing, out);
        assert(violation_views(out@) =~= before + scalar_violationss(items@, (i + 1) as nat, *program, kind_of(entity), context_of(membership), citing@));
        i = i + 1;
    }
}

/// Adds the typing violations of a formula.
fn check_scalar(expr: &ScalarExpr,
    program: &Program,
    entity: Option<&str>,
    membership: Option<(Option<&str>, Option<&str>)>,
    citing: &str,
    out: &mut Vec<RelationTypingViolation>,
)
    ensures
        violation_views(final(out)@) == violation_views(old(out)@) + scalar_violations(*expr, *program, kind_of(entity), context_of(membership), citing@),
    decreases *expr, 1int,
{
    let ghost before = violation_views(out@);
    match expr {
        ScalarExpr::Literal(_) | ScalarExpr::PeriodStart | ScalarExpr::PeriodEnd => {
            assert(before + Seq::<ViolationView>::empty() =~= before);
        },
        ScalarExpr::Input(_) => {
            assert(before + Seq::<ViolationView>::empty() =~= before);
        },
        ScalarExpr::InputOrElse { .. } => {
            assert(before + Seq::<ViolationView>::empty() =~= before);
        },
        ScalarExpr::Derived(_) => {
            assert(before + Seq::<ViolationView>::empty() =~= before);
        },
        ScalarExpr::ParameterLookup { index, .. } => check_scalar(index, program, entity, membership, citing, out),
        ScalarExpr::Add(items) => check_scalar_items(items, program, entity, membership, citing, out),
        ScalarExpr::Max(items) => check_scalar_items(items, program, entity, membership, citing, out),
        ScalarExpr::Min(items) => check_scalar_items(items, program, entity, membership, citing, out),
        ScalarExpr::Sub(a, b) => check_scalar_two(a, b, program, entity, membership, citing, out, Ghost(*expr)),
        ScalarExpr::Mul(a, b) => check_scalar_two(a, b, program, entity, membership, citing, out, Ghost(*expr)),
        ScalarExpr::Div(a, b) => check_scalar_two(a, b, program, entity, membership, citing, out, Ghost(*expr)),
        ScalarExpr::Ceil(a) => check_scalar(a, program, entity, membership, citing, out),
        ScalarExpr::Floor(a) => check_scalar(a, program, entity, membership, citing, out),
        ScalarExpr::DateAddDays { date, days } => check_scalar_two(date, days, program, entity, membership, citing, out, Ghost(*expr)),
        ScalarExpr::DateAddMonths { date, months } => check_scalar_two(date, months, program, entity, membership, citing, out, Ghost(*expr)),
        ScalarExpr::DateAddYears { date, years } => check_scalar_two(date, years, program, entity, membership, citing, out, Ghost(*expr)),
        ScalarExpr::DaysBetween { from, to } => check_scalar_two(from, to, program, entity, membership, citing, out, Ghost(*expr)),
        ScalarExpr::CountRelated { relation, current_slot, related_slot, where_clause, .. } => {
            let related = check_aggregation(
                program,
                relation.as_str(),
                *current_slot,
                *related_slot,
                None,
                where_clause,
                entity,
                citing,
                out,
            );
            if let Some(w) = where_clause {
                check_judgment(w, program, opt_str(&related), None, citing, out);
            }
            assert(violation_views(out@) =~= before + scalar_violations(*expr, *program, kind_of(entity), context_of(membership), citing@));
        },
        ScalarExpr::SumRelated { relation, current_slot, related_slot, value, where_clause } => {
            let related = check_aggregation(
                program,
                relation.as_str(),
                *current_slot,
                *related_slot,
                Some(value),
                where_clause,
                entity,
                citing,
                out,
            );
            if let Some(w) = where_clause {
                check_judgment(w, program, opt_str(&related), None, citing, out);
            }
            assert(violation_views(out@) =~= before + scalar_violations(*expr, *program, kind_of(entity), context_of(membership), citing@));
        },
        ScalarExpr::If { condition, then_expr, else_expr } => {
            check_judgment(condition, program, entity, membership, citing, out);
            check_scalar(then_expr, program, entity, membership, citing, out);
            check_scalar(else_expr, program, entity, membership, citing, out);
            assert(violation_views(out@) =~= before + scalar_violations(*expr, *program, kind_of(entity), context_of(membership), citing@));
        },
        ScalarExpr::NoMatch { subject, .. } => check_scalar(subject, program, entity, membership, citing, out),
        ScalarExpr::OverPeriods { value, n, .. } => {
            check_scalar(value, program, entity, membership, citing, out);
            if let Some(n) = n {
                check_scalar(n, program, entity, membership, citing, out);
            }
            assert(violation_views(out@) =~= before + scalar_violations(*expr, *program, kind_of(entity), context_of(membership), citing@));
        },
    }
}

fn check_judgment_items(items: &Vec<JudgmentExpr>,
    program: &Program,
    entity: Option<&str>,
    membership: Option<(Option<&str>, Option<&str>)>,
    citing: &str,
    out: &mut Vec<RelationTypingViolation>,
)
    ensures
        violation_views(final(out)@) == violation_views(old(out)@) + judgment_violationss(items@, items@.len(), *program, kind_of(entity), context_of(membership), citing@),
    decreases items@, 0int,
{
    let ghost before = violation_views(out@);
    let mut i: usize = 0;
    assert(violation_views(out@) =~= before + judgment_violationss(items@, 0, *program, kind_of(entity), context_of(membership), citing@));
    while i < items.len()
        invariant
            i <= items@.len(),
            violation_views(out@) == before + judgment_violationss(items@, i as nat, *program, kind_of(entity), context_of(membership), citing@),
        decreases items@.len() - i,
    {
        check_judgment(&items[i], program, entity, membership, citing, out);
        assert(violation_views(out@) =~= before + judgment_violationss(items@, (i + 1) as nat, *program, kind_of(entity), context_of(membership), citing@));
        i = i + 1;
    }
}

/// Adds the typing violations of a judgment.
fn check_judgment(expr: &JudgmentExpr,
    program: &Program,
    entity: Option<&str>,
    membership: Option<(Option<&str>, Option<&str>)>,
    citing: &str,
    out: &mut Vec<RelationTypingViolation>,
)
    ensures
        violation_views(final(out)@) == violation_views(old(out)@) + judgment_violations(*expr, *program, kind_of(entity), context_of(membership), citing@),
    decreases *expr, 1int,
{
    let ghost before = violation_views(out@);
    match expr {
        JudgmentExpr::Comparison { left, right, .. } => {
            check_scalar(left, program, entity, membership, citing, out);
            check_scalar(right, program, entity, membership, citing, out);
            assert(violation_views(out@) =~= before + judgment_violations(*expr, *program, kind_of(entity), context_of(membership), citing@));
        },
        JudgmentExpr::Derived(_) => {
            assert(before + Seq::<ViolationView>::empty() =~= before);
        },
        JudgmentExpr::RelationMember { relation, current_slot, related_slot } => check_membership(
            program,
            relation.as_str(),
            *current_slot,
            *related_slot,
            membership,
            citing,
            out,
        ),
        JudgmentExpr::And(items) => check_judgment_items(items, program, entity, membership, citing, out),
        JudgmentExpr::Or(items) => check_judgment_items(items, program, entity, membership, citing, out),
        JudgmentExpr::Not(item) => check_judgment(item, program, entity, membership, citing, out),
    }
}

/// The violations of a rule's formula.
pub open spec fn formula_violations(
    s: DerivedSemantics,
    p: Program,
    entity: Seq<char>,
    citing: Seq<char>,
) -> Seq<ViolationView> {
    match s {
        DerivedSemantics::Scalar(e) => scalar_violations(e, p, Some(entity), None, citing),
        DerivedSemantics::Judgment(e) => judgment_violations(e, p, Some(entity), None, citing),
    }
}

/// The relations that a rule's formula reads.
pub open spec fn formula_used(s: DerivedSemantics) -> Seq<Seq<char>> {
    match s {
        DerivedSemantics::Scalar(e) => scalar_used(e),
        DerivedSemantics::Judgment(e) => judgment_used(e),
    }
}

pub open spec fn versions_violations(
    versions: Seq<DerivedVersion>,
    n: nat,
    p: Program,
    entity: Seq<char>,
    citing: Seq<char>,
) -> Seq<ViolationView>
    decreases n,
{
    if n == 0 || n > versions.len() {
        Seq::empty()
    } else {
        versions_violations(versions, (n - 1) as nat, p, entity, citing) + formula_violations(
            versions[n - 1].semantics,
            p,
            entity,
            citing,
        )
    }
}

pub open spec fn versions_used(versions: Seq<DerivedVersion>, n: nat) -> Seq<Seq<char>>
    decreases n,
{
    if n == 0 || n > versions.len() {
        Seq::empty()
    } else {
        versions_used(versions, (n - 1) as nat) + formula_used(versions[n - 1].semantics)
    }
}

/// The violations of a rule. Where it has versions, its own formula is never evaluated.
pub open spec fn rule_violations(d: Derived, p: Program) -> Seq<ViolationView> {
    if d.versions@.len() == 0 {
        formula_violations(d.semantics, p, d.entity@, d.label())
    } else {
        versions_violations(d.versions@, d.versions@.len(), p, d.entity@, d.label())
    }
}

/// The relations that a rule reads.
pub open spec fn rule_used(d: Derived) -> Seq<Seq<char>> {
    if d.versions@.len() == 0 {
        formula_used(d.semantics)
    } else {
        versions_used(d.versions@, d.versions@.len())
    }
}

pub open spec fn rules_violations(rules: Seq<Derived>, n: nat, p: Program) -> Seq<ViolationView>
    decreases n,
{
    if n == 0 || n > rules.len() {
        Seq::empty()
    } else {
        rules_violations(rules, (n - 1) as nat, p) + rule_violations(rules[n - 1], p)
    }
}

/// The relations that the first `n` rules read.
pub open spec fn rules_used(rules: Seq<Derived>, n: nat) -> Seq<Seq<char>>
    decreases n,
{
    if n == 0 || n > rules.len() {
        Seq::empty()
    } else {
        rules_used(rules, (n - 1) as nat) + rule_used(rules[n - 1])
    }
}

pub open spec fn derivation_of(p: Program, name: Seq<char>) -> Option<RelationDerivation> {
    match item_named(p.relations@, name) {
        Some(schema) => schema.derivation,
        None => None,
    }
}

/// The relations that a derived relation reads: its source, and those of its predicate.
pub open spec fn derivation_used(p: Program, name: Seq<char>) -> Seq<Seq<char>> {
    match derivation_of(p, name) {
        Some(d) => seq![d.source_relation@] + judgment_used(d.predicate),
        None => Seq::empty(),
    }
}

pub open spec fn kind_at(kinds: Option<Seq<Seq<char>>>, slot: usize) -> Option<Seq<char>> {
    match kinds {
        Some(k) => if slot < k.len() {
            Some(k[slot as int])
        } else {
            None
        },
        None => None,
    }
}

/// The violation of a derived relation whose kinds its source contradicts.
pub open spec fn source_conflict(p: Program, name: Seq<char>, d: RelationDerivation) -> Seq<
    ViolationView,
> {
    match typed_kinds(p, d.source_relation@) {
        Some(kinds) => if d.slot_entities@.len() > 0 && texts(d.slot_entities@) != kinds {
            seq![
                ViolationView {
                    code: RelationTypingCode::DerivedRelationSourceConflict,
                    relation: name,
                    citing: name,
                    message: "derived relation `"@ + name + "` declares slot kinds "@ + kinds_text(
                        texts(d.slot_entities@),
                    ) + " but its source `"@ + d.source_relation@ + "` declares "@ + kinds_text(
                        kinds,
                    )
                        + "; a derived relation filters its source's tuples, so the kinds must agree"@,
                },
            ]
        } else {
            Seq::empty()
        },
        None => Seq::empty(),
    }
}

/// The violations of a derived relation: of its source, and of its predicate.
pub open spec fn derivation_violations(p: Program, name: Seq<char>) -> Seq<ViolationView> {
    match derivation_of(p, name) {
        Some(d) => {
            let kinds = effective_kinds(p, name);
            let current = kind_at(kinds, d.current_slot);
            let related = kind_at(kinds, d.related_slot);
            typing_violation(p, d.source_relation@, name) + source_conflict(p, name, d)
                + judgment_violations(d.predicate, p, related, Some((current, related)), name)
        },
        None => Seq::empty(),
    }
}

/// Whether a rule reads the first relation of the path, and the derivation of each
/// relation reads the next one.
pub open spec fn is_path(p: Program, path: Seq<Seq<char>>) -> bool {
    &&& path.len() > 0
    &&& rules_used(p.derived@, p.derived@.len()).contains(path[0])
    &&& forall|i: int|
        0 < i < path.len() ==> derivation_used(p, path[i - 1]).contains(#[trigger] path[i])
}

/// Whether a program executes the relation: a rule reads it, or an executed derived
/// relation does.
pub open spec fn is_executed(p: Program, name: Seq<char>) -> bool {
    exists|path: Seq<Seq<char>>| #[trigger] is_path(p, path) && path.last() == name
}

/// Whether the violation is one of a rule or of an executed derived relation.
pub open spec fn is_violation(p: Program, v: ViolationView) -> bool {
    rules_violations(p.derived@, p.derived@.len(), p).contains(v) || exists|name: Seq<char>|
        #[trigger] is_executed(p, name) && derivation_violations(p, name).contains(v)
}

/// Order of violations: by code, relation, citing rule and message.
pub open spec fn violation_lt(a: ViolationView, b: ViolationView) -> bool {
    if a.code.rank() != b.code.rank() {
        a.code.rank() < b.code.rank()
    } else if a.relation != b.relation {
        text_lt(a.relation, b.relation)
    } else if a.citing != b.citing {
        text_lt(a.citing, b.citing)
    } else {
        text_lt(a.message, b.message)
    }
}

proof fn violation_lt_total(a: ViolationView, b: ViolationView)
    ensures
        a == b || violation_lt(a, b) || violation_lt(b, a),
{
    text_lt_total(a.relation, b.relation);
    text_lt_total(a.citing, b.citing);
    text_lt_total(a.message, b.message);
}

proof fn violation_lt_transitive(a: ViolationView, b: ViolationView, c: ViolationView)
    requires
        violation_lt(a, b),
        violation_lt(b, c),
    ensures
        violation_lt(a, c),
{
    if text_lt(a.relation, b.relation) && text_lt(b.relation, c.relation) {
        text_lt_transitive(a.relation, b.relation, c.relation);
    }
    if text_lt(a.citing, b.citing) && text_lt(b.citing, c.citing) {
        text_lt_transitive(a.citing, b.citing, c.citing);
    }
    if text_lt(a.message, b.message) && text_lt(b.message, c.message) {
        text_lt_transitive(a.message, b.message, c.message);
    }
    text_lt_irreflexive(a.relation);
    text_lt_irreflexive(a.citing);
    if a.code.rank() == b.code.rank() && b.code.rank() == c.code.rank() && a.relation == c.relation
        && a.relation != b.relation {
        text_lt_transitive(a.relation, b.relation, c.relation);
    }
    if a.code.rank() == b.code.rank() && b.code.rank() == c.code.rank() && a.citing == c.citing
        && a.citing != b.citing && a.relation == b.relation && b.relation == c.relation {
        text_lt_transitive(a.citing, b.citing, c.citing);
    }
}

/// Strictly ascending.
pub open spec fn violations_ascend(s: Seq<ViolationView>) -> bool {
    forall|i: int, j: int| 0 <= i < j < s.len() ==> violation_lt(#[trigger] s[i], #[trigger] s[j])
}

fn violation_precedes(a: &RelationTypingViolation, b: &RelationTypingViolation) -> (r: bool)
    ensures
        r == violation_lt(a@, b@),
{
    let (x, y) = (a.code.place(), b.code.place());
    if x != y {
        return x < y;
    }
    if !same(a.relation.as_str(), b.relation.as_str()) {
        return precedes(a.relation.as_str(), b.relation.as_str());
    }
    if !same(a.citing.as_str(), b.citing.as_str()) {
        return precedes(a.citing.as_str(), b.citing.as_str());
    }
    precedes(a.message.as_str(), b.message.as_str())
}

/// Puts a violation at its place in an ascending list, unless it is there.
fn insert_violation(v: &mut Vec<RelationTypingViolation>, x: RelationTypingViolation)
    requires
        violations_ascend(violation_views(old(v)@)),
    ensures
        violations_ascend(violation_views(final(v)@)),
        forall|y: ViolationView|
            #[trigger] violation_views(final(v)@).contains(y) <==> (violation_views(
                old(v)@,
            ).contains(y) || y == x@),
{
    let ghost s = violation_views(v@);
    let mut i: usize = 0;
    while i < v.len() && violation_precedes(&v[i], &x)
        invariant
            i <= v@.len(),
            v@ == old(v)@,
            s == violation_views(v@),
            forall|j: int| 0 <= j < i ==> violation_lt(#[trigger] s[j], x@),
        decreases v@.len() - i,
    {
        assert(s[i as int] == v@[i as int]@);
        i = i + 1;
    }
    if i < v.len() && !violation_precedes(&x, &v[i]) {
        proof {
            assert(s[i as int] == v@[i as int]@);
            violation_lt_total(s[i as int], x@);
            assert(s.contains(x@));
        }
        return ;
    }
    let ghost given = x@;
    v.insert(i, x);
    proof {
        let t = violation_views(v@);
        assert(t =~= s.insert(i as int, given));
        assert forall|j: int| i <= j < s.len() implies violation_lt(given, #[trigger] s[j]) by {
            assert(s[i as int] == old(v)@[i as int]@);
            if j > i {
                violation_lt_transitive(given, s[i as int], s[j]);
            }
        }
        assert forall|a: int, b: int| 0 <= a < b < t.len() implies violation_lt(
            #[trigger] t[a],
            #[trigger] t[b],
        ) by {
            let left = if a < i { a } else { a - 1 };
            let right = if b < i { b } else { b - 1 };
            if a == i {
                assert(violation_lt(given, s[right]));
            } else if b == i {
                assert(violation_lt(s[left], given));
            } else {
                assert(violation_lt(s[left], s[right]));
            }
        }
        assert forall|y: ViolationView| #[trigger] t.contains(y) <==> (s.contains(y) || y
            == given) by {
            if s.contains(y) {
                let k = s.index_of(y);
                assert(t[if k < i { k } else { k + 1 }] == y);
            }
            if y == given {
                assert(t[i as int] == y);
            }
            if t.contains(y) {
                let k = t.index_of(y);
                if k < i {
                    assert(s[k] == y);
                } else if k > i {
                    assert(s[k - 1] == y);
                }
            }
        }
    }
}

/// The violations of a list in ascending order, each once.
fn ordered_violations(list: Vec<RelationTypingViolation>) -> (r: Vec<RelationTypingViolation>)
    ensures
        violations_ascend(violation_views(r@)),
        forall|y: ViolationView|
            #[trigger] violation_views(r@).contains(y) <==> violation_views(list@).contains(y),
{
    let mut list = list;
    let ghost whole = violation_views(list@);
    let mut out: Vec<RelationTypingViolation> = Vec::new();
    while list.len() > 0
        invariant
            violations_ascend(violation_views(out@)),
            forall|y: ViolationView|
                #[trigger] whole.contains(y) <==> (violation_views(out@).contains(y)
                    || violation_views(list@).contains(y)),
        decreases list@.len(),
    {
        let ghost before = violation_views(list@);
        let ghost taken = violation_views(out@);
        if let Some(x) = list.pop() {
            let ghost given = x@;
            insert_violation(&mut out, x);
            proof {
                let rest = violation_views(list@);
                assert(before =~= rest.push(given));
                assert forall|y: ViolationView| #[trigger] whole.contains(y) <==> (violation_views(
                    out@,
                ).contains(y) || rest.contains(y)) by {
                    assert(whole.contains(y) <==> (taken.contains(y) || before.contains(y)));
                    if before.contains(y) {
                        let k = before.index_of(y);
                        if k < rest.len() {
                            assert(rest[k] == y);
                        }
                    }
                    if rest.contains(y) {
                        assert(before[rest.index_of(y)] == y);
                    }
                    assert(before[rest.len() as int] == given);
                    assert(before.contains(given));
                    assert(violation_views(out@).contains(y) <==> (taken.contains(y) || y
                        == given));
                }
            }
        }
    }
    assert(forall|y: ViolationView| !violation_views(list@).contains(y));
    out
}

fn check_formula(
    semantics: &DerivedSemantics,
    program: &Program,
    entity: &str,
    citing: &str,
    used: &mut Vec<String>,
    out: &mut Vec<RelationTypingViolation>,
)
    ensures
        texts(final(used)@) == texts(old(used)@) + formula_used(*semantics),
        violation_views(final(out)@) == violation_views(old(out)@) + formula_violations(
            *semantics,
            *program,
            entity@,
            citing@,
        ),
{
    match semantics {
        DerivedSemantics::Scalar(e) => {
            collect_scalar_used(e, used);
            check_scalar(e, program, Some(entity), None, citing, out);
        },
        DerivedSemantics::Judgment(e) => {
            collect_judgment_used(e, used);
            check_judgment(e, program, Some(entity), None, citing, out);
        },
    }
}

fn check_rule(
    derived: &Derived,
    program: &Program,
    used: &mut Vec<String>,
    out: &mut Vec<RelationTypingViolation>,
)
    ensures
        texts(final(used)@) == texts(old(used)@) + rule_used(*derived),
        violation_views(final(out)@) == violation_views(old(out)@) + rule_violations(
            *derived,
            *program,
        ),
{
    let citing = match &derived.id {
        Some(id) => id.as_str(),
        None => derived.name.as_str(),
    };
    let entity = derived.entity.as_str();
    if derived.versions.len() == 0 {
        check_formula(&derived.semantics, program, entity, citing, used, out);
        return ;
    }
    let ghost (first, before) = (texts(used@), violation_views(out@));
    let mut i: usize = 0;
    proof {
        assert(first =~= first + versions_used(derived.versions@, 0));
        assert(before =~= before + versions_violations(
            derived.versions@,
            0,
            *program,
            entity@,
            citing@,
        ));
    }
    while i < derived.versions.len()
        invariant
            i <= derived.versions@.len(),
            texts(used@) == first + versions_used(derived.versions@, i as nat),
            violation_views(out@) == before + versions_violations(
                derived.versions@,
                i as nat,
                *program,
                entity@,
                citing@,
            ),
        decreases derived.versions@.len() - i,
    {
        check_formula(&derived.versions[i].semantics, program, entity, citing, used, out);
        proof {
            assert(texts(used@) =~= first + versions_used(derived.versions@, (i + 1) as nat));
            assert(violation_views(out@) =~= before + versions_violations(
                derived.versions@,
                (i + 1) as nat,
                *program,
                entity@,
                citing@,
            ));
        }
        i = i + 1;
    }
}

pub(crate) fn same_texts(a: &Vec<String>, b: &Vec<String>) -> (r: bool)
    ensures
        r == (texts(a@) == texts(b@)),
{
    if a.len() != b.len() {
        assert(texts(a@).len() != texts(b@).len());
        return false;
    }
    let mut i: usize = 0;
    while i < a.len()
        invariant
            i <= a@.len(),
            a@.len() == b@.len(),
            forall|j: int| 0 <= j < i ==> #[trigger] texts(a@)[j] == texts(b@)[j],
        decreases a@.len() - i,
    {
        if !same(a[i].as_str(), b[i].as_str()) {
            assert(texts(a@)[i as int] != texts(b@)[i as int]);
            return false;
        }
        i = i + 1;
    }
    assert(texts(a@) =~= texts(b@));
    true
}

pub(crate) fn kind_str(kinds: &Option<Vec<String>>, slot: usize) -> (r: Option<&str>)
    ensures
        kind_of(r) == kind_at(texts_of(*kinds), slot),
{
    match kinds {
        Some(k) => {
            if slot < k.len() {
                Some(k[slot].as_str())
            } else {
                None
            }
        },
        None => None,
    }
}

/// Checks a derived relation: its source, and its predicate.
fn check_derivation(
    program: &Program,
    name: &str,
    used: &mut Vec<String>,
    out: &mut Vec<RelationTypingViolation>,
)
    ensures
        texts(final(used)@) == texts(old(used)@) + derivation_used(*program, name@),
        violation_views(final(out)@) == violation_views(old(out)@) + derivation_violations(
            *program,
            name@,
        ),
{
    let ghost (first, before) = (texts(used@), violation_views(out@));
    let d = match find_named(&program.relations, name) {
        Some(schema) => match &schema.derivation {
            Some(d) => d,
            None => {
                assert(first + Seq::<Seq<char>>::empty() =~= first);
                assert(before + Seq::<ViolationView>::empty() =~= before);
                return ;
            },
        },
        None => {
            assert(first + Seq::<Seq<char>>::empty() =~= first);
            assert(before + Seq::<ViolationView>::empty() =~= before);
            return ;
        },
    };
    let source = d.source_relation.as_str();
    push_text(source, used);
    if let Some(kinds) = typed_slots(program, source, name, out) {
        if d.slot_entities.len() > 0 && !same_texts(&d.slot_entities, &kinds) {
            let mut message = owned("derived relation `");
            message.append(name);
            message.append("` declares slot kinds ");
            message.append(format_kinds(&d.slot_entities).as_str());
            message.append(" but its source `");
            message.append(source);
            message.append("` declares ");
            message.append(format_kinds(&kinds).as_str());
            message.append(
                "; a derived relation filters its source's tuples, so the kinds must agree",
            );
            push_violation(
                out,
                RelationTypingCode::DerivedRelationSourceConflict,
                name,
                name,
                message,
            );
        }
    }
    assert(violation_views(out@) =~= before + (typing_violation(*program, source@, name@)
        + source_conflict(*program, name@, *d)));
    let kinds = effective_slot_entities(program, name);
    let current = kind_str(&kinds, d.current_slot);
    let related = kind_str(&kinds, d.related_slot);
    collect_judgment_used(&d.predicate, used);
    check_judgment(&d.predicate, program, related, Some((current, related)), name, out);
    assert(texts(used@) =~= first + derivation_used(*program, name@));
    assert(violation_views(out@) =~= before + derivation_violations(*program, name@));
}

/// An executed relation that was not checked yet.
fn pending_relation(program: &Program, used: &Vec<String>, checked: &Vec<bool>) -> (r: Option<
    usize,
>)
    requires
        checked@.len() == program.relations@.len(),
    ensures
        match r {
            Some(i) => i < checked@.len() && !checked@[i as int] && texts(used@).contains(
                program.relations@[i as int].name@,
            ),
            None => forall|i: int|
                0 <= i < checked@.len() && texts(used@).contains(
                    (#[trigger] program.relations@[i]).name@,
                ) ==> checked@[i],
        },
{
    let mut i: usize = 0;
    while i < checked.len()
        invariant
            i <= checked@.len(),
            checked@.len() == program.relations@.len(),
            forall|j: int|
                0 <= j < i && texts(used@).contains((#[trigger] program.relations@[j]).name@)
                    ==> checked@[j],
        decreases checked@.len() - i,
    {
        if !checked[i] && holds_text(used, program.relations[i].name.as_str()) {
            return Some(i);
        }
        i = i + 1;
    }
    None
}

spec fn unchecked(checked: Seq<bool>, n: nat) -> nat
    decreases n,
{
    if n == 0 || n > checked.len() {
        0
    } else {
        unchecked(checked, (n - 1) as nat) + if checked[n - 1] {
            0nat
        } else {
            1nat
        }
    }
}

proof fn checking_lowers(checked: Seq<bool>, i: int, n: nat)
    requires
        0 <= i < checked.len(),
        n <= checked.len(),
        !checked[i],
    ensures
        unchecked(checked.update(i, true), n) + (if i < n {
            1nat
        } else {
            0nat
        }) == unchecked(checked, n),
    decreases n,
{
    if n > 0 {
        checking_lowers(checked, i, (n - 1) as nat);
    }
}

spec fn has_all<T>(list: Seq<T>, part: Seq<T>) -> bool {
    forall|x: T| part.contains(x) ==> #[trigger] list.contains(x)
}

proof fn extended_has_all<T>(list: Seq<T>, more: Seq<T>)
    ensures
        has_all(list + more, list),
        has_all(list + more, more),
        forall|x: T| #[trigger] (list + more).contains(x) ==> list.contains(x) || more.contains(x),
{
    assert forall|x: T| list.contains(x) implies #[trigger] (list + more).contains(x) by {
        assert((list + more)[list.index_of(x)] == x);
    }
    assert forall|x: T| more.contains(x) implies #[trigger] (list + more).contains(x) by {
        assert((list + more)[list.len() + more.index_of(x)] == x);
    }
    assert forall|x: T| #[trigger] (list + more).contains(x) implies list.contains(x)
        || more.contains(x) by {
        let k = (list + more).index_of(x);
        if k < list.len() {
            assert(list[k] == x);
        } else {
            assert(more[k - list.len()] == x);
        }
    }
}

/// A set of relations that holds what rules read, and what its derived relations read,
/// holds every executed relation.
proof fn closed_has_path(p: Program, used: Seq<Seq<char>>, path: Seq<Seq<char>>)
    requires
        has_all(used, rules_used(p.derived@, p.derived@.len())),
        forall|via: Seq<char>| #[trigger]
            used.contains(via) ==> has_all(used, derivation_used(p, via)),
        is_path(p, path),
    ensures
        used.contains(path.last()),
    decreases path.len(),
{
    if path.len() > 1 {
        let front = path.drop_last();
        assert forall|i: int| 0 < i < front.len() implies derivation_used(
            p,
            front[i - 1],
        ).contains(#[trigger] front[i]) by {
            assert(front[i] == path[i]);
        }
        closed_has_path(p, used, front);
        assert(derivation_used(p, path[path.len() - 2]).contains(path[path.len() - 1]));
    }
}

/// What an executed relation's derivation reads is executed.
pub proof fn derivation_executes(p: Program, via: Seq<char>, name: Seq<char>)
    requires
        is_executed(p, via),
        derivation_used(p, via).contains(name),
    ensures
        is_executed(p, name),
{
    let path = choose|path: Seq<Seq<char>>| #[trigger] is_path(p, path) && path.last() == via;
    let longer = path.push(name);
    assert forall|i: int| 0 < i < longer.len() implies derivation_used(p, longer[i - 1]).contains(
        #[trigger] longer[i],
    ) by {
        if i < path.len() {
            assert(longer[i] == path[i]);
        }
    }
    assert(is_path(p, longer));
    assert(longer.last() == name);
}

/// Checks that every relation that the program executes has one entity kind per slot and is
/// read from the slots that its kinds say. The report is ascending, without repetition.
pub fn check_program(program: &Program) -> (r: Result<(), RelationTypingReport>)
    ensures
        r is Ok <==> forall|v: ViolationView| !is_violation(*program, v),
        r matches Err(report) ==> {
            let found = violation_views(report.violations@);
            violations_ascend(found) && forall|v: ViolationView|
                #[trigger] found.contains(v) <==> is_violation(*program, v)
        },
{
    let mut used: Vec<String> = Vec::new();
    let mut out: Vec<RelationTypingViolation> = Vec::new();
    let mut i: usize = 0;
    proof {
        assert(texts(used@) =~= rules_used(program.derived@, 0));
        assert(violation_views(out@) =~= rules_violations(program.derived@, 0, *program));
    }
    while i < program.derived.len()
        invariant
            i <= program.derived@.len(),
            texts(used@) == rules_used(program.derived@, i as nat),
            violation_views(out@) == rules_violations(program.derived@, i as nat, *program),
        decreases program.derived@.len() - i,
    {
        check_rule(&program.derived[i], program, &mut used, &mut out);
        i = i + 1;
    }
    let mut checked: Vec<bool> = Vec::new();
    while checked.len() < program.relations.len()
        invariant
            checked@.len() <= program.relations@.len(),
            forall|j: int| 0 <= j < checked@.len() ==> !#[trigger] checked@[j],
        decreases program.relations@.len() - checked@.len(),
    {
        checked.push(false);
    }
    let ghost p = *program;
    let ghost rules = rules_used(p.derived@, p.derived@.len());
    let ghost faults = rules_violations(p.derived@, p.derived@.len(), p);
    proof {
        assert forall|name: Seq<char>| #[trigger] rules.contains(name) implies is_executed(
            p,
            name,
        ) by {
            assert(is_path(p, seq![name]));
            assert(seq![name].last() == name);
        }
    }
    loop
        invariant
            p == *program,
            rules == rules_used(p.derived@, p.derived@.len()),
            faults == rules_violations(p.derived@, p.derived@.len(), p),
            checked@.len() == p.relations@.len(),
            has_all(texts(used@), rules),
            has_all(violation_views(out@), faults),
            forall|name: Seq<char>| #[trigger]
                texts(used@).contains(name) ==> is_executed(p, name),
            forall|v: ViolationView| #[trigger]
                violation_views(out@).contains(v) ==> is_violation(p, v),
            forall|j: int|
                0 <= j < checked@.len() && #[trigger] checked@[j] ==> has_all(
                    texts(used@),
                    derivation_used(p, p.relations@[j].name@),
                ) && has_all(
                    violation_views(out@),
                    derivation_violations(p, p.relations@[j].name@),
                ),
        ensures
            forall|j: int|
                0 <= j < checked@.len() && texts(used@).contains(
                    (#[trigger] p.relations@[j]).name@,
                ) ==> checked@[j],
        decreases unchecked(checked@, checked@.len()),
    {
        let next: usize = match pending_relation(program, &used, &checked) {
            Some(next) => next,
            None => {
                break ;
            },
        };
        let ghost (list, found, flags) = (texts(used@), violation_views(out@), checked@);
        let ghost name = p.relations@[next as int].name@;
        check_derivation(program, program.relations[next].name.as_str(), &mut used, &mut out);
        checked.set(next, true);
        proof {
            checking_lowers(flags, next as int, flags.len());
            extended_has_all(list, derivation_used(p, name));
            extended_has_all(found, derivation_violations(p, name));
            assert forall|other: Seq<char>| #[trigger]
                texts(used@).contains(other) implies is_executed(p, other) by {
                if !list.contains(other) {
                    derivation_executes(p, name, other);
                }
            }
            assert forall|v: ViolationView| #[trigger]
                violation_views(out@).contains(v) implies is_violation(p, v) by {
                if !found.contains(v) {
                    assert(is_executed(p, name) && derivation_violations(p, name).contains(v));
                }
            }
        }
    }
    proof {
        let list = texts(used@);
        let found = violation_views(out@);
        assert forall|via: Seq<char>| #[trigger] list.contains(via) implies has_all(
            list,
            derivation_used(p, via),
        ) && has_all(found, derivation_violations(p, via)) by {
            position_from_meaning(p.relations@, via, 0);
            match item_named(p.relations@, via) {
                Some(schema) => {
                    let k = position_of(p.relations@, via)->Some_0;
                    assert(p.relations@[k as int].name@ == via);
                    assert(checked@[k as int]);
                },
                None => {},
            }
        }
        assert forall|v: ViolationView| is_violation(p, v) implies #[trigger] found.contains(v) by {
            if !faults.contains(v) {
                let name = choose|name: Seq<char>| #[trigger]
                    is_executed(p, name) && derivation_violations(p, name).contains(v);
                let path = choose|path: Seq<Seq<char>>| #[trigger]
                    is_path(p, path) && path.last() == name;
                closed_has_path(p, list, path);
                assert(has_all(found, derivation_violations(p, name)));
            }
        }
    }
    let violations = ordered_violations(out);
    proof {
        if violations@.len() > 0 {
            let found = violation_views(violations@);
            assert(found.contains(found[0]));
            assert(is_violation(p, found[0]));
        } else {
            assert forall|v: ViolationView| !is_violation(p, v) by {
                assert(!violation_views(violations@).contains(v));
            }
        }
    }
    if violations.len() == 0 {
        Ok(())
    } else {
        Err(RelationTypingReport { violations })
    }
}

/// The entities whose rows the derived relations among the first `n` filter.
pub open spec fn filtered_entities(relations: Seq<RelationSchema>, n: nat) -> Seq<Seq<char>>
    decreases n,
{
    if n == 0 || n > relations.len() {
        Seq::empty()
    } else {
        filtered_entities(relations, (n - 1) as nat) + match relations[n - 1].derivation {
            Some(d) => match d.entity {
                Some(entity) => seq![entity@],
                None => Seq::empty(),
            },
            None => Seq::empty(),
        }
    }
}

/// The kinds of the ids of a filtered entity, as the derived relations among the first `n`
/// declare them.
pub open spec fn filtered_kinds(p: Program, entity: Seq<char>, n: nat) -> Seq<Seq<char>>
    decreases n,
{
    if n == 0 || n > p.relations@.len() {
        Seq::empty()
    } else {
        let schema = p.relations@[n - 1];
        filtered_kinds(p, entity, (n - 1) as nat) + match schema.derivation {
            Some(d) => if opt_text(d.entity) == Some(entity) {
                match kind_at(effective_kinds(p, schema.name@), d.current_slot) {
                    Some(kind) => seq![kind],
                    None => Seq::empty(),
                }
            } else {
                Seq::empty()
            },
            None => Seq::empty(),
        }
    }
}

/// The entities of a list whose ids have one kind, each with it.
pub open spec fn kinds_by_entity(p: Program, entities: Seq<Seq<char>>, n: nat) -> Seq<
    (Seq<char>, Seq<char>),
>
    decreases n,
{
    if n == 0 || n > entities.len() {
        Seq::empty()
    } else {
        kinds_by_entity(p, entities, (n - 1) as nat) + match sole(
            filtered_kinds(p, entities[n - 1], p.relations@.len()),
        ) {
            Some(kind) => seq![(entities[n - 1], kind)],
            None => Seq::empty(),
        }
    }
}

pub open spec fn pair_texts(list: Seq<(String, String)>) -> Seq<(Seq<char>, Seq<char>)> {
    list.map_values(|pair: (String, String)| (pair.0@, pair.1@))
}

fn collect_filtered_kinds(program: &Program, entity: &str) -> (r: Vec<String>)
    ensures
        texts(r@) == filtered_kinds(*program, entity@, program.relations@.len()),
{
    let mut kinds: Vec<String> = Vec::new();
    let mut i: usize = 0;
    assert(texts(kinds@) =~= filtered_kinds(*program, entity@, 0));
    while i < program.relations.len()
        invariant
            i <= program.relations@.len(),
            texts(kinds@) == filtered_kinds(*program, entity@, i as nat),
        decreases program.relations@.len() - i,
    {
        let schema = &program.relations[i];
        if let Some(d) = &schema.derivation {
            if let Some(filtered) = &d.entity {
                if same(filtered.as_str(), entity) {
                    let declared = effective_slot_entities(program, schema.name.as_str());
                    if let Some(kind) = kind_str(&declared, d.current_slot) {
                        push_text(kind, &mut kinds);
                    }
                }
            }
        }
        assert(texts(kinds@) =~= filtered_kinds(*program, entity@, (i + 1) as nat));
        i = i + 1;
    }
    kinds
}

/// Filtered entities, in name order, with the kind of the ids that they are queried with:
/// that of the current slot of the relation that they filter. An entity whose relations
/// disagree has none.
pub fn filtered_entity_kinds(program: &Program) -> (r: Vec<(String, String)>)
    ensures
        ({
            let entities = sorted_texts(
                filtered_entities(program.relations@, program.relations@.len()),
            );
            pair_texts(r@) == kinds_by_entity(*program, entities, entities.len())
        }),
{
    let mut entities: Vec<String> = Vec::new();
    let mut i: usize = 0;
    assert(texts(entities@) =~= sorted_texts(filtered_entities(program.relations@, 0)));
    while i < program.relations.len()
        invariant
            i <= program.relations@.len(),
            texts(entities@) == sorted_texts(filtered_entities(program.relations@, i as nat)),
        decreases program.relations@.len() - i,
    {
        let ghost list = filtered_entities(program.relations@, i as nat);
        assert(list + Seq::<Seq<char>>::empty() =~= list);
        if let Some(d) = &program.relations[i].derivation {
            if let Some(entity) = &d.entity {
                assert((list + seq![entity@]).drop_last() =~= list);
                insert_sorted(&mut entities, entity.clone());
            }
        }
        i = i + 1;
    }
    let ghost names = texts(entities@);
    let mut out: Vec<(String, String)> = Vec::new();
    let mut i: usize = 0;
    assert(pair_texts(out@) =~= kinds_by_entity(*program, names, 0));
    while i < entities.len()
        invariant
            i <= entities@.len(),
            names == texts(entities@),
            pair_texts(out@) == kinds_by_entity(*program, names, i as nat),
        decreases entities@.len() - i,
    {
        assert(names[i as int] == entities@[i as int]@);
        let kinds = collect_filtered_kinds(program, entities[i].as_str());
        if let Some(kind) = sole_text(&kinds) {
            out.push((entities[i].clone(), kind));
        }
        assert(pair_texts(out@) =~= kinds_by_entity(*program, names, (i + 1) as nat));
        i = i + 1;
    }
    out
}

} // verus!
