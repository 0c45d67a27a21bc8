//! Judgments that spell out "exactly one of these holds".
//!
//! Two idioms are recognised. In the first, a disjunction has a branch for each of `n`
//! judgments, which asserts that one and negates the others. In the second, a disjunction
//! of `n` judgments stands beside negations that exclude every two of them.
use crate::decimal::Decimal;
use crate::lines::{join, joined_by};
use crate::model::{
    ComparisonOp, Derived, DerivedSemantics, DerivedVersion, JudgmentExpr, Program,
    RelatedValueRef, ScalarExpr, ScalarValue,
};
use crate::text::{int_text, owned, same, texts, usize_text};
use vstd::prelude::*;
use vstd::string::*;

verus! {

/// Whether two values are written alike.
pub open spec fn same_value(a: ScalarValue, b: ScalarValue) -> bool {
    match (a, b) {
        (ScalarValue::Bool(x), ScalarValue::Bool(y)) => x == y,
        (ScalarValue::Integer(x), ScalarValue::Integer(y)) => x == y,
        (ScalarValue::Decimal(x), ScalarValue::Decimal(y)) => x.text() == y.text(),
        (ScalarValue::Text(x), ScalarValue::Text(y)) => x@ == y@,
        (ScalarValue::Date(x), ScalarValue::Date(y)) => x == y,
        _ => false,
    }
}

fn values_alike(a: &ScalarValue, b: &ScalarValue) -> (r: bool)
    ensures
        r == same_value(*a, *b),
{
    match (a, b) {
        (ScalarValue::Bool(x), ScalarValue::Bool(y)) => *x == *y,
        (ScalarValue::Integer(x), ScalarValue::Integer(y)) => *x == *y,
        (ScalarValue::Decimal(x), ScalarValue::Decimal(y)) => same(
            x.to_text().as_str(),
            y.to_text().as_str(),
        ),
        (ScalarValue::Text(x), ScalarValue::Text(y)) => same(x.as_str(), y.as_str()),
        (ScalarValue::Date(x), ScalarValue::Date(y)) => x.same_day(y),
        _ => false,
    }
}

pub open spec fn same_related(a: RelatedValueRef, b: RelatedValueRef) -> bool {
    match (a, b) {
        (RelatedValueRef::Input(x), RelatedValueRef::Input(y)) => x@ == y@,
        (RelatedValueRef::Derived(x), RelatedValueRef::Derived(y)) => x@ == y@,
        _ => false,
    }
}

fn related_alike(a: &RelatedValueRef, b: &RelatedValueRef) -> (r: bool)
    ensures
        r == same_related(*a, *b),
{
    match (a, b) {
        (RelatedValueRef::Input(x), RelatedValueRef::Input(y)) => same(x.as_str(), y.as_str()),
        (RelatedValueRef::Derived(x), RelatedValueRef::Derived(y)) => same(x.as_str(), y.as_str()),
        _ => false,
    }
}

/// Whether two formulas are written alike.
pub open spec fn same_scalar(a: ScalarExpr, b: ScalarExpr) -> bool
    decreases a, 1int, 0nat,
{
    match (a, b) {
        (ScalarExpr::Literal(x), ScalarExpr::Literal(y)) => same_value(x, y),
        (ScalarExpr::Input(x), ScalarExpr::Input(y)) => x@ == y@,
        (
            ScalarExpr::InputOrElse { name: x, default: v },
            ScalarExpr::InputOrElse { name: y, default: w },
        ) => x@ == y@ && same_value(v, w),
        (ScalarExpr::Derived(x), ScalarExpr::Derived(y)) => x@ == y@,
        (
            ScalarExpr::ParameterLookup { parameter: x, index: i },
            ScalarExpr::ParameterLookup { parameter: y, index: j },
        ) => x@ == y@ && same_scalar(*i, *j),
        (ScalarExpr::PeriodStart, ScalarExpr::PeriodStart) => true,
        (ScalarExpr::PeriodEnd, ScalarExpr::PeriodEnd) => true,
        (ScalarExpr::Add(x), ScalarExpr::Add(y)) => x@.len() == y@.len() && same_scalars(
            x@,
            y@,
            x@.len(),
        ),
        (ScalarExpr::Max(x), ScalarExpr::Max(y)) => x@.len() == y@.len() && same_scalars(
            x@,
            y@,
            x@.len(),
        ),
        (ScalarExpr::Min(x), ScalarExpr::Min(y)) => x@.len() == y@.len() && same_scalars(
            x@,
            y@,
            x@.len(),
        ),
        (ScalarExpr::Sub(x, v), ScalarExpr::Sub(y, w)) => same_scalar(*x, *y) && same_scalar(*v, *w),
        (ScalarExpr::Mul(x, v), ScalarExpr::Mul(y, w)) => same_scalar(*x, *y) && same_scalar(*v, *w),
        (ScalarExpr::Div(x, v), ScalarExpr::Div(y, w)) => same_scalar(*x, *y) && same_scalar(*v, *w),
        (ScalarExpr::Ceil(x), ScalarExpr::Ceil(y)) => same_scalar(*x, *y),
        (ScalarExpr::Floor(x), ScalarExpr::Floor(y)) => same_scalar(*x, *y),
        (
            ScalarExpr::DateAddDays { date: x, days: v },
            ScalarExpr::DateAddDays { date: y, days: w },
        ) => same_scalar(*x, *y) && same_scalar(*v, *w),
        (
            ScalarExpr::DateAddMonths { date: x, months: v },
            ScalarExpr::DateAddMonths { date: y, months: w },
        ) => same_scalar(*x, *y) && same_scalar(*v, *w),
        (
            ScalarExpr::DateAddYears { date: x, years: v },
            ScalarExpr::DateAddYears { date: y, years: w },
        ) => same_scalar(*x, *y) && same_scalar(*v, *w),
        (
            ScalarExpr::DaysBetween { from: x, to: v },
            ScalarExpr::DaysBetween { from: y, to: w },
        ) => same_scalar(*x, *y) && same_scalar(*v, *w),
        (
            ScalarExpr::CountRelated {
                relation: r,
                current_slot: c,
                related_slot: s,
                where_clause: x,
            },
            ScalarExpr::CountRelated {
                relation: q,
                current_slot: d,
                related_slot: t,
                where_clause: y,
            },
        ) => r@ == q@ && c == d && s == t && match (x, y) {
            (Some(x), Some(y)) => same_judgment(*x, *y),
            (None, None) => true,
            _ => false,
        },
        (
            ScalarExpr::SumRelated {
                relation: r,
                current_slot: c,
                related_slot: s,
                value: v,
                where_clause: x,
            },
            ScalarExpr::SumRelated {
                relation: q,
                current_slot: d,
                related_slot: t,
                value: w,
                where_clause: y,
            },
        ) => r@ == q@ && c == d && s == t && same_related(v, w) && match (x, y) {
            (Some(x), Some(y)) => same_judgment(*x, *y),
            (None, None) => true,
            _ => false,
        },
        (
            ScalarExpr::If { condition: c, then_expr: x, else_expr: v },
            ScalarExpr::If { condition: d, then_expr: y, else_expr: w },
        ) => same_judgment(*c, *d) && same_scalar(*x, *y) && same_scalar(*v, *w),
        (
            ScalarExpr::NoMatch { subject: x, patterns: v },
            ScalarExpr::NoMatch { subject: y, patterns: w },
        ) => same_scalar(*x, *y) && v@.len() == w@.len() && same_scalars(v@, w@, v@.len()),
        (
            ScalarExpr::OverPeriods { kind: k, value: x, n: v },
            ScalarExpr::OverPeriods { kind: l, value: y, n: w },
        ) => k == l && same_scalar(*x, *y) && match (v, w) {
            (Some(v), Some(w)) => same_scalar(*v, *w),
            (None, None) => true,
            _ => false,
        },
        _ => false,
    }
}

pub open spec fn same_scalars(a: Seq<ScalarExpr>, b: Seq<ScalarExpr>, n: nat) -> bool
    decreases a, 0int, n,
{
    n == 0 || n > a.len() || (same_scalars(a, b, (n - 1) as nat) && same_scalar(a[n - 1], b[n - 1]))
}

/// Whether two judgments are written alike.
pub open spec fn same_judgment(a: JudgmentExpr, b: JudgmentExpr) -> bool
    decreases a, 1int, 0nat,
{
    match (a, b) {
        (
            JudgmentExpr::Comparison { left: x, op: o, right: v },
            JudgmentExpr::Comparison { left: y, op: q, right: w },
        ) => o == q && same_scalar(x, y) && same_scalar(v, w),
        (JudgmentExpr::Derived(x), JudgmentExpr::Derived(y)) => x@ == y@,
        (
            JudgmentExpr::RelationMember { relation: r, current_slot: c, related_slot: s },
            JudgmentExpr::RelationMember { relation: q, current_slot: d, related_slot: t },
        ) => r@ == q@ && c == d && s == t,
        (JudgmentExpr::And(x), JudgmentExpr::And(y)) => x@.len() == y@.len() && same_judgments(
            x@,
            y@,
            x@.len(),
        ),
        (JudgmentExpr::Or(x), JudgmentExpr::Or(y)) => x@.len() == y@.len() && same_judgments(
            x@,
            y@,
            x@.len(),
        ),
        (JudgmentExpr::Not(x), JudgmentExpr::Not(y)) => same_judgment(*x, *y),
        _ => false,
    }
}

pub open spec fn same_judgments(a: Seq<JudgmentExpr>, b: Seq<JudgmentExpr>, n: nat) -> bool
    decreases a, 0int, n,
{
    n == 0 || n > a.len() || (same_judgments(a, b, (n - 1) as nat) && same_judgment(
        a[n - 1],
        b[n - 1],
    ))
}

proof fn different_scalars(a: Seq<ScalarExpr>, b: Seq<ScalarExpr>, i: nat, n: nat)
    requires
        i < n <= a.len(),
        !same_scalar(a[i as int], b[i as int]),
    ensures
        !same_scalars(a, b, n),
    decreases n,
{
    if i < n - 1 {
        different_scalars(a, b, i, (n - 1) as nat);
    }
}

proof fn different_judgments(a: Seq<JudgmentExpr>, b: Seq<JudgmentExpr>, i: nat, n: nat)
    requires
        i < n <= a.len(),
        !same_judgment(a[i as int], b[i as int]),
    ensures
        !same_judgments(a, b, n),
    decreases n,
{
    if i < n - 1 {
        different_judgments(a, b, i, (n - 1) as nat);
    }
}

fn scalar_lists_alike(a: &Vec<ScalarExpr>, b: &Vec<ScalarExpr>) -> (r: bool)
    ensures
        r == (a@.len() == b@.len() && same_scalars(a@, b@, a@.len())),
    decreases a@, 0int,
{
    if a.len() != b.len() {
        return false;
    }
    let mut i: usize = 0;
    while i < a.len()
        invariant
            i <= a@.len(),
            a@.len() == b@.len(),
            same_scalars(a@, b@, i as nat),
        decreases a@.len() - i,
    {
        if !scalars_alike(&a[i], &b[i]) {
            proof {
                different_scalars(a@, b@, i as nat, a@.len());
            }
            return false;
        }
        i = i + 1;
    }
    true
}

/// Whether two formulas are written alike.
pub fn scalars_alike(a: &ScalarExpr, b: &ScalarExpr) -> (r: bool)
    ensures
        r == same_scalar(*a, *b),
    decreases *a, 1int,
{
    match (a, b) {
        (ScalarExpr::Literal(x), ScalarExpr::Literal(y)) => values_alike(x, y),
        (ScalarExpr::Input(x), ScalarExpr::Input(y)) => same(x.as_str(), y.as_str()),
        (
            ScalarExpr::InputOrElse { name: x, default: v },
            ScalarExpr::InputOrElse { name: y, default: w },
        ) => same(x.as_str(), y.as_str()) && values_alike(v, w),
        (ScalarExpr::Derived(x), ScalarExpr::Derived(y)) => same(x.as_str(), y.as_str()),
        (
            ScalarExpr::ParameterLookup { parameter: x, index: i },
            ScalarExpr::ParameterLookup { parameter: y, index: j },
        ) => same(x.as_str(), y.as_str()) && scalars_alike(i, j),
        (ScalarExpr::PeriodStart, ScalarExpr::PeriodStart) => true,
        (ScalarExpr::PeriodEnd, ScalarExpr::PeriodEnd) => true,
        (ScalarExpr::Add(x), ScalarExpr::Add(y)) => scalar_lists_alike(x, y),
        (ScalarExpr::Max(x), ScalarExpr::Max(y)) => scalar_lists_alike(x, y),
        (ScalarExpr::Min(x), ScalarExpr::Min(y)) => scalar_lists_alike(x, y),
        (ScalarExpr::Sub(x, v), ScalarExpr::Sub(y, w)) => scalars_alike(x, y) && scalars_alike(v, w),
        (ScalarExpr::Mul(x, v), ScalarExpr::Mul(y, w)) => scalars_alike(x, y) && scalars_alike(v, w),
        (ScalarExpr::Div(x, v), ScalarExpr::Div(y, w)) => scalars_alike(x, y) && scalars_alike(v, w),
        (ScalarExpr::Ceil(x), ScalarExpr::Ceil(y)) => scalars_alike(x, y),
        (ScalarExpr::Floor(x), ScalarExpr::Floor(y)) => scalars_alike(x, y),
        (
            ScalarExpr::DateAddDays { date: x, days: v },
            ScalarExpr::DateAddDays { date: y, days: w },
        ) => scalars_alike(x, y) && scalars_alike(v, w),
        (
            ScalarExpr::DateAddMonths { date: x, months: v },
            ScalarExpr::DateAddMonths { date: y, months: w },
        ) => scalars_alike(x, y) && scalars_alike(v, w),
        (
            ScalarExpr::DateAddYears { date: x, years: v },
            ScalarExpr::DateAddYears { date: y, years: w },
        ) => scalars_alike(x, y) && scalars_alike(v, w),
        (
            ScalarExpr::DaysBetween { from: x, to: v },
            ScalarExpr::DaysBetween { from: y, to: w },
        ) => scalars_alike(x, y) && scalars_alike(v, w),
        (
            ScalarExpr::CountRelated {
                relation: r,
                current_slot: c,
                related_slot: s,
                where_clause: x,
            },
            ScalarExpr::CountRelated {
                relation: q,
                current_slot: d,
                related_slot: t,
                where_clause: y,
            },
        ) => {
            let filters = match (x, y) {
                (Some(x), Some(y)) => judgments_alike(x, y),
                (None, None) => true,
                _ => false,
            };
            same(r.as_str(), q.as_str()) && *c == *d && *s == *t && filters
        },
        (
            ScalarExpr::SumRelated {
                relation: r,
                current_slot: c,
                related_slot: s,
                value: v,
                where_clause: x,
            },
            ScalarExpr::SumRelated {
                relation: q,
                current_slot: d,
                related_slot: t,
                value: w,
                where_clause: y,
            },
        ) => {
            let filters = match (x, y) {
                (Some(x), Some(y)) => judgments_alike(x, y),
                (None, None) => true,
                _ => false,
            };
            same(r.as_str(), q.as_str()) && *c == *d && *s == *t && related_alike(v, w) && filters
        },
        (
            ScalarExpr::If { condition: c, then_expr: x, else_expr: v },
            ScalarExpr::If { condition: d, then_expr: y, else_expr: w },
        ) => judgments_alike(c, d) && scalars_alike(x, y) && scalars_alike(v, w),
        (
            ScalarExpr::NoMatch { subject: x, patterns: v },
            ScalarExpr::NoMatch { subject: y, patterns: w },
        ) => scalars_alike(x, y) && scalar_lists_alike(v, w),
        (
            ScalarExpr::OverPeriods { kind: k, value: x, n: v },
            ScalarExpr::OverPeriods { kind: l, value: y, n: w },
        ) => {
            let counts = match (v, w) {
                (Some(v), Some(w)) => scalars_alike(v, w),
                (None, None) => true,
                _ => false,
            };
            *k == *l && scalars_alike(x, y) && counts
        },
        _ => false,
    }
}

fn judgment_lists_alike(a: &Vec<JudgmentExpr>, b: &Vec<JudgmentExpr>) -> (r: bool)
    ensures
        r == (a@.len() == b@.len() && same_judgments(a@, b@, a@.len())),
    decreases a@, 0int,
{
    if a.len() != b.len() {
        return false;
    }
    let mut i: usize = 0;
    while i < a.len()
        invariant
            i <= a@.len(),
            a@.len() == b@.len(),
            same_judgments(a@, b@, i as nat),
        decreases a@.len() - i,
    {
        if !judgments_alike(&a[i], &b[i]) {
            proof {
                different_judgments(a@, b@, i as nat, a@.len());
            }
            return false;
        }
        i = i + 1;
    }
    true
}

/// Whether two judgments are written alike.
pub fn judgments_alike(a: &JudgmentExpr, b: &JudgmentExpr) -> (r: bool)
    ensures
        r == same_judgment(*a, *b),
    decreases *a, 1int,
{
    match (a, b) {
        (
            JudgmentExpr::Comparison { left: x, op: o, right: v },
            JudgmentExpr::Comparison { left: y, op: q, right: w },
        ) => *o == *q && scalars_alike(x, y) && scalars_alike(v, w),
        (JudgmentExpr::Derived(x), JudgmentExpr::Derived(y)) => same(x.as_str(), y.as_str()),
        (
            JudgmentExpr::RelationMember { relation: r, current_slot: c, related_slot: s },
            JudgmentExpr::RelationMember { relation: q, current_slot: d, related_slot: t },
        ) => same(r.as_str(), q.as_str()) && *c == *d && *s == *t,
        (JudgmentExpr::And(x), JudgmentExpr::And(y)) => judgment_lists_alike(x, y),
        (JudgmentExpr::Or(x), JudgmentExpr::Or(y)) => judgment_lists_alike(x, y),
        (JudgmentExpr::Not(x), JudgmentExpr::Not(y)) => judgments_alike(x, y),
        _ => false,
    }
}

/// Which idiom spells out "exactly one".
#[derive(Clone, Copy, Debug, PartialEq, Eq, Structural)]
pub enum ExactlyOneIdiom {
    /// A branch for each judgment, which negates the others.
    OrOfAnds,
    /// A disjunction beside exclusions of every two.
    PairwiseExclusions,
}

impl ExactlyOneIdiom {
    pub open spec fn name(self) -> Seq<char> {
        match self {
            ExactlyOneIdiom::OrOfAnds => "or_of_ands"@,
            ExactlyOneIdiom::PairwiseExclusions => "pairwise_exclusions"@,
        }
    }

    pub fn as_str(self) -> (r: &'static str)
        ensures
            r@ == self.name(),
    {
        match self {
            ExactlyOneIdiom::OrOfAnds => "or_of_ands",
            ExactlyOneIdiom::PairwiseExclusions => "pairwise_exclusions",
        }
    }
}

/// Whether a judgment is a disjunction, or for `or` false a conjunction.
pub open spec fn is_chain(e: JudgmentExpr, or: bool) -> bool {
    if or {
        e is Or
    } else {
        e is And
    }
}

/// The leaves of a chain of disjunctions, or for `or` false of conjunctions.
pub open spec fn leaves(e: JudgmentExpr, or: bool) -> Seq<JudgmentExpr>
    decreases e, 1int, 0nat,
{
    match e {
        JudgmentExpr::Or(items) => if or {
            leaves_of(items@, items@.len(), or)
        } else {
            seq![e]
        },
        JudgmentExpr::And(items) => if or {
            seq![e]
        } else {
            leaves_of(items@, items@.len(), or)
        },
        _ => seq![e],
    }
}

pub open spec fn leaves_of(items: Seq<JudgmentExpr>, n: nat, or: bool) -> Seq<JudgmentExpr>
    decreases items, 0int, n,
{
    if n == 0 || n > items.len() {
        Seq::empty()
    } else {
        leaves_of(items, (n - 1) as nat, or) + leaves(items[n - 1], or)
    }
}

pub open spec fn referents(v: Seq<&JudgmentExpr>) -> Seq<JudgmentExpr> {
    v.map_values(|r: &JudgmentExpr| *r)
}

fn push_leaves<'a>(e: &'a JudgmentExpr, or: bool, out: &mut Vec<&'a JudgmentExpr>)
    ensures
        referents(final(out)@) == referents(old(out)@) + leaves(*e, or),
    decreases *e, 1int,
{
    let ghost before = out@;
    match e {
        JudgmentExpr::Or(items) if or => push_all_leaves(items, or, out),
        JudgmentExpr::And(items) if !or => push_all_leaves(items, or, out),
        _ => {
            out.push(e);
            assert(referents(out@) =~= referents(before) + seq![*e]);
        },
    }
}

fn push_all_leaves<'a>(items: &'a Vec<JudgmentExpr>, or: bool, out: &mut Vec<&'a JudgmentExpr>)
    ensures
        referents(final(out)@) == referents(old(out)@) + leaves_of(items@, items@.len(), or),
    decreases items@, 0int,
{
    let ghost before = referents(out@);
    let mut i: usize = 0;
    assert(before =~= before + leaves_of(items@, 0, or));
    while i < items.len()
        invariant
            i <= items@.len(),
            referents(out@) == before + leaves_of(items@, i as nat, or),
        decreases items@.len() - i,
    {
        push_leaves(&items[i], or, out);
        assert(referents(out@) =~= before + leaves_of(items@, (i + 1) as nat, or));
        i = i + 1;
    }
}

/// The leaves of a chain, or nothing where the judgment is none.
fn flatten_chain<'a>(e: &'a JudgmentExpr, or: bool) -> (r: Option<Vec<&'a JudgmentExpr>>)
    ensures
        match r {
            Some(list) => is_chain(*e, or) && referents(list@) == leaves(*e, or),
            None => !is_chain(*e, or),
        },
{
    let chain = match e {
        JudgmentExpr::Or(_) => or,
        JudgmentExpr::And(_) => !or,
        _ => false,
    };
    if !chain {
        return None;
    }
    let mut out: Vec<&'a JudgmentExpr> = Vec::new();
    assert(referents(out@) =~= Seq::empty());
    push_leaves(e, or, &mut out);
    assert(referents(out@) =~= leaves(*e, or));
    Some(out)
}

/// What a negation negates.
pub open spec fn negated_item(e: JudgmentExpr) -> Option<JudgmentExpr> {
    match e {
        JudgmentExpr::Not(item) => Some(*item),
        _ => None,
    }
}

fn not_item<'a>(e: &'a JudgmentExpr) -> (r: Option<&'a JudgmentExpr>)
    ensures
        negated_item(*e) == match r {
            Some(item) => Some(*item),
            None => None,
        },
{
    match e {
        JudgmentExpr::Not(item) => Some(item),
        _ => None,
    }
}

/// The judgments of the first branch: the one that it asserts, and those that it negates.
pub open spec fn branch_bases(items: Seq<JudgmentExpr>, n: nat) -> Option<Seq<JudgmentExpr>>
    decreases n,
{
    if n == 0 || n > items.len() {
        Some(Seq::empty())
    } else {
        match branch_bases(items, (n - 1) as nat) {
            None => None,
            Some(before) => if n == 1 {
                Some(before.push(items[0]))
            } else {
                match negated_item(items[n - 1]) {
                    Some(item) => Some(before.push(item)),
                    None => None,
                }
            },
        }
    }
}

/// Whether an item asserts a judgment, or for `asserted` false negates it.
pub open spec fn item_fits(item: JudgmentExpr, base: JudgmentExpr, asserted: bool) -> bool {
    if asserted {
        same_judgment(item, base)
    } else {
        match negated_item(item) {
            Some(inner) => same_judgment(inner, base),
            None => false,
        }
    }
}

/// Whether a branch asserts its own judgment and negates the others.
pub open spec fn branch_fits(branch: JudgmentExpr, bases: Seq<JudgmentExpr>, own: int) -> bool {
    let items = leaves(branch, false);
    &&& branch is And
    &&& items.len() == bases.len()
    &&& forall|k: int| 0 <= k < bases.len() ==> item_fits(#[trigger] items[k], bases[k], k == own)
}

/// The judgments of which exactly one holds, as branches spell it out.
pub open spec fn expanded(e: JudgmentExpr) -> Option<Seq<JudgmentExpr>> {
    if !(e is Or) {
        None
    } else {
        let branches = leaves(e, true);
        if branches.len() < 2 || !(branches[0] is And) || leaves(branches[0], false).len()
            != branches.len() {
            None
        } else {
            match branch_bases(leaves(branches[0], false), branches.len()) {
                None => None,
                Some(bases) => if forall|i: int|
                    0 <= i < branches.len() ==> branch_fits(#[trigger] branches[i], bases, i) {
                    Some(bases)
                } else {
                    None
                },
            }
        }
    }
}

fn find_branch_bases<'a>(items: &Vec<&'a JudgmentExpr>) -> (r: Option<Vec<&'a JudgmentExpr>>)
    ensures
        branch_bases(referents(items@), items@.len()) == match r {
            Some(bases) => Some(referents(bases@)),
            None => None,
        },
{
    let ghost all = referents(items@);
    let mut bases: Vec<&'a JudgmentExpr> = Vec::new();
    let mut i: usize = 0;
    assert(referents(bases@) =~= Seq::empty());
    while i < items.len()
        invariant
            i <= items@.len(),
            all == referents(items@),
            branch_bases(all, i as nat) == Some(referents(bases@)),
        decreases items@.len() - i,
    {
        assert(all[i as int] == *items@[i as int]);
        let ghost before = bases@;
        if i == 0 {
            bases.push(items[0]);
            assert(referents(bases@) =~= referents(before).push(*items@[0]));
        } else {
            match not_item(items[i]) {
                Some(item) => {
                    bases.push(item);
                    assert(referents(bases@) =~= referents(before).push(*item));
                },
                None => {
                    proof {
                        assert(branch_bases(all, (i + 1) as nat) is None);
                        no_bases_stay(all, (i + 1) as nat, items@.len());
                    }
                    return None;
                },
            }
        }
        i = i + 1;
    }
    Some(bases)
}

proof fn no_bases_stay(items: Seq<JudgmentExpr>, n: nat, m: nat)
    requires
        n <= m <= items.len(),
        branch_bases(items, n) is None,
    ensures
        branch_bases(items, m) is None,
    decreases m,
{
    if n < m {
        no_bases_stay(items, n, (m - 1) as nat);
    }
}

fn branch_matches(branch: &JudgmentExpr, bases: &Vec<&JudgmentExpr>, own: usize) -> (r: bool)
    ensures
        r == branch_fits(*branch, referents(bases@), own as int),
{
    let items = match flatten_chain(branch, false) {
        Some(items) => items,
        None => {
            return false;
        },
    };
    let ghost (all, bs) = (referents(items@), referents(bases@));
    assert(all.len() == items@.len());
    assert(bs.len() == bases@.len());
    if items.len() != bases.len() {
        return false;
    }
    let mut k: usize = 0;
    while k < items.len()
        invariant
            k <= items@.len(),
            items@.len() == bases@.len(),
            all == referents(items@),
            bs == referents(bases@),
            all == leaves(*branch, false),
            branch is And,
            forall|j: int| 0 <= j < k ==> item_fits(#[trigger] all[j], bs[j], j == own),
        decreases items@.len() - k,
    {
        assert(all[k as int] == *items@[k as int]);
        assert(bs[k as int] == *bases@[k as int]);
        let fits = if k == own {
            judgments_alike(items[k], bases[k])
        } else {
            match not_item(items[k]) {
                Some(inner) => judgments_alike(inner, bases[k]),
                None => false,
            }
        };
        if !fits {
            assert(!item_fits(all[k as int], bs[k as int], k == own));
            return false;
        }
        k = k + 1;
    }
    true
}

/// The judgments of which exactly one holds, as branches spell it out.
pub fn expanded_exactly_one<'a>(e: &'a JudgmentExpr) -> (r: Option<Vec<&'a JudgmentExpr>>)
    ensures
        expanded(*e) == match r {
            Some(bases) => Some(referents(bases@)),
            None => None,
        },
{
    let branches = match flatten_chain(e, true) {
        Some(branches) => branches,
        None => {
            return None;
        },
    };
    let ghost all = referents(branches@);
    assert(all.len() == branches@.len());
    let n = branches.len();
    if n < 2 {
        return None;
    }
    assert(all[0] == *branches@[0]);
    let first = match flatten_chain(branches[0], false) {
        Some(first) => first,
        None => {
            return None;
        },
    };
    assert(referents(first@).len() == first@.len());
    if first.len() != n {
        return None;
    }
    let bases = match find_branch_bases(&first) {
        Some(bases) => bases,
        None => {
            return None;
        },
    };
    let ghost bs = referents(bases@);
    let mut i: usize = 0;
    while i < n
        invariant
            i <= n,
            n == branches@.len(),
            all == referents(branches@),
            bs == referents(bases@),
            expanded(*e) == if forall|k: int|
                0 <= k < all.len() ==> branch_fits(#[trigger] all[k], bs, k) {
                Some(bs)
            } else {
                None
            },
            forall|k: int| 0 <= k < i ==> branch_fits(#[trigger] all[k], bs, k),
        decreases n - i,
    {
        assert(all[i as int] == *branches@[i as int]);
        if !branch_matches(branches[i], &bases, i) {
            assert(!branch_fits(all[i as int], bs, i as int));
            return None;
        }
        i = i + 1;
    }
    Some(bases)
}

/// The first of the first `n` judgments that is written like the given one.
pub open spec fn place_among(bases: Seq<JudgmentExpr>, e: JudgmentExpr, n: nat) -> Option<nat>
    decreases n,
{
    if n == 0 || n > bases.len() {
        None
    } else {
        match place_among(bases, e, (n - 1) as nat) {
            Some(i) => Some(i),
            None => if same_judgment(bases[n - 1], e) {
                Some((n - 1) as nat)
            } else {
                None
            },
        }
    }
}

proof fn place_stays(bases: Seq<JudgmentExpr>, e: JudgmentExpr, n: nat, m: nat)
    requires
        n <= m <= bases.len(),
        place_among(bases, e, n) is Some,
    ensures
        place_among(bases, e, m) == place_among(bases, e, n),
    decreases m,
{
    if n < m {
        place_stays(bases, e, n, (m - 1) as nat);
    }
}

fn find_place(bases: &Vec<&JudgmentExpr>, e: &JudgmentExpr) -> (r: Option<usize>)
    ensures
        place_among(referents(bases@), *e, bases@.len()) == match r {
            Some(i) => Some(i as nat),
            None => None,
        },
        r matches Some(i) ==> i < bases@.len(),
{
    let ghost all = referents(bases@);
    let mut i: usize = 0;
    while i < bases.len()
        invariant
            i <= bases@.len(),
            all == referents(bases@),
            place_among(all, *e, i as nat) is None,
        decreases bases@.len() - i,
    {
        assert(all[i as int] == *bases@[i as int]);
        if judgments_alike(bases[i], e) {
            proof {
                assert(place_among(all, *e, (i + 1) as nat) == Some(i as nat));
                place_stays(all, *e, (i + 1) as nat, bases@.len());
            }
            return Some(i);
        }
        i = i + 1;
    }
    None
}

/// Two places, the lesser first.
pub open spec fn pair(a: nat, b: nat) -> (nat, nat) {
    if a < b {
        (a, b)
    } else {
        (b, a)
    }
}

/// The pairs of one place with those of the first `n` members.
pub open spec fn member_pairs(
    bases: Seq<JudgmentExpr>,
    left: nat,
    members: Seq<JudgmentExpr>,
    n: nat,
) -> Option<Seq<(nat, nat)>>
    decreases n,
{
    if n == 0 || n > members.len() {
        Some(Seq::empty())
    } else {
        match member_pairs(bases, left, members, (n - 1) as nat) {
            None => None,
            Some(before) => match place_among(bases, members[n - 1], bases.len()) {
                None => None,
                Some(right) => if right == left {
                    None
                } else {
                    Some(before.push(pair(left, right)))
                },
            },
        }
    }
}

/// What stands beside the one judgment of an exclusion.
pub open spec fn group_members(group: JudgmentExpr) -> Seq<JudgmentExpr> {
    leaves(group, true)
}

/// The pairs that a negated conjunction excludes: one judgment with another, or with each
/// of a disjunction, on either side.
pub open spec fn excluded_pairs(bases: Seq<JudgmentExpr>, body: JudgmentExpr) -> Option<
    Seq<(nat, nat)>,
> {
    let sides = leaves(body, false);
    if !(body is And) || sides.len() != 2 {
        None
    } else {
        let (single, group) = if place_among(bases, sides[0], bases.len()) is Some {
            (sides[0], sides[1])
        } else {
            (sides[1], sides[0])
        };
        match place_among(bases, single, bases.len()) {
            None => None,
            Some(left) => member_pairs(
                bases,
                left,
                group_members(group),
                group_members(group).len(),
            ),
        }
    }
}

/// The pairs that the first `n` negated conjunctions exclude.
pub open spec fn all_excluded(bases: Seq<JudgmentExpr>, bodies: Seq<JudgmentExpr>, n: nat) -> Option<
    Seq<(nat, nat)>,
>
    decreases n,
{
    if n == 0 || n > bodies.len() {
        Some(Seq::empty())
    } else {
        match all_excluded(bases, bodies, (n - 1) as nat) {
            None => None,
            Some(before) => match excluded_pairs(bases, bodies[n - 1]) {
                None => None,
                Some(more) => Some(before + more),
            },
        }
    }
}

/// The disjunctions among the first `n` leaves.
pub open spec fn disjunctions(items: Seq<JudgmentExpr>, n: nat) -> Seq<JudgmentExpr>
    decreases n,
{
    if n == 0 || n > items.len() {
        Seq::empty()
    } else if items[n - 1] is Or {
        disjunctions(items, (n - 1) as nat).push(items[n - 1])
    } else {
        disjunctions(items, (n - 1) as nat)
    }
}

/// What the negations among the first `n` leaves negate.
pub open spec fn negations(items: Seq<JudgmentExpr>, n: nat) -> Seq<JudgmentExpr>
    decreases n,
{
    if n == 0 || n > items.len() {
        Seq::empty()
    } else {
        match negated_item(items[n - 1]) {
            Some(item) => negations(items, (n - 1) as nat).push(item),
            None => negations(items, (n - 1) as nat),
        }
    }
}

/// Whether no two judgments are written alike.
pub open spec fn all_differ(bases: Seq<JudgmentExpr>) -> bool {
    forall|i: int, j: int|
        0 <= i < j < bases.len() ==> !same_judgment(#[trigger] bases[i], #[trigger] bases[j])
}

/// Whether every two places are paired.
pub open spec fn pairs_all(pairs: Seq<(nat, nat)>, n: nat) -> bool {
    forall|i: nat, j: nat| i < j < n ==> #[trigger] pairs.contains((i, j))
}

/// The judgments of which exactly one holds, as a disjunction beside exclusions of every
/// two spells it out.
pub open spec fn excluded(e: JudgmentExpr) -> Option<Seq<JudgmentExpr>> {
    if !(e is And) {
        None
    } else {
        let items = leaves(e, false);
        let ors = disjunctions(items, items.len());
        let bodies = negations(items, items.len());
        if (exists|k: int|
            0 <= k < items.len() && !((#[trigger] items[k]) is Or) && !(items[k] is Not))
            || ors.len() != 1 {
            None
        } else {
            let bases = leaves(ors[0], true);
            if bases.len() < 2 || bodies.len() == 0 || !all_differ(bases) {
                None
            } else {
                match all_excluded(bases, bodies, bodies.len()) {
                    None => None,
                    Some(pairs) => if pairs_all(pairs, bases.len()) {
                        Some(bases)
                    } else {
                        None
                    },
                }
            }
        }
    }
}

pub open spec fn pair_views(v: Seq<(usize, usize)>) -> Seq<(nat, nat)> {
    v.map_values(|p: (usize, usize)| (p.0 as nat, p.1 as nat))
}

proof fn no_members_stay(
    bases: Seq<JudgmentExpr>,
    left: nat,
    members: Seq<JudgmentExpr>,
    n: nat,
    m: nat,
)
    requires
        n <= m <= members.len(),
        member_pairs(bases, left, members, n) is None,
    ensures
        member_pairs(bases, left, members, m) is None,
    decreases m,
{
    if n < m {
        no_members_stay(bases, left, members, n, (m - 1) as nat);
    }
}

fn find_member_pairs(bases: &Vec<&JudgmentExpr>, left: usize, members: &Vec<&JudgmentExpr>) -> (r:
    Option<Vec<(usize, usize)>>)
    ensures
        member_pairs(
            referents(bases@),
            left as nat,
            referents(members@),
            members@.len(),
        ) == match r {
            Some(pairs) => Some(pair_views(pairs@)),
            None => None,
        },
{
    let ghost (bs, ms) = (referents(bases@), referents(members@));
    let mut pairs: Vec<(usize, usize)> = Vec::new();
    let mut i: usize = 0;
    assert(pair_views(pairs@) =~= Seq::empty());
    assert(bs.len() == bases@.len());
    while i < members.len()
        invariant
            i <= members@.len(),
            bs == referents(bases@),
            bs.len() == bases@.len(),
            ms == referents(members@),
            member_pairs(bs, left as nat, ms, i as nat) == Some(pair_views(pairs@)),
        decreases members@.len() - i,
    {
        assert(ms[i as int] == *members@[i as int]);
        let ghost before = pairs@;
        let right = find_place(bases, members[i]);
        match right {
            Some(right) if right != left => {
                let found = if left < right {
                    (left, right)
                } else {
                    (right, left)
                };
                pairs.push(found);
                assert(pair_views(pairs@) =~= pair_views(before).push(
                    pair(left as nat, right as nat),
                ));
            },
            _ => {
                proof {
                    assert(member_pairs(bs, left as nat, ms, (i + 1) as nat) is None);
                    no_members_stay(bs, left as nat, ms, (i + 1) as nat, members@.len());
                }
                return None;
            },
        }
        i = i + 1;
    }
    Some(pairs)
}

fn find_excluded_pairs(bases: &Vec<&JudgmentExpr>, body: &JudgmentExpr) -> (r: Option<
    Vec<(usize, usize)>,
>)
    ensures
        excluded_pairs(referents(bases@), *body) == match r {
            Some(pairs) => Some(pair_views(pairs@)),
            None => None,
        },
{
    let ghost bs = referents(bases@);
    assert(bs.len() == bases@.len());
    let sides = match flatten_chain(body, false) {
        Some(sides) => sides,
        None => {
            return None;
        },
    };
    let ghost all = referents(sides@);
    assert(all.len() == sides@.len());
    if sides.len() != 2 {
        return None;
    }
    assert(all[0] == *sides@[0]);
    assert(all[1] == *sides@[1]);
    let first = find_place(bases, sides[0]);
    let (single, group) = match first {
        Some(_) => (sides[0], sides[1]),
        None => (sides[1], sides[0]),
    };
    let left: usize = match find_place(bases, single) {
        Some(left) => left,
        None => {
            return None;
        },
    };
    let mut members: Vec<&JudgmentExpr> = Vec::new();
    assert(referents(members@) =~= Seq::empty());
    push_leaves(group, true, &mut members);
    assert(referents(members@) =~= group_members(*group));
    assert(members@.len() == referents(members@).len());
    find_member_pairs(bases, left, &members)
}

proof fn no_pairs_stay(bases: Seq<JudgmentExpr>, bodies: Seq<JudgmentExpr>, n: nat, m: nat)
    requires
        n <= m <= bodies.len(),
        all_excluded(bases, bodies, n) is None,
    ensures
        all_excluded(bases, bodies, m) is None,
    decreases m,
{
    if n < m {
        no_pairs_stay(bases, bodies, n, (m - 1) as nat);
    }
}

fn find_all_excluded(bases: &Vec<&JudgmentExpr>, bodies: &Vec<&JudgmentExpr>) -> (r: Option<
    Vec<(usize, usize)>,
>)
    ensures
        all_excluded(referents(bases@), referents(bodies@), bodies@.len()) == match r {
            Some(pairs) => Some(pair_views(pairs@)),
            None => None,
        },
{
    let ghost (bs, all) = (referents(bases@), referents(bodies@));
    let mut pairs: Vec<(usize, usize)> = Vec::new();
    let mut i: usize = 0;
    assert(pair_views(pairs@) =~= Seq::empty());
    while i < bodies.len()
        invariant
            i <= bodies@.len(),
            bs == referents(bases@),
            all == referents(bodies@),
            all_excluded(bs, all, i as nat) == Some(pair_views(pairs@)),
        decreases bodies@.len() - i,
    {
        assert(all[i as int] == *bodies@[i as int]);
        let ghost before = pairs@;
        match find_excluded_pairs(bases, bodies[i]) {
            Some(more) => {
                let ghost added = pair_views(more@);
                let mut k: usize = 0;
                assert(pair_views(pairs@) =~= pair_views(before) + added.take(0));
                while k < more.len()
                    invariant
                        k <= more@.len(),
                        added == pair_views(more@),
                        pair_views(pairs@) == pair_views(before) + added.take(k as int),
                    decreases more@.len() - k,
                {
                    let ghost earlier = pairs@;
                    pairs.push(more[k]);
                    proof {
                        assert(pair_views(pairs@) =~= pair_views(earlier).push(added[k as int]));
                        assert(added.take(k + 1) =~= added.take(k as int).push(added[k as int]));
                        assert(pair_views(pairs@) =~= pair_views(before) + added.take(k + 1));
                    }
                    k = k + 1;
                }
                assert(added.take(k as int) =~= added);
            },
            None => {
                proof {
                    assert(all_excluded(bs, all, (i + 1) as nat) is None);
                    no_pairs_stay(bs, all, (i + 1) as nat, bodies@.len());
                }
                return None;
            },
        }
        i = i + 1;
    }
    Some(pairs)
}

fn check_all_differ(bases: &Vec<&JudgmentExpr>) -> (r: bool)
    ensures
        r == all_differ(referents(bases@)),
{
    let ghost all = referents(bases@);
    let mut i: usize = 0;
    while i < bases.len()
        invariant
            i <= bases@.len(),
            all == referents(bases@),
            forall|a: int, b: int|
                0 <= a < i && a < b < all.len() ==> !same_judgment(
                    #[trigger] all[a],
                    #[trigger] all[b],
                ),
        decreases bases@.len() - i,
    {
        let mut j: usize = i + 1;
        while j < bases.len()
            invariant
                i < j <= bases@.len(),
                all == referents(bases@),
                forall|b: int| i < b < j ==> !same_judgment(all[i as int], #[trigger] all[b]),
            decreases bases@.len() - j,
        {
            assert(all[i as int] == *bases@[i as int]);
            assert(all[j as int] == *bases@[j as int]);
            if judgments_alike(bases[i], bases[j]) {
                return false;
            }
            j = j + 1;
        }
        i = i + 1;
    }
    true
}

fn holds_pair(pairs: &Vec<(usize, usize)>, a: usize, b: usize) -> (r: bool)
    ensures
        r == pair_views(pairs@).contains((a as nat, b as nat)),
{
    let ghost all = pair_views(pairs@);
    let mut i: usize = 0;
    while i < pairs.len()
        invariant
            i <= pairs@.len(),
            all == pair_views(pairs@),
            forall|j: int| 0 <= j < i ==> #[trigger] all[j] != (a as nat, b as nat),
        decreases pairs@.len() - i,
    {
        assert(all[i as int] == (pairs@[i as int].0 as nat, pairs@[i as int].1 as nat));
        if pairs[i].0 == a && pairs[i].1 == b {
            return true;
        }
        i = i + 1;
    }
    false
}

fn check_pairs_all(pairs: &Vec<(usize, usize)>, n: usize) -> (r: bool)
    ensures
        r == pairs_all(pair_views(pairs@), n as nat),
{
    let ghost all = pair_views(pairs@);
    let mut i: usize = 0;
    while i < n
        invariant
            i <= n,
            all == pair_views(pairs@),
            forall|a: nat, b: nat| a < i && a < b < n ==> #[trigger] all.contains((a, b)),
        decreases n - i,
    {
        let mut j: usize = i + 1;
        while j < n
            invariant
                i < j <= n,
                all == pair_views(pairs@),
                forall|b: nat| i < b < j ==> #[trigger] all.contains((i as nat, b)),
            decreases n - j,
        {
            if !holds_pair(pairs, i, j) {
                assert(!all.contains((i as nat, j as nat)));
                return false;
            }
            j = j + 1;
        }
        i = i + 1;
    }
    true
}

/// The judgments of which exactly one holds, as exclusions spell it out.
pub fn pairwise_exclusions<'a>(e: &'a JudgmentExpr) -> (r: Option<Vec<&'a JudgmentExpr>>)
    ensures
        excluded(*e) == match r {
            Some(bases) => Some(referents(bases@)),
            None => None,
        },
{
    let items = match flatten_chain(e, false) {
        Some(items) => items,
        None => {
            return None;
        },
    };
    let ghost all = referents(items@);
    let mut ors: Vec<&'a JudgmentExpr> = Vec::new();
    let mut bodies: Vec<&'a JudgmentExpr> = Vec::new();
    let mut i: usize = 0;
    proof {
        assert(referents(ors@) =~= Seq::empty());
        assert(referents(bodies@) =~= Seq::empty());
    }
    while i < items.len()
        invariant
            i <= items@.len(),
            all == referents(items@),
            all == leaves(*e, false),
            e is And,
            referents(ors@) == disjunctions(all, i as nat),
            referents(bodies@) == negations(all, i as nat),
            forall|k: int| 0 <= k < i ==> (#[trigger] all[k]) is Or || all[k] is Not,
        decreases items@.len() - i,
    {
        let item = items[i];
        assert(all[i as int] == *item);
        let ghost (a, b) = (ors@, bodies@);
        match item {
            JudgmentExpr::Or(_) => {
                ors.push(item);
                assert(referents(ors@) =~= referents(a).push(*item));
            },
            JudgmentExpr::Not(body) => {
                let inner: &'a JudgmentExpr = body;
                bodies.push(inner);
                assert(referents(bodies@) =~= referents(b).push(*inner));
            },
            _ => {
                return None;
            },
        }
        i = i + 1;
    }
    assert(ors@.len() == referents(ors@).len());
    assert(bodies@.len() == referents(bodies@).len());
    if ors.len() != 1 {
        return None;
    }
    assert(referents(ors@)[0] == *ors@[0]);
    let mut bases: Vec<&'a JudgmentExpr> = Vec::new();
    assert(referents(bases@) =~= Seq::empty());
    push_leaves(ors[0], true, &mut bases);
    assert(referents(bases@) =~= leaves(*ors@[0], true));
    assert(bases@.len() == referents(bases@).len());
    if bases.len() < 2 || bodies.len() == 0 || !check_all_differ(&bases) {
        return None;
    }
    match find_all_excluded(&bases, &bodies) {
        None => None,
        Some(pairs) => {
            if check_pairs_all(&pairs, bases.len()) {
                Some(bases)
            } else {
                None
            }
        },
    }
}

/// The idiom that a judgment is, with the judgments of which exactly one holds.
pub open spec fn detected(e: JudgmentExpr) -> Option<(ExactlyOneIdiom, Seq<JudgmentExpr>)> {
    match expanded(e) {
        Some(bases) => Some((ExactlyOneIdiom::OrOfAnds, bases)),
        None => match excluded(e) {
            Some(bases) => Some((ExactlyOneIdiom::PairwiseExclusions, bases)),
            None => None,
        },
    }
}

fn detect<'a>(e: &'a JudgmentExpr) -> (r: Option<(ExactlyOneIdiom, Vec<&'a JudgmentExpr>)>)
    ensures
        detected(*e) == match r {
            Some((idiom, bases)) => Some((idiom, referents(bases@))),
            None => None,
        },
{
    match expanded_exactly_one(e) {
        Some(bases) => Some((ExactlyOneIdiom::OrOfAnds, bases)),
        None => match pairwise_exclusions(e) {
            Some(bases) => Some((ExactlyOneIdiom::PairwiseExclusions, bases)),
            None => None,
        },
    }
}

/// The larger of two numbers.
pub open spec fn larger(a: nat, b: nat) -> nat {
    if a > b {
        a
    } else {
        b
    }
}

/// How deep a formula is nested.
pub open spec fn scalar_height(e: ScalarExpr) -> nat
    decreases e, 1int, 0nat,
{
    1 + match e {
        ScalarExpr::ParameterLookup { index, .. } => scalar_height(*index),
        ScalarExpr::Add(items) => scalars_height(items@, items@.len()),
        ScalarExpr::Max(items) => scalars_height(items@, items@.len()),
        ScalarExpr::Min(items) => scalars_height(items@, items@.len()),
        ScalarExpr::Sub(a, b) => larger(scalar_height(*a), scalar_height(*b)),
        ScalarExpr::Mul(a, b) => larger(scalar_height(*a), scalar_height(*b)),
        ScalarExpr::Div(a, b) => larger(scalar_height(*a), scalar_height(*b)),
        ScalarExpr::Ceil(a) => scalar_height(*a),
        ScalarExpr::Floor(a) => scalar_height(*a),
        ScalarExpr::DateAddDays { date, days } => larger(scalar_height(*date), scalar_height(*days)),
        ScalarExpr::DateAddMonths { date, months } => larger(scalar_height(*date), scalar_height(*months)),
        ScalarExpr::DateAddYears { date, years } => larger(scalar_height(*date), scalar_height(*years)),
        ScalarExpr::DaysBetween { from, to } => larger(scalar_height(*from), scalar_height(*to)),
        ScalarExpr::CountRelated { where_clause, .. } => match where_clause {
            Some(w) => judgment_height(*w),
            None => 0,
        },
        ScalarExpr::SumRelated { where_clause, .. } => match where_clause {
            Some(w) => judgment_height(*w),
            None => 0,
        },
        ScalarExpr::If { condition, then_expr, else_expr } => larger(
            judgment_height(*condition),
            larger(scalar_height(*then_expr), scalar_height(*else_expr)),
        ),
        ScalarExpr::NoMatch { subject, patterns } => larger(
            scalar_height(*subject),
            scalars_height(patterns@, patterns@.len()),
        ),
        ScalarExpr::OverPeriods { value, n, .. } => larger(
            scalar_height(*value),
            match n {
                Some(n) => scalar_height(*n),
                None => 0,
            },
        ),
        _ => 0,
    }
}

pub open spec fn scalars_height(items: Seq<ScalarExpr>, n: nat) -> nat
    decreases items, 0int, n,
{
    if n == 0 || n > items.len() {
        0
    } else {
        larger(scalars_height(items, (n - 1) as nat), scalar_height(items[n - 1]))
    }
}

/// How deep a judgment is nested.
pub open spec fn judgment_height(e: JudgmentExpr) -> nat
    decreases e, 1int, 0nat,
{
    1 + match e {
        JudgmentExpr::Comparison { left, right, .. } => larger(
            scalar_height(left),
            scalar_height(right),
        ),
        JudgmentExpr::And(items) => judgments_height(items@, items@.len()),
        JudgmentExpr::Or(items) => judgments_height(items@, items@.len()),
        JudgmentExpr::Not(item) => judgment_height(*item),
        _ => 0,
    }
}

pub open spec fn judgments_height(items: Seq<JudgmentExpr>, n: nat) -> nat
    decreases items, 0int, n,
{
    if n == 0 || n > items.len() {
        0
    } else {
        larger(judgments_height(items, (n - 1) as nat), judgment_height(items[n - 1]))
    }
}

pub(crate) proof fn scalar_item_height(items: Seq<ScalarExpr>, n: nat, i: int)
    requires
        0 <= i < n <= items.len(),
    ensures
        scalar_height(items[i]) <= scalars_height(items, n),
    decreases n,
{
    if i < n - 1 {
        scalar_item_height(items, (n - 1) as nat, i);
    }
}

/// A leaf is nested no deeper than its chain, and less deep where that is one.
pub(crate) proof fn leaf_height(e: JudgmentExpr, or: bool, k: int)
    requires
        0 <= k < leaves(e, or).len(),
    ensures
        judgment_height(leaves(e, or)[k]) <= judgment_height(e),
        is_chain(e, or) ==> judgment_height(leaves(e, or)[k]) < judgment_height(e),
    decreases e, 1int, 0nat,
{
    match e {
        JudgmentExpr::Or(items) => {
            if or {
                leaves_height(items@, items@.len(), or, k);
            }
        },
        JudgmentExpr::And(items) => {
            if !or {
                leaves_height(items@, items@.len(), or, k);
            }
        },
        _ => {},
    }
}

proof fn leaves_height(items: Seq<JudgmentExpr>, n: nat, or: bool, k: int)
    requires
        n <= items.len(),
        0 <= k < leaves_of(items, n, or).len(),
    ensures
        judgment_height(leaves_of(items, n, or)[k]) <= judgments_height(items, n),
    decreases items, 0int, n,
{
    if n > 0 {
        let before = leaves_of(items, (n - 1) as nat, or);
        if k < before.len() {
            leaves_height(items, (n - 1) as nat, or, k);
        } else {
            leaf_height(items[n - 1], or, k - before.len());
        }
    }
}

proof fn branch_base_height(items: Seq<JudgmentExpr>, n: nat, limit: nat, k: int)
    requires
        n <= items.len(),
        branch_bases(items, n) is Some,
        0 <= k < branch_bases(items, n)->Some_0.len(),
        forall|i: int| 0 <= i < items.len() ==> judgment_height(#[trigger] items[i]) < limit,
    ensures
        judgment_height(branch_bases(items, n)->Some_0[k]) < limit,
    decreases n,
{
    if n > 0 {
        let before = branch_bases(items, (n - 1) as nat)->Some_0;
        assert(judgment_height(items[n - 1]) < limit);
        if k < before.len() {
            branch_base_height(items, (n - 1) as nat, limit, k);
        }
    }
}

proof fn disjunction_among(items: Seq<JudgmentExpr>, n: nat, k: int)
    requires
        n <= items.len(),
        0 <= k < disjunctions(items, n).len(),
    ensures
        items.contains(disjunctions(items, n)[k]),
    decreases n,
{
    if n > 0 {
        if k < disjunctions(items, (n - 1) as nat).len() {
            disjunction_among(items, (n - 1) as nat, k);
        } else {
            assert(items[n - 1] == disjunctions(items, n)[k]);
        }
    }
}

/// The judgments that an idiom is about are nested less deep than it.
pub(crate) proof fn base_height(e: JudgmentExpr, k: int)
    requires
        detected(e) is Some,
        0 <= k < detected(e)->Some_0.1.len(),
    ensures
        judgment_height(detected(e)->Some_0.1[k]) < judgment_height(e),
{
    if let Some(bases) = expanded(e) {
        let branches = leaves(e, true);
        leaf_height(e, true, 0);
        let first = leaves(branches[0], false);
        let limit = judgment_height(branches[0]);
        assert forall|i: int| 0 <= i < first.len() implies judgment_height(#[trigger] first[i])
            < limit by {
            leaf_height(branches[0], false, i);
        }
        branch_base_height(first, branches.len(), limit, k);
    } else if let Some(bases) = excluded(e) {
        let items = leaves(e, false);
        let ors = disjunctions(items, items.len());
        disjunction_among(items, items.len(), 0);
        let at = items.index_of(ors[0]);
        leaf_height(e, false, at);
        leaf_height(ors[0], true, k);
    }
}

/// A place where "exactly one" is spelled out.
struct FoundIdiom<'a> {
    idiom: ExactlyOneIdiom,
    /// The judgments of which exactly one holds.
    bases: Vec<&'a JudgmentExpr>,
}

/// The model of a place where "exactly one" is spelled out.
pub ghost struct FoundView {
    pub idiom: ExactlyOneIdiom,
    /// The judgments of which exactly one holds.
    pub bases: Seq<JudgmentExpr>,
}

impl<'a> FoundIdiom<'a> {
    spec fn view(&self) -> FoundView {
        FoundView { idiom: self.idiom, bases: referents(self.bases@) }
    }
}

spec fn found_views(v: Seq<FoundIdiom>) -> Seq<FoundView> {
    v.map_values(|f: FoundIdiom| f@)
}

/// The places in a judgment where "exactly one" is spelled out. What an idiom consists of
/// is not looked through, but for the judgments that it is about. Of a chain only the whole
/// can be one.
pub open spec fn judgment_sites(e: JudgmentExpr) -> Seq<FoundView>
    decreases judgment_height(e), 1int, 0nat,
{
    match detected(e) {
        Some((idiom, bases)) => seq![FoundView { idiom, bases }]
            + judgments_sites(bases, bases.len(), judgment_height(e)),
        None => match e {
            JudgmentExpr::Or(_) => judgments_sites(
                leaves(e, true),
                leaves(e, true).len(),
                judgment_height(e),
            ),
            JudgmentExpr::And(_) => judgments_sites(
                leaves(e, false),
                leaves(e, false).len(),
                judgment_height(e),
            ),
            JudgmentExpr::Comparison { left, right, .. } => scalar_sites(left) + scalar_sites(right),
            JudgmentExpr::Not(item) => judgment_sites(*item),
            _ => Seq::empty(),
        },
    }
}

/// The places in the first `n` judgments, which are nested less deep than the limit.
pub open spec fn judgments_sites(items: Seq<JudgmentExpr>, n: nat, limit: nat) -> Seq<FoundView>
    decreases limit, 0int, n,
{
    if n == 0 || n > items.len() {
        Seq::empty()
    } else {
        judgments_sites(items, (n - 1) as nat, limit) + if judgment_height(items[n - 1]) < limit {
            judgment_sites(items[n - 1])
        } else {
            Seq::empty()
        }
    }
}

/// The places in a formula where "exactly one" is spelled out.
pub open spec fn scalar_sites(e: ScalarExpr) -> Seq<FoundView>
    decreases scalar_height(e), 1int, 0nat,
{
    match e {
        ScalarExpr::ParameterLookup { index, .. } => scalar_sites(*index),
        ScalarExpr::Add(items) => scalars_sites(items@, items@.len(), scalar_height(e)),
        ScalarExpr::Max(items) => scalars_sites(items@, items@.len(), scalar_height(e)),
        ScalarExpr::Min(items) => scalars_sites(items@, items@.len(), scalar_height(e)),
        ScalarExpr::Sub(a, b) => scalar_sites(*a) + scalar_sites(*b),
        ScalarExpr::Mul(a, b) => scalar_sites(*a) + scalar_sites(*b),
        ScalarExpr::Div(a, b) => scalar_sites(*a) + scalar_sites(*b),
        ScalarExpr::Ceil(a) => scalar_sites(*a),
        ScalarExpr::Floor(a) => scalar_sites(*a),
        ScalarExpr::DateAddDays { date, days } => scalar_sites(*date) + scalar_sites(*days),
        ScalarExpr::DateAddMonths { date, months } => scalar_sites(*date) + scalar_sites(*months),
        ScalarExpr::DateAddYears { date, years } => scalar_sites(*date) + scalar_sites(*years),
        ScalarExpr::DaysBetween { from, to } => scalar_sites(*from) + scalar_sites(*to),
        ScalarExpr::CountRelated { where_clause, .. } => match where_clause {
            Some(w) => judgment_sites(*w),
            None => Seq::empty(),
        },
        ScalarExpr::SumRelated { where_clause, .. } => match where_clause {
            Some(w) => judgment_sites(*w),
            None => Seq::empty(),
        },
        ScalarExpr::If { condition, then_expr, else_expr } => judgment_sites(*condition)
            + scalar_sites(*else_expr) + scalar_sites(*then_expr),
        ScalarExpr::NoMatch { subject, patterns } => scalars_sites(
            patterns@,
            patterns@.len(),
            scalar_height(e),
        ) + scalar_sites(*subject),
        ScalarExpr::OverPeriods { value, n, .. } => (match n {
            Some(n) => scalar_sites(*n),
            None => Seq::empty(),
        }) + scalar_sites(*value),
        _ => Seq::empty(),
    }
}

pub open spec fn scalars_sites(items: Seq<ScalarExpr>, n: nat, limit: nat) -> Seq<FoundView>
    decreases limit, 0int, n,
{
    if n == 0 || n > items.len() {
        Seq::empty()
    } else {
        scalars_sites(items, (n - 1) as nat, limit) + if scalar_height(items[n - 1]) < limit {
            scalar_sites(items[n - 1])
        } else {
            Seq::empty()
        }
    }
}

fn collect_list_sites<'a>(
    items: &Vec<&'a JudgmentExpr>,
    out: &mut Vec<FoundIdiom<'a>>,
    Ghost(limit): Ghost<nat>,
)
    requires
        forall|i: int|
            0 <= i < items@.len() ==> judgment_height(#[trigger] referents(items@)[i]) < limit,
    ensures
        found_views(final(out)@) == found_views(old(out)@) + judgments_sites(referents(items@), items@.len(), limit),
    decreases limit, 0int,
{
    let ghost all = referents(items@);
    let ghost before = found_views(out@);
    let mut i: usize = 0;
    assert(before =~= before + judgments_sites(all, 0, limit));
    while i < items.len()
        invariant
            i <= items@.len(),
            all == referents(items@),
            forall|k: int| 0 <= k < items@.len() ==> judgment_height(#[trigger] all[k]) < limit,
            found_views(out@) == before + judgments_sites(all, i as nat, limit),
        decreases items@.len() - i,
    {
        assert(all[i as int] == *items@[i as int]);
        assert(judgment_height(all[i as int]) < limit);
        collect_judgment_sites(items[i], out);
        assert(found_views(out@) =~= before + judgments_sites(all, (i + 1) as nat, limit));
        i = i + 1;
    }
}

/// Adds the places in a judgment where "exactly one" is spelled out.
fn collect_judgment_sites<'a>(e: &'a JudgmentExpr, out: &mut Vec<FoundIdiom<'a>>)
    ensures
        found_views(final(out)@) == found_views(old(out)@) + judgment_sites(*e),
    decreases judgment_height(*e), 1int,
{
    let ghost before = found_views(out@);
    if let Some((idiom, bases)) = detect(e) {
        proof {
            assert forall|k: int| 0 <= k < bases@.len() implies judgment_height(
                #[trigger] referents(bases@)[k],
            ) < judgment_height(*e) by {
                base_height(*e, k);
            }
            assert(referents(bases@).len() == bases@.len());
        }
        let items = bases.clone();
        let ghost earlier = out@;
        let ghost found = FoundIdiom { idiom, bases };
        out.push(FoundIdiom { idiom, bases });
        assert(found_views(out@) =~= found_views(earlier).push(found@));
        collect_list_sites(&items, out, Ghost(judgment_height(*e)));
        assert(found_views(out@) =~= before + judgment_sites(*e));
        return ;
    }
    match e {
        JudgmentExpr::Or(_) => {
            if let Some(items) = flatten_chain(e, true) {
                proof {
                    assert(referents(items@).len() == items@.len());
                    assert forall|k: int| 0 <= k < items@.len() implies judgment_height(
                        #[trigger] referents(items@)[k],
                    ) < judgment_height(*e) by {
                        leaf_height(*e, true, k);
                    }
                }
                collect_list_sites(&items, out, Ghost(judgment_height(*e)));
            }
        },
        JudgmentExpr::And(_) => {
            if let Some(items) = flatten_chain(e, false) {
                proof {
                    assert(referents(items@).len() == items@.len());
                    assert forall|k: int| 0 <= k < items@.len() implies judgment_height(
                        #[trigger] referents(items@)[k],
                    ) < judgment_height(*e) by {
                        leaf_height(*e, false, k);
                    }
                }
                collect_list_sites(&items, out, Ghost(judgment_height(*e)));
            }
        },
        JudgmentExpr::Comparison { left, right, .. } => {
            collect_scalar_sites(left, out);
            collect_scalar_sites(right, out);
            assert(found_views(out@) =~= before + judgment_sites(*e));
        },
        JudgmentExpr::Not(item) => collect_judgment_sites(item, out),
        _ => {
            assert(before + Seq::<FoundView>::empty() =~= before);
        },
    }
}

fn collect_scalar_list_sites<'a>(
    items: &'a Vec<ScalarExpr>,
    out: &mut Vec<FoundIdiom<'a>>,
    Ghost(limit): Ghost<nat>,
)
    requires
        scalars_height(items@, items@.len()) < limit,
    ensures
        found_views(final(out)@) == found_views(old(out)@) + scalars_sites(items@, items@.len(), limit),
    decreases limit, 0int,
{
    let ghost before = found_views(out@);
    let mut i: usize = 0;
    assert(before =~= before + scalars_sites(items@, 0, limit));
    while i < items.len()
        invariant
            i <= items@.len(),
            scalars_height(items@, items@.len()) < limit,
            found_views(out@) == before + scalars_sites(items@, i as nat, limit),
        decreases items@.len() - i,
    {
        proof {
            scalar_item_height(items@, items@.len(), i as int);
        }
        collect_scalar_sites(&items[i], out);
        assert(found_views(out@) =~= before + scalars_sites(items@, (i + 1) as nat, limit));
        i = i + 1;
    }
}

fn collect_two_sites<'a>(
    a: &'a ScalarExpr,
    b: &'a ScalarExpr,
    out: &mut Vec<FoundIdiom<'a>>,
    Ghost(limit): Ghost<nat>,
)
    requires
        scalar_height(*a) < limit,
        scalar_height(*b) < limit,
    ensures
        found_views(final(out)@) == found_views(old(out)@) + (scalar_sites(*a) + scalar_sites(*b)),
    decreases limit, 0int,
{
    let ghost before = found_views(out@);
    collect_scalar_sites(a, out);
    collect_scalar_sites(b, out);
    assert(found_views(out@) =~= before + (scalar_sites(*a) + scalar_sites(*b)));
}

/// Adds the places in a formula where "exactly one" is spelled out.
fn collect_scalar_sites<'a>(e: &'a ScalarExpr, out: &mut Vec<FoundIdiom<'a>>)
    ensures
        found_views(final(out)@) == found_views(old(out)@) + scalar_sites(*e),
    decreases scalar_height(*e), 1int,
{
    let ghost before = found_views(out@);
    let ghost limit = scalar_height(*e);
    match e {
        ScalarExpr::ParameterLookup { index, .. } => collect_scalar_sites(index, out),
        ScalarExpr::Add(items) => collect_scalar_list_sites(items, out, Ghost(limit)),
        ScalarExpr::Max(items) => collect_scalar_list_sites(items, out, Ghost(limit)),
        ScalarExpr::Min(items) => collect_scalar_list_sites(items, out, Ghost(limit)),
        ScalarExpr::Sub(a, b) => collect_two_sites(a, b, out, Ghost(limit)),
        ScalarExpr::Mul(a, b) => collect_two_sites(a, b, out, Ghost(limit)),
        ScalarExpr::Div(a, b) => collect_two_sites(a, b, out, Ghost(limit)),
        ScalarExpr::Ceil(a) => collect_scalar_sites(a, out),
        ScalarExpr::Floor(a) => collect_scalar_sites(a, out),
        ScalarExpr::DateAddDays { date, days } => collect_two_sites(date, days, out, Ghost(limit)),
        ScalarExpr::DateAddMonths { date, months } => collect_two_sites(date, months, out, Ghost(limit)),
        ScalarExpr::DateAddYears { date, years } => collect_two_sites(date, years, out, Ghost(limit)),
        ScalarExpr::DaysBetween { from, to } => collect_two_sites(from, to, out, Ghost(limit)),
        ScalarExpr::CountRelated { where_clause, .. } => {
            assert(before + Seq::<FoundView>::empty() =~= before);
            if let Some(w) = where_clause {
                collect_judgment_sites(w, out);
            }
        },
        ScalarExpr::SumRelated { where_clause, .. } => {
            assert(before + Seq::<FoundView>::empty() =~= before);
            if let Some(w) = where_clause {
                collect_judgment_sites(w, out);
            }
        },
        ScalarExpr::If { condition, then_expr, else_expr } => {
            collect_judgment_sites(condition, out);
            collect_scalar_sites(else_expr, out);
            collect_scalar_sites(then_expr, out);
            assert(found_views(out@) =~= before + scalar_sites(*e));
        },
        ScalarExpr::NoMatch { subject, patterns } => {
            collect_scalar_list_sites(patterns, out, Ghost(limit));
            collect_scalar_sites(subject, out);
            assert(found_views(out@) =~= before + scalar_sites(*e));
        },
        ScalarExpr::OverPeriods { value, n, .. } => {
            if let Some(n) = n {
                collect_scalar_sites(n, out);
            }
            collect_scalar_sites(value, out);
            assert(found_views(out@) =~= before + scalar_sites(*e));
        },
        _ => {
            assert(before + Seq::<FoundView>::empty() =~= before);
        },
    }
}

/// A place in a rule where "exactly one" is spelled out.
#[derive(Debug)]
pub struct ExpandedExactlyOne {
    pub rule: String,
    /// The formula: `expr`, or that of a version, `versions[i].expr`.
    pub site: String,
    pub arity: usize,
    pub idiom: ExactlyOneIdiom,
}

/// The model of an [`ExpandedExactlyOne`].
pub ghost struct ExpandedView {
    pub rule: Seq<char>,
    pub site: Seq<char>,
    pub arity: nat,
    pub idiom: ExactlyOneIdiom,
}

impl ExpandedExactlyOne {
    pub open spec fn view(&self) -> ExpandedView {
        ExpandedView {
            rule: self.rule@,
            site: self.site@,
            arity: self.arity as nat,
            idiom: self.idiom,
        }
    }
}

pub open spec fn expanded_views(v: Seq<ExpandedExactlyOne>) -> Seq<ExpandedView> {
    v.map_values(|x: ExpandedExactlyOne| x@)
}

pub open spec fn formula_sites(s: DerivedSemantics) -> Seq<FoundView> {
    match s {
        DerivedSemantics::Scalar(e) => scalar_sites(e),
        DerivedSemantics::Judgment(e) => judgment_sites(e),
    }
}

/// Places, with the rule and the formula that they are in.
pub open spec fn placed(found: Seq<FoundView>, rule: Seq<char>, site: Seq<char>) -> Seq<
    ExpandedView,
> {
    found.map_values(
        |f: FoundView| ExpandedView { rule, site, arity: f.bases.len(), idiom: f.idiom },
    )
}

pub open spec fn version_site(i: nat) -> Seq<char> {
    "versions["@ + int_text(i as int) + "].expr"@
}

pub open spec fn versions_sites(versions: Seq<DerivedVersion>, n: nat, rule: Seq<char>) -> Seq<
    ExpandedView,
>
    decreases n,
{
    if n == 0 || n > versions.len() {
        Seq::empty()
    } else {
        versions_sites(versions, (n - 1) as nat, rule) + placed(
            formula_sites(versions[n - 1].semantics),
            rule,
            version_site((n - 1) as nat),
        )
    }
}

/// The places in a rule: in its versions, or where it has none in its own formula.
pub open spec fn rule_sites(d: Derived) -> Seq<ExpandedView> {
    if d.versions@.len() == 0 {
        placed(formula_sites(d.semantics), d.name@, "expr"@)
    } else {
        versions_sites(d.versions@, d.versions@.len(), d.name@)
    }
}

pub open spec fn rules_sites(rules: Seq<Derived>, n: nat) -> Seq<ExpandedView>
    decreases n,
{
    if n == 0 || n > rules.len() {
        Seq::empty()
    } else {
        rules_sites(rules, (n - 1) as nat) + rule_sites(rules[n - 1])
    }
}

/// The places in a formula where "exactly one" is spelled out.
fn collect_sites<'a>(semantics: &'a DerivedSemantics) -> (r: Vec<FoundIdiom<'a>>)
    ensures
        found_views(r@) == formula_sites(*semantics),
{
    let mut found: Vec<FoundIdiom> = Vec::new();
    assert(found_views(found@) =~= Seq::empty());
    match semantics {
        DerivedSemantics::Scalar(e) => collect_scalar_sites(e, &mut found),
        DerivedSemantics::Judgment(e) => collect_judgment_sites(e, &mut found),
    }
    assert(found_views(found@) =~= formula_sites(*semantics));
    found
}

fn push_sites(
    semantics: &DerivedSemantics,
    rule: &str,
    site: &str,
    out: &mut Vec<ExpandedExactlyOne>,
)
    ensures
        expanded_views(final(out)@) == expanded_views(old(out)@) + placed(
            formula_sites(*semantics),
            rule@,
            site@,
        ),
{
    let found = collect_sites(semantics);
    let ghost before = expanded_views(out@);
    let ghost all = placed(found_views(found@), rule@, site@);
    let mut i: usize = 0;
    assert(before =~= before + all.take(0));
    while i < found.len()
        invariant
            i <= found@.len(),
            all == placed(found_views(found@), rule@, site@),
            expanded_views(out@) == before + all.take(i as int),
        decreases found@.len() - i,
    {
        let ghost earlier = out@;
        out.push(
            ExpandedExactlyOne {
                rule: owned(rule),
                site: owned(site),
                arity: found[i].bases.len(),
                idiom: found[i].idiom,
            },
        );
        proof {
            assert(referents(found@[i as int].bases@).len() == found@[i as int].bases@.len());
            assert(expanded_views(out@) =~= expanded_views(earlier).push(all[i as int]));
            assert(all.take(i + 1) =~= all.take(i as int).push(all[i as int]));
            assert(expanded_views(out@) =~= before + all.take(i + 1));
        }
        i = i + 1;
    }
    assert(all.take(i as int) =~= all);
}

fn version_site_text(i: usize) -> (r: String)
    ensures
        r@ == version_site(i as nat),
{
    let mut text = owned("versions[");
    text.append(usize_text(i).as_str());
    text.append("].expr");
    text
}

/// The places in a program where "exactly one" is spelled out, rule by rule.
pub fn scan_source(program: &Program) -> (r: Vec<ExpandedExactlyOne>)
    ensures
        expanded_views(r@) == rules_sites(program.derived@, program.derived@.len()),
{
    let rules = &program.derived;
    let mut out: Vec<ExpandedExactlyOne> = Vec::new();
    let mut i: usize = 0;
    assert(expanded_views(out@) =~= rules_sites(rules@, 0));
    while i < rules.len()
        invariant
            i <= rules@.len(),
            expanded_views(out@) == rules_sites(rules@, i as nat),
        decreases rules@.len() - i,
    {
        let rule = &rules[i];
        let ghost before = expanded_views(out@);
        if rule.versions.len() == 0 {
            push_sites(&rule.semantics, rule.name.as_str(), "expr", &mut out);
        } else {
            let versions = &rule.versions;
            let mut k: usize = 0;
            assert(before =~= before + versions_sites(versions@, 0, rule.name@));
            while k < versions.len()
                invariant
                    k <= versions@.len(),
                    expanded_views(out@) == before + versions_sites(
                        versions@,
                        k as nat,
                        rule.name@,
                    ),
                decreases versions@.len() - k,
            {
                push_sites(
                    &versions[k].semantics,
                    rule.name.as_str(),
                    version_site_text(k).as_str(),
                    &mut out,
                );
                assert(expanded_views(out@) =~= before + versions_sites(
                    versions@,
                    (k + 1) as nat,
                    rule.name@,
                ));
                k = k + 1;
            }
        }
        i = i + 1;
    }
    out
}

/// The fact that a judgment is about: a rule, or an input or rule that is compared with
/// true.
pub open spec fn fact_name(e: JudgmentExpr) -> Option<Seq<char>> {
    match e {
        JudgmentExpr::Derived(name) => Some(name@),
        JudgmentExpr::Comparison { left, op, right } => if op == ComparisonOp::Eq && right
            == ScalarExpr::Literal(ScalarValue::Bool(true)) {
            match left {
                ScalarExpr::Input(name) => Some(name@),
                ScalarExpr::Derived(name) => Some(name@),
                _ => None,
            }
        } else {
            None
        },
        _ => None,
    }
}

fn base_fact_name(e: &JudgmentExpr) -> (r: Option<String>)
    ensures
        fact_name(*e) == match r {
            Some(name) => Some(name@),
            None => None,
        },
{
    match e {
        JudgmentExpr::Derived(name) => Some(name.clone()),
        JudgmentExpr::Comparison { left, op, right } => {
            let is_true = match right {
                ScalarExpr::Literal(ScalarValue::Bool(value)) => *value,
                _ => false,
            };
            if *op == ComparisonOp::Eq && is_true {
                match left {
                    ScalarExpr::Input(name) => Some(name.clone()),
                    ScalarExpr::Derived(name) => Some(name.clone()),
                    _ => None,
                }
            } else {
                None
            }
        },
        _ => None,
    }
}

/// The facts that the first `n` judgments are about.
pub open spec fn fact_names(bases: Seq<JudgmentExpr>, n: nat) -> Option<Seq<Seq<char>>>
    decreases n,
{
    if n == 0 || n > bases.len() {
        Some(Seq::empty())
    } else {
        match fact_names(bases, (n - 1) as nat) {
            None => None,
            Some(before) => match fact_name(bases[n - 1]) {
                Some(name) => Some(before.push(name)),
                None => None,
            },
        }
    }
}

proof fn no_names_stay(bases: Seq<JudgmentExpr>, n: nat, m: nat)
    requires
        n <= m <= bases.len(),
        fact_names(bases, n) is None,
    ensures
        fact_names(bases, m) is None,
    decreases m,
{
    if n < m {
        no_names_stay(bases, n, (m - 1) as nat);
    }
}

fn base_names(bases: &Vec<&JudgmentExpr>) -> (r: Option<Vec<String>>)
    ensures
        fact_names(referents(bases@), bases@.len()) == match r {
            Some(names) => Some(texts(names@)),
            None => None,
        },
{
    let ghost all = referents(bases@);
    let mut names: Vec<String> = Vec::new();
    let mut i: usize = 0;
    assert(texts(names@) =~= Seq::empty());
    while i < bases.len()
        invariant
            i <= bases@.len(),
            all == referents(bases@),
            fact_names(all, i as nat) == Some(texts(names@)),
        decreases bases@.len() - i,
    {
        assert(all[i as int] == *bases@[i as int]);
        let ghost before = names@;
        match base_fact_name(bases[i]) {
            Some(name) => {
                names.push(name);
                assert(texts(names@) =~= texts(before).push(name@));
            },
            None => {
                proof {
                    assert(fact_names(all, (i + 1) as nat) is None);
                    no_names_stay(all, (i + 1) as nat, bases@.len());
                }
                return None;
            },
        }
        i = i + 1;
    }
    Some(names)
}

/// A place that can be written with `exactly_one`.
#[derive(Debug)]
pub struct RewritePlan {
    pub rule: String,
    /// The version whose whole formula the place is, where it is one.
    pub version: Option<usize>,
    pub site: String,
    pub arity: usize,
    pub idiom: ExactlyOneIdiom,
    /// The facts of which exactly one holds, in the order in which they are read.
    pub bases: Vec<String>,
    /// The formula to put in its place.
    pub replacement: String,
}

/// A place that spells out "exactly one" of more than plain facts.
#[derive(Debug)]
pub struct ManualSite {
    pub rule: String,
    pub site: String,
    pub arity: usize,
    pub idiom: ExactlyOneIdiom,
    pub reason: String,
}

/// What is planned for a place.
pub ghost enum PlanView {
    Rewrite {
        rule: Seq<char>,
        version: Option<usize>,
        site: Seq<char>,
        arity: nat,
        idiom: ExactlyOneIdiom,
        bases: Seq<Seq<char>>,
        replacement: Seq<char>,
    },
    Manual {
        rule: Seq<char>,
        site: Seq<char>,
        arity: nat,
        idiom: ExactlyOneIdiom,
        reason: Seq<char>,
    },
}

impl RewritePlan {
    pub open spec fn view(&self) -> PlanView {
        PlanView::Rewrite {
            rule: self.rule@,
            version: self.version,
            site: self.site@,
            arity: self.arity as nat,
            idiom: self.idiom,
            bases: texts(self.bases@),
            replacement: self.replacement@,
        }
    }
}

impl ManualSite {
    pub open spec fn view(&self) -> PlanView {
        PlanView::Manual {
            rule: self.rule@,
            site: self.site@,
            arity: self.arity as nat,
            idiom: self.idiom,
            reason: self.reason@,
        }
    }
}

pub open spec fn rewrite_views(v: Seq<RewritePlan>) -> Seq<PlanView> {
    v.map_values(|p: RewritePlan| p@)
}

pub open spec fn manual_views(v: Seq<ManualSite>) -> Seq<PlanView> {
    v.map_values(|p: ManualSite| p@)
}

/// What is planned for a place: `exactly_one` of its judgments where all are plain facts.
pub open spec fn place_plan(
    found: FoundView,
    rule: Seq<char>,
    site: Seq<char>,
    version: Option<usize>,
) -> PlanView {
    match fact_names(found.bases, found.bases.len()) {
        Some(names) => PlanView::Rewrite {
            rule,
            version,
            site,
            arity: found.bases.len(),
            idiom: found.idiom,
            bases: names,
            replacement: "exactly_one("@ + joined_by(names, names.len(), ", "@) + ")"@,
        },
        None => PlanView::Manual {
            rule,
            site,
            arity: found.bases.len(),
            idiom: found.idiom,
            reason: "a base judgment is not a bare fact reference"@,
        },
    }
}

/// Whether a formula as a whole spells out "exactly one".
pub open spec fn is_whole(s: DerivedSemantics) -> bool {
    s matches DerivedSemantics::Judgment(e) && detected(e) is Some
}

/// What is planned for the places in a formula, in their order. The first is the whole formula
/// where that spells out "exactly one".
pub open spec fn formula_plans(
    s: DerivedSemantics,
    rule: Seq<char>,
    site: Seq<char>,
    version: Option<usize>,
) -> Seq<PlanView> {
    let found = formula_sites(s);
    Seq::new(
        found.len(),
        |k: int|
            place_plan(
                found[k],
                rule,
                site,
                if k == 0 && is_whole(s) {
                    version
                } else {
                    None
                },
            ),
    )
}

pub open spec fn versions_plans(versions: Seq<DerivedVersion>, n: nat, rule: Seq<char>) -> Seq<
    PlanView,
>
    decreases n,
{
    if n == 0 || n > versions.len() {
        Seq::empty()
    } else {
        versions_plans(versions, (n - 1) as nat, rule) + formula_plans(
            versions[n - 1].semantics,
            rule,
            version_site((n - 1) as nat),
            Some((n - 1) as usize),
        )
    }
}

/// What is planned for the places in a rule: in its versions, or where it has none in its own
/// formula.
pub open spec fn rule_plans(d: Derived) -> Seq<PlanView> {
    if d.versions@.len() == 0 {
        formula_plans(d.semantics, d.name@, "expr"@, None)
    } else {
        versions_plans(d.versions@, d.versions@.len(), d.name@)
    }
}

pub open spec fn rules_plans(rules: Seq<Derived>, n: nat) -> Seq<PlanView>
    decreases n,
{
    if n == 0 || n > rules.len() {
        Seq::empty()
    } else {
        rules_plans(rules, (n - 1) as nat) + rule_plans(rules[n - 1])
    }
}

/// Of plans those that rewrite, or for `rewrite` false those that are left to hand.
pub open spec fn picked(plans: Seq<PlanView>, rewrite: bool) -> Seq<PlanView>
    decreases plans.len(),
{
    if plans.len() == 0 {
        Seq::empty()
    } else {
        let before = picked(plans.drop_last(), rewrite);
        if (plans.last() is Rewrite) == rewrite {
            before.push(plans.last())
        } else {
            before
        }
    }
}

proof fn picked_joins(a: Seq<PlanView>, b: Seq<PlanView>, rewrite: bool)
    ensures
        picked(a + b, rewrite) == picked(a, rewrite) + picked(b, rewrite),
    decreases b.len(),
{
    if b.len() == 0 {
        assert(a + b =~= a);
        assert(picked(a, rewrite) + picked(b, rewrite) =~= picked(a, rewrite));
    } else {
        picked_joins(a, b.drop_last(), rewrite);
        assert((a + b).drop_last() =~= a + b.drop_last());
        assert(picked(a + b, rewrite) =~= picked(a, rewrite) + picked(b, rewrite));
    }
}

proof fn picked_has(plans: Seq<PlanView>, rewrite: bool, k: int)
    requires
        0 <= k < plans.len(),
    ensures
        picked(plans, rewrite).contains(plans[k]) <==> (plans[k] is Rewrite) == rewrite,
    decreases plans.len(),
{
    let before = picked(plans.drop_last(), rewrite);
    picked_are(plans, rewrite);
    if (plans[k] is Rewrite) == rewrite {
        if k < plans.len() - 1 {
            picked_has(plans.drop_last(), rewrite, k);
            let i = choose|i: int| 0 <= i < before.len() && before[i] == plans[k];
            assert(picked(plans, rewrite)[i] == plans[k]);
        } else {
            assert(picked(plans, rewrite)[before.len() as int] == plans[k]);
        }
    }
}

proof fn picked_are(plans: Seq<PlanView>, rewrite: bool)
    ensures
        forall|p: PlanView| #[trigger]
            picked(plans, rewrite).contains(p) ==> (p is Rewrite) == rewrite,
    decreases plans.len(),
{
    if plans.len() > 0 {
        picked_are(plans.drop_last(), rewrite);
        let before = picked(plans.drop_last(), rewrite);
        assert forall|p: PlanView| #[trigger] picked(plans, rewrite).contains(p) implies (
        p is Rewrite) == rewrite by {
            let i = choose|i: int|
                0 <= i < picked(plans, rewrite).len() && picked(plans, rewrite)[i] == p;
            if i < before.len() {
                assert(before[i] == p);
                assert(before.contains(p));
            }
        }
    }
}

/// The place that a plan is about.
pub open spec fn planned_place(plan: PlanView) -> ExpandedView {
    match plan {
        PlanView::Rewrite { rule, site, arity, idiom, .. } => ExpandedView {
            rule,
            site,
            arity,
            idiom,
        },
        PlanView::Manual { rule, site, arity, idiom, .. } => ExpandedView {
            rule,
            site,
            arity,
            idiom,
        },
    }
}

pub open spec fn planned_places(plans: Seq<PlanView>) -> Seq<ExpandedView> {
    plans.map_values(|p: PlanView| planned_place(p))
}

proof fn formula_places(
    s: DerivedSemantics,
    rule: Seq<char>,
    site: Seq<char>,
    version: Option<usize>,
)
    ensures
        planned_places(formula_plans(s, rule, site, version)) == placed(
            formula_sites(s),
            rule,
            site,
        ),
{
    assert(planned_places(formula_plans(s, rule, site, version)) =~= placed(
        formula_sites(s),
        rule,
        site,
    ));
}

proof fn versions_places(versions: Seq<DerivedVersion>, n: nat, rule: Seq<char>)
    requires
        n <= versions.len(),
    ensures
        planned_places(versions_plans(versions, n, rule)) == versions_sites(versions, n, rule),
    decreases n,
{
    if n > 0 {
        versions_places(versions, (n - 1) as nat, rule);
        formula_places(
            versions[n - 1].semantics,
            rule,
            version_site((n - 1) as nat),
            Some((n - 1) as usize),
        );
    }
    assert(planned_places(versions_plans(versions, n, rule)) =~= versions_sites(
        versions,
        n,
        rule,
    ));
}

proof fn rules_places(rules: Seq<Derived>, n: nat)
    requires
        n <= rules.len(),
    ensures
        planned_places(rules_plans(rules, n)) == rules_sites(rules, n),
    decreases n,
{
    if n > 0 {
        let d = rules[n - 1];
        rules_places(rules, (n - 1) as nat);
        formula_places(d.semantics, d.name@, "expr"@, None);
        versions_places(d.versions@, d.versions@.len(), d.name@);
    }
    assert(planned_places(rules_plans(rules, n)) =~= rules_sites(rules, n));
}

proof fn fact_names_all(bases: Seq<JudgmentExpr>, n: nat)
    requires
        n <= bases.len(),
    ensures
        fact_names(bases, n) matches Some(names) ==> names.len() == n,
    decreases n,
{
    if n > 0 {
        fact_names_all(bases, (n - 1) as nat);
    }
}

/// Whether a plan is written out of its facts.
pub open spec fn is_written(plan: PlanView) -> bool {
    plan matches PlanView::Rewrite { arity, bases, replacement, .. } ==> bases.len() == arity
        && replacement == "exactly_one("@ + joined_by(bases, bases.len(), ", "@) + ")"@
}

pub open spec fn all_written(plans: Seq<PlanView>) -> bool {
    forall|k: int| #![trigger plans[k]] 0 <= k < plans.len() ==> is_written(plans[k])
}

proof fn written_join(a: Seq<PlanView>, b: Seq<PlanView>)
    requires
        all_written(a),
        all_written(b),
    ensures
        all_written(a + b),
{
    assert forall|k: int| #![trigger (a + b)[k]] 0 <= k < (a + b).len() implies is_written(
        (a + b)[k],
    ) by {
        if k < a.len() {
            assert((a + b)[k] == a[k]);
        } else {
            assert((a + b)[k] == b[k - a.len()]);
        }
    }
}

proof fn formula_plans_written(
    s: DerivedSemantics,
    rule: Seq<char>,
    site: Seq<char>,
    version: Option<usize>,
)
    ensures
        all_written(formula_plans(s, rule, site, version)),
{
    let plans = formula_plans(s, rule, site, version);
    assert forall|k: int| #![trigger plans[k]] 0 <= k < plans.len() implies is_written(
        plans[k],
    ) by {
        let bases = formula_sites(s)[k].bases;
        fact_names_all(bases, bases.len());
    }
}

proof fn versions_plans_written(versions: Seq<DerivedVersion>, n: nat, rule: Seq<char>)
    ensures
        all_written(versions_plans(versions, n, rule)),
    decreases n,
{
    if 0 < n <= versions.len() {
        let s = versions[n - 1].semantics;
        let site = version_site((n - 1) as nat);
        versions_plans_written(versions, (n - 1) as nat, rule);
        formula_plans_written(s, rule, site, Some((n - 1) as usize));
        written_join(
            versions_plans(versions, (n - 1) as nat, rule),
            formula_plans(s, rule, site, Some((n - 1) as usize)),
        );
    }
}

proof fn rules_plans_written(rules: Seq<Derived>, n: nat)
    ensures
        all_written(rules_plans(rules, n)),
    decreases n,
{
    if 0 < n <= rules.len() {
        let d = rules[n - 1];
        rules_plans_written(rules, (n - 1) as nat);
        formula_plans_written(d.semantics, d.name@, "expr"@, None);
        versions_plans_written(d.versions@, d.versions@.len(), d.name@);
        written_join(rules_plans(rules, (n - 1) as nat), rule_plans(d));
    }
}

/// Every place that a scan finds is planned once, in the order of the scan: it stands among the
/// rewrites or among what is left to hand, never among both. A rewrite names as many facts as
/// the place is about, and writes `exactly_one` of them.
pub proof fn every_place_is_planned(rules: Seq<Derived>, k: int)
    requires
        0 <= k < rules_sites(rules, rules.len()).len(),
    ensures
        ({
            let plans = rules_plans(rules, rules.len());
            &&& plans.len() == rules_sites(rules, rules.len()).len()
            &&& planned_place(plans[k]) == rules_sites(rules, rules.len())[k]
            &&& picked(plans, true).contains(plans[k]) <==> plans[k] is Rewrite
            &&& picked(plans, false).contains(plans[k]) <==> plans[k] is Manual
            &&& is_written(plans[k])
        }),
{
    let plans = rules_plans(rules, rules.len());
    rules_places(rules, rules.len());
    assert(planned_places(plans).len() == plans.len());
    assert(planned_places(plans)[k] == planned_place(plans[k]));
    picked_has(plans, true, k);
    picked_has(plans, false, k);
    rules_plans_written(rules, rules.len());
}

/// Adds what is planned for a place.
fn push_plan(
    found: &FoundIdiom,
    rule: &str,
    site: &str,
    version: Option<usize>,
    plans: &mut Vec<RewritePlan>,
    manual: &mut Vec<ManualSite>,
)
    ensures
        ({
            let plan = place_plan(found@, rule@, site@, version);
            &&& rewrite_views(final(plans)@) == rewrite_views(old(plans)@) + picked(
                seq![plan],
                true,
            )
            &&& manual_views(final(manual)@) == manual_views(old(manual)@) + picked(
                seq![plan],
                false,
            )
        }),
{
    let ghost plan = place_plan(found@, rule@, site@, version);
    proof {
        assert(referents(found.bases@).len() == found.bases@.len());
        assert(seq![plan].drop_last() =~= Seq::empty());
        assert(picked(seq![plan].drop_last(), true) =~= Seq::empty());
        assert(picked(seq![plan].drop_last(), false) =~= Seq::empty());
    }
    let ghost (a, b) = (plans@, manual@);
    match base_names(&found.bases) {
        Some(names) => {
            assert(texts(names@).len() == names@.len());
            let mut replacement = owned("exactly_one(");
            replacement.append(join(&names, ", ").as_str());
            replacement.append(")");
            let item = RewritePlan {
                rule: owned(rule),
                version,
                site: owned(site),
                arity: found.bases.len(),
                idiom: found.idiom,
                bases: names,
                replacement,
            };
            plans.push(item);
            assert(item@ == plan);
        },
        None => {
            let item = ManualSite {
                rule: owned(rule),
                site: owned(site),
                arity: found.bases.len(),
                idiom: found.idiom,
                reason: owned("a base judgment is not a bare fact reference"),
            };
            manual.push(item);
            assert(item@ == plan);
        },
    }
    assert(rewrite_views(plans@) =~= rewrite_views(a) + picked(seq![plan], true));
    assert(manual_views(manual@) =~= manual_views(b) + picked(seq![plan], false));
}

/// Adds what is planned for the places in a formula.
fn plan_formula(
    semantics: &DerivedSemantics,
    rule: &str,
    site: &str,
    version: Option<usize>,
    plans: &mut Vec<RewritePlan>,
    manual: &mut Vec<ManualSite>,
)
    ensures
        ({
            let all = formula_plans(*semantics, rule@, site@, version);
            &&& rewrite_views(final(plans)@) == rewrite_views(old(plans)@) + picked(all, true)
            &&& manual_views(final(manual)@) == manual_views(old(manual)@) + picked(all, false)
        }),
{
    let ghost all = formula_plans(*semantics, rule@, site@, version);
    let found = collect_sites(semantics);
    let whole = match semantics {
        DerivedSemantics::Judgment(e) => detect(e).is_some(),
        DerivedSemantics::Scalar(_) => false,
    };
    let ghost (a, b) = (rewrite_views(plans@), manual_views(manual@));
    let mut i: usize = 0;
    proof {
        assert(all.take(0) =~= Seq::empty());
        assert(a =~= a + picked(all.take(0), true));
        assert(b =~= b + picked(all.take(0), false));
        assert(found_views(found@).len() == found@.len());
    }
    while i < found.len()
        invariant
            i <= found@.len(),
            all == formula_plans(*semantics, rule@, site@, version),
            found_views(found@) == formula_sites(*semantics),
            all.len() == found@.len(),
            whole == is_whole(*semantics),
            rewrite_views(plans@) == a + picked(all.take(i as int), true),
            manual_views(manual@) == b + picked(all.take(i as int), false),
        decreases found@.len() - i,
    {
        let own = if i == 0 && whole {
            version
        } else {
            None
        };
        let ghost (c, d) = (rewrite_views(plans@), manual_views(manual@));
        push_plan(&found[i], rule, site, own, plans, manual);
        proof {
            assert(found_views(found@)[i as int] == found@[i as int]@);
            let next = seq![all[i as int]];
            assert(all.take(i + 1) =~= all.take(i as int) + next);
            picked_joins(all.take(i as int), next, true);
            picked_joins(all.take(i as int), next, false);
            assert(rewrite_views(plans@) =~= a + picked(all.take(i + 1), true));
            assert(manual_views(manual@) =~= b + picked(all.take(i + 1), false));
        }
        i = i + 1;
    }
    assert(all.take(i as int) =~= all);
}

/// Plans `exactly_one` for every place that spells it out of plain facts. Others are reported,
/// for hands.
pub fn plan_rewrites(program: &Program) -> (r: (Vec<RewritePlan>, Vec<ManualSite>))
    ensures
        rewrite_views(r.0@) == picked(
            rules_plans(program.derived@, program.derived@.len()),
            true,
        ),
        manual_views(r.1@) == picked(
            rules_plans(program.derived@, program.derived@.len()),
            false,
        ),
{
    let rules = &program.derived;
    let mut plans: Vec<RewritePlan> = Vec::new();
    let mut manual: Vec<ManualSite> = Vec::new();
    let mut i: usize = 0;
    proof {
        assert(rewrite_views(plans@) =~= picked(rules_plans(rules@, 0), true));
        assert(manual_views(manual@) =~= picked(rules_plans(rules@, 0), false));
    }
    while i < rules.len()
        invariant
            i <= rules@.len(),
            rewrite_views(plans@) == picked(rules_plans(rules@, i as nat), true),
            manual_views(manual@) == picked(rules_plans(rules@, i as nat), false),
        decreases rules@.len() - i,
    {
        let rule = &rules[i];
        let ghost (a, b) = (rewrite_views(plans@), manual_views(manual@));
        if rule.versions.len() == 0 {
            plan_formula(
                &rule.semantics,
                rule.name.as_str(),
                "expr",
                None,
                &mut plans,
                &mut manual,
            );
        } else {
            let versions = &rule.versions;
            let mut k: usize = 0;
            proof {
                assert(a =~= a + picked(versions_plans(versions@, 0, rule.name@), true));
                assert(b =~= b + picked(versions_plans(versions@, 0, rule.name@), false));
            }
            while k < versions.len()
                invariant
                    k <= versions@.len(),
                    rewrite_views(plans@) == a + picked(
                        versions_plans(versions@, k as nat, rule.name@),
                        true,
                    ),
                    manual_views(manual@) == b + picked(
                        versions_plans(versions@, k as nat, rule.name@),
                        false,
                    ),
                decreases versions@.len() - k,
            {
                plan_formula(
                    &versions[k].semantics,
                    rule.name.as_str(),
                    version_site_text(k).as_str(),
                    Some(k),
                    &mut plans,
                    &mut manual,
                );
                proof {
                    let before = versions_plans(versions@, k as nat, rule.name@);
                    let own = formula_plans(
                        versions@[k as int].semantics,
                        rule.name@,
                        version_site(k as nat),
                        Some(k),
                    );
                    picked_joins(before, own, true);
                    picked_joins(before, own, false);
                    assert(versions_plans(versions@, (k + 1) as nat, rule.name@) == before + own);
                    assert(rewrite_views(plans@) =~= a + picked(before + own, true));
                    assert(manual_views(manual@) =~= b + picked(before + own, false));
                }
                k = k + 1;
            }
        }
        proof {
            picked_joins(rules_plans(rules@, i as nat), rule_plans(*rule), true);
            picked_joins(rules_plans(rules@, i as nat), rule_plans(*rule), false);
        }
        i = i + 1;
    }
    (plans, manual)
}

} // verus!
