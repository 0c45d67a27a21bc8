//! Rules pinned to a value by the caller.
use crate::catalog::{formula_slots, judgment_slots, rule_slots, scalar_slots, versions_slots};
use crate::date::Date;
use crate::dependencies::{
    formula_dependencies, judgment_dependencies, rule_dependencies, scalar_dependencies,
    versions_dependencies,
};
use crate::engine::{scalar_meaning, scalar_meaning_at, scalar_terminates};
use crate::error::ErrorView;
use crate::model::{
    derived_version_at, find_index, item_named, position_from, position_from_meaning, position_of, ComparisonOp, Derived,
    DerivedSemantics, DerivedVersion, JudgmentExpr, JudgmentOutcome, Program, ScalarExpr,
    ScalarValue,
};
use crate::semantics::{
    judgment_run, judgment_run_is_step, output_rounded, rule_formula, rule_scalar, rule_unrounded,
    scalar_run_is_step, values_compare, Facts,
};
use crate::schedule::{covers, is_schedule};
use crate::termination::{
    formula_needs, judgment_needs, program_needs, program_nodes, references_end, rule_needs,
    rule_node_needs, rule_nodes, scalar_needs, versions_needs,
};
use vstd::prelude::*;

verus! {

/// A rule and the value that it has for a request.
#[derive(Debug)]
pub struct RulePin {
    pub rule: String,
    pub value: ScalarValue,
}

/// Why a pin does not bind.
#[derive(Debug)]
pub enum PinError {
    UnknownPinnedRule { rule: String },
    JudgmentRuleNotPinnable { rule: String },
}

/// The model of a [`PinError`].
pub ghost enum PinErrorView {
    UnknownPinnedRule { rule: Seq<char> },
    JudgmentRuleNotPinnable { rule: Seq<char> },
}

impl PinError {
    pub open spec fn view(&self) -> PinErrorView {
        match *self {
            PinError::UnknownPinnedRule { rule } => PinErrorView::UnknownPinnedRule { rule: rule@ },
            PinError::JudgmentRuleNotPinnable { rule } => PinErrorView::JudgmentRuleNotPinnable {
                rule: rule@,
            },
        }
    }
}

/// Whether a condition compares zero with itself.
pub open spec fn is_always(e: JudgmentExpr) -> bool {
    match e {
        JudgmentExpr::Comparison { left, op, right } => {
            &&& left == ScalarExpr::Literal(ScalarValue::Integer(0))
            &&& op == ComparisonOp::Eq
            &&& right == ScalarExpr::Literal(ScalarValue::Integer(0))
        },
        _ => false,
    }
}

/// Whether a formula always takes the value, and keeps the original as the branch that is
/// not taken.
pub open spec fn is_pinned_expr(before: ScalarExpr, after: ScalarExpr, value: ScalarValue) -> bool {
    match after {
        ScalarExpr::If { condition, then_expr, else_expr } => {
            &&& is_always(*condition)
            &&& *then_expr == ScalarExpr::Literal(value)
            &&& *else_expr == before
        },
        _ => false,
    }
}

pub open spec fn is_pinned_formula(
    before: DerivedSemantics,
    after: DerivedSemantics,
    value: ScalarValue,
) -> bool {
    match (before, after) {
        (DerivedSemantics::Scalar(a), DerivedSemantics::Scalar(b)) => is_pinned_expr(a, b, value),
        _ => false,
    }
}

/// Whether a rule is pinned: its own formula and that of each version, with its dates.
pub open spec fn is_pinned_rule(before: Derived, after: Derived, value: ScalarValue) -> bool {
    &&& after == (Derived { semantics: after.semantics, versions: after.versions, ..before })
    &&& is_pinned_formula(before.semantics, after.semantics, value)
    &&& after.versions@.len() == before.versions@.len()
    &&& forall|i: int|
        0 <= i < before.versions@.len() ==> is_pinned_version(
            before.versions@[i],
            #[trigger] after.versions@[i],
            value,
        )
}

pub open spec fn is_pinned_version(
    before: DerivedVersion,
    after: DerivedVersion,
    value: ScalarValue,
) -> bool {
    &&& after.effective_from == before.effective_from
    &&& after.effective_to == before.effective_to
    &&& is_pinned_formula(before.semantics, after.semantics, value)
}

/// Whether a rule, or a version of it, is a judgment.
pub open spec fn judges(d: Derived) -> bool {
    d.semantics is Judgment || exists|i: int|
        0 <= i < d.versions@.len() && (#[trigger] d.versions@[i]).semantics is Judgment
}

/// Why a pin does not bind in a program.
pub open spec fn pin_fault(p: Program, rule: Seq<char>) -> Option<PinErrorView> {
    match item_named(p.derived@, rule) {
        None => Some(PinErrorView::UnknownPinnedRule { rule }),
        Some(d) => if judges(d) {
            Some(PinErrorView::JudgmentRuleNotPinnable { rule })
        } else {
            None
        },
    }
}

/// Whether a program differs from the earlier one in the pinned rule only.
pub open spec fn is_pinned(before: Program, after: Program, pin: RulePin) -> bool {
    match position_of(before.derived@, pin.rule@) {
        Some(i) => {
            &&& after == (Program { derived: after.derived, ..before })
            &&& after.derived@.len() == before.derived@.len()
            &&& is_pinned_rule(before.derived@[i as int], after.derived@[i as int], pin.value)
            &&& forall|j: int|
                0 <= j < before.derived@.len() && j != i ==> #[trigger] after.derived@[j]
                    == before.derived@[j]
        },
        None => false,
    }
}

/// Whether each program of the sequence is the one before it with the next pin.
pub open spec fn is_pinning(states: Seq<Program>, pins: Seq<RulePin>) -> bool {
    &&& 0 < states.len() <= pins.len() + 1
    &&& forall|k: int| 0 < k < states.len() ==> #[trigger] is_pin_step(states, pins, k)
}

/// Whether a program of the sequence is the one before it with the pin.
pub open spec fn is_pin_step(states: Seq<Program>, pins: Seq<RulePin>, k: int) -> bool {
    pin_fault(states[k - 1], pins[k - 1].rule@) is None && is_pinned(
        states[k - 1],
        states[k],
        pins[k - 1],
    )
}

/// What comes of pinning the rules of a program, one pin after the other.
pub open spec fn pinned_with(
    before: Program,
    pins: Seq<RulePin>,
    after: Program,
    r: Result<(), PinError>,
    states: Seq<Program>,
) -> bool {
    &&& is_pinning(states, pins)
    &&& states[0] == before
    &&& states.last() == after
    &&& match r {
        Ok(_) => states.len() == pins.len() + 1,
        Err(error) => states.len() <= pins.len() && pin_fault(after, pins[states.len() - 1].rule@)
            == Some(error@),
    }
}

fn pin_formula(semantics: &mut DerivedSemantics, value: &ScalarValue)
    ensures
        match *old(semantics) {
            DerivedSemantics::Scalar(_) => is_pinned_formula(
                *old(semantics),
                *final(semantics),
                *value,
            ),
            DerivedSemantics::Judgment(_) => *final(semantics) == *old(semantics),
        },
{
    let mut original = DerivedSemantics::Scalar(ScalarExpr::PeriodStart);
    core::mem::swap(semantics, &mut original);
    match original {
        DerivedSemantics::Scalar(e) => {
            let condition = JudgmentExpr::Comparison {
                left: ScalarExpr::Literal(ScalarValue::Integer(0)),
                op: ComparisonOp::Eq,
                right: ScalarExpr::Literal(ScalarValue::Integer(0)),
            };
            *semantics = DerivedSemantics::Scalar(
                ScalarExpr::If {
                    condition: Box::new(condition),
                    then_expr: Box::new(ScalarExpr::Literal(value.duplicate())),
                    else_expr: Box::new(e),
                },
            );
        },
        DerivedSemantics::Judgment(e) => {
            *semantics = DerivedSemantics::Judgment(e);
        },
    }
}

impl DerivedVersion {
    fn pin(&mut self, value: &ScalarValue)
        requires
            old(self).semantics is Scalar,
        ensures
            is_pinned_version(*old(self), *final(self), *value),
    {
        pin_formula(&mut self.semantics, value);
    }
}

impl Derived {
    fn is_judgment(&self) -> (r: bool)
        ensures
            r == judges(*self),
    {
        if matches!(self.semantics, DerivedSemantics::Judgment(_)) {
            return true;
        }
        let mut i: usize = 0;
        while i < self.versions.len()
            invariant
                i <= self.versions@.len(),
                forall|j: int| 0 <= j < i ==> !((#[trigger] self.versions@[j]).semantics is Judgment),
            decreases self.versions@.len() - i,
        {
            if matches!(self.versions[i].semantics, DerivedSemantics::Judgment(_)) {
                return true;
            }
            i = i + 1;
        }
        false
    }

    fn pin(&mut self, value: &ScalarValue)
        requires
            !judges(*old(self)),
        ensures
            is_pinned_rule(*old(self), *final(self), *value),
    {
        let ghost before = *self;
        pin_formula(&mut self.semantics, value);
        let mut i: usize = 0;
        while i < self.versions.len()
            invariant
                i <= self.versions@.len(),
                !judges(before),
                before == *old(self),
                *self == (Derived { semantics: self.semantics, versions: self.versions, ..before }),
                is_pinned_formula(before.semantics, self.semantics, *value),
                self.versions@.len() == before.versions@.len(),
                forall|j: int|
                    i <= j < before.versions@.len() ==> #[trigger] self.versions@[j]
                        == before.versions@[j],
                forall|j: int|
                    0 <= j < i ==> is_pinned_version(
                        before.versions@[j],
                        #[trigger] self.versions@[j],
                        *value,
                    ),
            decreases self.versions@.len() - i,
        {
            assert(self.versions@[i as int] == before.versions@[i as int]);
            self.versions[i].pin(value);
            i = i + 1;
        }
    }
}

/// Pins rules: each takes its value wherever it applies. The original formulas stay as
/// branches that are not taken, so that what the program refers to does not change. A pin
/// that names no rule, or a judgment, is an error.
pub fn apply_pins(program: &mut Program, pins: &Vec<RulePin>) -> (r: Result<(), PinError>)
    ensures
        exists|states: Seq<Program>| #[trigger]
            pinned_with(*old(program), pins@, *final(program), r, states),
{
    let ghost mut states: Seq<Program> = seq![*program];
    let mut i: usize = 0;
    while i < pins.len()
        invariant
            i <= pins@.len(),
            is_pinning(states, pins@),
            states.len() == i + 1,
            states[0] == *old(program),
            states.last() == *program,
        decreases pins@.len() - i,
    {
        let pin = &pins[i];
        let at: usize = match find_index(&program.derived, pin.rule.as_str()) {
            Some(at) => at,
            None => {
                let r: Result<(), PinError> = Err(
                    PinError::UnknownPinnedRule { rule: pin.rule.clone() },
                );
                assert(pinned_with(*old(program), pins@, *program, r, states));
                return r;
            },
        };
        if program.derived[at].is_judgment() {
            let r: Result<(), PinError> = Err(
                PinError::JudgmentRuleNotPinnable { rule: pin.rule.clone() },
            );
            assert(pinned_with(*old(program), pins@, *program, r, states));
            return r;
        }
        let ghost before = *program;
        program.derived[at].pin(&pin.value);
        proof {
            assert(is_pinned(before, *program, *pin));
            let longer = states.push(*program);
            assert forall|k: int| 0 < k < longer.len() implies #[trigger] is_pin_step(
                longer,
                pins@,
                k,
            ) by {
                if k < states.len() {
                    assert(is_pin_step(states, pins@, k));
                    assert(longer[k] == states[k]);
                    assert(longer[k - 1] == states[k - 1]);
                } else {
                    assert(item_named(before.derived@, pin.rule@) == Some(
                        before.derived@[at as int],
                    ));
                }
            }
            assert(is_pinning(longer, pins@));
            states = longer;
        }
        i = i + 1;
    }
    let r: Result<(), PinError> = Ok(());
    assert(pinned_with(*old(program), pins@, *program, r, states));
    r
}

proof fn pinned_version_at(
    before: Seq<DerivedVersion>,
    after: Seq<DerivedVersion>,
    value: ScalarValue,
    date: Date,
    n: nat,
)
    requires
        n <= before.len(),
        after.len() == before.len(),
        forall|i: int|
            0 <= i < before.len() ==> is_pinned_version(before[i], #[trigger] after[i], value),
    ensures
        derived_version_at(after, date, n) == derived_version_at(before, date, n),
        derived_version_at(after, date, n) matches Some(i) ==> i < n,
    decreases n,
{
    if n > 0 {
        pinned_version_at(before, after, value, date, (n - 1) as nat);
        assert(is_pinned_version(before[n - 1], after[n - 1], value));
    }
}

proof fn always_holds(cx: Facts, fuel: nat, e: JudgmentExpr, ent: Seq<char>)
    requires
        is_always(e),
    ensures
        match judgment_run(cx, fuel, e, ent, None) {
            Some(run) => run.value == Ok::<JudgmentOutcome, ErrorView>(JudgmentOutcome::Holds),
            None => false,
        },
{
    judgment_run_is_step(cx, fuel, e, ent, None);
    let zero = ScalarValue::Integer(0);
    scalar_run_is_step(cx, fuel, ScalarExpr::Literal(zero), ent, None);
    assert(values_compare(zero, ComparisonOp::Eq, zero) == Ok::<bool, ErrorView>(true));
}

/// A pinned rule has the pinned value, rounded as the rule declares, for every entity
/// wherever the rule applies.
pub proof fn pinned_rule_has_its_value(
    before: Derived,
    cx: Facts,
    name: Seq<char>,
    value: ScalarValue,
    ent: Seq<char>,
)
    requires
        cx.program.rule(name) is Some,
        is_pinned_rule(before, cx.program.rule(name)->Some_0, value),
        rule_formula(cx, name) is Ok,
    ensures
        scalar_terminates(cx, name, ent),
        scalar_meaning(cx, name, ent).value == Ok::<ScalarValue, ErrorView>(
            output_rounded(before.rounding, value),
        ),
{
    let d = cx.program.rule(name)->Some_0;
    pinned_version_at(
        before.versions@,
        d.versions@,
        value,
        cx.period.start,
        d.versions@.len(),
    );
    let formula = d.formula_at(cx.period.start)->Some_0;
    assert(formula is Scalar) by {
        if d.versions@.len() > 0 {
            let i = derived_version_at(d.versions@, cx.period.start, d.versions@.len())->Some_0;
            assert(is_pinned_version(before.versions@[i as int], d.versions@[i as int], value));
        }
    }
    let e = formula->Scalar_0;
    if let ScalarExpr::If { condition, then_expr, else_expr } = e {
        scalar_run_is_step(cx, 0, e, ent, None);
        always_holds(cx, 0, *condition, ent);
        scalar_run_is_step(cx, 0, *then_expr, ent, None);
        assert(rule_unrounded(cx, 0, name, ent)->Some_0.value == Ok::<ScalarValue, ErrorView>(
            value,
        ));
        assert(rule_scalar(cx, 0, name, ent) is Some);
        scalar_meaning_at(cx, 0, name, ent);
    }
}

proof fn pinned_formula_surface(
    before: DerivedSemantics,
    after: DerivedSemantics,
    value: ScalarValue,
    p: Program,
)
    requires
        is_pinned_formula(before, after, value),
    ensures
        formula_slots(after) == formula_slots(before),
        formula_dependencies(after, p) == formula_dependencies(before, p),
{
    let (a, b) = (before->Scalar_0, after->Scalar_0);
    if let ScalarExpr::If { condition, then_expr, else_expr } = b {
        let zero = ScalarExpr::Literal(ScalarValue::Integer(0));
        assert(scalar_slots(zero) =~= Seq::empty());
        assert(scalar_slots(*then_expr) =~= Seq::empty());
        assert(judgment_slots(*condition) =~= Seq::empty());
        assert(scalar_slots(b) =~= scalar_slots(a));
        assert(scalar_dependencies(zero, p, true) =~= Seq::empty());
        assert(scalar_dependencies(*then_expr, p, true) =~= Seq::empty());
        assert(judgment_dependencies(*condition, p, true) =~= Seq::empty());
        assert(scalar_dependencies(b, p, true) =~= scalar_dependencies(a, p, true));
    }
}

proof fn pinned_versions_surface(
    before: Seq<DerivedVersion>,
    after: Seq<DerivedVersion>,
    value: ScalarValue,
    p: Program,
    n: nat,
)
    requires
        n <= before.len(),
        after.len() == before.len(),
        forall|i: int|
            0 <= i < before.len() ==> is_pinned_version(before[i], #[trigger] after[i], value),
    ensures
        versions_slots(after, n) == versions_slots(before, n),
        versions_dependencies(after, n, p) == versions_dependencies(before, n, p),
    decreases n,
{
    if n > 0 {
        pinned_versions_surface(before, after, value, p, (n - 1) as nat);
        assert(is_pinned_version(before[n - 1], after[n - 1], value));
        pinned_formula_surface(before[n - 1].semantics, after[n - 1].semantics, value, p);
    }
}

/// A pin leaves what a rule reads and depends on as it is.
pub proof fn pin_keeps_references(before: Derived, after: Derived, value: ScalarValue, p: Program)
    requires
        is_pinned_rule(before, after, value),
    ensures
        rule_slots(after) == rule_slots(before),
        rule_dependencies(after, p) == rule_dependencies(before, p),
{
    pinned_formula_surface(before.semantics, after.semantics, value, p);
    pinned_versions_surface(
        before.versions@,
        after.versions@,
        value,
        p,
        before.versions@.len(),
    );
}

proof fn pinned_formula_needs(
    before: DerivedSemantics,
    after: DerivedSemantics,
    value: ScalarValue,
)
    requires
        is_pinned_formula(before, after, value),
    ensures
        formula_needs(after) == formula_needs(before),
{
    let (a, b) = (before->Scalar_0, after->Scalar_0);
    if let ScalarExpr::If { condition, then_expr, else_expr } = b {
        let zero = ScalarExpr::Literal(ScalarValue::Integer(0));
        assert(scalar_needs(zero) =~= Seq::empty());
        assert(scalar_needs(*then_expr) =~= Seq::empty());
        assert(judgment_needs(*condition) =~= Seq::empty());
        assert(scalar_needs(b) =~= scalar_needs(a));
    }
}

proof fn pinned_versions_needs(
    before: Seq<DerivedVersion>,
    after: Seq<DerivedVersion>,
    value: ScalarValue,
    n: nat,
)
    requires
        n <= before.len(),
        after.len() == before.len(),
        forall|i: int|
            0 <= i < before.len() ==> is_pinned_version(before[i], #[trigger] after[i], value),
    ensures
        versions_needs(after, n) == versions_needs(before, n),
    decreases n,
{
    if n > 0 {
        pinned_versions_needs(before, after, value, (n - 1) as nat);
        assert(is_pinned_version(before[n - 1], after[n - 1], value));
        pinned_formula_needs(before[n - 1].semantics, after[n - 1].semantics, value);
    }
}

proof fn same_positions(before: Seq<Derived>, after: Seq<Derived>, name: Seq<char>, from: nat)
    requires
        after.len() == before.len(),
        forall|i: int| 0 <= i < before.len() ==> (#[trigger] after[i]).name@ == before[i].name@,
    ensures
        position_from(after, name, from) == position_from(before, name, from),
    decreases before.len() - from,
{
    if from < before.len() {
        assert(after[from as int].name@ == before[from as int].name@);
        same_positions(before, after, name, from + 1);
    }
}

proof fn same_nodes(before: Seq<Derived>, after: Seq<Derived>, n: nat)
    requires
        n <= before.len(),
        after.len() == before.len(),
        forall|i: int| 0 <= i < before.len() ==> (#[trigger] after[i]).name@ == before[i].name@,
        forall|i: int|
            0 <= i < before.len() ==> rule_needs(#[trigger] after[i]) == rule_needs(before[i]),
    ensures
        rule_nodes(after, n) == rule_nodes(before, n),
        rule_node_needs(after, n) == rule_node_needs(before, n),
    decreases n,
{
    if n > 0 {
        same_nodes(before, after, (n - 1) as nat);
        same_positions(before, after, before[n - 1].name@, 0);
        assert(after[n - 1].name@ == before[n - 1].name@);
    }
}

/// A pin leaves references that end ending.
pub proof fn pin_keeps_ending(before: Program, after: Program, pin: RulePin)
    requires
        references_end(before),
        is_pinned(before, after, pin),
    ensures
        references_end(after),
{
    let at = position_of(before.derived@, pin.rule@)->Some_0 as int;
    let (a, b) = (before.derived@, after.derived@);
    position_from_meaning(a, pin.rule@, 0);
    pinned_formula_needs(a[at].semantics, b[at].semantics, pin.value);
    pinned_versions_needs(a[at].versions@, b[at].versions@, pin.value, a[at].versions@.len());
    assert forall|i: int| 0 <= i < a.len() implies rule_needs(#[trigger] b[i]) == rule_needs(
        a[i],
    ) by {
        if i != at {
            assert(b[i] == a[i]);
        }
    }
    assert forall|i: int| 0 <= i < a.len() implies (#[trigger] b[i]).name@ == a[i].name@ by {
        if i != at {
            assert(b[i] == a[i]);
        }
    }
    same_nodes(a, b, a.len());
    let order = choose|order: Seq<Seq<char>>| #[trigger]
        is_schedule(program_nodes(before), program_needs(before), order) && covers(
            program_nodes(before),
            order,
        );
    assert(program_nodes(after) == program_nodes(before));
    assert(program_needs(after) == program_needs(before));
    assert(is_schedule(program_nodes(after), program_needs(after), order));
}

/// Pins leave references that end ending.
pub proof fn pins_keep_ending(states: Seq<Program>, pins: Seq<RulePin>, k: int)
    requires
        is_pinning(states, pins),
        references_end(states[0]),
        0 <= k < states.len(),
    ensures
        references_end(states[k]),
    decreases k,
{
    if k > 0 {
        pins_keep_ending(states, pins, k - 1);
        assert(is_pin_step(states, pins, k));
        pin_keeps_ending(states[k - 1], states[k], pins[k - 1]);
    }
}

} // verus!
