//! Laws of pinning rules one after the other.
use crate::model::{
    position_from_meaning, position_of, same_positions, ComparisonOp, Derived, DerivedSemantics,
    JudgmentExpr, Program, ScalarExpr, ScalarValue,
};
use crate::pins::{
    is_pin_step, is_pinned, is_pinned_rule, is_pinned_version, judges, pin_fault, pinned_with,
    PinError, PinErrorView, RulePin,
};
use vstd::prelude::*;

verus! {

/// Whether a rule has numbers throughout, in its formula and in each version.
pub open spec fn is_scalar(d: Derived) -> bool {
    d.semantics is Scalar && forall|i: int|
        0 <= i < d.versions@.len() ==> (#[trigger] d.versions@[i]).semantics is Scalar
}

/// Whether a formula is the value, by a choice whose condition compares a number with itself.
pub open spec fn takes(s: DerivedSemantics, value: ScalarValue) -> bool {
    s matches DerivedSemantics::Scalar(ScalarExpr::If { condition, then_expr, .. }) && {
        &&& *then_expr == ScalarExpr::Literal(value)
        &&& *condition matches JudgmentExpr::Comparison { left, op, right } && left == right
            && left is Literal && op == ComparisonOp::Eq
    }
}

/// Whether the rule that a pin names takes the value of the pin, in its formula and in each version.
pub open spec fn bears(p: Program, pin: RulePin) -> bool {
    p.rule(pin.rule@) matches Some(d) && takes(d.semantics, pin.value) && forall|i: int|
        0 <= i < d.versions@.len() ==> takes((#[trigger] d.versions@[i]).semantics, pin.value)
}

/// Whether a rule of a name can be pinned.
pub open spec fn can_be_pinned(p: Program, name: Seq<char>) -> bool {
    p.rule(name) matches Some(d) && is_scalar(d)
}

/// Whether one of the first pins names a rule.
pub open spec fn is_named(pins: Seq<RulePin>, name: Seq<char>, n: int) -> bool {
    exists|i: int| 0 <= i < n && (#[trigger] pins[i]).rule@ == name
}

/// Whether a pin is the last of the first ones that names its rule.
pub open spec fn is_last_for_its_rule(pins: Seq<RulePin>, k: int, n: int) -> bool {
    0 <= k < n && forall|j: int| k < j < n ==> (#[trigger] pins[j]).rule@ != pins[k].rule@
}

proof fn fault_is(p: Program, name: Seq<char>)
    ensures
        pin_fault(p, name) is None <==> can_be_pinned(p, name),
{
    if let Some(d) = p.rule(name) {
        if judges(d) && d.semantics is Scalar {
            let i = choose|i: int|
                0 <= i < d.versions@.len() && (#[trigger] d.versions@[i]).semantics is Judgment;
            assert(d.versions@[i].semantics is Judgment);
        }
        if !judges(d) {
            assert forall|i: int| 0 <= i < d.versions@.len() implies (
            #[trigger] d.versions@[i]).semantics is Scalar by {
                assert(!(d.versions@[i].semantics is Judgment));
            }
        }
    }
}

proof fn one_step(a: Program, b: Program, pin: RulePin)
    requires
        is_pinned(a, b, pin),
    ensures
        forall|name: Seq<char>| name != pin.rule@ ==> #[trigger] b.rule(name) == a.rule(name),
        bears(b, pin),
        forall|name: Seq<char>| #[trigger] can_be_pinned(b, name) ==> can_be_pinned(a, name),
        can_be_pinned(a, pin.rule@),
        can_be_pinned(b, pin.rule@),
        forall|name: Seq<char>| #[trigger] b.rule(name) is None <==> a.rule(name) is None,
{
    let i = position_of(a.derived@, pin.rule@)->Some_0 as int;
    position_from_meaning(a.derived@, pin.rule@, 0);
    assert forall|j: int| 0 <= j < a.derived@.len() implies (#[trigger] b.derived@[j]).name
        == a.derived@[j].name by {
        if j == i {
            assert(is_pinned_rule(a.derived@[j], b.derived@[j], pin.value));
        }
    }
    assert forall|name: Seq<char>| name != pin.rule@ implies #[trigger] b.rule(name) == a.rule(
        name,
    ) by {
        same_positions(a.derived@, b.derived@, name, 0);
        position_from_meaning(a.derived@, name, 0);
    }
    same_positions(a.derived@, b.derived@, pin.rule@, 0);
    let before = a.derived@[i];
    let after = b.derived@[i];
    assert(b.rule(pin.rule@) == Some(after));
    assert(a.rule(pin.rule@) == Some(before));
    assert forall|k: int| 0 <= k < after.versions@.len() implies takes(
        (#[trigger] after.versions@[k]).semantics,
        pin.value,
    ) by {
        assert(is_pinned_version(before.versions@[k], after.versions@[k], pin.value));
    }
    assert forall|k: int| 0 <= k < before.versions@.len() implies (
    #[trigger] before.versions@[k]).semantics is Scalar by {
        assert(is_pinned_version(before.versions@[k], after.versions@[k], pin.value));
    }
    assert(is_scalar(before));
    assert(is_scalar(after));
    assert forall|name: Seq<char>| #[trigger] can_be_pinned(b, name) implies can_be_pinned(
        a,
        name,
    ) by {
        if name != pin.rule@ {
            assert(b.rule(name) == a.rule(name));
        }
    }
    assert forall|name: Seq<char>| #[trigger] b.rule(name) is None <==> a.rule(name) is None by {
        if name != pin.rule@ {
            assert(b.rule(name) == a.rule(name));
        }
    }
}

proof fn steps(
    before: Program,
    pins: Seq<RulePin>,
    states: Seq<Program>,
    k: int,
)
    requires
        crate::pins::is_pinning(states, pins),
        states[0] == before,
        0 <= k < states.len(),
    ensures
        forall|name: Seq<char>| #[trigger]
            can_be_pinned(states[k], name) <==> can_be_pinned(before, name),
        forall|name: Seq<char>| #[trigger] states[k].rule(name) is None <==> before.rule(name) is None,
        forall|name: Seq<char>|
            !is_named(pins, name, k) ==> #[trigger] states[k].rule(name) == before.rule(name),
        forall|j: int| #[trigger] is_last_for_its_rule(pins, j, k) ==> bears(states[k], pins[j]),
        forall|j: int| 0 <= j < k ==> can_be_pinned(before, (#[trigger] pins[j]).rule@),
    decreases k,
{
    if k > 0 {
        steps(before, pins, states, k - 1);
        assert(is_pin_step(states, pins, k));
        let a = states[k - 1];
        let b = states[k];
        let pin = pins[k - 1];
        one_step(a, b, pin);
        assert(can_be_pinned(before, pin.rule@)) by {
            assert(can_be_pinned(a, pin.rule@));
        }
        assert forall|name: Seq<char>| #[trigger] can_be_pinned(b, name) <==> can_be_pinned(
            before,
            name,
        ) by {
            if name != pin.rule@ {
                assert(b.rule(name) == a.rule(name));
                assert(can_be_pinned(a, name) <==> can_be_pinned(before, name));
            }
        }
        assert forall|name: Seq<char>| #[trigger] b.rule(name) is None <==> before.rule(
            name,
        ) is None by {
            assert(a.rule(name) is None <==> before.rule(name) is None);
        }
        assert forall|name: Seq<char>| !is_named(pins, name, k) implies #[trigger] b.rule(name)
            == before.rule(name) by {
            if pin.rule@ == name {
                assert(is_named(pins, name, k));
            }
            if is_named(pins, name, k - 1) {
                let i = choose|i: int| 0 <= i < k - 1 && (#[trigger] pins[i]).rule@ == name;
                assert(pins[i].rule@ == name);
                assert(is_named(pins, name, k));
            }
            assert(a.rule(name) == before.rule(name));
        }
        assert forall|j: int| #[trigger] is_last_for_its_rule(pins, j, k) implies bears(
            b,
            pins[j],
        ) by {
            if j < k - 1 {
                assert(pins[k - 1].rule@ != pins[j].rule@);
                assert(is_last_for_its_rule(pins, j, k - 1));
                assert(bears(a, pins[j]));
                assert(b.rule(pins[j].rule@) == a.rule(pins[j].rule@));
            }
        }
    }
}

/// Pins bind exactly where each names a scalar rule of the program; the first one that does not is
/// the one that is refused, for the rule that is missing or for the judgment. Where they bind, the
/// rules that none of them names are as before, and each other rule takes the value of the last pin
/// that names it.
pub proof fn the_last_pin_of_a_rule_binds(
    before: Program,
    pins: Seq<RulePin>,
    after: Program,
    r: Result<(), PinError>,
    states: Seq<Program>,
)
    requires
        pinned_with(before, pins, after, r, states),
    ensures
        r is Ok <==> forall|k: int|
            0 <= k < pins.len() ==> can_be_pinned(before, (#[trigger] pins[k]).rule@),
        r matches Err(error) ==> exists|k: int|
            0 <= k < pins.len() && !can_be_pinned(before, (#[trigger] pins[k]).rule@) && (forall|j: int|
                0 <= j < k ==> can_be_pinned(before, (#[trigger] pins[j]).rule@)) && error@ == (
            if before.rule(pins[k].rule@) is None {
                PinErrorView::UnknownPinnedRule { rule: pins[k].rule@ }
            } else {
                PinErrorView::JudgmentRuleNotPinnable { rule: pins[k].rule@ }
            }),
        r is Ok ==> forall|name: Seq<char>|
            !is_named(pins, name, pins.len() as int) ==> #[trigger] after.rule(name) == before.rule(
                name,
            ),
        r is Ok ==> forall|k: int| #[trigger]
            is_last_for_its_rule(pins, k, pins.len() as int) ==> bears(after, pins[k]),
{
    let n = states.len() - 1;
    steps(before, pins, states, n);
    if let Err(error) = r {
        let name = pins[n].rule@;
        fault_is(after, name);
        assert(!can_be_pinned(states[n], name));
        assert(after.rule(name) is None <==> before.rule(name) is None);
        assert(!can_be_pinned(before, pins[n].rule@));
    }
}

} // verus!
