//! Laws of typing the relations of an artifact as its rules use them, and of pinning its rules.
use crate::laws::parts::{few, gathered, many, row_parts, Part};
use crate::migrate::{
    contradicted, executed_kinds, first_failure, open_lines, override_at, retyped,
    retyped_relation, shorter, shown, step_at, typing_step, RelationOverride,
};
use crate::model::{
    item_named, position_from_meaning, position_of, JudgmentExpr, Named, Program, ScalarExpr,
    ScalarValue,
};
use crate::pins::{
    is_pinned, is_pinned_rule, pin_fault, pinned_rule_has_its_value, PinErrorView, RulePin,
};
use crate::engine::scalar_meaning;
use crate::error::ErrorView;
use crate::semantics::{rule_formula, Facts};
use crate::text::texts;
use crate::usages::{
    agreed_kind, judgment_usages, judgment_usagess, kinds_at, scalar_usages, scalar_usagess,
    UsageView,
};
use vstd::prelude::*;

verus! {

/// Whether a use of the relation has rows of the kind on the slot.
pub open spec fn uses_for(u: UsageView, relation: Seq<char>, slot: int, kind: Seq<char>) -> bool {
    &&& u.relation == relation
    &&& slot < u.slots.len()
    &&& u.slots[slot] == Some(kind)
}

proof fn kinds_at_are(usages: Seq<UsageView>, relation: Seq<char>, slot: int, n: nat, kind: Seq<char>)
    requires
        n <= usages.len(),
        slot >= 0,
    ensures
        kinds_at(usages, relation, slot, n).contains(kind) <==> exists|i: int|
            0 <= i < n && uses_for(#[trigger] usages[i], relation, slot, kind),
    decreases n,
{
    if n > 0 {
        let m = (n - 1) as nat;
        kinds_at_are(usages, relation, slot, m, kind);
        let before = kinds_at(usages, relation, slot, m);
        let all = kinds_at(usages, relation, slot, n);
        if all.contains(kind) {
            let i = all.index_of(kind);
            if i < before.len() {
                assert(before[i] == kind);
                assert(before.contains(kind));
            } else {
                assert(uses_for(usages[n - 1], relation, slot, kind));
            }
        }
        if before.contains(kind) {
            let i = before.index_of(kind);
            assert(all[i] == kind);
        }
        if uses_for(usages[n - 1], relation, slot, kind) {
            assert(all.last() == kind);
        }
    }
}

/// The uses of a relation agree on the kind of a slot exactly where one has rows of that kind there,
/// and none has rows of another.
pub proof fn uses_agree_on_the_one_kind_that_they_have(
    usages: Seq<UsageView>,
    relation: Seq<char>,
    slot: int,
    kind: Seq<char>,
)
    requires
        slot >= 0,
    ensures
        agreed_kind(usages, relation, slot) == Some(kind) <==> {
            &&& exists|i: int|
                0 <= i < usages.len() && uses_for(#[trigger] usages[i], relation, slot, kind)
            &&& forall|i: int, other: Seq<char>|
                0 <= i < usages.len() && #[trigger] uses_for(usages[i], relation, slot, other)
                    ==> other == kind
        },
{
    let n = usages.len();
    let kinds = kinds_at(usages, relation, slot, n);
    assert forall|other: Seq<char>| #[trigger] kinds.contains(other) <==> exists|i: int|
        0 <= i < n && uses_for(#[trigger] usages[i], relation, slot, other) by {
        kinds_at_are(usages, relation, slot, n, other);
    }
    if agreed_kind(usages, relation, slot) == Some(kind) {
        assert(kinds[0] == kind);
        assert(kinds.contains(kind));
        assert forall|i: int, other: Seq<char>|
            0 <= i < n && #[trigger] uses_for(usages[i], relation, slot, other) implies other
            == kind by {
            assert(kinds.contains(other));
        }
    }
    if (exists|i: int| 0 <= i < n && uses_for(#[trigger] usages[i], relation, slot, kind))
        && forall|i: int, other: Seq<char>|
        0 <= i < n && #[trigger] uses_for(usages[i], relation, slot, other) ==> other == kind {
        assert(kinds.contains(kind));
        assert forall|j: int| 0 <= j < kinds.len() implies #[trigger] kinds[j] == kind by {
            assert(kinds.contains(kinds[j]));
            let i = choose|i: int|
                0 <= i < n && uses_for(#[trigger] usages[i], relation, slot, kinds[j]);
            assert(uses_for(usages[i], relation, slot, kinds[j]));
        }
    }
}

/// The uses of relations in a formula, evaluated on rows of an entity. `rows` has the kinds of the
/// two rows that the test of a derived relation is evaluated on.
pub open spec fn uses(
    q: Part,
    p: Program,
    entity: Option<Seq<char>>,
    rule: Seq<char>,
    rows: Option<(Option<Seq<char>>, Option<Seq<char>>)>,
) -> Seq<UsageView> {
    match q {
        Part::Scalar(e) => scalar_usages(e, p, entity, rule),
        Part::Judgment(e) => judgment_usages(e, p, entity, rule, rows),
    }
}

/// Whether a formula neither aggregates nor tests membership.
pub open spec fn uses_nothing_itself(q: Part) -> bool {
    match q {
        Part::Scalar(e) => !(e is CountRelated) && !(e is SumRelated),
        Part::Judgment(e) => !(e is RelationMember),
    }
}

/// A formula that neither aggregates nor tests membership uses the relations that its parts use, on
/// rows of the same entity.
pub proof fn a_formula_uses_the_relations_of_its_parts(
    q: Part,
    p: Program,
    entity: Option<Seq<char>>,
    rule: Seq<char>,
    rows: Option<(Option<Seq<char>>, Option<Seq<char>>)>,
)
    requires
        uses_nothing_itself(q),
    ensures
        ({
            let inner = if q is Scalar {
                None
            } else {
                rows
            };
            uses(q, p, entity, rule, rows) == gathered(
                row_parts(q),
                |x: Part| uses(x, p, entity, rule, inner),
            )
        }),
{
    let inner = if q is Scalar {
        None
    } else {
        rows
    };
    let of = |x: Part| uses(x, p, entity, rule, inner);
    let list = row_parts(q);
    few(list, of);
    match q {
        Part::Scalar(e) => match e {
            ScalarExpr::Add(items) | ScalarExpr::Max(items) | ScalarExpr::Min(items) => {
                many(list, of, |n: nat| scalar_usagess(items@, n, p, entity, rule), list.len());
                assert(list.take(list.len() as int) =~= list);
            },
            _ => {},
        },
        Part::Judgment(e) => match e {
            JudgmentExpr::And(items) | JudgmentExpr::Or(items) => {
                many(
                    list,
                    of,
                    |n: nat| judgment_usagess(items@, n, p, entity, rule, rows),
                    list.len(),
                );
                assert(list.take(list.len() as int) =~= list);
            },
            _ => {},
        },
    }
    assert(uses(q, p, entity, rule, rows) =~= gathered(list, of));
}

proof fn uncontradicted(kinds: Seq<Seq<char>>, executed: Seq<Option<Seq<char>>>, n: nat)
    requires
        n <= kinds.len(),
        n <= executed.len(),
    ensures
        match contradicted(kinds, executed, n) {
            None => forall|slot: int|
                0 <= slot < n ==> ((#[trigger] executed[slot]) matches Some(kind) ==> kind
                    == kinds[slot]),
            Some(slot) => slot < n && (executed[slot as int] matches Some(kind) && kind
                != kinds[slot as int]),
        },
    decreases n,
{
    if n > 0 {
        uncontradicted(kinds, executed, (n - 1) as nat);
    }
}

proof fn nothing_fails(
    p: Program,
    overrides: Seq<RelationOverride>,
    targets: Seq<Seq<char>>,
    n: nat,
    i: int,
)
    requires
        0 <= i < n <= p.relations@.len(),
        first_failure(p, overrides, targets, n) is None,
        open_lines(p, overrides, targets, n).len() == 0,
    ensures
        !(step_at(p, overrides, targets, i) is Fail),
        !(step_at(p, overrides, targets, i) is Open),
    decreases n,
{
    if i < n - 1 {
        nothing_fails(p, overrides, targets, (n - 1) as nat, i);
    }
}

proof fn last_override(targets: Seq<Seq<char>>, relation: Seq<char>, n: nat)
    requires
        n <= targets.len(),
    ensures
        match override_at(targets, relation, n) {
            Some(k) => k < n && targets[k as int] == relation && forall|j: int|
                k < j < n ==> #[trigger] targets[j] != relation,
            None => forall|j: int| 0 <= j < n ==> #[trigger] targets[j] != relation,
        },
    decreases n,
{
    if n > 0 {
        last_override(targets, relation, (n - 1) as nat);
    }
}

/// Whether kinds agree with those of the rows that rules read, where these are known.
pub open spec fn agrees_with_use(
    kinds: Seq<Seq<char>>,
    used: Option<Seq<Option<Seq<char>>>>,
) -> bool {
    used matches Some(e) ==> forall|slot: int|
        0 <= slot < e.len() && slot < kinds.len() ==> ((#[trigger] e[slot]) matches Some(kind)
            ==> kind == kinds[slot])
}

/// Where the relations of a program are typed, nothing but the kinds of data relations changes. A
/// relation that was given kinds has the ones that it was given last, one for each slot; one that
/// declares kinds keeps them; another that rules use has the kinds of the rows that they read, one
/// for each slot; and one that no rule uses is left as it is. No kind goes against a use.
pub proof fn relations_are_typed_as_given_or_as_used(
    p: Program,
    overrides: Seq<RelationOverride>,
    targets: Seq<Seq<char>>,
    after: Program,
    i: int,
)
    requires
        retyped(p, overrides, targets, after),
        first_failure(p, overrides, targets, p.relations@.len()) is None,
        open_lines(p, overrides, targets, p.relations@.len()).len() == 0,
        0 <= i < p.relations@.len(),
    ensures
        after.derived == p.derived && after.parameters == p.parameters && after.units == p.units,
        after.relations@.len() == p.relations@.len(),
        ({
            let (a, b) = (p.relations@[i], after.relations@[i]);
            let used = executed_kinds(p, a.name@);
            let kinds = texts(b.slot_entities@);
            &&& b.name == a.name && b.arity == a.arity && b.derivation == a.derivation
            &&& a.derivation is Some ==> b == a
            &&& a.derivation is None ==> {
                &&& forall|k: int|
                    0 <= k < targets.len() && #[trigger] targets[k] == a.name@ && (forall|j: int|
                        k < j < targets.len() ==> #[trigger] targets[j] != a.name@) ==> {
                        &&& kinds == texts(overrides[k].kinds@)
                        &&& kinds.len() == a.arity
                        &&& agrees_with_use(kinds, used)
                    }
                &&& (forall|k: int| 0 <= k < targets.len() ==> #[trigger] targets[k] != a.name@)
                    ==> match used {
                    None => b == a,
                    Some(e) => {
                        &&& agrees_with_use(kinds, used)
                        &&& a.slot_entities@.len() > 0 ==> b == a
                        &&& a.slot_entities@.len() == 0 ==> {
                            &&& kinds.len() == a.arity
                            &&& e.len() == a.arity
                            &&& forall|slot: int|
                                0 <= slot < e.len() ==> #[trigger] e[slot] == Some(kinds[slot])
                        }
                    },
                }
            }
        }),
{
    let (a, b) = (p.relations@[i], after.relations@[i]);
    let used = executed_kinds(p, a.name@);
    let step = step_at(p, overrides, targets, i);
    nothing_fails(p, overrides, targets, p.relations@.len(), i);
    last_override(targets, a.name@, targets.len());
    assert(retyped_relation(a, b, step));
    let given = match override_at(targets, a.name@, targets.len()) {
        Some(k) => Some(texts(overrides[k as int].kinds@)),
        None => None,
    };
    assert(step == typing_step(a, given, used));
    let declared = texts(a.slot_entities@);
    if let Some(e) = used {
        if let Some(kinds) = given {
            uncontradicted(kinds, e, shorter(kinds.len(), e.len()));
        } else {
            uncontradicted(declared, e, shorter(declared.len(), e.len()));
            if a.derivation is None && declared.len() == 0 {
                assert(texts(b.slot_entities@) == shown(e));
                assert forall|slot: int| 0 <= slot < e.len() implies #[trigger] e[slot] == Some(
                    texts(b.slot_entities@)[slot],
                ) by {
                    assert(shown(e)[slot] == e[slot]->Some_0);
                }
            }
        }
    }
}

/// A pin is refused exactly where no rule has its name, or the rule or a version of it is a
/// judgment.
pub proof fn a_pin_needs_a_scalar_rule(p: Program, rule: Seq<char>)
    ensures
        match item_named(p.derived@, rule) {
            None => {
                &&& pin_fault(p, rule) == Some(PinErrorView::UnknownPinnedRule { rule })
                &&& forall|i: int| 0 <= i < p.derived@.len() ==> (#[trigger] p.derived@[i]).name@ != rule
            },
            Some(d) => {
                &&& d.name@ == rule
                &&& pin_fault(p, rule) is None <==> d.semantics is Scalar && forall|i: int|
                    0 <= i < d.versions@.len() ==> (#[trigger] d.versions@[i]).semantics is Scalar
                &&& pin_fault(p, rule) matches Some(error) ==> error
                    == (PinErrorView::JudgmentRuleNotPinnable { rule })
            },
        },
{
    position_from_meaning(p.derived@, rule, 0);
    if item_named(p.derived@, rule) is None {
        assert forall|i: int| 0 <= i < p.derived@.len() implies (#[trigger] p.derived@[i]).name@
            != rule by {
            assert(p.derived@[i].label_of() != rule);
        }
    }
}

/// A pin gives its rule its value, in whatever version the rule is in force, rounded as the rule
/// rounds its output; and it changes nothing but that rule.
pub proof fn a_pin_gives_its_rule_its_value_and_changes_no_other(
    before: Program,
    cx: Facts,
    pin: RulePin,
    ent: Seq<char>,
)
    requires
        is_pinned(before, cx.program, pin),
        rule_formula(cx, pin.rule@) is Ok,
    ensures
        before.rule(pin.rule@) matches Some(d) && scalar_meaning(cx, pin.rule@, ent).value == Ok::<
            ScalarValue,
            ErrorView,
        >(
            match (d.rounding, pin.value) {
                (Some(rounding), ScalarValue::Decimal(x)) => ScalarValue::Decimal(
                    x.rounded(rounding.minor_units as nat, rounding.mode),
                ),
                _ => pin.value,
            },
        ),
        cx.program.relations == before.relations && cx.program.parameters == before.parameters
            && cx.program.units == before.units,
        forall|name: Seq<char>| #[trigger]
            cx.program.rule(name) != before.rule(name) ==> name == pin.rule@,
{
    let i = position_of(before.derived@, pin.rule@)->Some_0;
    let after = cx.program;
    position_from_meaning(before.derived@, pin.rule@, 0);
    assert forall|j: int| 0 <= j < before.derived@.len() implies (
    #[trigger] after.derived@[j]).name == before.derived@[j].name by {
        if j == i {
            assert(is_pinned_rule(before.derived@[j], after.derived@[j], pin.value));
        }
    }
    assert forall|name: Seq<char>| #[trigger] after.rule(name) != before.rule(name) implies name
        == pin.rule@ by {
        crate::model::same_positions(before.derived@, after.derived@, name, 0);
        position_from_meaning(before.derived@, name, 0);
    }
    crate::model::same_positions(before.derived@, after.derived@, pin.rule@, 0);
    assert(after.rule(pin.rule@) == Some(after.derived@[i as int]));
    pinned_rule_has_its_value(before.derived@[i as int], cx, pin.rule@, pin.value, ent);
}

} // verus!
