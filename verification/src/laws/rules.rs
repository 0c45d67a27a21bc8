//! Laws of versions and of what a rule makes of its formula.
use super::place::Place;
use crate::date::Date;
use crate::error::ErrorView;
use crate::model::{
    derived_version_at, parameter_version_at, Derived, DerivedSemantics, DerivedVersion,
    IndexedParameter, JudgmentExpr, JudgmentOutcome, ParameterVersion, Program, ScalarExpr,
    ScalarValue,
};
use crate::semantics::{
    judgment_run, judgment_run_is_step, rule_judgment, rule_scalar, scalar_run, scalar_run_is_step,
    Facts,
};
use vstd::prelude::*;

verus! {

/// Whether a version that is in force from one day to another, or without end, is so on a day.
pub open spec fn in_force(from: Date, to: Option<Date>, day: Date) -> bool {
    from.number() <= day.number() && (to matches Some(end) ==> day.number() <= end.number())
}

proof fn derived_version_is_latest(versions: Seq<DerivedVersion>, day: Date, n: nat)
    requires
        n <= versions.len(),
    ensures
        match derived_version_at(versions, day, n) {
            Some(i) => {
                &&& i < n
                &&& in_force(
                    versions[i as int].effective_from,
                    versions[i as int].effective_to,
                    day,
                )
                &&& forall|j: int|
                    0 <= j < n && in_force(
                        (#[trigger] versions[j]).effective_from,
                        versions[j].effective_to,
                        day,
                    ) ==> versions[j].effective_from.number()
                        <= versions[i as int].effective_from.number() && (j > i
                        ==> versions[j].effective_from.number()
                        < versions[i as int].effective_from.number())
            },
            None => forall|j: int|
                0 <= j < n ==> !in_force(
                    (#[trigger] versions[j]).effective_from,
                    versions[j].effective_to,
                    day,
                ),
        },
    decreases n,
{
    if n > 0 {
        derived_version_is_latest(versions, day, (n - 1) as nat);
    }
}

proof fn parameter_version_is_latest(versions: Seq<ParameterVersion>, day: Date, n: nat)
    requires
        n <= versions.len(),
    ensures
        match parameter_version_at(versions, day, n) {
            Some(i) => {
                &&& i < n
                &&& in_force(
                    versions[i as int].effective_from,
                    versions[i as int].effective_to,
                    day,
                )
                &&& forall|j: int|
                    0 <= j < n && in_force(
                        (#[trigger] versions[j]).effective_from,
                        versions[j].effective_to,
                        day,
                    ) ==> versions[j].effective_from.number()
                        <= versions[i as int].effective_from.number() && (j > i
                        ==> versions[j].effective_from.number()
                        < versions[i as int].effective_from.number())
            },
            None => forall|j: int|
                0 <= j < n ==> !in_force(
                    (#[trigger] versions[j]).effective_from,
                    versions[j].effective_to,
                    day,
                ),
        },
    decreases n,
{
    if n > 0 {
        parameter_version_is_latest(versions, day, (n - 1) as nat);
    }
}

/// The formula of a rule with versions is that of one in force on the day than which none in force
/// begins later, of several that begin together the last; where none is in force there is no
/// formula. A rule without versions always has its own.
pub proof fn the_latest_formula_in_force_is_taken(d: Derived, day: Date)
    ensures
        d.versions@.len() == 0 ==> d.formula_at(day) == Some(d.semantics),
        d.versions@.len() > 0 ==> match d.formula_at(day) {
            Some(formula) => exists|i: int|
                {
                    &&& 0 <= i < d.versions@.len()
                    &&& formula == (#[trigger] d.versions@[i]).semantics
                    &&& in_force(d.versions@[i].effective_from, d.versions@[i].effective_to, day)
                    &&& forall|j: int|
                        0 <= j < d.versions@.len() && in_force(
                            (#[trigger] d.versions@[j]).effective_from,
                            d.versions@[j].effective_to,
                            day,
                        ) ==> d.versions@[j].effective_from.number()
                            <= d.versions@[i].effective_from.number() && (j > i
                            ==> d.versions@[j].effective_from.number()
                            < d.versions@[i].effective_from.number())
                },
            None => forall|j: int|
                0 <= j < d.versions@.len() ==> !in_force(
                    (#[trigger] d.versions@[j]).effective_from,
                    d.versions@[j].effective_to,
                    day,
                ),
        },
{
    derived_version_is_latest(d.versions@, day, d.versions@.len());
}

/// The table of a parameter is that of a version in force on the day than which none in force
/// begins later, of several that begin together the last; where none is in force there is no
/// table.
pub proof fn the_latest_table_in_force_is_read(p: IndexedParameter, day: Date)
    ensures
        match p.version_at(day) {
            Some(version) => exists|i: int|
                {
                    &&& 0 <= i < p.versions@.len()
                    &&& version == #[trigger] p.versions@[i]
                    &&& in_force(version.effective_from, version.effective_to, day)
                    &&& forall|j: int|
                        0 <= j < p.versions@.len() && in_force(
                            (#[trigger] p.versions@[j]).effective_from,
                            p.versions@[j].effective_to,
                            day,
                        ) ==> p.versions@[j].effective_from.number()
                            <= version.effective_from.number() && (j > i
                            ==> p.versions@[j].effective_from.number()
                            < version.effective_from.number())
                },
            None => forall|j: int|
                0 <= j < p.versions@.len() ==> !in_force(
                    (#[trigger] p.versions@[j]).effective_from,
                    p.versions@[j].effective_to,
                    day,
                ),
        },
{
    parameter_version_is_latest(p.versions@, day, p.versions@.len());
}

/// A version that is not in force at the start of the period changes no value: a rule whose
/// versions in force are those of another, in the same order, has the formula of the other.
pub proof fn a_version_out_of_force_changes_no_formula(d: Derived, e: Derived, day: Date)
    requires
        d.versions@.len() > 0,
        e.versions@.len() == d.versions@.len() + 1,
        forall|j: int| 0 <= j < d.versions@.len() ==> #[trigger] e.versions@[j] == d.versions@[j],
        !in_force(e.versions@.last().effective_from, e.versions@.last().effective_to, day),
    ensures
        e.formula_at(day) == d.formula_at(day),
{
    let n = d.versions@.len();
    version_prefix(d.versions@, e.versions@, day, n);
    derived_version_is_latest(d.versions@, day, n);
    assert(derived_version_at(e.versions@, day, n + 1) == derived_version_at(e.versions@, day, n));
}

proof fn version_prefix(a: Seq<DerivedVersion>, b: Seq<DerivedVersion>, day: Date, n: nat)
    requires
        n <= a.len(),
        n <= b.len(),
        forall|j: int| 0 <= j < a.len() ==> #[trigger] b[j] == a[j],
    ensures
        derived_version_at(a, day, n) == derived_version_at(b, day, n),
    decreases n,
{
    if n > 0 {
        version_prefix(a, b, day, (n - 1) as nat);
        derived_version_is_latest(a, day, (n - 1) as nat);
        assert(b[n - 1] == a[n - 1]);
        if let Some(i) = derived_version_at(a, day, (n - 1) as nat) {
            assert(b[i as int] == a[i as int]);
        }
    }
}

/// A rule whose unit is declared, where it names one.
pub open spec fn unit_is_declared(p: Program, d: Derived) -> bool {
    d.unit matches Some(unit) ==> p.unit(unit@) is Some
}

/// The value of a scalar rule is that of its formula in force at the start of the period, for the
/// entity, and where the rule declares output rounding and the value is a decimal, that value
/// rounded; the formula's failure is the rule's.
pub proof fn a_rule_is_its_formula_rounded(
    cx: Facts,
    fuel: nat,
    name: Seq<char>,
    ent: Seq<char>,
    d: Derived,
    e: ScalarExpr,
)
    requires
        cx.program.rule(name) == Some(d),
        unit_is_declared(cx.program, d),
        d.formula_at(cx.period.start) == Some(DerivedSemantics::Scalar(e)),
    ensures
        ({
            let at = Place { cx, fuel, ent, context: None };
            let run = rule_scalar(cx, fuel, name, ent);
            &&& run is Some <==> scalar_run(cx, fuel, e, ent, None) is Some
            &&& forall|v: ScalarValue| #[trigger]
                at.gives(e, v) ==> (run matches Some(r) && r.value == Ok::<ScalarValue, ErrorView>(
                    match (d.rounding, v) {
                        (Some(rounding), ScalarValue::Decimal(x)) => ScalarValue::Decimal(
                            x.rounded(rounding.minor_units as nat, rounding.mode),
                        ),
                        _ => v,
                    },
                ))
            &&& forall|error: ErrorView| #[trigger]
                at.fails(e, error) ==> (run matches Some(r) && r.value is Err)
        }),
{
}

/// The judgment of a rule is that of its formula in force at the start of the period, for the
/// entity.
pub proof fn a_judgment_rule_is_its_formula(
    cx: Facts,
    fuel: nat,
    name: Seq<char>,
    ent: Seq<char>,
    d: Derived,
    e: JudgmentExpr,
)
    requires
        cx.program.rule(name) == Some(d),
        unit_is_declared(cx.program, d),
        d.formula_at(cx.period.start) == Some(DerivedSemantics::Judgment(e)),
    ensures
        ({
            let at = Place { cx, fuel, ent, context: None };
            let run = rule_judgment(cx, fuel, name, ent);
            &&& run is Some <==> judgment_run(cx, fuel, e, ent, None) is Some
            &&& forall|o: JudgmentOutcome| #[trigger]
                at.finds(e, o) ==> (run matches Some(r) && r.value == Ok::<
                    JudgmentOutcome,
                    ErrorView,
                >(o))
            &&& forall|error: ErrorView| #[trigger]
                at.rejects(e, error) ==> (run matches Some(r) && r.value is Err)
        }),
{
}

/// A rule has no value where it is not declared, where its unit is not, where no version of it is
/// in force, and where it is asked for as what it is not: a judgment for its value, or a value for
/// its judgment. Each is an error of its own.
pub proof fn rules_fail_where_they_have_no_formula(
    cx: Facts,
    fuel: nat,
    name: Seq<char>,
    ent: Seq<char>,
)
    ensures
        ({
            let scalar = rule_scalar(cx, fuel, name, ent);
            let judgment = rule_judgment(cx, fuel, name, ent);
            let fails = |error: ErrorView|
                (scalar matches Some(r) && r.value == Err::<ScalarValue, ErrorView>(error)) && (
                judgment matches Some(s) && s.value == Err::<JudgmentOutcome, ErrorView>(error));
            match cx.program.rule(name) {
                None => fails(ErrorView::UnknownDerived(name)),
                Some(d) => if !unit_is_declared(cx.program, d) {
                    fails(ErrorView::UnknownUnit(d.unit->Some_0@))
                } else {
                    match d.formula_at(cx.period.start) {
                        None => fails(
                            ErrorView::MissingDerivedFormulaVersion {
                                derived: name,
                                at: cx.period.start,
                            },
                        ),
                        Some(DerivedSemantics::Judgment(_)) => scalar matches Some(r) && r.value
                            == Err::<ScalarValue, ErrorView>(ErrorView::ExpectedScalar(name)),
                        Some(DerivedSemantics::Scalar(_)) => judgment matches Some(r) && r.value
                            == Err::<JudgmentOutcome, ErrorView>(ErrorView::ExpectedJudgment(name)),
                    }
                },
            }
        }),
{
}

/// A formula that names a rule has the value of the rule for the entity; inside the test of a
/// derived relation, for that of the two entities of the kind that the rule is of, the current one
/// first.
pub proof fn a_reference_is_the_value_of_its_rule(at: Place, name: String, d: Derived)
    requires
        at.cx.program.rule(name@) == Some(d),
        at.fuel > 0,
    ensures
        ({
            let target = match at.context {
                None => at.ent,
                Some(c) => if c.current_entity == Some(d.entity@) {
                    c.current_id
                } else if c.related_entity == Some(d.entity@) {
                    c.related_id
                } else {
                    at.ent
                },
            };
            let f = (at.fuel - 1) as nat;
            &&& forall|v: ScalarValue| #[trigger]
                at.gives(ScalarExpr::Derived(name), v) <==> (rule_scalar(
                    at.cx,
                    f,
                    name@,
                    target,
                ) matches Some(r) && r.value == Ok::<ScalarValue, ErrorView>(v))
            &&& forall|o: JudgmentOutcome| #[trigger]
                at.finds(JudgmentExpr::Derived(name), o) <==> (rule_judgment(
                    at.cx,
                    f,
                    name@,
                    target,
                ) matches Some(r) && r.value == Ok::<JudgmentOutcome, ErrorView>(o))
        }),
{
    scalar_run_is_step(at.cx, at.fuel, ScalarExpr::Derived(name), at.ent, at.context);
    judgment_run_is_step(at.cx, at.fuel, JudgmentExpr::Derived(name), at.ent, at.context);
}

} // verus!
