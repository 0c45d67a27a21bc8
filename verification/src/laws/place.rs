//! Where a formula is evaluated, and what it gives there.
use crate::decimal::Decimal;
use crate::error::ErrorView;
use crate::model::{JudgmentExpr, JudgmentOutcome, ScalarExpr, ScalarValue};
use crate::semantics::{judgment_run, scalar_run, Facts, RelationContext};
use vstd::prelude::*;

verus! {

/// The facts, the entity and the context for which formulas are evaluated, with a bound on the
/// depth of their references.
pub ghost struct Place {
    pub cx: Facts,
    pub fuel: nat,
    pub ent: Seq<char>,
    pub context: Option<RelationContext>,
}

impl Place {
    /// Whether a formula has a value.
    pub open spec fn gives(self, e: ScalarExpr, value: ScalarValue) -> bool {
        scalar_run(self.cx, self.fuel, e, self.ent, self.context) matches Some(run) && run.value
            == Ok::<ScalarValue, ErrorView>(value)
    }

    /// Whether a formula fails with an error.
    pub open spec fn fails(self, e: ScalarExpr, error: ErrorView) -> bool {
        scalar_run(self.cx, self.fuel, e, self.ent, self.context) matches Some(run) && run.value
            == Err::<ScalarValue, ErrorView>(error)
    }

    /// Whether a formula has the value of a number, be it written as an integer or as a decimal.
    pub open spec fn counts(self, e: ScalarExpr, number: Decimal) -> bool {
        ||| self.gives(e, ScalarValue::Decimal(number))
        ||| exists|i: i64| #[trigger]
            self.gives(e, ScalarValue::Integer(i)) && number == Decimal::of_int(i as int)
    }

    /// Whether a judgment has an outcome.
    pub open spec fn finds(self, e: JudgmentExpr, outcome: JudgmentOutcome) -> bool {
        judgment_run(self.cx, self.fuel, e, self.ent, self.context) matches Some(run) && run.value
            == Ok::<JudgmentOutcome, ErrorView>(outcome)
    }

    /// Whether a judgment holds.
    pub open spec fn holds(self, e: JudgmentExpr) -> bool {
        self.finds(e, JudgmentOutcome::Holds)
    }

    /// Whether a judgment has an outcome other than `decisive`.
    pub open spec fn goes_on(self, e: JudgmentExpr, decisive: JudgmentOutcome) -> bool {
        ||| self.finds(e, JudgmentOutcome::Undetermined) && !(decisive is Undetermined)
        ||| self.finds(e, JudgmentOutcome::Holds) && !(decisive is Holds)
        ||| self.finds(e, JudgmentOutcome::NotHolds) && !(decisive is NotHolds)
    }

    /// Whether a judgment fails with an error.
    pub open spec fn rejects(self, e: JudgmentExpr, error: ErrorView) -> bool {
        judgment_run(self.cx, self.fuel, e, self.ent, self.context) matches Some(run) && run.value
            == Err::<JudgmentOutcome, ErrorView>(error)
    }
}

} // verus!
