//! Laws of the dtypes of columns: a formula has one where its parts do and the branches of its
//! choices go together.
use super::spans::{compiled_parts, judgments, scalars, CompiledPart};
use crate::column::{parameter_kind, value_column_kind, ColumnKind};
use crate::dense::{
    CompiledJudgmentExpr, CompiledRelatedScalarExpr,
    CompiledScalarExpr, DenseFacts,
};
use crate::kinds::{
    related_kind, related_typed, relation_typed, root_items_typed, root_kind, root_typed,
    roots_typed, rule_kind, rule_typed,
};
use crate::lifetime::{
    life_items_typed, life_kind, life_rule_kind, life_rule_typed, life_typed, lives_typed,
    periods_typed, LifetimeFacts,
};
use crate::model::OverPeriodsKind;
use vstd::prelude::*;

verus! {

/// Whether two dtypes go together in the branches of a choice: they are the same, or both are
/// numbers.
pub open spec fn go_together(a: ColumnKind, b: ColumnKind) -> bool {
    a == b || ((a is Integer || a is Decimal) && (b is Integer || b is Decimal))
}

/// Whether a formula has a dtype.
pub open spec fn has_dtype(cx: DenseFacts, bound: nat, level: nat, q: CompiledPart) -> bool {
    match q {
        CompiledPart::Scalar(e) => root_kind(cx, bound, level, e) is Some,
        CompiledPart::Judgment(e) => root_typed(cx, bound, level, e),
    }
}

/// Whether a formula has a dtype as far as it is not for its parts.
pub open spec fn has_dtype_itself(cx: DenseFacts, bound: nat, level: nat, q: CompiledPart) -> bool {
    match q {
        CompiledPart::Scalar(CompiledScalarExpr::Derived(i)) => i < bound && rule_kind(
            cx,
            i as nat,
        ) is Some,
        CompiledPart::Judgment(CompiledJudgmentExpr::Derived(i)) => i < bound && rule_typed(
            cx,
            i as nat,
        ),
        CompiledPart::Scalar(CompiledScalarExpr::If { then_expr, else_expr, .. }) => match (
            root_kind(cx, bound, level, *then_expr),
            root_kind(cx, bound, level, *else_expr),
        ) {
            (Some(a), Some(b)) => go_together(a, b),
            _ => true,
        },
        CompiledPart::Scalar(CompiledScalarExpr::CountRelated { relation, predicate }) => {
            &&& level >= 2
            &&& relation_typed(cx, relation as nat)
            &&& predicate matches Some(w) ==> related_typed(cx, bound, level, relation as nat, *w)
        },
        CompiledPart::Scalar(CompiledScalarExpr::SumRelated { relation, value, predicate }) => {
            &&& level >= 2
            &&& relation_typed(cx, relation as nat)
            &&& predicate matches Some(w) ==> related_typed(cx, bound, level, relation as nat, *w)
            &&& related_kind(cx, bound, level, relation as nat, *value) is Some
        },
        _ => true,
    }
}

proof fn all_have(cx: DenseFacts, bound: nat, level: nat, items: Seq<CompiledScalarExpr>, n: nat)
    requires
        n <= items.len(),
    ensures
        roots_typed(cx, bound, level, items, n) <==> forall|i: int|
            0 <= i < n ==> has_dtype(cx, bound, level, #[trigger] scalars(items)[i]),
    decreases n,
{
    reveal(root_kind);
    reveal(root_typed);
    if n > 0 {
        all_have(cx, bound, level, items, (n - 1) as nat);
        assert(scalars(items)[n - 1] == CompiledPart::Scalar(items[n - 1]));
    }
}

proof fn all_judgments_have(
    cx: DenseFacts,
    bound: nat,
    level: nat,
    items: Seq<CompiledJudgmentExpr>,
    n: nat,
)
    requires
        n <= items.len(),
    ensures
        root_items_typed(cx, bound, level, items, n) <==> forall|i: int|
            0 <= i < n ==> has_dtype(cx, bound, level, #[trigger] judgments(items)[i]),
    decreases n,
{
    reveal(root_kind);
    reveal(root_typed);
    if n > 0 {
        all_judgments_have(cx, bound, level, items, (n - 1) as nat);
        assert(judgments(items)[n - 1] == CompiledPart::Judgment(items[n - 1]));
    }
}

/// A formula has a dtype exactly where all its parts do, the branches of a choice go together, and
/// what it names or aggregates has one.
pub proof fn a_formula_has_a_dtype_where_its_parts_do(
    cx: DenseFacts,
    bound: nat,
    level: nat,
    q: CompiledPart,
)
    ensures
        has_dtype(cx, bound, level, q) <==> has_dtype_itself(cx, bound, level, q) && forall|i: int|
            0 <= i < compiled_parts(q).len() ==> has_dtype(
                cx,
                bound,
                level,
                #[trigger] compiled_parts(q)[i],
            ),
{
    reveal_with_fuel(root_kind, 2);
    reveal_with_fuel(root_typed, 2);
    reveal(related_kind);
    reveal(related_typed);
    let list = compiled_parts(q);
    let every = forall|i: int|
        0 <= i < list.len() ==> has_dtype(cx, bound, level, #[trigger] list[i]);
    if list.len() == 1 {
        assert(every <==> has_dtype(cx, bound, level, list[0]));
    } else if list.len() == 2 {
        assert(every <==> has_dtype(cx, bound, level, list[0]) && has_dtype(
            cx,
            bound,
            level,
            list[1],
        ));
    } else if list.len() == 3 {
        assert(every <==> has_dtype(cx, bound, level, list[0]) && has_dtype(
            cx,
            bound,
            level,
            list[1],
        ) && has_dtype(cx, bound, level, list[2]));
    }
    match q {
        CompiledPart::Scalar(e) => match e {
            CompiledScalarExpr::Add(items)
            | CompiledScalarExpr::Max(items)
            | CompiledScalarExpr::Min(items) => {
                all_have(cx, bound, level, items@, items@.len());
            },
            _ => {},
        },
        CompiledPart::Judgment(e) => match e {
            CompiledJudgmentExpr::And(items) | CompiledJudgmentExpr::Or(items) => {
                all_judgments_have(cx, bound, level, items@, items@.len());
            },
            _ => {},
        },
    }
}

/// What the dtype of a choice is: that of both its branches, or decimals where they differ.
pub open spec fn is_dtype_of_branches(
    kind: ColumnKind,
    then_kind: Option<ColumnKind>,
    else_kind: Option<ColumnKind>,
) -> bool {
    if then_kind == else_kind {
        Some(kind) == then_kind
    } else {
        kind is Decimal
    }
}

/// The dtype of a formula is that of what it gives: arithmetic gives decimals, counts and days give
/// integers, dates give dates, and what is read has the dtype that it is supplied with; an input
/// that is not supplied stands for decimals, or for its default.
pub proof fn a_formula_has_the_dtype_of_what_it_gives(
    cx: DenseFacts,
    bound: nat,
    level: nat,
    e: CompiledScalarExpr,
)
    ensures
        root_kind(cx, bound, level, e) matches Some(kind) ==> match e {
            CompiledScalarExpr::Literal(value) => kind == value_column_kind(value),
            CompiledScalarExpr::Input(i) => match cx.batch.inputs[i as int] {
                Some(column) => kind == column.kind(),
                None => kind is Decimal,
            },
            CompiledScalarExpr::InputOrElse { input, default } => match cx.batch.inputs[input as int] {
                Some(column) => kind == column.kind(),
                None => kind == value_column_kind(default),
            },
            CompiledScalarExpr::Derived(i) => Some(kind) == rule_kind(cx, i as nat),
            CompiledScalarExpr::ParameterLookup { parameter, .. } => kind == parameter_kind(
                cx.program.parameters@[parameter as int].parameter,
                cx.start,
            ),
            CompiledScalarExpr::PeriodStart => kind is Date,
            CompiledScalarExpr::PeriodEnd => kind is Date,
            CompiledScalarExpr::DateShift { .. } => kind is Date,
            CompiledScalarExpr::DaysBetween { .. } => kind is Integer,
            CompiledScalarExpr::CountRelated { .. } => kind is Integer,
            CompiledScalarExpr::If { then_expr, else_expr, .. } => is_dtype_of_branches(
                kind,
                root_kind(cx, bound, level, *then_expr),
                root_kind(cx, bound, level, *else_expr),
            ),
            CompiledScalarExpr::NoMatch { placeholder, .. } => Some(kind) == root_kind(
                cx,
                bound,
                level,
                *placeholder,
            ),
            _ => kind is Decimal,
        },
{
    reveal_with_fuel(root_kind, 2);
}

/// The dtype of a formula over related rows is that of what it gives; one of the row that it is
/// related to has the dtype that it has there.
pub proof fn a_related_formula_has_the_dtype_of_what_it_gives(
    cx: DenseFacts,
    bound: nat,
    level: nat,
    rel: nat,
    e: CompiledRelatedScalarExpr,
)
    ensures
        related_kind(cx, bound, level, rel, e) matches Some(kind) ==> match e {
            CompiledRelatedScalarExpr::Literal(value) => kind == value_column_kind(value),
            CompiledRelatedScalarExpr::Input(i) => {
                match cx.batch.relations[rel as int].inputs[i as int] {
                    Some(column) => kind == column.kind(),
                    None => kind is Decimal,
                }
            },
            CompiledRelatedScalarExpr::InputOrElse { input, default } => {
                match cx.batch.relations[rel as int].inputs[input as int] {
                    Some(column) => kind == column.kind(),
                    None => kind == value_column_kind(default),
                }
            },
            CompiledRelatedScalarExpr::RootScalar(root) => Some(kind) == root_kind(
                cx,
                bound,
                level,
                *root,
            ),
            CompiledRelatedScalarExpr::ParameterLookup { parameter, .. } => kind == parameter_kind(
                cx.program.parameters@[parameter as int].parameter,
                cx.start,
            ),
            CompiledRelatedScalarExpr::PeriodStart => kind is Date,
            CompiledRelatedScalarExpr::PeriodEnd => kind is Date,
            CompiledRelatedScalarExpr::DateShift { .. } => kind is Date,
            CompiledRelatedScalarExpr::DaysBetween { .. } => kind is Integer,
            CompiledRelatedScalarExpr::If { condition, then_expr, else_expr } => {
                &&& related_typed(cx, bound, level, rel, *condition)
                &&& is_dtype_of_branches(
                    kind,
                    related_kind(cx, bound, level, rel, *then_expr),
                    related_kind(cx, bound, level, rel, *else_expr),
                )
            },
            CompiledRelatedScalarExpr::NoMatch { subject, placeholder, .. } => {
                &&& related_kind(cx, bound, level, rel, *subject) is Some
                &&& Some(kind) == related_kind(cx, bound, level, rel, *placeholder)
            },
            _ => kind is Decimal,
        },
{
    reveal_with_fuel(related_kind, 2);
    reveal(related_typed);
    reveal(root_kind);
}

/// Whether a formula has a dtype over a lifetime.
pub open spec fn has_life_dtype(lx: LifetimeFacts, bound: nat, q: CompiledPart) -> bool {
    match q {
        CompiledPart::Scalar(e) => life_kind(lx, bound, e) is Some,
        CompiledPart::Judgment(e) => life_typed(lx, bound, e),
    }
}

/// Whether a formula has a dtype over a lifetime as far as it is not for its parts: what is read
/// or reduced has one in each period.
pub open spec fn has_life_dtype_itself(lx: LifetimeFacts, bound: nat, q: CompiledPart) -> bool {
    match q {
        CompiledPart::Scalar(e) => match e {
            CompiledScalarExpr::Input(_) => root_kind(lx.periods[0], bound, 2, e) is Some
                && periods_typed(lx, bound, e),
            CompiledScalarExpr::InputOrElse { .. } => root_kind(lx.periods[0], bound, 2, e) is Some
                && periods_typed(lx, bound, e),
            CompiledScalarExpr::Derived(i) => i < bound && life_rule_kind(lx, i as nat) is Some,
            CompiledScalarExpr::If { then_expr, else_expr, .. } => match (
                life_kind(lx, bound, *then_expr),
                life_kind(lx, bound, *else_expr),
            ) {
                (Some(a), Some(b)) => go_together(a, b),
                _ => true,
            },
            CompiledScalarExpr::OverPeriods { kind, value, n } => periods_typed(lx, bound, *value)
                && (n matches Some(n) ==> kind == OverPeriodsKind::SumTopN ==> periods_typed(
                lx,
                bound,
                *n,
            )),
            _ => true,
        },
        CompiledPart::Judgment(CompiledJudgmentExpr::Derived(i)) => i < bound && life_rule_typed(
            lx,
            i as nat,
        ),
        _ => true,
    }
}

/// The parts whose dtypes a formula over a lifetime goes by; of what has no value over a lifetime
/// none counts.
pub open spec fn life_parts(q: CompiledPart) -> Seq<CompiledPart> {
    match q {
        CompiledPart::Scalar(CompiledScalarExpr::DateShift { .. }) => Seq::empty(),
        CompiledPart::Scalar(CompiledScalarExpr::DaysBetween { .. }) => Seq::empty(),
        _ => compiled_parts(q),
    }
}

proof fn all_lives_have(lx: LifetimeFacts, bound: nat, items: Seq<CompiledScalarExpr>, n: nat)
    requires
        n <= items.len(),
    ensures
        lives_typed(lx, bound, items, n) <==> forall|i: int|
            0 <= i < n ==> has_life_dtype(lx, bound, #[trigger] scalars(items)[i]),
    decreases n,
{
    reveal(life_kind);
    reveal(life_typed);
    if n > 0 {
        all_lives_have(lx, bound, items, (n - 1) as nat);
        assert(scalars(items)[n - 1] == CompiledPart::Scalar(items[n - 1]));
    }
}

proof fn all_life_judgments_have(
    lx: LifetimeFacts,
    bound: nat,
    items: Seq<CompiledJudgmentExpr>,
    n: nat,
)
    requires
        n <= items.len(),
    ensures
        life_items_typed(lx, bound, items, n) <==> forall|i: int|
            0 <= i < n ==> has_life_dtype(lx, bound, #[trigger] judgments(items)[i]),
    decreases n,
{
    reveal(life_kind);
    reveal(life_typed);
    if n > 0 {
        all_life_judgments_have(lx, bound, items, (n - 1) as nat);
        assert(judgments(items)[n - 1] == CompiledPart::Judgment(items[n - 1]));
    }
}

/// A formula has a dtype over a lifetime exactly where all its parts do, the branches of a choice go
/// together, and what it reads or reduces has one in each period.
pub proof fn a_formula_has_a_dtype_over_a_lifetime_where_its_parts_do(
    lx: LifetimeFacts,
    bound: nat,
    q: CompiledPart,
)
    ensures
        has_life_dtype(lx, bound, q) <==> has_life_dtype_itself(lx, bound, q) && forall|i: int|
            0 <= i < life_parts(q).len() ==> has_life_dtype(lx, bound, #[trigger] life_parts(q)[i]),
{
    reveal_with_fuel(life_kind, 2);
    reveal_with_fuel(life_typed, 2);
    let list = life_parts(q);
    let every = forall|i: int|
        0 <= i < list.len() ==> has_life_dtype(lx, bound, #[trigger] list[i]);
    if list.len() == 1 {
        assert(every <==> has_life_dtype(lx, bound, list[0]));
    } else if list.len() == 2 {
        assert(every <==> has_life_dtype(lx, bound, list[0]) && has_life_dtype(
            lx,
            bound,
            list[1],
        ));
    } else if list.len() == 3 {
        assert(every <==> has_life_dtype(lx, bound, list[0]) && has_life_dtype(lx, bound, list[1])
            && has_life_dtype(lx, bound, list[2]));
    }
    match q {
        CompiledPart::Scalar(e) => match e {
            CompiledScalarExpr::Add(items)
            | CompiledScalarExpr::Max(items)
            | CompiledScalarExpr::Min(items) => {
                all_lives_have(lx, bound, items@, items@.len());
            },
            _ => {},
        },
        CompiledPart::Judgment(e) => match e {
            CompiledJudgmentExpr::And(items) | CompiledJudgmentExpr::Or(items) => {
                all_life_judgments_have(lx, bound, items@, items@.len());
            },
            _ => {},
        },
    }
}

} // verus!
