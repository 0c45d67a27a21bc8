//! Rules that are put in place over the current rows have the values that they have for the
//! entities of these, and constants for any entity.
use crate::date::Date;
use crate::dense::{
    root_cell, root_connective, root_extremum, root_outcome, root_outcome_step, root_step,
    root_sum, CompiledJudgmentExpr, CompiledScalarExpr,
};
use crate::dense_agreement::{
    compared_alike, fixed_judgment, fixed_judgments,
    fixed_scalar, fixed_scalars, input_stated, is_placed, is_uniform, paired,
    rule_has_place, same_number, same_outcome, same_result, same_scalar_reads, same_versions,
    settled_stays, Pairing,
};
use crate::kinds::{root_is_step, root_outcome_is_step};
use crate::lowering::{
    shows_current, shows_current_judgment, shows_current_judgments, shows_currents, CompileFacts,
    Tables,
};
use crate::model::{
    parameter_version_at, DerivedSemantics, JudgmentExpr, JudgmentOutcome, ScalarExpr, ScalarValue,
};
use crate::semantics::{
    connective_run, extremum_run, judgment_run, judgment_run_is_step, rule_judgment, rule_scalar,
    scalar_run, scalar_run_is_step, sum_run,
};
use vstd::prelude::*;

verus! {

/// Where a formula that is put in place is read: at home over a current row, for the row's entity,
/// or else for any entity.
pub open spec fn at_home(s: Pairing, home: bool, ent: Seq<char>, row: int) -> bool {
    home ==> 0 <= row < s.ids.len() && ent == s.ids[row]
}

pub(crate) proof fn fixed_judgments_each(
    kx: CompileFacts,
    home: bool,
    deep: nat,
    items: Seq<JudgmentExpr>,
    n: nat,
    i: int,
)
    requires
        fixed_judgments(kx, home, deep, items, n),
        0 <= i < n <= items.len(),
    ensures
        fixed_judgment(kx, home, deep, items[i]),
    decreases n,
{
    if i < n - 1 {
        fixed_judgments_each(kx, home, deep, items, (n - 1) as nat, i);
    }
}

pub(crate) proof fn current_scalar_matches(
    s: Pairing,
    f: nat,
    bound: nat,
    rule: Seq<char>,
    depth: nat,
    home: bool,
    deep: nat,
    c: CompiledScalarExpr,
    e: ScalarExpr,
    ent: Seq<char>,
    row: int,
)
    requires
        paired(s),
        at_home(s, home, ent, row),
        shows_current(s.kx, s.tables, rule, depth, c, e),
        fixed_scalar(s.kx, home, deep, e),
    ensures
        scalar_run(s.cx, f, e, ent, None) matches Some(run) ==> same_result(
            root_cell(s.dx, bound, s.level, c, row),
            run.value,
        ),
    decreases 2 * f, e, 2int, 0int,
{
    match e {
        ScalarExpr::ParameterLookup { .. } => {
            current_lookup_matches(s, f, bound, rule, depth, home, deep, c, e, ent, row);
        },
        ScalarExpr::Add(..)
        | ScalarExpr::Max(..)
        | ScalarExpr::Min(..) => {
            current_list_matches(s, f, bound, rule, depth, home, deep, c, e, ent, row);
        },
        ScalarExpr::Sub(..)
        | ScalarExpr::Mul(..)
        | ScalarExpr::Div(..)
        | ScalarExpr::Ceil(..)
        | ScalarExpr::Floor(..) => {
            current_arithmetic_matches(s, f, bound, rule, depth, home, deep, c, e, ent, row);
        },
        ScalarExpr::DateAddDays { .. }
        | ScalarExpr::DateAddMonths { .. }
        | ScalarExpr::DateAddYears { .. } => {
            current_shift_matches(s, f, bound, rule, depth, home, deep, c, e, ent, row);
        },
        ScalarExpr::DaysBetween { .. } => {
            current_between_matches(s, f, bound, rule, depth, home, deep, c, e, ent, row);
        },
        ScalarExpr::If { .. } => {
            current_branch_matches(s, f, bound, rule, depth, home, deep, c, e, ent, row);
        },
        ScalarExpr::Derived(name) => {
            scalar_run_is_step(s.cx, f, e, ent, None);
            rule_has_place(s, name@);
            if f > 0 {
                placed_matches(s, (f - 1) as nat, bound, depth, home, deep, c, name@, ent, row);
            }
        },
        _ => {
            current_leaf_matches(s, f, bound, rule, depth, home, deep, c, e, ent, row);
        },
    }
}

pub(crate) proof fn current_leaf_matches(
    s: Pairing,
    f: nat,
    bound: nat,
    rule: Seq<char>,
    depth: nat,
    home: bool,
    deep: nat,
    c: CompiledScalarExpr,
    e: ScalarExpr,
    ent: Seq<char>,
    row: int,
)
    requires
        paired(s),
        at_home(s, home, ent, row),
        shows_current(s.kx, s.tables, rule, depth, c, e),
        !(e is Derived || e is ParameterLookup || e is Add || e is Max || e is Min || e is Sub
            || e is Mul || e is Div || e is Ceil || e is Floor || e is DateAddDays
            || e is DateAddMonths || e is DateAddYears || e is DaysBetween || e is If),
        fixed_scalar(s.kx, home, deep, e),
    ensures
        scalar_run(s.cx, f, e, ent, None) matches Some(run) ==> same_result(
            root_cell(s.dx, bound, s.level, c, row),
            run.value,
        ),
    decreases 2 * f, e, 1int, 0int,
{
    scalar_run_is_step(s.cx, f, e, ent, None);
    root_is_step(s.dx, bound, s.level, c);
    assert(root_cell(s.dx, bound, s.level, c, row) == root_step(s.dx, bound, s.level, c, row));
    match (e, c) {
        (ScalarExpr::Input(_), CompiledScalarExpr::Input(i)) => {
            assert(input_stated(s.dx, s.cx, s.ids, i as int, row));
        },
        (ScalarExpr::InputOrElse { .. }, CompiledScalarExpr::InputOrElse { input, .. }) => {
            assert(input_stated(s.dx, s.cx, s.ids, input as int, row));
        },
        _ => {},
    }
}

pub(crate) proof fn current_lookup_matches(
    s: Pairing,
    f: nat,
    bound: nat,
    rule: Seq<char>,
    depth: nat,
    home: bool,
    deep: nat,
    c: CompiledScalarExpr,
    e: ScalarExpr,
    ent: Seq<char>,
    row: int,
)
    requires
        paired(s),
        at_home(s, home, ent, row),
        shows_current(s.kx, s.tables, rule, depth, c, e),
        e is ParameterLookup,
        fixed_scalar(s.kx, home, deep, e),
    ensures
        scalar_run(s.cx, f, e, ent, None) matches Some(run) ==> same_result(
            root_cell(s.dx, bound, s.level, c, row),
            run.value,
        ),
    decreases 2 * f, e, 1int, 0int,
{
    scalar_run_is_step(s.cx, f, e, ent, None);
    root_is_step(s.dx, bound, s.level, c);
    assert(root_cell(s.dx, bound, s.level, c, row) == root_step(s.dx, bound, s.level, c, row));
    match (e, c) {
        (
            ScalarExpr::ParameterLookup { parameter, index },
            CompiledScalarExpr::ParameterLookup { parameter: i, index: k },
        ) => {
            current_scalar_matches(s, f, bound, rule, depth, home, deep, *k, *index, ent, row);
            let given = s.tables.parameters[i as int].parameter;
            let source = s.cx.program.parameter(parameter@)->Some_0;
            same_versions(given, source, s.dx.start, given.versions@.len());
            if let Some(run) = scalar_run(s.cx, f, *index, ent, None) {
                if let (Ok(a), Ok(b)) = (root_cell(s.dx, bound, s.level, *k, row), run.value) {
                    same_scalar_reads(a, b);
                }
            }
            if let Some(j) = parameter_version_at(
                given.versions@,
                s.dx.start,
                given.versions@.len(),
            ) {
                assert(given.versions@[j as int].values@ == source.versions@[j as int].values@);
                assert(
                    is_uniform(s.dx.program.parameters@[i as int].parameter.versions@[j as int])
                );
            }
        },
        _ => {},
    }
}

pub(crate) proof fn current_list_matches(
    s: Pairing,
    f: nat,
    bound: nat,
    rule: Seq<char>,
    depth: nat,
    home: bool,
    deep: nat,
    c: CompiledScalarExpr,
    e: ScalarExpr,
    ent: Seq<char>,
    row: int,
)
    requires
        paired(s),
        at_home(s, home, ent, row),
        shows_current(s.kx, s.tables, rule, depth, c, e),
        e is Add || e is Max || e is Min,
        fixed_scalar(s.kx, home, deep, e),
    ensures
        scalar_run(s.cx, f, e, ent, None) matches Some(run) ==> same_result(
            root_cell(s.dx, bound, s.level, c, row),
            run.value,
        ),
    decreases 2 * f, e, 1int, 0int,
{
    scalar_run_is_step(s.cx, f, e, ent, None);
    root_is_step(s.dx, bound, s.level, c);
    assert(root_cell(s.dx, bound, s.level, c, row) == root_step(s.dx, bound, s.level, c, row));
    match (e, c) {
        (ScalarExpr::Add(items), CompiledScalarExpr::Add(list)) => {
            current_sum_matches(
                s,
                f,
                bound,
                rule,
                depth,
                home,
                deep,
                list@,
                items@,
                items@.len(),
                ent,
                row,
            );
        },
        (ScalarExpr::Max(items), CompiledScalarExpr::Max(list)) => {
            if items@.len() > 0 {
                current_extremum_matches(
                    s,
                    f,
                    bound,
                    rule,
                    depth,
                    home,
                    deep,
                    list@,
                    items@,
                    items@.len(),
                    true,
                    ent,
                    row,
                );
            }
        },
        (ScalarExpr::Min(items), CompiledScalarExpr::Min(list)) => {
            if items@.len() > 0 {
                current_extremum_matches(
                    s,
                    f,
                    bound,
                    rule,
                    depth,
                    home,
                    deep,
                    list@,
                    items@,
                    items@.len(),
                    false,
                    ent,
                    row,
                );
            }
        },
        _ => {},
    }
}

pub(crate) proof fn current_arithmetic_matches(
    s: Pairing,
    f: nat,
    bound: nat,
    rule: Seq<char>,
    depth: nat,
    home: bool,
    deep: nat,
    c: CompiledScalarExpr,
    e: ScalarExpr,
    ent: Seq<char>,
    row: int,
)
    requires
        paired(s),
        at_home(s, home, ent, row),
        shows_current(s.kx, s.tables, rule, depth, c, e),
        e is Sub || e is Mul || e is Div || e is Ceil || e is Floor,
        fixed_scalar(s.kx, home, deep, e),
    ensures
        scalar_run(s.cx, f, e, ent, None) matches Some(run) ==> same_result(
            root_cell(s.dx, bound, s.level, c, row),
            run.value,
        ),
    decreases 2 * f, e, 1int, 0int,
{
    scalar_run_is_step(s.cx, f, e, ent, None);
    root_is_step(s.dx, bound, s.level, c);
    assert(root_cell(s.dx, bound, s.level, c, row) == root_step(s.dx, bound, s.level, c, row));
    match (e, c) {
        (ScalarExpr::Sub(a, b), CompiledScalarExpr::Sub(x, y)) => {
            current_pair_matches(s, f, bound, rule, depth, home, deep, *x, *a, *y, *b, ent, row, e);
        },
        (ScalarExpr::Mul(a, b), CompiledScalarExpr::Mul(x, y)) => {
            current_pair_matches(s, f, bound, rule, depth, home, deep, *x, *a, *y, *b, ent, row, e);
        },
        (ScalarExpr::Div(a, b), CompiledScalarExpr::Div(x, y)) => {
            current_pair_matches(s, f, bound, rule, depth, home, deep, *x, *a, *y, *b, ent, row, e);
        },
        (ScalarExpr::Ceil(a), CompiledScalarExpr::Ceil(x)) => {
            current_pair_matches(s, f, bound, rule, depth, home, deep, *x, *a, *x, *a, ent, row, e);
        },
        (ScalarExpr::Floor(a), CompiledScalarExpr::Floor(x)) => {
            current_pair_matches(s, f, bound, rule, depth, home, deep, *x, *a, *x, *a, ent, row, e);
        },
        _ => {},
    }
}

pub(crate) proof fn current_shift_matches(
    s: Pairing,
    f: nat,
    bound: nat,
    rule: Seq<char>,
    depth: nat,
    home: bool,
    deep: nat,
    c: CompiledScalarExpr,
    e: ScalarExpr,
    ent: Seq<char>,
    row: int,
)
    requires
        paired(s),
        at_home(s, home, ent, row),
        shows_current(s.kx, s.tables, rule, depth, c, e),
        e is DateAddDays || e is DateAddMonths || e is DateAddYears,
        fixed_scalar(s.kx, home, deep, e),
    ensures
        scalar_run(s.cx, f, e, ent, None) matches Some(run) ==> same_result(
            root_cell(s.dx, bound, s.level, c, row),
            run.value,
        ),
    decreases 2 * f, e, 1int, 0int,
{
    scalar_run_is_step(s.cx, f, e, ent, None);
    root_is_step(s.dx, bound, s.level, c);
    assert(root_cell(s.dx, bound, s.level, c, row) == root_step(s.dx, bound, s.level, c, row));
    match (e, c) {
        (
            ScalarExpr::DateAddDays { date, days },
            CompiledScalarExpr::DateShift { date: x, count, .. },
        ) => {
            current_pair_matches(
                s,
                f,
                bound,
                rule,
                depth,
                home,
                deep,
                *x,
                *date,
                *count,
                *days,
                ent,
                row,
                e,
            );
        },
        (
            ScalarExpr::DateAddMonths { date, months },
            CompiledScalarExpr::DateShift { date: x, count, .. },
        ) => {
            current_pair_matches(
                s,
                f,
                bound,
                rule,
                depth,
                home,
                deep,
                *x,
                *date,
                *count,
                *months,
                ent,
                row,
                e,
            );
        },
        (
            ScalarExpr::DateAddYears { date, years },
            CompiledScalarExpr::DateShift { date: x, count, .. },
        ) => {
            current_pair_matches(
                s,
                f,
                bound,
                rule,
                depth,
                home,
                deep,
                *x,
                *date,
                *count,
                *years,
                ent,
                row,
                e,
            );
        },
        _ => {},
    }
}

pub(crate) proof fn current_between_matches(
    s: Pairing,
    f: nat,
    bound: nat,
    rule: Seq<char>,
    depth: nat,
    home: bool,
    deep: nat,
    c: CompiledScalarExpr,
    e: ScalarExpr,
    ent: Seq<char>,
    row: int,
)
    requires
        paired(s),
        at_home(s, home, ent, row),
        shows_current(s.kx, s.tables, rule, depth, c, e),
        e is DaysBetween,
        fixed_scalar(s.kx, home, deep, e),
    ensures
        scalar_run(s.cx, f, e, ent, None) matches Some(run) ==> same_result(
            root_cell(s.dx, bound, s.level, c, row),
            run.value,
        ),
    decreases 2 * f, e, 1int, 0int,
{
    scalar_run_is_step(s.cx, f, e, ent, None);
    root_is_step(s.dx, bound, s.level, c);
    assert(root_cell(s.dx, bound, s.level, c, row) == root_step(s.dx, bound, s.level, c, row));
    match (e, c) {
        (
            ScalarExpr::DaysBetween { from, to },
            CompiledScalarExpr::DaysBetween { from: x, to: y },
        ) => {
            current_pair_matches(
                s,
                f,
                bound,
                rule,
                depth,
                home,
                deep,
                *x,
                *from,
                *y,
                *to,
                ent,
                row,
                e,
            );
            if let (Ok(ScalarValue::Date(a)), Ok(ScalarValue::Date(b))) = (
                root_cell(s.dx, bound, s.level, *x, row),
                root_cell(s.dx, bound, s.level, *y, row),
            ) {
                Date::number_is_small(a);
                Date::number_is_small(b);
            }
        },
        _ => {},
    }
}

pub(crate) proof fn current_branch_matches(
    s: Pairing,
    f: nat,
    bound: nat,
    rule: Seq<char>,
    depth: nat,
    home: bool,
    deep: nat,
    c: CompiledScalarExpr,
    e: ScalarExpr,
    ent: Seq<char>,
    row: int,
)
    requires
        paired(s),
        at_home(s, home, ent, row),
        shows_current(s.kx, s.tables, rule, depth, c, e),
        e is If,
        fixed_scalar(s.kx, home, deep, e),
    ensures
        scalar_run(s.cx, f, e, ent, None) matches Some(run) ==> same_result(
            root_cell(s.dx, bound, s.level, c, row),
            run.value,
        ),
    decreases 2 * f, e, 1int, 0int,
{
    scalar_run_is_step(s.cx, f, e, ent, None);
    root_is_step(s.dx, bound, s.level, c);
    assert(root_cell(s.dx, bound, s.level, c, row) == root_step(s.dx, bound, s.level, c, row));
    match (e, c) {
        (
            ScalarExpr::If { condition, then_expr, else_expr },
            CompiledScalarExpr::If { condition: q, then_expr: x, else_expr: y },
        ) => {
            current_judgment_matches(
                s,
                f,
                bound,
                rule,
                depth,
                home,
                deep,
                *q,
                *condition,
                ent,
                row,
            );
            current_scalar_matches(s, f, bound, rule, depth, home, deep, *x, *then_expr, ent, row);
            match (*else_expr, *y) {
                (ScalarExpr::NoMatch { .. }, CompiledScalarExpr::NoMatch { .. }) => {
                    scalar_run_is_step(s.cx, f, *else_expr, ent, None);
                    root_is_step(s.dx, bound, s.level, *y);
                    assert(root_cell(s.dx, bound, s.level, *y, row) == root_step(
                        s.dx,
                        bound,
                        s.level,
                        *y,
                        row,
                    ));
                },
                _ => {
                    current_scalar_matches(
                        s,
                        f,
                        bound,
                        rule,
                        depth,
                        home,
                        deep,
                        *y,
                        *else_expr,
                        ent,
                        row,
                    );
                },
            }
        },
        _ => {},
    }
}

/// Two parts of a formula match, and read alike as numbers, days and counts.
pub(crate) proof fn current_pair_matches(
    s: Pairing,
    f: nat,
    bound: nat,
    rule: Seq<char>,
    depth: nat,
    home: bool,
    deep: nat,
    x: CompiledScalarExpr,
    a: ScalarExpr,
    y: CompiledScalarExpr,
    b: ScalarExpr,
    ent: Seq<char>,
    row: int,
    e: ScalarExpr,
)
    requires
        paired(s),
        at_home(s, home, ent, row),
        shows_current(s.kx, s.tables, rule, depth, x, a),
        shows_current(s.kx, s.tables, rule, depth, y, b),
        decreases_to!(e => a),
        decreases_to!(e => b),
        fixed_scalar(s.kx, home, deep, a),
        fixed_scalar(s.kx, home, deep, b),
    ensures
        current_reads_match(s, f, bound, x, a, ent, row),
        current_reads_match(s, f, bound, y, b, ent, row),
    decreases 2 * f, e, 0int, 0int,
{
    current_scalar_matches(s, f, bound, rule, depth, home, deep, x, a, ent, row);
    current_scalar_matches(s, f, bound, rule, depth, home, deep, y, b, ent, row);
    current_reads_follow(s, f, bound, x, a, ent, row);
    current_reads_follow(s, f, bound, y, b, ent, row);
}

pub(crate) proof fn current_reads_follow(
    s: Pairing,
    f: nat,
    bound: nat,
    x: CompiledScalarExpr,
    a: ScalarExpr,
    ent: Seq<char>,
    row: int,
)
    requires
        scalar_run(s.cx, f, a, ent, None) matches Some(run) ==> same_result(
            root_cell(s.dx, bound, s.level, x, row),
            run.value,
        ),
    ensures
        current_reads_match(s, f, bound, x, a, ent, row),
{
    if let Some(run) = scalar_run(s.cx, f, a, ent, None) {
        if let (Ok(u), Ok(v)) = (root_cell(s.dx, bound, s.level, x, row), run.value) {
            same_scalar_reads(u, v);
        }
    }
}

pub(crate) proof fn current_sum_matches(
    s: Pairing,
    f: nat,
    bound: nat,
    rule: Seq<char>,
    depth: nat,
    home: bool,
    deep: nat,
    list: Seq<CompiledScalarExpr>,
    items: Seq<ScalarExpr>,
    n: nat,
    ent: Seq<char>,
    row: int,
)
    requires
        paired(s),
        at_home(s, home, ent, row),
        list.len() == items.len(),
        n <= items.len(),
        shows_currents(s.kx, s.tables, rule, depth, list, items, n),
        fixed_scalars(s.kx, home, deep, items, n),
    ensures
        sum_run(s.cx, f, items, n, ent, None) matches Some(run) ==> same_number(
            root_sum(s.dx, bound, s.level, list, n, row),
            run.value,
        ),
    decreases 2 * f, items, 0int, n,
{
    if n > 0 {
        current_sum_matches(
            s,
            f,
            bound,
            rule,
            depth,
            home,
            deep,
            list,
            items,
            (n - 1) as nat,
            ent,
            row,
        );
        current_scalar_matches(
            s,
            f,
            bound,
            rule,
            depth,
            home,
            deep,
            list[n - 1],
            items[n - 1],
            ent,
            row,
        );
        current_reads_follow(s, f, bound, list[n - 1], items[n - 1], ent, row);
    }
}

pub(crate) proof fn current_extremum_matches(
    s: Pairing,
    f: nat,
    bound: nat,
    rule: Seq<char>,
    depth: nat,
    home: bool,
    deep: nat,
    list: Seq<CompiledScalarExpr>,
    items: Seq<ScalarExpr>,
    n: nat,
    largest: bool,
    ent: Seq<char>,
    row: int,
)
    requires
        paired(s),
        at_home(s, home, ent, row),
        list.len() == items.len(),
        1 <= n <= items.len(),
        shows_currents(s.kx, s.tables, rule, depth, list, items, n),
        fixed_scalars(s.kx, home, deep, items, n),
    ensures
        extremum_run(s.cx, f, items, n, largest, ent, None) matches Some(run)
            ==> same_number(root_extremum(s.dx, bound, s.level, list, n, largest, row), run.value),
    decreases 2 * f, items, 0int, n,
{
    if n > 1 {
        current_extremum_matches(
            s,
            f,
            bound,
            rule,
            depth,
            home,
            deep,
            list,
            items,
            (n - 1) as nat,
            largest,
            ent,
            row,
        );
    }
    current_scalar_matches(
        s,
        f,
        bound,
        rule,
        depth,
        home,
        deep,
        list[n - 1],
        items[n - 1],
        ent,
        row,
    );
    current_reads_follow(s, f, bound, list[n - 1], items[n - 1], ent, row);
}

pub(crate) proof fn current_judgment_matches(
    s: Pairing,
    f: nat,
    bound: nat,
    rule: Seq<char>,
    depth: nat,
    home: bool,
    deep: nat,
    c: CompiledJudgmentExpr,
    e: JudgmentExpr,
    ent: Seq<char>,
    row: int,
)
    requires
        paired(s),
        at_home(s, home, ent, row),
        shows_current_judgment(s.kx, s.tables, rule, depth, c, e),
        fixed_judgment(s.kx, home, deep, e),
    ensures
        judgment_run(s.cx, f, e, ent, None) matches Some(run) ==> same_outcome(
            root_outcome(s.dx, bound, s.level, c, row),
            run.value,
        ),
    decreases 2 * f, e, 1int, 0int,
{
    judgment_run_is_step(s.cx, f, e, ent, None);
    if let JudgmentExpr::Derived(name) = e {
        rule_has_place(s, name@);
        if f > 0 {
            let g = (f - 1) as nat;
            placed_judgment_matches(s, g, bound, depth, home, deep, c, name@, ent, row);
        }
    }
    root_outcome_is_step(s.dx, bound, s.level, c);
    assert(
        root_outcome(s.dx, bound, s.level, c, row) == root_outcome_step(s.dx, bound, s.level, c, row)
    );
    match (e, c) {
        (
            JudgmentExpr::Comparison { left, op, right },
            CompiledJudgmentExpr::Comparison { left: x, right: y, .. },
        ) => {
            current_scalar_matches(s, f, bound, rule, depth, home, deep, x, left, ent, row);
            current_scalar_matches(s, f, bound, rule, depth, home, deep, y, right, ent, row);
            if let (Some(run), Some(next)) = (
                scalar_run(s.cx, f, left, ent, None),
                scalar_run(s.cx, f, right, ent, None),
            ) {
                if let (Ok(a), Ok(b), Ok(u), Ok(v)) = (
                    root_cell(s.dx, bound, s.level, x, row),
                    root_cell(s.dx, bound, s.level, y, row),
                    run.value,
                    next.value,
                ) {
                    compared_alike(a, u, op, b, v);
                }
            }
        },
        (JudgmentExpr::And(items), CompiledJudgmentExpr::And(list)) => {
            current_connective_matches(
                s,
                f,
                bound,
                rule,
                depth,
                home,
                deep,
                list@,
                items@,
                0,
                JudgmentOutcome::NotHolds,
                false,
                ent,
                row,
            );
        },
        (JudgmentExpr::Or(items), CompiledJudgmentExpr::Or(list)) => {
            current_connective_matches(
                s,
                f,
                bound,
                rule,
                depth,
                home,
                deep,
                list@,
                items@,
                0,
                JudgmentOutcome::Holds,
                false,
                ent,
                row,
            );
        },
        (JudgmentExpr::Not(item), CompiledJudgmentExpr::Not(x)) => {
            current_judgment_matches(s, f, bound, rule, depth, home, deep, *x, *item, ent, row);
        },
        _ => {},
    }
}

pub(crate) proof fn shows_current_judgments_each(
    kx: CompileFacts,
    t: Tables,
    rule: Seq<char>,
    depth: nat,
    list: Seq<CompiledJudgmentExpr>,
    items: Seq<JudgmentExpr>,
    n: nat,
    i: int,
)
    requires
        shows_current_judgments(kx, t, rule, depth, list, items, n),
        0 <= i < n <= items.len(),
        n <= list.len(),
    ensures
        shows_current_judgment(kx, t, rule, depth, list[i], items[i]),
    decreases n,
{
    if i < n - 1 {
        shows_current_judgments_each(kx, t, rule, depth, list, items, (n - 1) as nat, i);
    }
}

pub(crate) proof fn current_connective_matches(
    s: Pairing,
    f: nat,
    bound: nat,
    rule: Seq<char>,
    depth: nat,
    home: bool,
    deep: nat,
    list: Seq<CompiledJudgmentExpr>,
    items: Seq<JudgmentExpr>,
    from: nat,
    decisive: JudgmentOutcome,
    undetermined: bool,
    ent: Seq<char>,
    row: int,
)
    requires
        paired(s),
        at_home(s, home, ent, row),
        list.len() == items.len(),
        from <= items.len(),
        shows_current_judgments(s.kx, s.tables, rule, depth, list, items, items.len()),
        root_connective(s.dx, bound, s.level, list, from, decisive, row) matches Ok(state)
            && !state.decided && state.undetermined == undetermined,
        fixed_judgments(s.kx, home, deep, items, items.len()),
    ensures
        connective_run(s.cx, f, items, from, decisive, undetermined, ent, None) matches Some(
            run,
        ) ==> same_outcome(
            crate::column::connective_outcome(
                decisive,
                root_connective(s.dx, bound, s.level, list, list.len(), decisive, row),
            ),
            run.value,
        ),
    decreases 2 * f, items, 0int, items.len() - from,
{
    if from < items.len() {
        shows_current_judgments_each(
            s.kx,
            s.tables,
            rule,
            depth,
            list,
            items,
            items.len(),
            from as int,
        );
        fixed_judgments_each(s.kx, home, deep, items, items.len(), from as int);
        current_judgment_matches(
            s,
            f,
            bound,
            rule,
            depth,
            home,
            deep,
            list[from as int],
            items[from as int],
            ent,
            row,
        );
        if let Some(run) = judgment_run(s.cx, f, items[from as int], ent, None) {
            match run.value {
                Ok(o) if o != decisive => {
                    current_connective_matches(
                        s,
                        f,
                        bound,
                        rule,
                        depth,
                        home,
                        deep,
                        list,
                        items,
                        from + 1,
                        decisive,
                        undetermined || o is Undetermined,
                        ent,
                        row,
                    );
                },
                _ => {
                    settled_stays(s.dx, bound, s.level, list, from + 1, list.len(), decisive, row);
                },
            }
        }
    }
}

/// Whether a part of a formula matches, and reads alike as a number, a day and a count.
pub open spec fn current_reads_match(
    s: Pairing,
    f: nat,
    bound: nat,
    x: CompiledScalarExpr,
    a: ScalarExpr,
    ent: Seq<char>,
    row: int,
) -> bool {
    scalar_run(s.cx, f, a, ent, None) matches Some(run) ==> match (
        root_cell(s.dx, bound, s.level, x, row),
        run.value,
    ) {
        (Ok(u), Ok(v)) => u.number() == v.number() && u.day() == v.day() && u.index() == v.index(),
        (Err(_), Err(_)) => true,
        _ => false,
    }
}

/// A rule that is put in place has the value that it has for the entity that it is read for.
pub(crate) proof fn placed_matches(
    s: Pairing,
    f: nat,
    bound: nat,
    depth: nat,
    home: bool,
    deep: nat,
    c: CompiledScalarExpr,
    name: Seq<char>,
    ent: Seq<char>,
    row: int,
)
    requires
        paired(s),
        at_home(s, home, ent, row),
        is_placed(s.kx, home, deep, name),
        depth > 0,
        s.kx.rule_at(s.kx.position(name)->Some_0).semantics matches DerivedSemantics::Scalar(e)
            && shows_current(s.kx, s.tables, name, (depth - 1) as nat, c, e),
    ensures
        rule_scalar(s.cx, f, name, ent) matches Some(run) ==> same_result(
            root_cell(s.dx, bound, s.level, c, row),
            run.value,
        ),
    decreases 2 * f + 1, s, 0int, 0int,
{
    rule_has_place(s, name);
    if let DerivedSemantics::Scalar(e) = s.kx.rule_at(s.kx.position(name)->Some_0).semantics {
        let (depth, deep) = ((depth - 1) as nat, (deep - 1) as nat);
        current_scalar_matches(s, f, bound, name, depth, home, deep, c, e, ent, row);
    }
}

/// A judgment rule that is put in place has the outcome that it has for the entity that it is read
/// for.
pub(crate) proof fn placed_judgment_matches(
    s: Pairing,
    f: nat,
    bound: nat,
    depth: nat,
    home: bool,
    deep: nat,
    c: CompiledJudgmentExpr,
    name: Seq<char>,
    ent: Seq<char>,
    row: int,
)
    requires
        paired(s),
        at_home(s, home, ent, row),
        is_placed(s.kx, home, deep, name),
        depth > 0,
        s.kx.rule_at(s.kx.position(name)->Some_0).semantics matches DerivedSemantics::Judgment(e)
            && shows_current_judgment(s.kx, s.tables, name, (depth - 1) as nat, c, e),
    ensures
        rule_judgment(s.cx, f, name, ent) matches Some(run) ==> same_outcome(
            root_outcome(s.dx, bound, s.level, c, row),
            run.value,
        ),
    decreases 2 * f + 1, s, 0int, 0int,
{
    rule_has_place(s, name);
    if let DerivedSemantics::Judgment(e) = s.kx.rule_at(s.kx.position(name)->Some_0).semantics {
        let (depth, deep) = ((depth - 1) as nat, (deep - 1) as nat);
        current_judgment_matches(s, f, bound, name, depth, home, deep, c, e, ent, row);
    }
}

/// A judgment that is put in place holds or does not hold, where it does not fail.
pub(crate) proof fn current_is_decided(
    s: Pairing,
    bound: nat,
    rule: Seq<char>,
    depth: nat,
    c: CompiledJudgmentExpr,
    e: JudgmentExpr,
    row: int,
)
    requires
        shows_current_judgment(s.kx, s.tables, rule, depth, c, e),
    ensures
        root_outcome(s.dx, bound, s.level, c, row) matches Ok(o) ==> !(o is Undetermined),
    decreases depth, e, 1int, 0nat,
{
    root_outcome_is_step(s.dx, bound, s.level, c);
    assert(
        root_outcome(s.dx, bound, s.level, c, row) == root_outcome_step(s.dx, bound, s.level, c, row)
    );
    match (e, c) {
        (JudgmentExpr::And(items), CompiledJudgmentExpr::And(list)) => {
            let decisive = JudgmentOutcome::NotHolds;
            current_list_is_decided(
                s,
                bound,
                rule,
                depth,
                list@,
                items@,
                items@.len(),
                decisive,
                row,
            );
        },
        (JudgmentExpr::Or(items), CompiledJudgmentExpr::Or(list)) => {
            let decisive = JudgmentOutcome::Holds;
            current_list_is_decided(
                s,
                bound,
                rule,
                depth,
                list@,
                items@,
                items@.len(),
                decisive,
                row,
            );
        },
        (JudgmentExpr::Not(item), CompiledJudgmentExpr::Not(x)) => {
            current_is_decided(s, bound, rule, depth, *x, *item, row);
        },
        (JudgmentExpr::Derived(name), _) => {
            let d = s.kx.rule_at(s.kx.position(name@)->Some_0);
            if let DerivedSemantics::Judgment(inner) = d.semantics {
                current_is_decided(s, bound, name@, (depth - 1) as nat, c, inner, row);
            }
        },
        _ => {},
    }
}

proof fn current_list_is_decided(
    s: Pairing,
    bound: nat,
    rule: Seq<char>,
    depth: nat,
    list: Seq<CompiledJudgmentExpr>,
    items: Seq<JudgmentExpr>,
    n: nat,
    decisive: JudgmentOutcome,
    row: int,
)
    requires
        list.len() == items.len(),
        n <= items.len(),
        shows_current_judgments(s.kx, s.tables, rule, depth, list, items, n),
    ensures
        root_connective(s.dx, bound, s.level, list, n, decisive, row) matches Ok(state)
            ==> !state.undetermined,
    decreases depth, items, 0int, n,
{
    if n > 0 {
        let before = (n - 1) as nat;
        current_list_is_decided(s, bound, rule, depth, list, items, before, decisive, row);
        current_is_decided(s, bound, rule, depth, list[n - 1], items[n - 1], row);
    }
}

} // verus!
