//! The bulk evaluator: every query row of a request at once.
//!
//! Each formula is evaluated under a mask of the rows that reach it, and errors are
//! recorded by row. `if` evaluates each branch for the rows that select it, `and` and `or`
//! each item for the rows that are undecided, and a rule the rows that reach a reference
//! to it. Every row gets what the interpreter computes for it.
use crate::bulk_column::{compare_columns, with_failure, ScalarColumn};
use crate::column::repeated;
use crate::date::Date;
use crate::date_bounds::{judgment_dates_at, scalar_dates_at};
use crate::date_use::{
    connective_date_met, connective_date_met_later, date_met, date_met_is_step, date_of,
    extremum_date_met, extremum_date_met_later, extremum_date_met_stays, first_met, has_value,
    is_held, is_nonzero, judgment_date_met, judgment_date_met_is_step, judgment_dates,
    judgment_rule_date_met, met_alike, met_at_once, met_by, met_here, met_in, met_in_part,
    output_dates, rule_date_met, scalar_dates, sum_date_met, sum_date_met_later,
    sum_date_met_stays, unmet, Met,
};
use crate::decimal::Decimal;
use crate::engine::{
    judgment_meaning, judgment_meaning_at, judgment_terminates, no_matching_arm,
    relation_member_outside_derived_relation, scalar_meaning, scalar_meaning_at,
    scalar_terminates, Engine,
};
use crate::error::{
    checked_add, checked_div, checked_mul, checked_sub, divided, in_range, outcome, ErrorView,
    EvalError,
};
use crate::lazy::{RowErrors, RowMask};
use crate::model::{
    find_named, DataSet, Derived, DerivedSemantics, JudgmentExpr, JudgmentOutcome, Period, Program,
    ScalarExpr, ScalarValue,
};
use crate::semantics::{
    as_count, as_decimal_value, better, both, connective_run, done, extremum_run, finish,
    input_value, judgment_run, judgment_run_is_step, no_match_error, number_of, output_rounded,
    parameter_read,
    rule_formula, rule_judgment, rule_scalar, scalar_run, scalar_run_is_step, sum_run, Eval, Facts,
};
use crate::text::{owned, same, texts};
use vstd::prelude::*;
use vstd::string::*;

verus! {

/// What an error says of what is not supported.
pub open spec fn unsupported_text(what: Seq<char>) -> Seq<char> {
    "bulk fast mode does not yet support "@ + what
}

fn unsupported(construct: &str) -> (r: EvalError)
    ensures
        r@ == ErrorView::TypeMismatch(unsupported_text(construct@)),
{
    let mut message = owned("bulk fast mode does not yet support ");
    message.append(construct);
    let r = EvalError::TypeMismatch(message);
    assert(r@ == ErrorView::TypeMismatch(unsupported_text(construct@)));
    r
}

/// An error without the name of the rule whose `match` has no arm.
pub open spec fn unnamed(error: ErrorView) -> ErrorView {
    match error {
        ErrorView::NoMatchingArm { subject, value, patterns, .. } => ErrorView::NoMatchingArm {
            rule: Seq::empty(),
            subject,
            value,
            patterns,
        },
        _ => error,
    }
}

/// Whether an error is told as it is, or without the name of its rule.
pub open spec fn is_told(told: ErrorView, error: ErrorView) -> bool {
    told == error || told == unnamed(error)
}

/// An error that is told without a rule is told of the rule that it leaves, too.
proof fn told_of_its_rule(told: ErrorView, error: ErrorView, name: Seq<char>)
    requires
        is_told(told, error),
    ensures
        is_told(told, error.within(name)),
{
    if let ErrorView::NoMatchingArm { rule, .. } = error {
        if rule.len() == 0 {
            assert(rule =~= Seq::empty());
        }
    }
}

/// Whether a row failed with an error, which may lack the name of its rule.
pub open spec fn fails_with(errors: RowErrors, row: int, error: ErrorView) -> bool {
    errors.at(row) matches Some(e) && is_told(e, error)
}

/// Whether a row has the value of an evaluation, or failed where that is an error.
pub open spec fn shows(
    column: ScalarColumn,
    errors: RowErrors,
    row: int,
    run: Option<Eval<ScalarValue>>,
) -> bool {
    match run {
        Some(eval) => match eval.value {
            Ok(v) => !errors.failed(row) && column.cell(row) == v,
            Err(e) => fails_with(errors, row, e),
        },
        None => false,
    }
}

/// Whether a row has the outcome of an evaluation, or failed where that is an error.
pub open spec fn judges(
    outcomes: Seq<JudgmentOutcome>,
    errors: RowErrors,
    row: int,
    run: Option<Eval<JudgmentOutcome>>,
) -> bool {
    match run {
        Some(eval) => match eval.value {
            Ok(v) => !errors.failed(row) && outcomes[row] == v,
            Err(e) => fails_with(errors, row, e),
        },
        None => false,
    }
}

/// A rule's values, for the rows that were computed.
#[derive(Debug)]
struct ScalarEntry {
    name: String,
    values: ScalarColumn,
    errors: RowErrors,
    computed: RowMask,
}

/// A rule's outcomes, for the rows that were computed.
#[derive(Debug)]
struct JudgmentEntry {
    name: String,
    values: Vec<JudgmentOutcome>,
    errors: RowErrors,
    computed: RowMask,
}

/// Evaluates rules for all rows.
pub struct BulkEvaluator<'a> {
    program: &'a Program,
    period: Period,
    entity_ids: Vec<String>,
    scalar_cache: Vec<ScalarEntry>,
    judgment_cache: Vec<JudgmentEntry>,
    /// The interpreter, for what is evaluated row by row.
    engine: Engine<'a>,
}

spec fn scalar_entry_sound(entry: ScalarEntry, cx: Facts, ids: Seq<Seq<char>>) -> bool {
    &&& entry.values.rows() == ids.len()
    &&& entry.computed@.len() == ids.len()
    &&& forall|row: int| #[trigger] entry.errors.failed(row) ==> entry.computed.has(row)
    &&& forall|row: int| #[trigger]
        entry.computed.has(row) ==> scalar_terminates(cx, entry.name@, ids[row]) && shows(
            entry.values,
            entry.errors,
            row,
            Some(scalar_meaning(cx, entry.name@, ids[row])),
        ) && scalar_dates(cx, entry.name@, ids[row]) is None
}

spec fn judgment_entry_sound(entry: JudgmentEntry, cx: Facts, ids: Seq<Seq<char>>) -> bool {
    &&& entry.values@.len() == ids.len()
    &&& entry.computed@.len() == ids.len()
    &&& forall|row: int| #[trigger] entry.errors.failed(row) ==> entry.computed.has(row)
    &&& forall|row: int| #[trigger]
        entry.computed.has(row) ==> judgment_terminates(cx, entry.name@, ids[row]) && judges(
            entry.values@,
            entry.errors,
            row,
            Some(judgment_meaning(cx, entry.name@, ids[row])),
        ) && judgment_dates(cx, entry.name@, ids[row]) is None
}

fn copied_outcomes(values: &Vec<JudgmentOutcome>) -> (r: Vec<JudgmentOutcome>)
    ensures
        r@ == values@,
{
    let mut out: Vec<JudgmentOutcome> = Vec::new();
    let mut i: usize = 0;
    while i < values.len()
        invariant
            i <= values@.len(),
            out@ == values@.take(i as int),
        decreases values@.len() - i,
    {
        out.push(values[i]);
        assert(out@ =~= values@.take(i + 1));
        i = i + 1;
    }
    assert(out@ =~= values@);
    out
}

/// What the rows of a mask have of a formula.
pub open spec fn scalars_hold(
    cx: Facts,
    ids: Seq<Seq<char>>,
    fuel: nat,
    e: ScalarExpr,
    mask: RowMask,
    column: ScalarColumn,
    errors: RowErrors,
) -> bool {
    &&& column.rows() == ids.len()
    &&& forall|row: int| #[trigger] errors.failed(row) ==> mask.has(row)
    &&& forall|row: int| #[trigger]
        mask.has(row) ==> shows(column, errors, row, scalar_run(cx, fuel, e, ids[row], None))
}

/// Whether a formula has a value or an error on the rows of a mask.
pub open spec fn scalars_end(
    cx: Facts,
    ids: Seq<Seq<char>>,
    fuel: nat,
    e: ScalarExpr,
    mask: RowMask,
) -> bool {
    &&& mask@.len() == ids.len()
    &&& forall|row: int| #[trigger]
        mask.has(row) ==> scalar_run(cx, fuel, e, ids[row], None) is Some
}

pub open spec fn judgments_hold(
    cx: Facts,
    ids: Seq<Seq<char>>,
    fuel: nat,
    e: JudgmentExpr,
    mask: RowMask,
    outcomes: Seq<JudgmentOutcome>,
    errors: RowErrors,
) -> bool {
    &&& outcomes.len() == ids.len()
    &&& forall|row: int| #[trigger] errors.failed(row) ==> mask.has(row)
    &&& forall|row: int| #[trigger]
        mask.has(row) ==> judges(outcomes, errors, row, judgment_run(cx, fuel, e, ids[row], None))
}

pub open spec fn judgments_end(
    cx: Facts,
    ids: Seq<Seq<char>>,
    fuel: nat,
    e: JudgmentExpr,
    mask: RowMask,
) -> bool {
    &&& mask@.len() == ids.len()
    &&& forall|row: int| #[trigger]
        mask.has(row) ==> judgment_run(cx, fuel, e, ids[row], None) is Some
}

/// What the rows of a mask have of a rule.
pub open spec fn rule_scalars_hold(
    cx: Facts,
    ids: Seq<Seq<char>>,
    name: Seq<char>,
    mask: RowMask,
    column: ScalarColumn,
    errors: RowErrors,
) -> bool {
    &&& column.rows() == ids.len()
    &&& forall|row: int| #[trigger] errors.failed(row) ==> mask.has(row)
    &&& forall|row: int| #[trigger]
        mask.has(row) ==> shows(column, errors, row, Some(scalar_meaning(cx, name, ids[row])))
}

pub open spec fn rule_judgments_hold(
    cx: Facts,
    ids: Seq<Seq<char>>,
    name: Seq<char>,
    mask: RowMask,
    outcomes: Seq<JudgmentOutcome>,
    errors: RowErrors,
) -> bool {
    &&& outcomes.len() == ids.len()
    &&& forall|row: int| #[trigger] errors.failed(row) ==> mask.has(row)
    &&& forall|row: int| #[trigger]
        mask.has(row) ==> judges(outcomes, errors, row, Some(judgment_meaning(cx, name, ids[row])))
}

/// The number that a formula gives for a row.
spec fn row_number(cx: Facts, fuel: nat, e: ScalarExpr, id: Seq<char>) -> Option<Eval<Decimal>> {
    number_of(scalar_run(cx, fuel, e, id, None))
}

/// What the rows of a mask have of a formula that is read as numbers: the rows that stay
/// have one, the others failed.
spec fn numbers_hold(
    cx: Facts,
    ids: Seq<Seq<char>>,
    fuel: nat,
    e: ScalarExpr,
    mask: RowMask,
    before: RowErrors,
    numbers: Seq<Decimal>,
    live: RowMask,
    errors: RowErrors,
) -> bool {
    &&& numbers.len() == ids.len()
    &&& live@.len() == ids.len()
    &&& forall|row: int| #[trigger] live.has(row) ==> mask.has(row)
    &&& forall|row: int| #[trigger]
        mask.has(row) ==> match row_number(cx, fuel, e, ids[row]) {
            Some(eval) => match eval.value {
                Ok(d) => live.has(row) && numbers[row] == d,
                Err(_) => !live.has(row),
            },
            None => false,
        }
    &&& forall|row: int| #[trigger]
        errors.failed(row) <==> before.failed(row) || (mask.has(row) && !live.has(row))
    &&& forall|row: int| before.failed(row) ==> #[trigger] errors.at(row) == before.at(row)
    &&& forall|row: int| #[trigger]
        mask.has(row) && !live.has(row) && !before.failed(row) ==> fails_with(
            errors,
            row,
            row_number(cx, fuel, e, ids[row])->0.value->Err_0,
        )
}

impl<'a> BulkEvaluator<'a> {
    /// What is evaluated.
    pub closed spec fn facts(&self) -> Facts {
        self.engine.facts(self.period@)
    }

    /// The entity of each row.
    pub closed spec fn ids(&self) -> Seq<Seq<char>> {
        texts(self.entity_ids@)
    }

    /// What was computed is what the interpreter computes.
    pub closed spec fn well_formed(&self) -> bool {
        &&& self.engine.well_formed()
        &&& self.engine.program_view() == *self.program
        &&& forall|i: int|
            0 <= i < self.scalar_cache@.len() ==> scalar_entry_sound(
                #[trigger] self.scalar_cache@[i],
                self.facts(),
                self.ids(),
            )
        &&& forall|i: int|
            0 <= i < self.judgment_cache@.len() ==> judgment_entry_sound(
                #[trigger] self.judgment_cache@[i],
                self.facts(),
                self.ids(),
            )
    }

    /// Whether the evaluator evaluates the same as `before`.
    pub open spec fn continues(&self, before: &BulkEvaluator<'a>) -> bool {
        self.well_formed() && self.facts() == before.facts() && self.ids() == before.ids()
    }

    pub fn new(program: &'a Program, data: &'a DataSet, period: Period, entity_ids: Vec<String>) -> (r:
        BulkEvaluator<'a>)
        ensures
            r.well_formed(),
            r.facts() == (Facts { program: *program, data: data@, period: period@ }),
            r.ids() == texts(entity_ids@),
    {
        BulkEvaluator {
            program,
            period,
            entity_ids,
            scalar_cache: Vec::new(),
            judgment_cache: Vec::new(),
            engine: Engine::new(program, data),
        }
    }

    fn len(&self) -> (r: usize)
        ensures
            r == self.ids().len(),
    {
        self.entity_ids.len()
    }

    fn find_scalar(&self, name: &str) -> (r: Option<usize>)
        ensures
            r matches Some(i) ==> i < self.scalar_cache@.len() && self.scalar_cache@[i as int].name@
                == name@,
    {
        let mut i: usize = 0;
        while i < self.scalar_cache.len()
            invariant
                i <= self.scalar_cache@.len(),
            decreases self.scalar_cache@.len() - i,
        {
            if same(self.scalar_cache[i].name.as_str(), name) {
                return Some(i);
            }
            i = i + 1;
        }
        None
    }

    fn find_judgment(&self, name: &str) -> (r: Option<usize>)
        ensures
            r matches Some(i) ==> i < self.judgment_cache@.len()
                && self.judgment_cache@[i as int].name@ == name@,
    {
        let mut i: usize = 0;
        while i < self.judgment_cache.len()
            invariant
                i <= self.judgment_cache@.len(),
            decreases self.judgment_cache@.len() - i,
        {
            if same(self.judgment_cache[i].name.as_str(), name) {
                return Some(i);
            }
            i = i + 1;
        }
        None
    }

    fn fail_all(&self, mask: &RowMask, error: EvalError) -> (r: (ScalarColumn, RowErrors))
        ensures
            r.0.rows() == self.ids().len(),
            forall|row: int| #[trigger] r.1.failed(row) <==> mask.has(row),
            forall|row: int| #[trigger] mask.has(row) ==> r.1.at(row) == Some(error@),
    {
        let mut errors = RowErrors::new();
        errors.record_all(mask, &error);
        assert forall|row: int| #[trigger] errors.failed(row) <==> mask.has(row) by {
            assert(errors.at(row) == if mask.has(row) {
                Some(error@)
            } else {
                None
            });
        }
        assert forall|row: int| #[trigger] mask.has(row) implies errors.at(row) == Some(error@) by {}
        (ScalarColumn::placeholder(self.len()), errors)
    }

    /// Reads an input on the rows of a mask.
    fn eval_input(
        &self,
        name: &str,
        default: Option<&ScalarValue>,
        mask: &RowMask,
        Ghost(fuel): Ghost<nat>,
        Ghost(whole): Ghost<ScalarExpr>,
    ) -> (r: Result<(ScalarColumn, RowErrors), EvalError>)
        requires
            mask@.len() == self.ids().len(),
            match (whole, default) {
                (ScalarExpr::Input(n), None) => n@ == name@,
                (ScalarExpr::InputOrElse { name: n, default: v }, Some(given)) => n@ == name@ && v
                    == *given,
                _ => false,
            },
        ensures
            match r {
                Ok((column, errors)) => {
                    &&& column.rows() == self.ids().len()
                    &&& forall|row: int| #[trigger] errors.failed(row) ==> mask.has(row)
                    &&& forall|row: int| #[trigger]
                        mask.has(row) ==> shows(
                            column,
                            errors,
                            row,
                            done(
                                input_or(
                                    self.facts(),
                                    name@,
                                    self.ids()[row],
                                    match default {
                                        Some(v) => Some(*v),
                                        None => None,
                                    },
                                ),
                            ),
                        )
                },
                Err(error) => met_by(
                    self.ids(),
                    *mask,
                    error@,
                    |id: Seq<char>| date_met(self.facts(), fuel, whole, id),
                ),
            },
            r is Ok ==> unmet(
                self.ids(),
                *mask,
                |id: Seq<char>| date_met(self.facts(), fuel, whole, id),
            ),
    {
        let ghost cx = self.facts();
        let ghost given = match default {
            Some(v) => Some(*v),
            None => None,
        };
        proof {
            date_met_is_step(cx, fuel, whole);
        }
        let n = self.len();
        let mut errors = RowErrors::new();
        let mut entries: Vec<Option<ScalarValue>> = Vec::new();
        let mut row: usize = 0;
        while row < n
            invariant
                row <= n,
                n == self.ids().len(),
                mask@.len() == n,
                cx == self.facts(),
                given == match default {
                    Some(v) => Some(*v),
                    None => None,
                },
                forall|id: Seq<char>| #[trigger]
                    date_met(cx, fuel, whole, id) == date_of(
                        input_or(cx, name@, id, given),
                        "date inputs"@,
                    ),
                entries@.len() == row,
                forall|k: int| #[trigger] errors.failed(k) ==> mask.has(k) && k < row,
                forall|k: int| #[trigger]
                    mask.has(k) && k < row ==> match input_or(cx, name@, self.ids()[k], given) {
                        Ok(v) => !errors.failed(k) && entries@[k] == Some(v) && !(v is Date),
                        Err(e) => fails_with(errors, k, e),
                    },
            decreases n - row,
        {
            let mut entry: Option<ScalarValue> = None;
            let ghost before = errors;
            if mask.contains(row) {
                assert(self.ids()[row as int] == self.entity_ids@[row as int]@);
                match self.engine.lookup_input(name, self.entity_ids[row].as_str(), &self.period) {
                    Ok(value) => {
                        if matches!(value, ScalarValue::Date(_)) {
                            let error = unsupported("date inputs");
                            proof {
                                met_at_once(
                                    self.ids(),
                                    *mask,
                                    error@,
                                    |id: Seq<char>| date_met(cx, fuel, whole, id),
                                    row as int,
                                    Met { path: Seq::empty(), what: "date inputs"@ },
                                );
                            }
                            return Err(error);
                        }
                        entry = Some(value);
                    },
                    Err(error) => {
                        let fallback = match &error {
                            EvalError::MissingInput { .. } => default,
                            _ => None,
                        };
                        match fallback {
                            Some(value) => {
                                if matches!(value, ScalarValue::Date(_)) {
                                    let error = unsupported("date inputs");
                                    proof {
                                        met_at_once(
                                            self.ids(),
                                            *mask,
                                            error@,
                                            |id: Seq<char>| date_met(cx, fuel, whole, id),
                                            row as int,
                                            Met { path: Seq::empty(), what: "date inputs"@ },
                                        );
                                    }
                                    return Err(error);
                                }
                                entry = Some(value.duplicate());
                            },
                            None => {
                                errors.record(row, error);
                            },
                        }
                    },
                }
            }
            entries.push(entry);
            proof {
                assert forall|k: int| k != row implies #[trigger] errors.at(k) == before.at(k) by {}
                assert forall|k: int| #[trigger] errors.failed(k) implies mask.has(k) && k < row
                    + 1 by {
                    if k != row {
                        assert(before.failed(k));
                    }
                }
                assert forall|k: int| #[trigger] mask.has(k) && k < row + 1 implies match input_or(
                    cx,
                    name@,
                    self.ids()[k],
                    given,
                ) {
                    Ok(v) => !errors.failed(k) && entries@[k] == Some(v) && !(v is Date),
                    Err(e) => fails_with(errors, k, e),
                } by {
                    if k == row {
                        assert(!before.failed(k));
                    } else {
                        assert(errors.failed(k) == before.failed(k));
                    }
                }
            }
            row = row + 1;
        }
        let column = ScalarColumn::from_entries(&entries);
        Ok((column, errors))
    }

    /// Reads a parameter on the rows of a mask, at the keys that a column holds.
    fn read_parameters(
        &self,
        parameter: &str,
        keys: &ScalarColumn,
        mask: &RowMask,
        key_errors: RowErrors,
    ) -> (r: Result<(ScalarColumn, RowErrors), EvalError>)
        requires
            mask@.len() == self.ids().len(),
            keys.rows() == self.ids().len(),
            forall|row: int| #[trigger] key_errors.failed(row) ==> mask.has(row),
        ensures
            match r {
                Ok((column, errors)) => {
                    &&& column.rows() == self.ids().len()
                    &&& forall|row: int| #[trigger] errors.failed(row) ==> mask.has(row)
                    &&& forall|row: int| #[trigger]
                        mask.has(row) ==> if key_errors.failed(row) {
                            errors.at(row) == key_errors.at(row)
                        } else {
                            shows(
                                column,
                                errors,
                                row,
                                done(read_at(self.facts(), parameter@, keys.cell(row))),
                            )
                        }
                },
                Err(error) => error@ == ErrorView::TypeMismatch(
                    unsupported_text("date parameter values"@),
                ) && exists|row: int| #[trigger]
                    mask.has(row) && !key_errors.failed(row) && read_at(
                        self.facts(),
                        parameter@,
                        keys.cell(row),
                    ) matches Ok(ScalarValue::Date(_)),
            },
            r is Ok ==> forall|row: int| #[trigger]
                mask.has(row) && !key_errors.failed(row) ==> !(read_at(
                    self.facts(),
                    parameter@,
                    keys.cell(row),
                ) matches Ok(ScalarValue::Date(_))),
    {
        let ghost cx = self.facts();
        let ghost start = key_errors;
        let mut errors = key_errors;
        let n = self.len();
        let mut entries: Vec<Option<ScalarValue>> = Vec::new();
        let mut row: usize = 0;
        while row < n
            invariant
                row <= n,
                n == self.ids().len(),
                mask@.len() == n,
                keys.rows() == n,
                cx == self.facts(),
                entries@.len() == row,
                start == key_errors,
                forall|k: int| #[trigger] start.failed(k) ==> mask.has(k),
                forall|k: int| k >= row ==> #[trigger] errors.at(k) == start.at(k),
                forall|k: int| #[trigger] errors.failed(k) ==> mask.has(k),
                forall|k: int| #[trigger]
                    mask.has(k) && k < row ==> if start.failed(k) {
                        errors.at(k) == start.at(k)
                    } else {
                        match read_at(cx, parameter@, keys.cell(k)) {
                            Ok(v) => !errors.failed(k) && entries@[k] == Some(v) && !(v is Date),
                            Err(e) => fails_with(errors, k, e),
                        }
                    },
            decreases n - row,
        {
            let mut entry: Option<ScalarValue> = None;
            let ghost before = errors;
            assert(errors.at(row as int) == start.at(row as int));
            if mask.contains(row) && !errors.contains(row) {
                match keys.value_at(row).as_index() {
                    None => {
                        let mut message = owned("parameter key for `");
                        message.append(parameter);
                        message.append("` must be an integer");
                        errors.record(row, EvalError::TypeMismatch(message));
                    },
                    Some(key) => match self.engine.read_parameter(parameter, key, &self.period) {
                        Ok(value) => {
                            if matches!(value, ScalarValue::Date(_)) {
                                assert(mask.has(row as int));
                                assert(errors.at(row as int) == start.at(row as int));
                                assert(read_at(cx, parameter@, keys.cell(row as int)) == Ok::<
                                    ScalarValue,
                                    ErrorView,
                                >(value));
                                return Err(unsupported("date parameter values"));
                            }
                            entry = Some(value);
                        },
                        Err(error) => {
                            errors.record(row, error);
                        },
                    },
                }
            }
            entries.push(entry);
            proof {
                assert forall|k: int| k != row implies #[trigger] errors.at(k) == before.at(k) by {}
                assert forall|k: int| #[trigger] errors.failed(k) implies mask.has(k) by {
                    if k != row {
                        assert(before.failed(k));
                    } else if !mask.has(k) {
                        assert(start.failed(k));
                    }
                }
                assert forall|k: int| #[trigger] mask.has(k) && k < row + 1 implies if start.failed(
                    k,
                ) {
                    errors.failed(k)
                } else {
                    match read_at(cx, parameter@, keys.cell(k)) {
                        Ok(v) => !errors.failed(k) && entries@[k] == Some(v) && !(v is Date),
                        Err(e) => fails_with(errors, k, e),
                    }
                } by {
                    if k != row {
                        assert(errors.failed(k) == before.failed(k));
                    }
                }
            }
            row = row + 1;
        }
        let column = ScalarColumn::from_entries(&entries);
        Ok((column, errors))
    }
}

/// The value of an input, or the default where no record covers the period.
pub open spec fn input_or(
    cx: Facts,
    name: Seq<char>,
    id: Seq<char>,
    default: Option<ScalarValue>,
) -> Result<ScalarValue, ErrorView> {
    match input_value(cx, name, id) {
        Err(ErrorView::MissingInput { name, entity_id, period_start, period_end }) => match default {
            Some(v) => Ok(v),
            None => Err(
                ErrorView::MissingInput { name, entity_id, period_start, period_end },
            ),
        },
        other => other,
    }
}

/// The value of a parameter at a key that is an integer.
pub open spec fn read_at(cx: Facts, parameter: Seq<char>, key: ScalarValue) -> Result<
    ScalarValue,
    ErrorView,
> {
    match as_count(key, "parameter key for `"@ + parameter + "` must be an integer"@) {
        Ok(k) => parameter_read(cx, parameter, k).value,
        Err(error) => Err(error),
    }
}

proof fn sum_prefix(
    cx: Facts,
    fuel: nat,
    items: Seq<ScalarExpr>,
    n: nat,
    m: nat,
    id: Seq<char>,
)
    requires
        n <= m <= items.len(),
        sum_run(cx, fuel, items, m, id, None) is Some,
    ensures
        sum_run(cx, fuel, items, n, id, None) is Some,
        sum_run(cx, fuel, items, n, id, None)->0.value is Err ==> sum_run(
            cx,
            fuel,
            items,
            m,
            id,
            None,
        )->0.value is Err,
    decreases m,
{
    if n < m {
        sum_prefix(cx, fuel, items, n, (m - 1) as nat, id);
    }
}

proof fn extremum_prefix(
    cx: Facts,
    fuel: nat,
    items: Seq<ScalarExpr>,
    n: nat,
    m: nat,
    largest: bool,
    id: Seq<char>,
)
    requires
        0 < n <= m <= items.len(),
        extremum_run(cx, fuel, items, m, largest, id, None) is Some,
    ensures
        extremum_run(cx, fuel, items, n, largest, id, None) is Some,
        extremum_run(cx, fuel, items, n, largest, id, None)->0.value is Err ==> extremum_run(
            cx,
            fuel,
            items,
            m,
            largest,
            id,
            None,
        )->0.value is Err,
    decreases m,
{
    if n < m {
        extremum_prefix(cx, fuel, items, n, (m - 1) as nat, largest, id);
    }
}

/// A two-sided operation on numbers.
#[derive(Clone, Copy)]
enum Operation {
    Sub,
    Mul,
}

spec fn operated(operation: Operation, a: Decimal, b: Decimal) -> Result<Decimal, ErrorView> {
    match operation {
        Operation::Sub => in_range(crate::decimal::decimal_difference(a, b)),
        Operation::Mul => in_range(crate::decimal::decimal_product(a, b)),
    }
}

spec fn operation_run(
    cx: Facts,
    fuel: nat,
    operation: Operation,
    a: ScalarExpr,
    b: ScalarExpr,
    id: Seq<char>,
) -> Option<Eval<ScalarValue>> {
    finish(
        both(row_number(cx, fuel, a, id), row_number(cx, fuel, b, id)),
        |p: (Decimal, Decimal)| as_decimal_value(operated(operation, p.0, p.1)),
    )
}

spec fn division_run(cx: Facts, fuel: nat, a: ScalarExpr, b: ScalarExpr, id: Seq<char>) -> Option<
    Eval<ScalarValue>,
> {
    finish(
        both(
            finish(
                row_number(cx, fuel, b, id),
                |d: Decimal|
                    if d.magnitude() == 0 {
                        Err(ErrorView::DivisionByZero)
                    } else {
                        Ok(d)
                    },
            ),
            row_number(cx, fuel, a, id),
        ),
        |p: (Decimal, Decimal)| as_decimal_value(divided(p.1, p.0)),
    )
}

/// Whether a row has the number of an evaluation, or failed where that is an error.
spec fn shows_number(
    numbers: Seq<Decimal>,
    errors: RowErrors,
    row: int,
    run: Option<Eval<Decimal>>,
) -> bool {
    match run {
        Some(eval) => match eval.value {
            Ok(d) => !errors.failed(row) && numbers[row] == d,
            Err(e) => fails_with(errors, row, e),
        },
        None => false,
    }
}

impl<'a> BulkEvaluator<'a> {
    fn store_scalar(&mut self, entry: ScalarEntry)
        requires
            old(self).well_formed(),
            scalar_entry_sound(entry, old(self).facts(), old(self).ids()),
        ensures
            final(self).continues(old(self)),
    {
        match self.find_scalar(entry.name.as_str()) {
            Some(i) => {
                self.scalar_cache.set(i, entry);
            },
            None => {
                self.scalar_cache.push(entry);
            },
        }
    }

    fn store_judgment(&mut self, entry: JudgmentEntry)
        requires
            old(self).well_formed(),
            judgment_entry_sound(entry, old(self).facts(), old(self).ids()),
        ensures
            final(self).continues(old(self)),
    {
        match self.find_judgment(entry.name.as_str()) {
            Some(i) => {
                self.judgment_cache.set(i, entry);
            },
            None => {
                self.judgment_cache.push(entry);
            },
        }
    }

    /// What is known of a rule: a copy of its entry, or an empty one.
    fn known_scalar(&self, name: &str) -> (r: ScalarEntry)
        requires
            self.well_formed(),
        ensures
            scalar_entry_sound(r, self.facts(), self.ids()),
            r.name@ == name@,
    {
        match self.find_scalar(name) {
            Some(i) => {
                let entry = &self.scalar_cache[i];
                assert(scalar_entry_sound(*entry, self.facts(), self.ids()));
                let r = ScalarEntry {
                    name: owned(name),
                    values: entry.values.duplicate(),
                    errors: entry.errors.restricted_to(&entry.computed),
                    computed: entry.computed.duplicate(),
                };
                proof {
                    assert forall|row: int| #[trigger] r.errors.failed(row) implies r.computed.has(
                        row,
                    ) by {
                        assert(r.errors.at(row) is Some);
                    }
                    assert forall|row: int| #[trigger] r.computed.has(row) implies scalar_terminates(
                        self.facts(),
                        name@,
                        self.ids()[row],
                    ) && shows(
                        r.values,
                        r.errors,
                        row,
                        Some(scalar_meaning(self.facts(), name@, self.ids()[row])),
                    ) by {
                        assert(entry.computed.has(row));
                        assert(r.errors.at(row) == entry.errors.at(row));
                        assert(r.values.cell(row) == entry.values.cell(row));
                    }
                }
                r
            },
            None => ScalarEntry {
                name: owned(name),
                values: ScalarColumn::placeholder(self.len()),
                errors: RowErrors::new(),
                computed: RowMask::none(self.len()),
            },
        }
    }

    fn known_judgment(&self, name: &str) -> (r: JudgmentEntry)
        requires
            self.well_formed(),
        ensures
            judgment_entry_sound(r, self.facts(), self.ids()),
            r.name@ == name@,
    {
        match self.find_judgment(name) {
            Some(i) => {
                let entry = &self.judgment_cache[i];
                assert(judgment_entry_sound(*entry, self.facts(), self.ids()));
                let r = JudgmentEntry {
                    name: owned(name),
                    values: copied_outcomes(&entry.values),
                    errors: entry.errors.restricted_to(&entry.computed),
                    computed: entry.computed.duplicate(),
                };
                proof {
                    assert forall|row: int| #[trigger] r.errors.failed(row) implies r.computed.has(
                        row,
                    ) by {
                        assert(r.errors.at(row) is Some);
                    }
                    assert forall|row: int| #[trigger] r.computed.has(
                        row,
                    ) implies judgment_terminates(self.facts(), name@, self.ids()[row]) && judges(
                        r.values@,
                        r.errors,
                        row,
                        Some(judgment_meaning(self.facts(), name@, self.ids()[row])),
                    ) by {
                        assert(entry.computed.has(row));
                        assert(r.errors.at(row) == entry.errors.at(row));
                    }
                }
                r
            },
            None => JudgmentEntry {
                name: owned(name),
                values: repeated(JudgmentOutcome::NotHolds, self.len()),
                errors: RowErrors::new(),
                computed: RowMask::none(self.len()),
            },
        }
    }

    /// A rule's values on the rows of a mask; computed for the rows that were not.
    fn evaluate_scalar(&mut self, name: &str, mask: &RowMask, Ghost(fuel): Ghost<nat>) -> (r: Result<
        (ScalarColumn, RowErrors),
        EvalError,
    >)
        requires
            old(self).well_formed(),
            mask@.len() == old(self).ids().len(),
            forall|row: int| #[trigger]
                mask.has(row) ==> rule_scalar(
                    old(self).facts(),
                    fuel,
                    name@,
                    old(self).ids()[row],
                ) is Some,
        ensures
            final(self).continues(old(self)),
            match r {
                Ok((column, errors)) => rule_scalars_hold(
                    old(self).facts(),
                    old(self).ids(),
                    name@,
                    *mask,
                    column,
                    errors,
                ),
                Err(error) => met_by(
                    old(self).ids(),
                    *mask,
                    error@,
                    |id: Seq<char>| scalar_dates(old(self).facts(), name@, id),
                ),
            },
            r is Ok ==> unmet(
                old(self).ids(),
                *mask,
                |id: Seq<char>| scalar_dates(old(self).facts(), name@, id),
            ),
        decreases 2 * fuel + 1, None::<int>, 2int,
    {
        let ghost (cx, ids) = (self.facts(), self.ids());
        let known = self.known_scalar(name);
        proof {
            assert forall|row: int| #[trigger] mask.has(row) implies rule_date_met(
                cx,
                fuel,
                name@,
                ids[row],
            ) == scalar_dates(cx, name@, ids[row]) by {
                scalar_dates_at(cx, fuel, name@, ids[row]);
            }
        }
        let pending = mask.difference(&known.computed);
        let (values, errors) = match self.compute_scalar(name, &pending, Ghost(fuel)) {
            Ok(computed) => computed,
            Err(error) => {
                proof {
                    assert forall|row: int| #[trigger]
                        mask.has(row) && !pending.has(row) implies scalar_dates(
                        cx,
                        name@,
                        ids[row],
                    ) is None by {
                        assert(known.computed.has(row));
                    }
                    met_alike(
                        ids,
                        pending,
                        *mask,
                        error@,
                        |id: Seq<char>| rule_date_met(cx, fuel, name@, id),
                        |id: Seq<char>| scalar_dates(cx, name@, id),
                    );
                }
                return Err(error);
            },
        };
        let column = known.values.assigned(&values, &pending);
        let mut all_errors = known.errors;
        let ghost old_errors = all_errors;
        all_errors.absorb(errors);
        let computed = known.computed.union(&pending);
        let result = all_errors.restricted_to(mask);
        proof {
            assert forall|row: int| #[trigger] computed.has(row) implies scalar_terminates(
                cx,
                name@,
                ids[row],
            ) && shows(column, all_errors, row, Some(scalar_meaning(cx, name@, ids[row])))
                && scalar_dates(cx, name@, ids[row]) is None by {
                assert(all_errors.at(row) == match old_errors.at(row) {
                    Some(error) => Some(error),
                    None => errors.at(row),
                });
                if pending.has(row) {
                    assert(mask.has(row));
                    scalar_meaning_at(cx, fuel, name@, ids[row]);
                    assert(!old_errors.failed(row));
                    assert(column.cell(row) == values.cell(row));
                } else {
                    assert(known.computed.has(row));
                    assert(!errors.failed(row));
                    assert(column.cell(row) == known.values.cell(row));
                }
            }
            assert forall|row: int| #[trigger] all_errors.failed(row) implies computed.has(row) by {
                assert(all_errors.at(row) == match old_errors.at(row) {
                    Some(error) => Some(error),
                    None => errors.at(row),
                });
                if old_errors.failed(row) {
                    assert(known.computed.has(row));
                } else {
                    assert(errors.failed(row));
                }
            }
            assert forall|row: int| #[trigger] mask.has(row) implies shows(
                column,
                result,
                row,
                Some(scalar_meaning(cx, name@, ids[row])),
            ) by {
                assert(pending.has(row) || known.computed.has(row));
                assert(computed.has(row));
                assert(result.at(row) == all_errors.at(row));
            }
            assert forall|row: int| #[trigger] mask.has(row) implies scalar_dates(
                cx,
                name@,
                ids[row],
            ) is None by {
                assert(pending.has(row) || known.computed.has(row));
                assert(computed.has(row));
            }
            assert forall|row: int| #[trigger] result.failed(row) implies mask.has(row) by {
                assert(result.at(row) is Some);
            }
        }
        let entry = ScalarEntry {
            name: owned(name),
            values: column.duplicate(),
            errors: all_errors,
            computed,
        };
        proof {
            assert forall|row: int| #[trigger] computed.has(row) implies shows(
                entry.values,
                all_errors,
                row,
                Some(scalar_meaning(cx, name@, ids[row])),
            ) by {
                assert(entry.values.cell(row) == column.cell(row));
            }
        }
        self.store_scalar(entry);
        Ok((column, result))
    }

    fn compute_scalar(&mut self, name: &str, mask: &RowMask, Ghost(fuel): Ghost<nat>) -> (r: Result<
        (ScalarColumn, RowErrors),
        EvalError,
    >)
        requires
            old(self).well_formed(),
            mask@.len() == old(self).ids().len(),
            forall|row: int| #[trigger]
                mask.has(row) ==> rule_scalar(
                    old(self).facts(),
                    fuel,
                    name@,
                    old(self).ids()[row],
                ) is Some,
        ensures
            final(self).continues(old(self)),
            match r {
                Ok((column, errors)) => {
                    &&& column.rows() == old(self).ids().len()
                    &&& forall|row: int| #[trigger] errors.failed(row) ==> mask.has(row)
                    &&& forall|row: int| #[trigger]
                        mask.has(row) ==> shows(
                            column,
                            errors,
                            row,
                            rule_scalar(old(self).facts(), fuel, name@, old(self).ids()[row]),
                        )
                },
                Err(error) => met_by(
                    old(self).ids(),
                    *mask,
                    error@,
                    |id: Seq<char>| rule_date_met(old(self).facts(), fuel, name@, id),
                ),
            },
            r is Ok ==> unmet(
                old(self).ids(),
                *mask,
                |id: Seq<char>| rule_date_met(old(self).facts(), fuel, name@, id),
            ),
        decreases 2 * fuel + 1, None::<int>, 1int,
    {
        let ghost (cx, ids) = (self.facts(), self.ids());
        let program = self.program;
        let (derived, formula) = match self.derived_formula(name) {
            Ok(found) => found,
            Err(error) => {
                return Ok(self.fail_all(mask, error));
            },
        };
        let expr = match formula {
            DerivedSemantics::Scalar(expr) => expr,
            DerivedSemantics::Judgment(_) => {
                return Ok(self.fail_all(mask, EvalError::ExpectedScalar(owned(name))));
            },
        };
        proof {
            assert forall|row: int| #[trigger] mask.has(row) implies scalar_run(
                cx,
                fuel,
                *expr,
                ids[row],
                None,
            ) is Some by {
                assert(rule_scalar(cx, fuel, name@, ids[row]) is Some);
            }
        }
        let (values, errors) = match self.eval_scalar_expr(expr, mask, Ghost(fuel)) {
            Ok(evaluated) => evaluated,
            Err(error) => {
                proof {
                    met_alike(
                        ids,
                        *mask,
                        *mask,
                        error@,
                        |id: Seq<char>| date_met(cx, fuel, *expr, id),
                        |id: Seq<char>| rule_date_met(cx, fuel, name@, id),
                    );
                }
                return Err(error);
            },
        };
        let column = match &derived.rounding {
            Some(rounding) => values.rounded(*rounding),
            None => values,
        };
        proof {
            assert forall|row: int| #[trigger] mask.has(row) implies shows(
                column,
                errors,
                row,
                rule_scalar(cx, fuel, name@, ids[row]),
            ) by {
                let run = scalar_run(cx, fuel, *expr, ids[row], None);
                assert(shows(values, errors, row, run));
                assert(rule_scalar(cx, fuel, name@, ids[row]) is Some);
                assert(0 <= row < ids.len());
                if let Err(error) = run->0.value {
                    told_of_its_rule(errors.at(row)->0, error, derived.label());
                }
                assert(column.cell(row) == output_rounded(derived.rounding, values.cell(row)));
            }
        }
        Ok((column, errors))
    }

    /// The formula of a rule at the period, after the checks that come first.
    fn derived_formula(&self, name: &str) -> (r: Result<(&'a Derived, &'a DerivedSemantics), EvalError>)
        requires
            self.well_formed(),
        ensures
            match r {
                Ok((derived, formula)) => rule_formula(self.facts(), name@) == Ok::<
                    (Derived, DerivedSemantics),
                    ErrorView,
                >((*derived, *formula)),
                Err(error) => rule_formula(self.facts(), name@) == Err::<
                    (Derived, DerivedSemantics),
                    ErrorView,
                >(error@),
            },
    {
        let program: &'a Program = self.program;
        let derived = match find_named(&program.derived, name) {
            Some(derived) => derived,
            None => {
                return Err(EvalError::UnknownDerived(owned(name)));
            },
        };
        if let Some(unit) = &derived.unit {
            if find_named(&program.units, unit.as_str()).is_none() {
                return Err(EvalError::UnknownUnit(unit.clone()));
            }
        }
        match derived.semantics_at(&self.period) {
            Some(formula) => Ok((derived, formula)),
            None => Err(
                EvalError::MissingDerivedFormulaVersion {
                    derived: owned(name),
                    at: self.period.start,
                },
            ),
        }
    }

    /// A rule's outcomes on the rows of a mask; computed for the rows that were not.
    fn evaluate_judgment(&mut self, name: &str, mask: &RowMask, Ghost(fuel): Ghost<nat>) -> (r: Result<
        (Vec<JudgmentOutcome>, RowErrors),
        EvalError,
    >)
        requires
            old(self).well_formed(),
            mask@.len() == old(self).ids().len(),
            forall|row: int| #[trigger]
                mask.has(row) ==> rule_judgment(
                    old(self).facts(),
                    fuel,
                    name@,
                    old(self).ids()[row],
                ) is Some,
        ensures
            final(self).continues(old(self)),
            match r {
                Ok((outcomes, errors)) => rule_judgments_hold(
                    old(self).facts(),
                    old(self).ids(),
                    name@,
                    *mask,
                    outcomes@,
                    errors,
                ),
                Err(error) => met_by(
                    old(self).ids(),
                    *mask,
                    error@,
                    |id: Seq<char>| judgment_dates(old(self).facts(), name@, id),
                ),
            },
            r is Ok ==> unmet(
                old(self).ids(),
                *mask,
                |id: Seq<char>| judgment_dates(old(self).facts(), name@, id),
            ),
        decreases 2 * fuel + 1, None::<int>, 2int,
    {
        let ghost (cx, ids) = (self.facts(), self.ids());
        let known = self.known_judgment(name);
        proof {
            assert forall|row: int| #[trigger] mask.has(row) implies judgment_rule_date_met(
                cx,
                fuel,
                name@,
                ids[row],
            ) == judgment_dates(cx, name@, ids[row]) by {
                judgment_dates_at(cx, fuel, name@, ids[row]);
            }
        }
        let pending = mask.difference(&known.computed);
        let (values, errors) = match self.compute_judgment(name, &pending, Ghost(fuel)) {
            Ok(computed) => computed,
            Err(error) => {
                proof {
                    assert forall|row: int| #[trigger]
                        mask.has(row) && !pending.has(row) implies judgment_dates(
                        cx,
                        name@,
                        ids[row],
                    ) is None by {
                        assert(known.computed.has(row));
                    }
                    met_alike(
                        ids,
                        pending,
                        *mask,
                        error@,
                        |id: Seq<char>| judgment_rule_date_met(cx, fuel, name@, id),
                        |id: Seq<char>| judgment_dates(cx, name@, id),
                    );
                }
                return Err(error);
            },
        };
        let outcomes = merged_outcomes(&known.values, &values, &pending);
        let mut all_errors = known.errors;
        let ghost old_errors = all_errors;
        all_errors.absorb(errors);
        let computed = known.computed.union(&pending);
        let result = all_errors.restricted_to(mask);
        proof {
            assert forall|row: int| #[trigger] computed.has(row) implies judgment_terminates(
                cx,
                name@,
                ids[row],
            ) && judges(
                outcomes@,
                all_errors,
                row,
                Some(judgment_meaning(cx, name@, ids[row])),
            ) && judgment_dates(cx, name@, ids[row]) is None by {
                assert(all_errors.at(row) == match old_errors.at(row) {
                    Some(error) => Some(error),
                    None => errors.at(row),
                });
                assert(0 <= row < ids.len());
                if pending.has(row) {
                    assert(mask.has(row));
                    judgment_meaning_at(cx, fuel, name@, ids[row]);
                    assert(!old_errors.failed(row));
                    assert(outcomes@[row] == values@[row]);
                } else {
                    assert(known.computed.has(row));
                    assert(!errors.failed(row));
                    assert(outcomes@[row] == known.values@[row]);
                }
            }
            assert forall|row: int| #[trigger] all_errors.failed(row) implies computed.has(row) by {
                assert(all_errors.at(row) == match old_errors.at(row) {
                    Some(error) => Some(error),
                    None => errors.at(row),
                });
                if old_errors.failed(row) {
                    assert(known.computed.has(row));
                } else {
                    assert(errors.failed(row));
                }
            }
            assert forall|row: int| #[trigger] mask.has(row) implies judges(
                outcomes@,
                result,
                row,
                Some(judgment_meaning(cx, name@, ids[row])),
            ) by {
                assert(pending.has(row) || known.computed.has(row));
                assert(computed.has(row));
                assert(result.at(row) == all_errors.at(row));
            }
            assert forall|row: int| #[trigger] mask.has(row) implies judgment_dates(
                cx,
                name@,
                ids[row],
            ) is None by {
                assert(pending.has(row) || known.computed.has(row));
                assert(computed.has(row));
            }
            assert forall|row: int| #[trigger] result.failed(row) implies mask.has(row) by {
                assert(result.at(row) is Some);
            }
        }
        let entry = JudgmentEntry {
            name: owned(name),
            values: copied_outcomes(&outcomes),
            errors: all_errors,
            computed,
        };
        self.store_judgment(entry);
        Ok((outcomes, result))
    }

    fn compute_judgment(&mut self, name: &str, mask: &RowMask, Ghost(fuel): Ghost<nat>) -> (r: Result<
        (Vec<JudgmentOutcome>, RowErrors),
        EvalError,
    >)
        requires
            old(self).well_formed(),
            mask@.len() == old(self).ids().len(),
            forall|row: int| #[trigger]
                mask.has(row) ==> rule_judgment(
                    old(self).facts(),
                    fuel,
                    name@,
                    old(self).ids()[row],
                ) is Some,
        ensures
            final(self).continues(old(self)),
            match r {
                Ok((outcomes, errors)) => {
                    &&& outcomes@.len() == old(self).ids().len()
                    &&& forall|row: int| #[trigger] errors.failed(row) ==> mask.has(row)
                    &&& forall|row: int| #[trigger]
                        mask.has(row) ==> judges(
                            outcomes@,
                            errors,
                            row,
                            rule_judgment(old(self).facts(), fuel, name@, old(self).ids()[row]),
                        )
                },
                Err(error) => met_by(
                    old(self).ids(),
                    *mask,
                    error@,
                    |id: Seq<char>| judgment_rule_date_met(old(self).facts(), fuel, name@, id),
                ),
            },
            r is Ok ==> unmet(
                old(self).ids(),
                *mask,
                |id: Seq<char>| judgment_rule_date_met(old(self).facts(), fuel, name@, id),
            ),
        decreases 2 * fuel + 1, None::<int>, 1int,
    {
        let ghost (cx, ids) = (self.facts(), self.ids());
        let formula = match self.derived_formula(name) {
            Ok((_, formula)) => formula,
            Err(error) => {
                let (_, errors) = self.fail_all(mask, error);
                return Ok((repeated(JudgmentOutcome::NotHolds, self.len()), errors));
            },
        };
        let expr = match formula {
            DerivedSemantics::Judgment(expr) => expr,
            DerivedSemantics::Scalar(_) => {
                let (_, errors) = self.fail_all(mask, EvalError::ExpectedJudgment(owned(name)));
                return Ok((repeated(JudgmentOutcome::NotHolds, self.len()), errors));
            },
        };
        proof {
            assert forall|row: int| #[trigger] mask.has(row) implies judgment_run(
                cx,
                fuel,
                *expr,
                ids[row],
                None,
            ) is Some by {
                assert(rule_judgment(cx, fuel, name@, ids[row]) is Some);
            }
        }
        let (outcomes, errors) = match self.eval_judgment_expr(expr, mask, Ghost(fuel)) {
            Ok(evaluated) => evaluated,
            Err(error) => {
                proof {
                    met_alike(
                        ids,
                        *mask,
                        *mask,
                        error@,
                        |id: Seq<char>| judgment_date_met(cx, fuel, *expr, id),
                        |id: Seq<char>| judgment_rule_date_met(cx, fuel, name@, id),
                    );
                }
                return Err(error);
            },
        };
        proof {
            assert forall|row: int| #[trigger] mask.has(row) implies judges(
                outcomes@,
                errors,
                row,
                rule_judgment(cx, fuel, name@, ids[row]),
            ) by {
                let run = judgment_run(cx, fuel, *expr, ids[row], None);
                assert(judges(outcomes@, errors, row, run));
                assert(rule_judgment(cx, fuel, name@, ids[row]) is Some);
                if let Err(error) = run->0.value {
                    let (derived, _) = rule_formula(cx, name@)->Ok_0;
                    told_of_its_rule(errors.at(row)->0, error, derived.label());
                }
            }
        }
        Ok((outcomes, errors))
    }

    /// A formula on the rows of a mask, read as numbers.
    fn eval_decimal_operand(
        &mut self,
        expr: &ScalarExpr,
        mask: &RowMask,
        errors: &mut RowErrors,
        Ghost(fuel): Ghost<nat>,
    ) -> (r: Result<(Vec<Decimal>, RowMask), EvalError>)
        requires
            old(self).well_formed(),
            scalars_end(old(self).facts(), old(self).ids(), fuel, *expr, *mask),
        ensures
            final(self).continues(old(self)),
            match r {
                Ok((numbers, live)) => numbers_hold(
                    old(self).facts(),
                    old(self).ids(),
                    fuel,
                    *expr,
                    *mask,
                    *old(errors),
                    numbers@,
                    live,
                    *final(errors),
                ),
                Err(error) => met_by(
                    old(self).ids(),
                    *mask,
                    error@,
                    |id: Seq<char>| date_met(old(self).facts(), fuel, *expr, id),
                ),
            },
            r is Ok ==> unmet(
                old(self).ids(),
                *mask,
                |id: Seq<char>| date_met(old(self).facts(), fuel, *expr, id),
            ),
        decreases 2 * fuel, *expr, 2int,
    {
        let ghost (cx, ids) = (self.facts(), self.ids());
        let ghost before = *errors;
        let (column, operand_errors) = match self.eval_scalar_expr(expr, mask, Ghost(fuel)) {
            Ok(evaluated) => evaluated,
            Err(error) => {
                return Err(error);
            },
        };
        let first = mask.without(&operand_errors);
        let mut conversion_errors = RowErrors::new();
        let numbers = column.decimals(&first, &mut conversion_errors);
        let live = first.without(&conversion_errors);
        errors.absorb(operand_errors);
        let ghost middle = *errors;
        errors.absorb(conversion_errors);
        proof {
            assert forall|row: int| #[trigger] mask.has(row) implies match row_number(
                cx,
                fuel,
                *expr,
                ids[row],
            ) {
                Some(eval) => match eval.value {
                    Ok(d) => live.has(row) && numbers@[row] == d,
                    Err(_) => !live.has(row),
                },
                None => false,
            } by {
                let run = scalar_run(cx, fuel, *expr, ids[row], None);
                assert(shows(column, operand_errors, row, run));
                if !operand_errors.failed(row) {
                    assert(first.has(row));
                    assert(live.has(row) <==> !conversion_errors.failed(row));
                } else {
                    assert(!first.has(row));
                    assert(!live.has(row));
                }
            }
            assert forall|row: int| #[trigger] errors.failed(row) <==> before.failed(row) || (
            mask.has(row) && !live.has(row)) by {
                assert(errors.at(row) == match middle.at(row) {
                    Some(error) => Some(error),
                    None => conversion_errors.at(row),
                });
                assert(middle.at(row) == match before.at(row) {
                    Some(error) => Some(error),
                    None => operand_errors.at(row),
                });
                assert(first.has(row) <==> mask.has(row) && !operand_errors.failed(row));
                assert(live.has(row) <==> first.has(row) && !conversion_errors.failed(row));
                if operand_errors.failed(row) {
                    assert(mask.has(row));
                }
                if !first.has(row) {
                    assert(conversion_errors.at(row) is None);
                }
            }
            assert forall|row: int| #[trigger] live.has(row) implies mask.has(row) by {
                assert(first.has(row));
            }
            assert forall|row: int| before.failed(row) implies #[trigger] errors.at(row)
                == before.at(row) by {
                assert(middle.at(row) == before.at(row));
            }
            assert forall|row: int| #[trigger]
                mask.has(row) && !live.has(row) && !before.failed(row) implies fails_with(
                *errors,
                row,
                row_number(cx, fuel, *expr, ids[row])->0.value->Err_0,
            ) by {
                assert(errors.at(row) == match middle.at(row) {
                    Some(error) => Some(error),
                    None => conversion_errors.at(row),
                });
                assert(middle.at(row) == match before.at(row) {
                    Some(error) => Some(error),
                    None => operand_errors.at(row),
                });
                assert(shows(
                    column,
                    operand_errors,
                    row,
                    scalar_run(cx, fuel, *expr, ids[row], None),
                ));
                assert(first.has(row) <==> !operand_errors.failed(row));
                assert(live.has(row) <==> first.has(row) && !conversion_errors.failed(row));
            }
        }
        Ok((numbers, live))
    }

    fn eval_binary(
        &mut self,
        left: &ScalarExpr,
        right: &ScalarExpr,
        mask: &RowMask,
        operation: Operation,
        Ghost(fuel): Ghost<nat>,
        Ghost(whole): Ghost<ScalarExpr>,
    ) -> (r: Result<(ScalarColumn, RowErrors), EvalError>)
        requires
            old(self).well_formed(),
            mask@.len() == old(self).ids().len(),
            decreases_to!(whole => *left),
            decreases_to!(whole => *right),
            forall|row: int| #[trigger]
                mask.has(row) ==> operation_run(
                    old(self).facts(),
                    fuel,
                    operation,
                    *left,
                    *right,
                    old(self).ids()[row],
                ) is Some,
            match (operation, whole) {
                (Operation::Sub, ScalarExpr::Sub(a, b)) => *a == *left && *b == *right,
                (Operation::Mul, ScalarExpr::Mul(a, b)) => *a == *left && *b == *right,
                _ => false,
            },
        ensures
            final(self).continues(old(self)),
            match r {
                Ok((column, errors)) => {
                    &&& column.rows() == old(self).ids().len()
                    &&& forall|row: int| #[trigger] errors.failed(row) ==> mask.has(row)
                    &&& forall|row: int| #[trigger]
                        mask.has(row) ==> shows(
                            column,
                            errors,
                            row,
                            operation_run(
                                old(self).facts(),
                                fuel,
                                operation,
                                *left,
                                *right,
                                old(self).ids()[row],
                            ),
                        )
                },
                Err(error) => met_by(
                    old(self).ids(),
                    *mask,
                    error@,
                    |id: Seq<char>| date_met(old(self).facts(), fuel, whole, id),
                ),
            },
            r is Ok ==> unmet(
                old(self).ids(),
                *mask,
                |id: Seq<char>| date_met(old(self).facts(), fuel, whole, id),
            ),
        decreases 2 * fuel, whole, 0int,
    {
        let ghost (cx, ids) = (self.facts(), self.ids());
        proof {
            date_met_is_step(cx, fuel, whole);
        }
        let mut errors = RowErrors::new();
        let ghost none = errors;
        let (a, first) = match self.eval_decimal_operand(left, mask, &mut errors, Ghost(fuel)) {
            Ok(evaluated) => evaluated,
            Err(error) => {
                proof {
                    met_in_part(
                        ids,
                        *mask,
                        *mask,
                        error@,
                        |id: Seq<char>| date_met(cx, fuel, *left, id),
                        |id: Seq<char>| date_met(cx, fuel, whole, id),
                        0,
                    );
                }
                return Err(error);
            },
        };
        let ghost after_left = errors;
        proof {
            assert forall|row: int| #[trigger] first.has(row) implies scalar_run(
                cx,
                fuel,
                *right,
                ids[row],
                None,
            ) is Some by {
                assert(mask.has(row));
                assert(operation_run(cx, fuel, operation, *left, *right, ids[row]) is Some);
            }
        }
        let (b, live) = match self.eval_decimal_operand(right, &first, &mut errors, Ghost(fuel)) {
            Ok(evaluated) => evaluated,
            Err(error) => {
                proof {
                    met_in_part(
                        ids,
                        first,
                        *mask,
                        error@,
                        |id: Seq<char>| date_met(cx, fuel, *right, id),
                        |id: Seq<char>| date_met(cx, fuel, whole, id),
                        1,
                    );
                }
                return Err(error);
            },
        };
        let ghost after_right = errors;
        let n = self.len();
        let mut values: Vec<Decimal> = Vec::new();
        let mut row: usize = 0;
        proof {
            assert forall|k: int| #[trigger] live.has(k) implies !errors.failed(k) by {
                assert(first.has(k));
                assert(mask.has(k));
                assert(after_left.failed(k) <==> none.failed(k) || (mask.has(k) && !first.has(k)));
            }
            assert forall|k: int| #[trigger] mask.has(k) && !live.has(k) implies operation_run(
                cx,
                fuel,
                operation,
                *left,
                *right,
                ids[k],
            )->0.value is Err && fails_with(
                errors,
                k,
                operation_run(cx, fuel, operation, *left, *right, ids[k])->0.value->Err_0,
            ) by {
                assert(after_left.failed(k) <==> none.failed(k) || (mask.has(k) && !first.has(k)));
                if first.has(k) {
                    assert(errors.failed(k));
                    assert(!after_left.failed(k));
                } else {
                    assert(errors.at(k) == after_left.at(k));
                    assert(!none.failed(k));
                }
                assert(operation_run(cx, fuel, operation, *left, *right, ids[k]) is Some);
            }
            assert forall|k: int| #[trigger] errors.failed(k) implies mask.has(k) by {
                assert(after_left.failed(k) <==> none.failed(k) || (mask.has(k) && !first.has(k)));
                if first.has(k) {
                    assert(mask.has(k));
                }
            }
        }
        while row < n
            invariant
                row <= n,
                n == ids.len(),
                cx == old(self).facts(),
                ids == old(self).ids(),
                mask@.len() == n,
                live@.len() == n,
                a@.len() == n,
                b@.len() == n,
                values@.len() == row,
                forall|k: int| #[trigger] live.has(k) ==> mask.has(k),
                forall|k: int| #[trigger] errors.failed(k) ==> mask.has(k),
                forall|k: int| k >= row && live.has(k) ==> !#[trigger] errors.failed(k),
                forall|k: int| #[trigger]
                    mask.has(k) && !live.has(k) ==> operation_run(
                        cx,
                        fuel,
                        operation,
                        *left,
                        *right,
                        ids[k],
                    )->0.value is Err && fails_with(
                        errors,
                        k,
                        operation_run(cx, fuel, operation, *left, *right, ids[k])->0.value->Err_0,
                    ),
                forall|k: int| #[trigger]
                    live.has(k) ==> operation_run(
                        cx,
                        fuel,
                        operation,
                        *left,
                        *right,
                        ids[k],
                    )->0.value == as_decimal_value(operated(operation, a@[k], b@[k])),
                forall|k: int| #[trigger]
                    live.has(k) && k < row ==> match operated(operation, a@[k], b@[k]) {
                        Ok(d) => !errors.failed(k) && values@[k] == d,
                        Err(e) => fails_with(errors, k, e),
                    },
            decreases n - row,
        {
            let ghost before = errors;
            let value = if live.contains(row) {
                let computed = match operation {
                    Operation::Sub => checked_sub(a[row], b[row]),
                    Operation::Mul => checked_mul(a[row], b[row]),
                };
                match computed {
                    Ok(d) => d,
                    Err(error) => {
                        errors.record(row, error);
                        Decimal::zero()
                    },
                }
            } else {
                Decimal::zero()
            };
            values.push(value);
            proof {
                assert forall|k: int| k != row implies #[trigger] errors.at(k) == before.at(k) by {}
                assert forall|k: int| k != row implies #[trigger] errors.failed(k) == before.failed(
                    k,
                ) by {}
                assert(live.has(row as int) ==> !before.failed(row as int));
                assert(!live.has(row as int) ==> errors == before);
            }
            row = row + 1;
        }
        let column = ScalarColumn::Decimal(values);
        proof {
            assert forall|k: int| #[trigger] mask.has(k) implies shows(
                column,
                errors,
                k,
                operation_run(cx, fuel, operation, *left, *right, ids[k]),
            ) by {
                assert(operation_run(cx, fuel, operation, *left, *right, ids[k]) is Some);
                if live.has(k) {
                    assert(column.cell(k) == ScalarValue::Decimal(values@[k]));
                }
            }
        }
        Ok((column, errors))
    }
}

fn merged_outcomes(
    base: &Vec<JudgmentOutcome>,
    more: &Vec<JudgmentOutcome>,
    rows: &RowMask,
) -> (r: Vec<JudgmentOutcome>)
    requires
        base@.len() == more@.len(),
        rows@.len() == base@.len(),
    ensures
        r@.len() == base@.len(),
        forall|row: int|
            0 <= row < base@.len() ==> #[trigger] r@[row] == if rows.has(row) {
                more@[row]
            } else {
                base@[row]
            },
{
    let mut out: Vec<JudgmentOutcome> = Vec::new();
    let mut i: usize = 0;
    while i < base.len()
        invariant
            i <= base@.len(),
            base@.len() == more@.len(),
            out@.len() == i,
            forall|row: int|
                0 <= row < i ==> #[trigger] out@[row] == if rows.has(row) {
                    more@[row]
                } else {
                    base@[row]
                },
        decreases base@.len() - i,
    {
        if rows.contains(i) {
            out.push(more[i]);
        } else {
            out.push(base[i]);
        }
        i = i + 1;
    }
    out
}

impl<'a> BulkEvaluator<'a> {
    /// The sum of items on the rows of a mask.
    fn eval_sum(&mut self, items: &Vec<ScalarExpr>, mask: &RowMask, Ghost(fuel): Ghost<nat>, Ghost(whole): Ghost<ScalarExpr>) -> (r:
        Result<(Vec<Decimal>, RowErrors), EvalError>)
        requires
            old(self).well_formed(),
            mask@.len() == old(self).ids().len(),
            forall|row: int| #[trigger]
                mask.has(row) ==> sum_run(
                    old(self).facts(),
                    fuel,
                    items@,
                    items@.len(),
                    old(self).ids()[row],
                    None,
                ) is Some,
            whole == ScalarExpr::Add(*items),
        ensures
            final(self).continues(old(self)),
            match r {
                Ok((totals, errors)) => {
                    &&& totals@.len() == old(self).ids().len()
                    &&& forall|row: int| #[trigger] errors.failed(row) ==> mask.has(row)
                    &&& forall|row: int| #[trigger]
                        mask.has(row) ==> shows_number(
                            totals@,
                            errors,
                            row,
                            sum_run(
                                old(self).facts(),
                                fuel,
                                items@,
                                items@.len(),
                                old(self).ids()[row],
                                None,
                            ),
                        )
                },
                Err(error) => met_by(
                    old(self).ids(),
                    *mask,
                    error@,
                    |id: Seq<char>| date_met(old(self).facts(), fuel, whole, id),
                ),
            },
            r is Ok ==> unmet(
                old(self).ids(),
                *mask,
                |id: Seq<char>| date_met(old(self).facts(), fuel, whole, id),
            ),
        decreases 2 * fuel, items@, 0int,
    {
        let ghost (cx, ids) = (self.facts(), self.ids());
        proof {
            date_met_is_step(cx, fuel, whole);
        }
        let mut errors = RowErrors::new();
        let mut live = mask.duplicate();
        let mut totals: Vec<Decimal> = repeated(Decimal::zero(), self.len());
        let mut i: usize = 0;
        while i < items.len()
            invariant
                i <= items@.len(),
                forall|id: Seq<char>| #[trigger]
                    date_met(cx, fuel, whole, id) == sum_date_met(
                        cx,
                        fuel,
                        items@,
                        items@.len(),
                        id,
                    ),
                cx == old(self).facts(),
                ids == old(self).ids(),
                self.continues(old(self)),
                mask@.len() == ids.len(),
                live@.len() == ids.len(),
                totals@.len() == ids.len(),
                forall|row: int| #[trigger]
                    mask.has(row) ==> sum_run(
                        cx,
                        fuel,
                        items@,
                        items@.len(),
                        ids[row],
                        None,
                    ) is Some,
                forall|row: int| #[trigger] live.has(row) ==> mask.has(row),
                forall|row: int| #[trigger]
                    mask.has(row) ==> sum_date_met(cx, fuel, items@, i as nat, ids[row]) is None,
                forall|row: int| #[trigger]
                    errors.failed(row) <==> mask.has(row) && !live.has(row),
                forall|row: int| #[trigger]
                    mask.has(row) ==> shows_number(
                        totals@,
                        errors,
                        row,
                        sum_run(cx, fuel, items@, i as nat, ids[row], None),
                    ),
            decreases items@.len() - i,
        {
            let ghost old_totals = totals@;
            let ghost old_errors = errors;
            let ghost old_live = live;
            proof {
                assert forall|row: int| #[trigger] live.has(row) implies scalar_run(
                    cx,
                    fuel,
                    items@[i as int],
                    ids[row],
                    None,
                ) is Some by {
                    assert(mask.has(row));
                    sum_prefix(cx, fuel, items@, (i + 1) as nat, items@.len(), ids[row]);
                    assert(!errors.failed(row));
                    assert(shows_number(
                        totals@,
                        errors,
                        row,
                        sum_run(cx, fuel, items@, i as nat, ids[row], None),
                    ));
                }
            }
            let (values, next) = match self.eval_decimal_operand(
                &items[i],
                &live,
                &mut errors,
                Ghost(fuel),
            ) {
                Ok(evaluated) => evaluated,
                Err(error) => {
                    proof {
                        let all = |id: Seq<char>| date_met(cx, fuel, whole, id);
                        let own = |id: Seq<char>| date_met(cx, fuel, items@[i as int], id);
                        let n = (i + 1) as nat;
                        assert forall|row: int| #[trigger] mask.has(row) implies if old_live.has(row)
                            && own(ids[row]) is Some {
                            all(ids[row]) == met_in(i as nat, own(ids[row]))
                        } else {
                            all(ids[row]) matches Some(m) ==> m.path.len() > 0 && m.path[0] > i
                        } by {
                            assert(shows_number(
                                old_totals,
                                old_errors,
                                row,
                                sum_run(cx, fuel, items@, i as nat, ids[row], None),
                            ));
                            assert(old_errors.failed(row) <==> !old_live.has(row));
                            if old_live.has(row) && own(ids[row]) is Some {
                                sum_date_met_stays(cx, fuel, items@, n, items@.len(), ids[row]);
                            } else {
                                sum_date_met_later(cx, fuel, items@, n, items@.len(), ids[row]);
                            }
                        }
                        met_in_part(ids, old_live, *mask, error@, own, all, i as nat);
                    }
                    return Err(error);
                },
            };
            let ghost after_item = errors;
            proof {
                assert forall|row: int| #[trigger] mask.has(row) implies sum_date_met(
                    cx,
                    fuel,
                    items@,
                    (i + 1) as nat,
                    ids[row],
                ) is None by {
                    assert(shows_number(
                        old_totals,
                        old_errors,
                        row,
                        sum_run(cx, fuel, items@, i as nat, ids[row], None),
                    ));
                    assert(old_errors.failed(row) <==> !old_live.has(row));
                }
            }
            let n = totals.len();
            let mut overflow = RowErrors::new();
            let mut sums: Vec<Decimal> = Vec::new();
            let mut row: usize = 0;
            while row < n
                invariant
                    row <= n,
                    n == totals@.len(),
                    totals@ == old_totals,
                    values@.len() == n,
                    next@.len() == n,
                    sums@.len() == row,
                    forall|k: int| #[trigger] overflow.failed(k) ==> next.has(k) && k < row,
                    forall|k: int| #[trigger]
                        next.has(k) && k < row ==> match in_range(
                            crate::decimal::decimal_sum(old_totals[k], values@[k]),
                        ) {
                            Ok(d) => !overflow.failed(k) && sums@[k] == d,
                            Err(e) => fails_with(overflow, k, e),
                        },
                decreases n - row,
            {
                let ghost before = overflow;
                let sum = if next.contains(row) {
                    match checked_add(totals[row], values[row]) {
                        Ok(d) => d,
                        Err(error) => {
                            overflow.record(row, error);
                            totals[row]
                        },
                    }
                } else {
                    totals[row]
                };
                sums.push(sum);
                proof {
                    assert forall|k: int| k != row implies #[trigger] overflow.at(k) == before.at(
                        k,
                    ) by {}
                    assert forall|k: int| k != row implies #[trigger] overflow.failed(k)
                        == before.failed(k) by {}
                    assert(!before.failed(row as int));
                }
                row = row + 1;
            }
            live = next.without(&overflow);
            errors.absorb(overflow);
            totals = sums;
            proof {
                assert forall|k: int| #[trigger] errors.failed(k) <==> mask.has(k) && !live.has(
                    k,
                ) by {
                    assert(errors.at(k) == match after_item.at(k) {
                        Some(error) => Some(error),
                        None => overflow.at(k),
                    });
                    assert(after_item.failed(k) <==> old_errors.failed(k) || (old_live.has(k)
                        && !next.has(k)));
                    assert(live.has(k) <==> next.has(k) && !overflow.failed(k));
                    assert(old_errors.failed(k) <==> mask.has(k) && !old_live.has(k));
                    if next.has(k) {
                        assert(old_live.has(k));
                    }
                    if overflow.failed(k) {
                        assert(next.has(k));
                    }
                }
                assert forall|k: int| #[trigger] live.has(k) implies mask.has(k) by {
                    assert(next.has(k));
                    assert(old_live.has(k));
                }
                assert forall|k: int| #[trigger] mask.has(k) implies shows_number(
                    totals@,
                    errors,
                    k,
                    sum_run(cx, fuel, items@, (i + 1) as nat, ids[k], None),
                ) by {
                    sum_prefix(cx, fuel, items@, (i + 1) as nat, items@.len(), ids[k]);
                    sum_prefix(cx, fuel, items@, i as nat, (i + 1) as nat, ids[k]);
                    assert(shows_number(
                        old_totals,
                        old_errors,
                        k,
                        sum_run(cx, fuel, items@, i as nat, ids[k], None),
                    ));
                    assert(errors.failed(k) <==> !live.has(k));
                    assert(live.has(k) <==> next.has(k) && !overflow.failed(k));
                    assert(errors.at(k) == match after_item.at(k) {
                        Some(error) => Some(error),
                        None => overflow.at(k),
                    });
                    if old_live.has(k) {
                        assert(!old_errors.failed(k));
                        assert(after_item.failed(k) <==> !next.has(k));
                    } else {
                        assert(old_errors.failed(k));
                        assert(after_item.at(k) == old_errors.at(k));
                        if next.has(k) {
                            assert(old_live.has(k));
                        }
                    }
                }
            }
            i = i + 1;
        }
        Ok((totals, errors))
    }

    /// The largest or smallest of items on the rows of a mask.
    fn eval_extremum(
        &mut self,
        items: &Vec<ScalarExpr>,
        mask: &RowMask,
        largest: bool,
        Ghost(fuel): Ghost<nat>,
        Ghost(whole): Ghost<ScalarExpr>,
    ) -> (r: Result<(Vec<Decimal>, RowErrors), EvalError>)
        requires
            old(self).well_formed(),
            items@.len() > 0,
            mask@.len() == old(self).ids().len(),
            forall|row: int| #[trigger]
                mask.has(row) ==> extremum_run(
                    old(self).facts(),
                    fuel,
                    items@,
                    items@.len(),
                    largest,
                    old(self).ids()[row],
                    None,
                ) is Some,
            whole == if largest {
                ScalarExpr::Max(*items)
            } else {
                ScalarExpr::Min(*items)
            },
        ensures
            final(self).continues(old(self)),
            match r {
                Ok((best, errors)) => {
                    &&& best@.len() == old(self).ids().len()
                    &&& forall|row: int| #[trigger] errors.failed(row) ==> mask.has(row)
                    &&& forall|row: int| #[trigger]
                        mask.has(row) ==> shows_number(
                            best@,
                            errors,
                            row,
                            extremum_run(
                                old(self).facts(),
                                fuel,
                                items@,
                                items@.len(),
                                largest,
                                old(self).ids()[row],
                                None,
                            ),
                        )
                },
                Err(error) => met_by(
                    old(self).ids(),
                    *mask,
                    error@,
                    |id: Seq<char>| date_met(old(self).facts(), fuel, whole, id),
                ),
            },
            r is Ok ==> unmet(
                old(self).ids(),
                *mask,
                |id: Seq<char>| date_met(old(self).facts(), fuel, whole, id),
            ),
        decreases 2 * fuel, items@, 0int,
    {
        let ghost (cx, ids) = (self.facts(), self.ids());
        proof {
            date_met_is_step(cx, fuel, whole);
        }
        let mut errors = RowErrors::new();
        let ghost none = errors;
        proof {
            assert forall|row: int| #[trigger] mask.has(row) implies scalar_run(
                cx,
                fuel,
                items@[0],
                ids[row],
                None,
            ) is Some by {
                extremum_prefix(cx, fuel, items@, 1, items@.len(), largest, ids[row]);
            }
        }
        let (first, first_live) = match self.eval_decimal_operand(
            &items[0],
            mask,
            &mut errors,
            Ghost(fuel),
        ) {
            Ok(evaluated) => evaluated,
            Err(error) => {
                proof {
                    let all = |id: Seq<char>| date_met(cx, fuel, whole, id);
                    let own = |id: Seq<char>| date_met(cx, fuel, items@[0], id);
                    assert forall|row: int| #[trigger] mask.has(row) implies if own(
                        ids[row],
                    ) is Some {
                        all(ids[row]) == met_in(0, own(ids[row]))
                    } else {
                        all(ids[row]) matches Some(m) ==> m.path.len() > 0 && m.path[0] > 0
                    } by {
                        assert(extremum_date_met(cx, fuel, items@, 0, largest, ids[row]) is None);
                        if own(ids[row]) is Some {
                            extremum_date_met_stays(
                                cx,
                                fuel,
                                items@,
                                1,
                                items@.len(),
                                largest,
                                ids[row],
                            );
                        } else {
                            extremum_date_met_later(
                                cx,
                                fuel,
                                items@,
                                1,
                                items@.len(),
                                largest,
                                ids[row],
                            );
                        }
                    }
                    met_in_part(ids, *mask, *mask, error@, own, all, 0);
                }
                return Err(error);
            },
        };
        let mut best = first;
        let mut live = first_live;
        proof {
            assert forall|row: int| #[trigger] errors.failed(row) <==> mask.has(row) && !live.has(
                row,
            ) by {
                assert(!none.failed(row));
            }
            assert forall|row: int| #[trigger] mask.has(row) implies shows_number(
                best@,
                errors,
                row,
                extremum_run(cx, fuel, items@, 1, largest, ids[row], None),
            ) by {
                assert(errors.failed(row) <==> !live.has(row));
            }
        }
        proof {
            assert forall|row: int| #[trigger] mask.has(row) implies extremum_date_met(
                cx,
                fuel,
                items@,
                1,
                largest,
                ids[row],
            ) is None by {
                assert(extremum_date_met(cx, fuel, items@, 0, largest, ids[row]) is None);
            }
        }
        let mut i: usize = 1;
        while i < items.len()
            invariant
                1 <= i <= items@.len(),
                forall|id: Seq<char>| #[trigger]
                    date_met(cx, fuel, whole, id) == extremum_date_met(
                        cx,
                        fuel,
                        items@,
                        items@.len(),
                        largest,
                        id,
                    ),
                cx == old(self).facts(),
                ids == old(self).ids(),
                self.continues(old(self)),
                mask@.len() == ids.len(),
                live@.len() == ids.len(),
                best@.len() == ids.len(),
                forall|row: int| #[trigger]
                    mask.has(row) ==> extremum_run(
                        cx,
                        fuel,
                        items@,
                        items@.len(),
                        largest,
                        ids[row],
                        None,
                    ) is Some,
                forall|row: int| #[trigger] live.has(row) ==> mask.has(row),
                forall|row: int| #[trigger]
                    mask.has(row) ==> extremum_date_met(
                        cx,
                        fuel,
                        items@,
                        i as nat,
                        largest,
                        ids[row],
                    ) is None,
                forall|row: int| #[trigger]
                    errors.failed(row) <==> mask.has(row) && !live.has(row),
                forall|row: int| #[trigger]
                    mask.has(row) ==> shows_number(
                        best@,
                        errors,
                        row,
                        extremum_run(cx, fuel, items@, i as nat, largest, ids[row], None),
                    ),
            decreases items@.len() - i,
        {
            let ghost old_best = best@;
            let ghost old_errors = errors;
            let ghost old_live = live;
            proof {
                assert forall|row: int| #[trigger] live.has(row) implies scalar_run(
                    cx,
                    fuel,
                    items@[i as int],
                    ids[row],
                    None,
                ) is Some by {
                    assert(mask.has(row));
                    extremum_prefix(
                        cx,
                        fuel,
                        items@,
                        (i + 1) as nat,
                        items@.len(),
                        largest,
                        ids[row],
                    );
                    assert(!errors.failed(row));
                    assert(shows_number(
                        best@,
                        errors,
                        row,
                        extremum_run(cx, fuel, items@, i as nat, largest, ids[row], None),
                    ));
                }
            }
            let (candidates, next) = match self.eval_decimal_operand(
                &items[i],
                &live,
                &mut errors,
                Ghost(fuel),
            ) {
                Ok(evaluated) => evaluated,
                Err(error) => {
                    proof {
                        let all = |id: Seq<char>| date_met(cx, fuel, whole, id);
                        let own = |id: Seq<char>| date_met(cx, fuel, items@[i as int], id);
                        let n = (i + 1) as nat;
                        assert forall|row: int| #[trigger] mask.has(row) implies if old_live.has(row)
                            && own(ids[row]) is Some {
                            all(ids[row]) == met_in(i as nat, own(ids[row]))
                        } else {
                            all(ids[row]) matches Some(m) ==> m.path.len() > 0 && m.path[0] > i
                        } by {
                            assert(shows_number(
                                old_best,
                                old_errors,
                                row,
                                extremum_run(cx, fuel, items@, i as nat, largest, ids[row], None),
                            ));
                            assert(old_errors.failed(row) <==> !old_live.has(row));
                            if old_live.has(row) && own(ids[row]) is Some {
                                extremum_date_met_stays(
                                    cx,
                                    fuel,
                                    items@,
                                    n,
                                    items@.len(),
                                    largest,
                                    ids[row],
                                );
                            } else {
                                extremum_date_met_later(
                                    cx,
                                    fuel,
                                    items@,
                                    n,
                                    items@.len(),
                                    largest,
                                    ids[row],
                                );
                            }
                        }
                        met_in_part(ids, old_live, *mask, error@, own, all, i as nat);
                    }
                    return Err(error);
                },
            };
            proof {
                assert forall|row: int| #[trigger] mask.has(row) implies extremum_date_met(
                    cx,
                    fuel,
                    items@,
                    (i + 1) as nat,
                    largest,
                    ids[row],
                ) is None by {
                    assert(shows_number(
                        old_best,
                        old_errors,
                        row,
                        extremum_run(cx, fuel, items@, i as nat, largest, ids[row], None),
                    ));
                    assert(old_errors.failed(row) <==> !old_live.has(row));
                }
            }
            let n = best.len();
            let mut row: usize = 0;
            let mut improved: Vec<Decimal> = Vec::new();
            while row < n
                invariant
                    row <= n,
                    n == best@.len(),
                    best@ == old_best,
                    candidates@.len() == n,
                    improved@.len() == row,
                    forall|k: int|
                        0 <= k < row ==> #[trigger] improved@[k] == better(
                            largest,
                            old_best[k],
                            candidates@[k],
                        ),
                decreases n - row,
            {
                let replaces = if largest {
                    best[row].is_below(&candidates[row])
                } else {
                    candidates[row].is_below(&best[row])
                };
                if replaces {
                    improved.push(candidates[row]);
                } else {
                    improved.push(best[row]);
                }
                row = row + 1;
            }
            live = next;
            best = improved;
            proof {
                assert forall|k: int| #[trigger] errors.failed(k) <==> mask.has(k) && !live.has(
                    k,
                ) by {
                    assert(errors.failed(k) <==> old_errors.failed(k) || (old_live.has(k)
                        && !next.has(k)));
                    assert(old_errors.failed(k) <==> mask.has(k) && !old_live.has(k));
                    if next.has(k) {
                        assert(old_live.has(k));
                    }
                }
                assert forall|k: int| #[trigger] live.has(k) implies mask.has(k) by {
                    assert(old_live.has(k));
                }
                assert forall|k: int| #[trigger] mask.has(k) implies shows_number(
                    best@,
                    errors,
                    k,
                    extremum_run(cx, fuel, items@, (i + 1) as nat, largest, ids[k], None),
                ) by {
                    extremum_prefix(
                        cx,
                        fuel,
                        items@,
                        (i + 1) as nat,
                        items@.len(),
                        largest,
                        ids[k],
                    );
                    extremum_prefix(cx, fuel, items@, i as nat, (i + 1) as nat, largest, ids[k]);
                    assert(shows_number(
                        old_best,
                        old_errors,
                        k,
                        extremum_run(cx, fuel, items@, i as nat, largest, ids[k], None),
                    ));
                    assert(0 <= k < ids.len());
                    assert(errors.failed(k) <==> !live.has(k));
                    if old_live.has(k) {
                        assert(!old_errors.failed(k));
                        assert(best@[k] == better(largest, old_best[k], candidates@[k]));
                    } else {
                        assert(old_errors.failed(k));
                        if next.has(k) {
                            assert(old_live.has(k));
                        }
                    }
                }
            }
            i = i + 1;
        }
        Ok((best, errors))
    }

    /// A quotient on the rows of a mask. The divisor comes first: where it is zero, the
    /// dividend is not evaluated.
    fn eval_division(
        &mut self,
        left: &ScalarExpr,
        right: &ScalarExpr,
        mask: &RowMask,
        Ghost(fuel): Ghost<nat>,
        Ghost(whole): Ghost<ScalarExpr>,
    ) -> (r: Result<(ScalarColumn, RowErrors), EvalError>)
        requires
            old(self).well_formed(),
            mask@.len() == old(self).ids().len(),
            decreases_to!(whole => *left),
            decreases_to!(whole => *right),
            forall|row: int| #[trigger]
                mask.has(row) ==> division_run(
                    old(self).facts(),
                    fuel,
                    *left,
                    *right,
                    old(self).ids()[row],
                ) is Some,
            whole matches ScalarExpr::Div(a, b) && *a == *left && *b == *right,
        ensures
            final(self).continues(old(self)),
            match r {
                Ok((column, errors)) => {
                    &&& column.rows() == old(self).ids().len()
                    &&& forall|row: int| #[trigger] errors.failed(row) ==> mask.has(row)
                    &&& forall|row: int| #[trigger]
                        mask.has(row) ==> shows(
                            column,
                            errors,
                            row,
                            division_run(
                                old(self).facts(),
                                fuel,
                                *left,
                                *right,
                                old(self).ids()[row],
                            ),
                        )
                },
                Err(error) => met_by(
                    old(self).ids(),
                    *mask,
                    error@,
                    |id: Seq<char>| date_met(old(self).facts(), fuel, whole, id),
                ),
            },
            r is Ok ==> unmet(
                old(self).ids(),
                *mask,
                |id: Seq<char>| date_met(old(self).facts(), fuel, whole, id),
            ),
        decreases 2 * fuel, whole, 0int,
    {
        let ghost (cx, ids) = (self.facts(), self.ids());
        proof {
            date_met_is_step(cx, fuel, whole);
        }
        let mut errors = RowErrors::new();
        let ghost none = errors;
        proof {
            assert forall|row: int| #[trigger] mask.has(row) implies scalar_run(
                cx,
                fuel,
                *right,
                ids[row],
                None,
            ) is Some by {
                assert(division_run(cx, fuel, *left, *right, ids[row]) is Some);
            }
        }
        let (divisors, first) = match self.eval_decimal_operand(
            right,
            mask,
            &mut errors,
            Ghost(fuel),
        ) {
            Ok(evaluated) => evaluated,
            Err(error) => {
                proof {
                    met_in_part(
                        ids,
                        *mask,
                        *mask,
                        error@,
                        |id: Seq<char>| date_met(cx, fuel, *right, id),
                        |id: Seq<char>| date_met(cx, fuel, whole, id),
                        0,
                    );
                }
                return Err(error);
            },
        };
        let ghost after_divisor = errors;
        let n = self.len();
        let mut zero = RowErrors::new();
        let mut row: usize = 0;
        while row < n
            invariant
                row <= n,
                n == ids.len(),
                divisors@.len() == n,
                first@.len() == n,
                forall|k: int| #[trigger] zero.failed(k) ==> first.has(k) && k < row,
                forall|k: int|
                    zero.failed(k) ==> #[trigger] zero.at(k) == Some(ErrorView::DivisionByZero),
                forall|k: int| #[trigger]
                    first.has(k) && k < row ==> (zero.failed(k) <==> divisors@[k].magnitude() == 0),
            decreases n - row,
        {
            let ghost before = zero;
            if first.contains(row) && divisors[row].is_zero() {
                zero.record(row, EvalError::DivisionByZero);
            }
            proof {
                assert forall|k: int| k != row implies #[trigger] zero.at(k) == before.at(k) by {}
                assert forall|k: int| k != row implies #[trigger] zero.failed(k) == before.failed(
                    k,
                ) by {}
                assert(!before.failed(row as int));
                assert forall|k: int| zero.failed(k) implies #[trigger] zero.at(k) == Some(
                    ErrorView::DivisionByZero,
                ) by {
                    if k != row {
                        assert(before.failed(k));
                        assert(zero.at(k) == before.at(k));
                    }
                }
            }
            row = row + 1;
        }
        let second = first.without(&zero);
        errors.absorb(zero);
        let ghost after_zero = errors;
        proof {
            assert forall|k: int| #[trigger] errors.failed(k) <==> mask.has(k) && !second.has(
                k,
            ) by {
                assert(errors.at(k) == match after_divisor.at(k) {
                    Some(error) => Some(error),
                    None => zero.at(k),
                });
                assert(after_divisor.failed(k) <==> none.failed(k) || (mask.has(k) && !first.has(
                    k,
                )));
                assert(second.has(k) <==> first.has(k) && !zero.failed(k));
                assert(!none.failed(k));
                if first.has(k) {
                    assert(mask.has(k));
                    assert(!after_divisor.failed(k));
                } else {
                    assert(!zero.failed(k));
                }
            }
            assert forall|k: int| #[trigger] second.has(k) implies scalar_run(
                cx,
                fuel,
                *left,
                ids[k],
                None,
            ) is Some by {
                assert(first.has(k));
                assert(mask.has(k));
                assert(!zero.failed(k));
                assert(division_run(cx, fuel, *left, *right, ids[k]) is Some);
            }
        }
        let (dividends, live) = match self.eval_decimal_operand(
            left,
            &second,
            &mut errors,
            Ghost(fuel),
        ) {
            Ok(evaluated) => evaluated,
            Err(error) => {
                proof {
                    assert forall|k: int| #[trigger] mask.has(k) implies second.has(k)
                        == is_nonzero(number_of(scalar_run(cx, fuel, *right, ids[k], None))) by {
                        assert(second.has(k) <==> first.has(k) && !zero.failed(k));
                        if first.has(k) {
                            assert(row_number(cx, fuel, *right, ids[k])->0.value is Ok);
                        }
                    }
                    assert forall|k: int| #[trigger] second.has(k) implies mask.has(k) by {
                        assert(first.has(k));
                    }
                    met_in_part(
                        ids,
                        second,
                        *mask,
                        error@,
                        |id: Seq<char>| date_met(cx, fuel, *left, id),
                        |id: Seq<char>| date_met(cx, fuel, whole, id),
                        1,
                    );
                }
                return Err(error);
            },
        };
        proof {
            assert forall|k: int| #[trigger] errors.failed(k) <==> mask.has(k) && !live.has(k) by {
                assert(errors.failed(k) <==> after_zero.failed(k) || (second.has(k) && !live.has(
                    k,
                )));
                assert(after_zero.failed(k) <==> mask.has(k) && !second.has(k));
                if second.has(k) {
                    assert(first.has(k));
                    assert(mask.has(k));
                }
                if live.has(k) {
                    assert(second.has(k));
                }
            }
            assert forall|k: int| #[trigger] mask.has(k) implies first_met(
                met_in(0, date_met(cx, fuel, *right, ids[k])),
                is_nonzero(number_of(scalar_run(cx, fuel, *right, ids[k], None))),
                met_in(1, date_met(cx, fuel, *left, ids[k])),
            ) is None by {
                assert(second.has(k) <==> first.has(k) && !zero.failed(k));
                if is_nonzero(number_of(scalar_run(cx, fuel, *right, ids[k], None))) {
                    assert(row_number(cx, fuel, *right, ids[k])->0.value is Ok);
                    assert(first.has(k));
                }
            }
            assert forall|k: int| #[trigger] mask.has(k) && !live.has(k) implies division_run(
                cx,
                fuel,
                *left,
                *right,
                ids[k],
            )->0.value is Err && fails_with(
                errors,
                k,
                division_run(cx, fuel, *left, *right, ids[k])->0.value->Err_0,
            ) by {
                assert(division_run(cx, fuel, *left, *right, ids[k]) is Some);
                assert(after_zero.at(k) == match after_divisor.at(k) {
                    Some(error) => Some(error),
                    None => zero.at(k),
                });
                assert(after_divisor.failed(k) <==> none.failed(k) || !first.has(k));
                assert(!none.failed(k));
                assert(second.has(k) <==> first.has(k) && !zero.failed(k));
                if first.has(k) {
                    assert(zero.failed(k) <==> divisors@[k].magnitude() == 0);
                }
                if second.has(k) {
                    assert(!after_zero.failed(k));
                } else {
                    assert(after_zero.failed(k));
                    assert(errors.at(k) == after_zero.at(k));
                }
            }
            assert forall|k: int| #[trigger] live.has(k) implies mask.has(k) && division_run(
                cx,
                fuel,
                *left,
                *right,
                ids[k],
            )->0.value == as_decimal_value(divided(dividends@[k], divisors@[k])) by {
                assert(second.has(k));
                assert(first.has(k));
                assert(mask.has(k));
                assert(!zero.failed(k));
            }
        }
        let mut quotients: Vec<Decimal> = Vec::new();
        let mut row: usize = 0;
        let ghost settled = errors;
        while row < n
            invariant
                row <= n,
                n == ids.len(),
                live@.len() == n,
                dividends@.len() == n,
                divisors@.len() == n,
                quotients@.len() == row,
                forall|k: int| #[trigger] settled.failed(k) <==> mask.has(k) && !live.has(k),
                forall|k: int|
                    !live.has(k) || k >= row ==> #[trigger] errors.at(k) == settled.at(k),
                forall|k: int| #[trigger]
                    live.has(k) && k < row ==> match divided(dividends@[k], divisors@[k]) {
                        Ok(d) => !errors.failed(k) && quotients@[k] == d,
                        Err(e) => fails_with(errors, k, e),
                    },
            decreases n - row,
        {
            let ghost before = errors;
            let value = if live.contains(row) {
                match checked_div(dividends[row], divisors[row]) {
                    Ok(d) => d,
                    Err(error) => {
                        errors.record(row, error);
                        Decimal::zero()
                    },
                }
            } else {
                Decimal::zero()
            };
            quotients.push(value);
            proof {
                assert forall|k: int| k != row implies #[trigger] errors.at(k) == before.at(k) by {}
                assert forall|k: int| k != row implies #[trigger] errors.failed(k) == before.failed(
                    k,
                ) by {}
                if live.has(row as int) {
                    assert(before.at(row as int) == settled.at(row as int));
                    assert(!settled.failed(row as int));
                }
            }
            row = row + 1;
        }
        let column = ScalarColumn::Decimal(quotients);
        proof {
            assert forall|k: int| #[trigger] errors.failed(k) implies mask.has(k) by {
                if !live.has(k) {
                    assert(errors.at(k) == settled.at(k));
                    assert(settled.failed(k));
                }
            }
            assert forall|k: int| #[trigger] mask.has(k) implies shows(
                column,
                errors,
                k,
                division_run(cx, fuel, *left, *right, ids[k]),
            ) by {
                assert(division_run(cx, fuel, *left, *right, ids[k]) is Some);
                if live.has(k) {
                    assert(column.cell(k) == ScalarValue::Decimal(quotients@[k]));
                } else {
                    assert(errors.at(k) == settled.at(k));
                    assert(settled.failed(k));
                }
            }
        }
        Ok((column, errors))
    }

    /// A formula on the rows of a mask, row by row.
    fn eval_per_entity(&mut self, expr: &ScalarExpr, mask: &RowMask, Ghost(fuel): Ghost<nat>) -> (r:
        (ScalarColumn, RowErrors))
        requires
            old(self).well_formed(),
            scalars_end(old(self).facts(), old(self).ids(), fuel, *expr, *mask),
        ensures
            final(self).continues(old(self)),
            scalars_hold(
                old(self).facts(),
                old(self).ids(),
                fuel,
                *expr,
                *mask,
                r.0,
                r.1,
            ),
    {
        let ghost (cx, ids) = (self.facts(), self.ids());
        let n = self.len();
        let mut errors = RowErrors::new();
        let mut entries: Vec<Option<ScalarValue>> = Vec::new();
        let mut row: usize = 0;
        while row < n
            invariant
                row <= n,
                n == ids.len(),
                cx == old(self).facts(),
                ids == old(self).ids(),
                self.continues(old(self)),
                scalars_end(cx, ids, fuel, *expr, *mask),
                entries@.len() == row,
                forall|k: int| #[trigger] errors.failed(k) ==> mask.has(k) && k < row,
                forall|k: int| #[trigger]
                    mask.has(k) && k < row ==> match scalar_run(
                        cx,
                        fuel,
                        *expr,
                        ids[k],
                        None,
                    )->0.value {
                        Ok(v) => !errors.failed(k) && entries@[k] == Some(v),
                        Err(e) => fails_with(errors, k, e),
                    },
            decreases n - row,
        {
            let ghost before = errors;
            let mut entry: Option<ScalarValue> = None;
            if mask.contains(row) {
                let id = self.entity_ids[row].clone();
                let period = self.period.duplicate();
                assert(ids[row as int] == id@);
                assert(mask.has(row as int));
                match self.engine.eval_scalar_expr(expr, id.as_str(), &period, Ghost(fuel)) {
                    Ok(value) => {
                        entry = Some(value);
                    },
                    Err(error) => {
                        errors.record(row, error);
                    },
                }
            }
            entries.push(entry);
            proof {
                assert forall|k: int| k != row implies #[trigger] errors.at(k) == before.at(k) by {}
                assert forall|k: int| k != row implies #[trigger] errors.failed(k) == before.failed(
                    k,
                ) by {}
                assert(!before.failed(row as int));
            }
            row = row + 1;
        }
        (ScalarColumn::from_entries(&entries), errors)
    }

    /// The fallback of a `match` on the rows of a mask: every row fails.
    fn fail_unmatched(
        &self,
        subject: &ScalarExpr,
        patterns: &Vec<ScalarExpr>,
        values: &ScalarColumn,
        mask: &RowMask,
        subject_errors: RowErrors,
    ) -> (r: RowErrors)
        requires
            values.rows() == mask@.len(),
            forall|row: int| #[trigger] subject_errors.failed(row) ==> mask.has(row),
        ensures
            forall|row: int| #[trigger] r.failed(row) <==> mask.has(row),
            forall|row: int| #[trigger]
                mask.has(row) ==> r.at(row) == with_failure(
                    subject_errors.at(row),
                    no_match_error(*subject, values.cell(row), patterns@),
                ),
    {
        let ghost start = subject_errors;
        let mut errors = subject_errors;
        let n = mask.len();
        let mut row: usize = 0;
        while row < n
            invariant
                row <= n,
                n == mask@.len(),
                values.rows() == n,
                forall|k: int| #[trigger] errors.failed(k) ==> mask.has(k),
                forall|k: int| k >= row ==> #[trigger] errors.at(k) == start.at(k),
                forall|k: int| #[trigger]
                    mask.has(k) && k < row ==> errors.at(k) == with_failure(
                        start.at(k),
                        no_match_error(*subject, values.cell(k), patterns@),
                    ),
            decreases n - row,
        {
            let ghost before = errors;
            if mask.contains(row) {
                errors.record(row, no_matching_arm(subject, &values.value_at(row), patterns));
                assert(before.at(row as int) == start.at(row as int));
            }
            proof {
                assert forall|k: int| k != row implies #[trigger] errors.at(k) == before.at(k) by {}
                assert forall|k: int| k != row implies #[trigger] errors.failed(k) == before.failed(
                    k,
                ) by {}
            }
            row = row + 1;
        }
        errors
    }

    /// What is said of dates that every row of a mask meets at once.
    fn declined(
        &self,
        expr: &ScalarExpr,
        mask: &RowMask,
        construct: &str,
        Ghost(fuel): Ghost<nat>,
    ) -> (r: EvalError)
        requires
            !mask.vacant(),
            forall|id: Seq<char>| #[trigger]
                date_met(self.facts(), fuel, *expr, id) == met_here(construct@),
        ensures
            met_by(
                self.ids(),
                *mask,
                r@,
                |id: Seq<char>| date_met(self.facts(), fuel, *expr, id),
            ),
    {
        let r = unsupported(construct);
        proof {
            let row = choose|row: int| #[trigger] mask.has(row);
            met_at_once(
                self.ids(),
                *mask,
                r@,
                |id: Seq<char>| date_met(self.facts(), fuel, *expr, id),
                row,
                Met { path: Seq::empty(), what: construct@ },
            );
        }
        r
    }

    /// Evaluates a formula on the rows of a mask.
    #[verifier::rlimit(30)]
    fn eval_scalar_expr(&mut self, expr: &ScalarExpr, mask: &RowMask, Ghost(fuel): Ghost<nat>) -> (r:
        Result<(ScalarColumn, RowErrors), EvalError>)
        requires
            old(self).well_formed(),
            scalars_end(old(self).facts(), old(self).ids(), fuel, *expr, *mask),
        ensures
            final(self).continues(old(self)),
            match r {
                Ok((column, errors)) => scalars_hold(
                    old(self).facts(),
                    old(self).ids(),
                    fuel,
                    *expr,
                    *mask,
                    column,
                    errors,
                ),
                Err(error) => met_by(
                    old(self).ids(),
                    *mask,
                    error@,
                    |id: Seq<char>| date_met(old(self).facts(), fuel, *expr, id),
                ),
            },
            r is Ok ==> unmet(
                old(self).ids(),
                *mask,
                |id: Seq<char>| date_met(old(self).facts(), fuel, *expr, id),
            ),
        decreases 2 * fuel, *expr, 1int,
    {
        let ghost (cx, ids) = (self.facts(), self.ids());
        let n = self.len();
        if mask.is_empty() {
            return Ok((ScalarColumn::placeholder(n), RowErrors::new()));
        }
        proof {
            assert forall|row: int| #[trigger] mask.has(row) implies scalar_run(
                cx,
                fuel,
                *expr,
                ids[row],
                None,
            ) == crate::semantics::scalar_step(cx, fuel, *expr, ids[row], None) by {
                scalar_run_is_step(cx, fuel, *expr, ids[row], None);
            }
            date_met_is_step(cx, fuel, *expr);
        }
        match expr {
            ScalarExpr::Literal(value) => {
                if matches!(value, ScalarValue::Date(_)) {
                    return Err(self.declined(expr, mask, "date literals", Ghost(fuel)));
                }
                Ok((ScalarColumn::broadcast(value, n), RowErrors::new()))
            },
            ScalarExpr::Input(name) => {
                self.eval_input(name.as_str(), None, mask, Ghost(fuel), Ghost(*expr))
            },
            ScalarExpr::InputOrElse { name, default } => {
                self.eval_input(name.as_str(), Some(default), mask, Ghost(fuel), Ghost(*expr))
            },
            ScalarExpr::Derived(name) => self.eval_reference(expr, name, mask, Ghost(fuel)),
            ScalarExpr::ParameterLookup { parameter, index } => {
                let (keys, key_errors) = match self.eval_scalar_expr(index, mask, Ghost(fuel)) {
                    Ok(evaluated) => evaluated,
                    Err(error) => {
                        proof {
                            met_in_part(
                                ids,
                                *mask,
                                *mask,
                                error@,
                                |id: Seq<char>| date_met(cx, fuel, **index, id),
                                |id: Seq<char>| date_met(cx, fuel, *expr, id),
                                0,
                            );
                        }
                        return Err(error);
                    },
                };
                proof {
                    assert forall|row: int| #[trigger] mask.has(row) implies shows(
                        keys,
                        key_errors,
                        row,
                        scalar_run(cx, fuel, **index, ids[row], None),
                    ) by {}
                }
                match self.read_parameters(parameter.as_str(), &keys, mask, key_errors) {
                    Err(error) => {
                        proof {
                            let row = choose|row: int| #[trigger]
                                mask.has(row) && !key_errors.failed(row) && read_at(
                                    cx,
                                    parameter@,
                                    keys.cell(row),
                                ) matches Ok(ScalarValue::Date(_));
                            assert(shows(
                                keys,
                                key_errors,
                                row,
                                scalar_run(cx, fuel, **index, ids[row], None),
                            ));
                            met_at_once(
                                ids,
                                *mask,
                                error@,
                                |id: Seq<char>| date_met(cx, fuel, *expr, id),
                                row,
                                met_in(1, met_here("date parameter values"@))->0,
                            );
                        }
                        Err(error)
                    },
                    Ok((column, errors)) => {
                        proof {
                            assert forall|row: int| #[trigger] mask.has(row) implies shows(
                                column,
                                errors,
                                row,
                                scalar_run(cx, fuel, *expr, ids[row], None),
                            ) by {
                                assert(shows(
                                    keys,
                                    key_errors,
                                    row,
                                    scalar_run(cx, fuel, **index, ids[row], None),
                                ));
                            }
                            assert forall|row: int| #[trigger] mask.has(row) implies date_met(
                                cx,
                                fuel,
                                *expr,
                                ids[row],
                            ) is None by {
                                assert(shows(
                                    keys,
                                    key_errors,
                                    row,
                                    scalar_run(cx, fuel, **index, ids[row], None),
                                ));
                            }
                        }
                        Ok((column, errors))
                    },
                }
            },
            ScalarExpr::Add(items) => {
                match self.eval_sum(items, mask, Ghost(fuel), Ghost(*expr)) {
                    Ok((totals, errors)) => Ok((ScalarColumn::Decimal(totals), errors)),
                    Err(error) => Err(error),
                }
            },
            ScalarExpr::Sub(a, b) => {
                self.eval_binary(a, b, mask, Operation::Sub, Ghost(fuel), Ghost(*expr))
            },
            ScalarExpr::Mul(a, b) => {
                self.eval_binary(a, b, mask, Operation::Mul, Ghost(fuel), Ghost(*expr))
            },
            ScalarExpr::Div(a, b) => {
                self.eval_division(a, b, mask, Ghost(fuel), Ghost(*expr))
            },
            ScalarExpr::Max(items) => {
                if items.len() == 0 {
                    return Ok(
                        self.fail_all(
                            mask,
                            EvalError::TypeMismatch(owned("max() requires at least one operand")),
                        ),
                    );
                }
                match self.eval_extremum(items, mask, true, Ghost(fuel), Ghost(*expr)) {
                    Ok((best, errors)) => Ok((ScalarColumn::Decimal(best), errors)),
                    Err(error) => Err(error),
                }
            },
            ScalarExpr::Min(items) => {
                if items.len() == 0 {
                    return Ok(
                        self.fail_all(
                            mask,
                            EvalError::TypeMismatch(owned("min() requires at least one operand")),
                        ),
                    );
                }
                match self.eval_extremum(items, mask, false, Ghost(fuel), Ghost(*expr)) {
                    Ok((best, errors)) => Ok((ScalarColumn::Decimal(best), errors)),
                    Err(error) => Err(error),
                }
            },
            ScalarExpr::Ceil(a) => {
                self.eval_unary(a, mask, true, Ghost(fuel), Ghost(*expr))
            },
            ScalarExpr::Floor(a) => {
                self.eval_unary(a, mask, false, Ghost(fuel), Ghost(*expr))
            },
            ScalarExpr::PeriodStart | ScalarExpr::PeriodEnd => Err(
                self.declined(expr, mask, "period_start / period_end", Ghost(fuel)),
            ),
            ScalarExpr::DateAddDays { .. } => Err(
                self.declined(expr, mask, "date_add_days", Ghost(fuel)),
            ),
            ScalarExpr::DateAddMonths { .. } => Err(
                self.declined(expr, mask, "date_add_months", Ghost(fuel)),
            ),
            ScalarExpr::DateAddYears { .. } => Err(
                self.declined(expr, mask, "date_add_years", Ghost(fuel)),
            ),
            ScalarExpr::DaysBetween { .. } => Err(
                self.declined(expr, mask, "days_between", Ghost(fuel)),
            ),
            ScalarExpr::OverPeriods { kind, .. } => Ok(
                self.fail_all(mask, EvalError::OverPeriodsOutsideLifetime(kind.as_call_name())),
            ),
            ScalarExpr::CountRelated { .. } | ScalarExpr::SumRelated { .. } => Ok(
                self.eval_per_entity(expr, mask, Ghost(fuel)),
            ),
            ScalarExpr::NoMatch { subject, patterns } => {
                let (values, subject_errors) = match self.eval_scalar_expr(
                    subject,
                    mask,
                    Ghost(fuel),
                ) {
                    Ok(evaluated) => evaluated,
                    Err(error) => {
                        proof {
                            met_alike(
                                ids,
                                *mask,
                                *mask,
                                error@,
                                |id: Seq<char>| date_met(cx, fuel, **subject, id),
                                |id: Seq<char>| date_met(cx, fuel, *expr, id),
                            );
                        }
                        return Err(error);
                    },
                };
                let errors = self.fail_unmatched(subject, patterns, &values, mask, subject_errors);
                let column = ScalarColumn::placeholder(n);
                proof {
                    assert forall|row: int| #[trigger] mask.has(row) implies shows(
                        column,
                        errors,
                        row,
                        scalar_run(cx, fuel, *expr, ids[row], None),
                    ) by {
                        assert(shows(
                            values,
                            subject_errors,
                            row,
                            scalar_run(cx, fuel, **subject, ids[row], None),
                        ));
                    }
                }
                Ok((column, errors))
            },
            ScalarExpr::If { condition, then_expr, else_expr } => self.eval_choice(
                expr,
                condition,
                then_expr,
                else_expr,
                mask,
                Ghost(fuel),
            ),
        }
    }

    fn eval_reference(
        &mut self,
        expr: &ScalarExpr,
        name: &String,
        mask: &RowMask,
        Ghost(fuel): Ghost<nat>,
    ) -> (r: Result<(ScalarColumn, RowErrors), EvalError>)
        requires
            old(self).well_formed(),
            !mask.vacant(),
            *expr == ScalarExpr::Derived(*name),
            scalars_end(old(self).facts(), old(self).ids(), fuel, *expr, *mask),
        ensures
            final(self).continues(old(self)),
            match r {
                Ok((column, errors)) => scalars_hold(
                    old(self).facts(),
                    old(self).ids(),
                    fuel,
                    *expr,
                    *mask,
                    column,
                    errors,
                ),
                Err(error) => met_by(
                    old(self).ids(),
                    *mask,
                    error@,
                    |id: Seq<char>| date_met(old(self).facts(), fuel, *expr, id),
                ),
            },
            r is Ok ==> unmet(
                old(self).ids(),
                *mask,
                |id: Seq<char>| date_met(old(self).facts(), fuel, *expr, id),
            ),
        decreases 2 * fuel, *expr, 0int,
    {
        let ghost (cx, ids) = (self.facts(), self.ids());
        proof {
            assert forall|row: int| #[trigger] mask.has(row) implies scalar_run(
                cx,
                fuel,
                *expr,
                ids[row],
                None,
            ) == crate::semantics::scalar_step(cx, fuel, *expr, ids[row], None) by {
                scalar_run_is_step(cx, fuel, *expr, ids[row], None);
            }
            date_met_is_step(cx, fuel, *expr);
        }
        let program: &'a Program = self.program;
        if find_named(&program.derived, name.as_str()).is_none() {
            return Ok(self.fail_all(mask, EvalError::UnknownDerived(name.clone())));
        }
        let ghost less = (fuel - 1) as nat;
        proof {
            let row = choose|row: int| #[trigger] mask.has(row);
            assert(scalar_run(cx, fuel, *expr, ids[row], None) is Some);
            assert(fuel > 0);
            assert forall|row: int| #[trigger] mask.has(row) implies rule_scalar(
                cx,
                less,
                name@,
                ids[row],
            ) is Some by {
                assert(scalar_run(cx, fuel, *expr, ids[row], None) is Some);
            }
            assert forall|row: int| #[trigger] mask.has(row) implies date_met(
                cx,
                fuel,
                *expr,
                ids[row],
            ) == scalar_dates(cx, name@, ids[row]) by {
                scalar_dates_at(cx, less, name@, ids[row]);
            }
        }
        match self.evaluate_scalar(name.as_str(), mask, Ghost(less)) {
            Err(error) => {
                proof {
                    met_alike(
                        ids,
                        *mask,
                        *mask,
                        error@,
                        |id: Seq<char>| scalar_dates(cx, name@, id),
                        |id: Seq<char>| date_met(cx, fuel, *expr, id),
                    );
                }
                Err(error)
            },
            Ok((column, errors)) => {
                proof {
                    assert forall|row: int| #[trigger] mask.has(row) implies shows(
                        column,
                        errors,
                        row,
                        scalar_run(cx, fuel, *expr, ids[row], None),
                    ) by {
                        scalar_meaning_at(cx, less, name@, ids[row]);
                        assert(shows(
                            column,
                            errors,
                            row,
                            Some(scalar_meaning(cx, name@, ids[row])),
                        ));
                    }
                }
                Ok((column, errors))
            },
        }
    }

    fn eval_unary(
        &mut self,
        value: &ScalarExpr,
        mask: &RowMask,
        up: bool,
        Ghost(fuel): Ghost<nat>,
        Ghost(whole): Ghost<ScalarExpr>,
    ) -> (r: Result<(ScalarColumn, RowErrors), EvalError>)
        requires
            old(self).well_formed(),
            scalars_end(old(self).facts(), old(self).ids(), fuel, *value, *mask),
            decreases_to!(whole => *value),
            match whole {
                ScalarExpr::Ceil(a) => *a == *value,
                ScalarExpr::Floor(a) => *a == *value,
                _ => false,
            },
        ensures
            final(self).continues(old(self)),
            match r {
                Ok((column, errors)) => {
                    &&& column.rows() == old(self).ids().len()
                    &&& forall|row: int| #[trigger] errors.failed(row) ==> mask.has(row)
                    &&& forall|row: int| #[trigger]
                        mask.has(row) ==> match row_number(
                            old(self).facts(),
                            fuel,
                            *value,
                            old(self).ids()[row],
                        )->0.value {
                            Ok(d) => !errors.failed(row) && column.cell(row)
                                == ScalarValue::Decimal(
                                if up {
                                    d.ceil_value()
                                } else {
                                    d.floor_value()
                                },
                            ),
                            Err(e) => fails_with(errors, row, e),
                        }
                },
                Err(error) => met_by(
                    old(self).ids(),
                    *mask,
                    error@,
                    |id: Seq<char>| date_met(old(self).facts(), fuel, whole, id),
                ),
            },
            r is Ok ==> unmet(
                old(self).ids(),
                *mask,
                |id: Seq<char>| date_met(old(self).facts(), fuel, whole, id),
            ),
        decreases 2 * fuel, whole, 0int,
    {
        let ghost (cx, ids) = (self.facts(), self.ids());
        proof {
            date_met_is_step(cx, fuel, whole);
        }
        let mut errors = RowErrors::new();
        let ghost none = errors;
        let (values, live) = match self.eval_decimal_operand(
            value,
            mask,
            &mut errors,
            Ghost(fuel),
        ) {
            Ok(evaluated) => evaluated,
            Err(error) => {
                proof {
                    met_alike(
                        ids,
                        *mask,
                        *mask,
                        error@,
                        |id: Seq<char>| date_met(cx, fuel, *value, id),
                        |id: Seq<char>| date_met(cx, fuel, whole, id),
                    );
                }
                return Err(error);
            },
        };
        let mut result: Vec<Decimal> = Vec::new();
        let mut row: usize = 0;
        while row < values.len()
            invariant
                row <= values@.len(),
                result@.len() == row,
                forall|k: int|
                    0 <= k < row ==> #[trigger] result@[k] == if up {
                        values@[k].ceil_value()
                    } else {
                        values@[k].floor_value()
                    },
            decreases values@.len() - row,
        {
            if up {
                result.push(values[row].ceil());
            } else {
                result.push(values[row].floor());
            }
            row = row + 1;
        }
        let column = ScalarColumn::Decimal(result);
        proof {
            assert forall|k: int| #[trigger] errors.failed(k) implies mask.has(k) by {
                assert(!none.failed(k));
            }
            assert forall|k: int| #[trigger] mask.has(k) implies match row_number(
                cx,
                fuel,
                *value,
                ids[k],
            )->0.value {
                Ok(d) => !errors.failed(k) && column.cell(k) == ScalarValue::Decimal(
                    if up {
                        d.ceil_value()
                    } else {
                        d.floor_value()
                    },
                ),
                Err(e) => fails_with(errors, k, e),
            } by {
                assert(!none.failed(k));
                assert(errors.failed(k) <==> none.failed(k) || (mask.has(k) && !live.has(k)));
                assert(0 <= k < ids.len());
            }
        }
        Ok((column, errors))
    }

    /// An `if` on the rows of a mask: each branch on the rows that select it.
    fn eval_choice(
        &mut self,
        expr: &ScalarExpr,
        condition: &Box<JudgmentExpr>,
        then_expr: &Box<ScalarExpr>,
        else_expr: &Box<ScalarExpr>,
        mask: &RowMask,
        Ghost(fuel): Ghost<nat>,
    ) -> (r: Result<(ScalarColumn, RowErrors), EvalError>)
        requires
            old(self).well_formed(),
            *expr == (ScalarExpr::If {
                condition: *condition,
                then_expr: *then_expr,
                else_expr: *else_expr,
            }),
            decreases_to!(*expr => **condition),
            decreases_to!(*expr => **then_expr),
            decreases_to!(*expr => **else_expr),
            scalars_end(old(self).facts(), old(self).ids(), fuel, *expr, *mask),
        ensures
            final(self).continues(old(self)),
            match r {
                Ok((column, errors)) => scalars_hold(
                    old(self).facts(),
                    old(self).ids(),
                    fuel,
                    *expr,
                    *mask,
                    column,
                    errors,
                ),
                Err(error) => met_by(
                    old(self).ids(),
                    *mask,
                    error@,
                    |id: Seq<char>| date_met(old(self).facts(), fuel, *expr, id),
                ),
            },
            r is Ok ==> unmet(
                old(self).ids(),
                *mask,
                |id: Seq<char>| date_met(old(self).facts(), fuel, *expr, id),
            ),
        decreases 2 * fuel, *expr, 0int,
    {
        let ghost (cx, ids) = (self.facts(), self.ids());
        proof {
            assert forall|row: int| #[trigger] mask.has(row) implies scalar_run(
                cx,
                fuel,
                *expr,
                ids[row],
                None,
            ) == crate::semantics::scalar_step(cx, fuel, *expr, ids[row], None) by {
                scalar_run_is_step(cx, fuel, *expr, ids[row], None);
            }
            date_met_is_step(cx, fuel, *expr);
        }
        let (outcomes, condition_errors) = match self.eval_judgment_expr(
            condition,
            mask,
            Ghost(fuel),
        ) {
            Ok(evaluated) => evaluated,
            Err(error) => {
                proof {
                    met_in_part(
                        ids,
                        *mask,
                        *mask,
                        error@,
                        |id: Seq<char>| judgment_date_met(cx, fuel, **condition, id),
                        |id: Seq<char>| date_met(cx, fuel, *expr, id),
                        0,
                    );
                }
                return Err(error);
            },
        };
        let live = mask.without(&condition_errors);
        let holds = outcome_bits(&outcomes);
        let then_rows = live.keeping(&holds);
        let else_rows = live.difference(&then_rows);
        proof {
            assert forall|row: int| #[trigger] then_rows.has(row) implies scalar_run(
                cx,
                fuel,
                **then_expr,
                ids[row],
                None,
            ) is Some by {
                assert(live.has(row));
                assert(mask.has(row));
                assert(judges(
                    outcomes@,
                    condition_errors,
                    row,
                    judgment_run(cx, fuel, **condition, ids[row], None),
                ));
                assert(scalar_run(cx, fuel, *expr, ids[row], None) is Some);
            }
            assert forall|row: int| #[trigger] else_rows.has(row) implies scalar_run(
                cx,
                fuel,
                **else_expr,
                ids[row],
                None,
            ) is Some by {
                assert(live.has(row));
                assert(mask.has(row));
                assert(!then_rows.has(row));
                assert(judges(
                    outcomes@,
                    condition_errors,
                    row,
                    judgment_run(cx, fuel, **condition, ids[row], None),
                ));
                assert(scalar_run(cx, fuel, *expr, ids[row], None) is Some);
            }
        }
        let (then_values, then_errors) = match self.eval_scalar_expr(
            then_expr,
            &then_rows,
            Ghost(fuel),
        ) {
            Ok(evaluated) => evaluated,
            Err(error) => {
                proof {
                    assert forall|row: int| #[trigger] then_rows.has(row) implies mask.has(row) by {
                        assert(live.has(row));
                    }
                    assert forall|row: int| #[trigger] mask.has(row) implies {
                        let test = judgment_run(cx, fuel, **condition, ids[row], None);
                        &&& then_rows.has(row) == is_held(test)
                        &&& else_rows.has(row) == (has_value(test) && !is_held(test))
                    } by {
                        assert(judges(
                            outcomes@,
                            condition_errors,
                            row,
                            judgment_run(cx, fuel, **condition, ids[row], None),
                        ));
                        assert(live.has(row) <==> !condition_errors.failed(row));
                        assert(then_rows.has(row) <==> live.has(row) && holds@[row]);
                        assert(else_rows.has(row) <==> live.has(row) && !then_rows.has(row));
                    }
                    met_in_part(
                        ids,
                        then_rows,
                        *mask,
                        error@,
                        |id: Seq<char>| date_met(cx, fuel, **then_expr, id),
                        |id: Seq<char>| date_met(cx, fuel, *expr, id),
                        1,
                    );
                }
                return Err(error);
            },
        };
        let (else_values, else_errors) = match self.eval_scalar_expr(
            else_expr,
            &else_rows,
            Ghost(fuel),
        ) {
            Ok(evaluated) => evaluated,
            Err(error) => {
                proof {
                    assert forall|row: int| #[trigger] else_rows.has(row) implies mask.has(row) by {
                        assert(live.has(row));
                    }
                    assert forall|row: int| #[trigger] mask.has(row) implies {
                        let test = judgment_run(cx, fuel, **condition, ids[row], None);
                        &&& then_rows.has(row) == is_held(test)
                        &&& else_rows.has(row) == (has_value(test) && !is_held(test))
                    } by {
                        assert(judges(
                            outcomes@,
                            condition_errors,
                            row,
                            judgment_run(cx, fuel, **condition, ids[row], None),
                        ));
                        assert(live.has(row) <==> !condition_errors.failed(row));
                        assert(then_rows.has(row) <==> live.has(row) && holds@[row]);
                        assert(else_rows.has(row) <==> live.has(row) && !then_rows.has(row));
                    }
                    met_in_part(
                        ids,
                        else_rows,
                        *mask,
                        error@,
                        |id: Seq<char>| date_met(cx, fuel, **else_expr, id),
                        |id: Seq<char>| date_met(cx, fuel, *expr, id),
                        2,
                    );
                }
                return Err(error);
            },
        };
        proof {
            assert forall|row: int| #[trigger] mask.has(row) implies date_met(
                cx,
                fuel,
                *expr,
                ids[row],
            ) is None by {
                assert(judges(
                    outcomes@,
                    condition_errors,
                    row,
                    judgment_run(cx, fuel, **condition, ids[row], None),
                ));
                assert(live.has(row) <==> !condition_errors.failed(row));
                assert(then_rows.has(row) <==> live.has(row) && holds@[row]);
                assert(else_rows.has(row) <==> live.has(row) && !then_rows.has(row));
            }
        }
        let mut errors = condition_errors;
        let ghost first = errors;
        errors.absorb(then_errors);
        let ghost second = errors;
        errors.absorb(else_errors);
        let column = ScalarColumn::select(&then_rows, then_values, &else_rows, else_values);
        proof {
            assert forall|row: int| #[trigger] errors.failed(row) <==> first.failed(row)
                || then_errors.failed(row) || else_errors.failed(row) by {
                assert(errors.at(row) == match second.at(row) {
                    Some(error) => Some(error),
                    None => else_errors.at(row),
                });
                assert(second.at(row) == match first.at(row) {
                    Some(error) => Some(error),
                    None => then_errors.at(row),
                });
            }
            assert forall|row: int| #[trigger] errors.failed(row) implies mask.has(row) by {
                if then_errors.failed(row) {
                    assert(then_rows.has(row));
                    assert(live.has(row));
                } else if else_errors.failed(row) {
                    assert(else_rows.has(row));
                    assert(live.has(row));
                } else {
                    assert(first.failed(row));
                }
            }
            assert forall|row: int| #[trigger] mask.has(row) implies shows(
                column,
                errors,
                row,
                scalar_run(cx, fuel, *expr, ids[row], None),
            ) by {
                assert(judges(
                    outcomes@,
                    first,
                    row,
                    judgment_run(cx, fuel, **condition, ids[row], None),
                ));
                assert(errors.failed(row) <==> first.failed(row) || then_errors.failed(row)
                    || else_errors.failed(row));
                assert(live.has(row) <==> !first.failed(row));
                if then_errors.failed(row) {
                    assert(then_rows.has(row));
                }
                if else_errors.failed(row) {
                    assert(else_rows.has(row));
                }
                if live.has(row) {
                    assert(then_rows.has(row) <==> live.has(row) && holds@[row]);
                    assert(else_rows.has(row) <==> live.has(row) && !then_rows.has(row));
                    if then_rows.has(row) {
                        assert(shows(
                            then_values,
                            then_errors,
                            row,
                            scalar_run(cx, fuel, **then_expr, ids[row], None),
                        ));
                    } else {
                        assert(else_rows.has(row));
                        assert(shows(
                            else_values,
                            else_errors,
                            row,
                            scalar_run(cx, fuel, **else_expr, ids[row], None),
                        ));
                    }
                }
            }
        }
        Ok((column, errors))
    }

    /// Evaluates a judgment on the rows of a mask.
    fn eval_judgment_expr(
        &mut self,
        expr: &JudgmentExpr,
        mask: &RowMask,
        Ghost(fuel): Ghost<nat>,
    ) -> (r: Result<(Vec<JudgmentOutcome>, RowErrors), EvalError>)
        requires
            old(self).well_formed(),
            judgments_end(old(self).facts(), old(self).ids(), fuel, *expr, *mask),
        ensures
            final(self).continues(old(self)),
            match r {
                Ok((outcomes, errors)) => judgments_hold(
                    old(self).facts(),
                    old(self).ids(),
                    fuel,
                    *expr,
                    *mask,
                    outcomes@,
                    errors,
                ),
                Err(error) => met_by(
                    old(self).ids(),
                    *mask,
                    error@,
                    |id: Seq<char>| judgment_date_met(old(self).facts(), fuel, *expr, id),
                ),
            },
            r is Ok ==> unmet(
                old(self).ids(),
                *mask,
                |id: Seq<char>| judgment_date_met(old(self).facts(), fuel, *expr, id),
            ),
        decreases 2 * fuel, *expr, 1int,
    {
        let ghost (cx, ids) = (self.facts(), self.ids());
        let n = self.len();
        if mask.is_empty() {
            return Ok((repeated(JudgmentOutcome::NotHolds, n), RowErrors::new()));
        }
        proof {
            assert forall|row: int| #[trigger] mask.has(row) implies judgment_run(
                cx,
                fuel,
                *expr,
                ids[row],
                None,
            ) == crate::semantics::judgment_step(cx, fuel, *expr, ids[row], None) by {
                judgment_run_is_step(cx, fuel, *expr, ids[row], None);
            }
            judgment_date_met_is_step(cx, fuel, *expr);
        }
        match expr {
            JudgmentExpr::Comparison { left, op, right } => {
                let (a, left_errors) = match self.eval_scalar_expr(left, mask, Ghost(fuel)) {
                    Ok(evaluated) => evaluated,
                    Err(error) => {
                        proof {
                            met_in_part(
                                ids,
                                *mask,
                                *mask,
                                error@,
                                |id: Seq<char>| date_met(cx, fuel, *left, id),
                                |id: Seq<char>| judgment_date_met(cx, fuel, *expr, id),
                                0,
                            );
                        }
                        return Err(error);
                    },
                };
                let first = mask.without(&left_errors);
                proof {
                    assert forall|row: int| #[trigger] first.has(row) implies scalar_run(
                        cx,
                        fuel,
                        *right,
                        ids[row],
                        None,
                    ) is Some by {
                        assert(mask.has(row));
                        assert(shows(
                            a,
                            left_errors,
                            row,
                            scalar_run(cx, fuel, *left, ids[row], None),
                        ));
                        assert(judgment_run(cx, fuel, *expr, ids[row], None) is Some);
                    }
                }
                let (b, right_errors) = match self.eval_scalar_expr(right, &first, Ghost(fuel)) {
                    Ok(evaluated) => evaluated,
                    Err(error) => {
                        proof {
                            assert forall|row: int| #[trigger] mask.has(row) implies first.has(row)
                                == has_value(scalar_run(cx, fuel, *left, ids[row], None)) by {
                                assert(shows(
                                    a,
                                    left_errors,
                                    row,
                                    scalar_run(cx, fuel, *left, ids[row], None),
                                ));
                                assert(first.has(row) <==> !left_errors.failed(row));
                            }
                            met_in_part(
                                ids,
                                first,
                                *mask,
                                error@,
                                |id: Seq<char>| date_met(cx, fuel, *right, id),
                                |id: Seq<char>| judgment_date_met(cx, fuel, *expr, id),
                                1,
                            );
                        }
                        return Err(error);
                    },
                };
                proof {
                    assert forall|row: int| #[trigger] mask.has(row) implies judgment_date_met(
                        cx,
                        fuel,
                        *expr,
                        ids[row],
                    ) is None by {
                        assert(shows(
                            a,
                            left_errors,
                            row,
                            scalar_run(cx, fuel, *left, ids[row], None),
                        ));
                        assert(first.has(row) <==> !left_errors.failed(row));
                    }
                }
                let live = first.without(&right_errors);
                let mut errors = left_errors;
                let ghost before = errors;
                errors.absorb(right_errors);
                let ghost middle = errors;
                let outcomes = compare_columns(&a, *op, &b, &live, &mut errors);
                proof {
                    assert forall|row: int| #[trigger] middle.failed(row) <==> before.failed(row)
                        || right_errors.failed(row) by {
                        assert(middle.at(row) == match before.at(row) {
                            Some(error) => Some(error),
                            None => right_errors.at(row),
                        });
                    }
                    assert forall|row: int| #[trigger] errors.failed(row) implies mask.has(row) by {
                        if live.has(row) {
                            assert(first.has(row));
                        } else {
                            assert(errors.at(row) == middle.at(row));
                            assert(middle.failed(row));
                            if right_errors.failed(row) {
                                assert(first.has(row));
                            } else {
                                assert(before.failed(row));
                            }
                        }
                    }
                    assert forall|row: int| #[trigger] mask.has(row) implies judges(
                        outcomes@,
                        errors,
                        row,
                        judgment_run(cx, fuel, *expr, ids[row], None),
                    ) by {
                        assert(shows(
                            a,
                            before,
                            row,
                            scalar_run(cx, fuel, *left, ids[row], None),
                        ));
                        assert(middle.failed(row) <==> before.failed(row) || right_errors.failed(
                            row,
                        ));
                        if first.has(row) {
                            assert(shows(
                                b,
                                right_errors,
                                row,
                                scalar_run(cx, fuel, *right, ids[row], None),
                            ));
                        } else {
                            assert(before.failed(row));
                        }
                        assert(live.has(row) <==> first.has(row) && !right_errors.failed(row));
                        if !live.has(row) {
                            assert(errors.at(row) == middle.at(row));
                        } else {
                            assert(!middle.failed(row));
                        }
                    }
                }
                Ok((outcomes, errors))
            },
            JudgmentExpr::Derived(name) => self.judge_reference(expr, name, mask, Ghost(fuel)),
            JudgmentExpr::RelationMember { relation, .. } => {
                let (_, errors) = self.fail_all(
                    mask,
                    relation_member_outside_derived_relation(relation.as_str()),
                );
                Ok((repeated(JudgmentOutcome::NotHolds, n), errors))
            },
            JudgmentExpr::And(items) => {
                assert((|id: Seq<char>|
                    connective_date_met(cx, fuel, items@, 0, JudgmentOutcome::NotHolds, id)) =~= (
                |id: Seq<char>| judgment_date_met(cx, fuel, *expr, id)));
                self.eval_short_circuit(items, mask, JudgmentOutcome::NotHolds, Ghost(fuel))
            },
            JudgmentExpr::Or(items) => {
                assert((|id: Seq<char>|
                    connective_date_met(cx, fuel, items@, 0, JudgmentOutcome::Holds, id)) =~= (
                |id: Seq<char>| judgment_date_met(cx, fuel, *expr, id)));
                self.eval_short_circuit(items, mask, JudgmentOutcome::Holds, Ghost(fuel))
            },
            JudgmentExpr::Not(item) => {
                let (values, errors) = match self.eval_judgment_expr(item, mask, Ghost(fuel)) {
                    Ok(evaluated) => evaluated,
                    Err(error) => {
                        proof {
                            met_alike(
                                ids,
                                *mask,
                                *mask,
                                error@,
                                |id: Seq<char>| judgment_date_met(cx, fuel, **item, id),
                                |id: Seq<char>| judgment_date_met(cx, fuel, *expr, id),
                            );
                        }
                        return Err(error);
                    },
                };
                let outcomes = negated_outcomes(&values);
                proof {
                    assert forall|row: int| #[trigger] mask.has(row) implies judges(
                        outcomes@,
                        errors,
                        row,
                        judgment_run(cx, fuel, *expr, ids[row], None),
                    ) by {
                        assert(judges(
                            values@,
                            errors,
                            row,
                            judgment_run(cx, fuel, **item, ids[row], None),
                        ));
                        assert(0 <= row < ids.len());
                    }
                }
                Ok((outcomes, errors))
            },
        }
    }

    fn judge_reference(
        &mut self,
        expr: &JudgmentExpr,
        name: &String,
        mask: &RowMask,
        Ghost(fuel): Ghost<nat>,
    ) -> (r: Result<(Vec<JudgmentOutcome>, RowErrors), EvalError>)
        requires
            old(self).well_formed(),
            !mask.vacant(),
            *expr == JudgmentExpr::Derived(*name),
            judgments_end(old(self).facts(), old(self).ids(), fuel, *expr, *mask),
        ensures
            final(self).continues(old(self)),
            match r {
                Ok((outcomes, errors)) => judgments_hold(
                    old(self).facts(),
                    old(self).ids(),
                    fuel,
                    *expr,
                    *mask,
                    outcomes@,
                    errors,
                ),
                Err(error) => met_by(
                    old(self).ids(),
                    *mask,
                    error@,
                    |id: Seq<char>| judgment_date_met(old(self).facts(), fuel, *expr, id),
                ),
            },
            r is Ok ==> unmet(
                old(self).ids(),
                *mask,
                |id: Seq<char>| judgment_date_met(old(self).facts(), fuel, *expr, id),
            ),
        decreases 2 * fuel, *expr, 0int,
    {
        let ghost (cx, ids) = (self.facts(), self.ids());
        proof {
            assert forall|row: int| #[trigger] mask.has(row) implies judgment_run(
                cx,
                fuel,
                *expr,
                ids[row],
                None,
            ) == crate::semantics::judgment_step(cx, fuel, *expr, ids[row], None) by {
                judgment_run_is_step(cx, fuel, *expr, ids[row], None);
            }
            judgment_date_met_is_step(cx, fuel, *expr);
        }
        let program: &'a Program = self.program;
        if find_named(&program.derived, name.as_str()).is_none() {
            let (_, errors) = self.fail_all(mask, EvalError::UnknownDerived(name.clone()));
            return Ok((repeated(JudgmentOutcome::NotHolds, self.len()), errors));
        }
        let ghost less = (fuel - 1) as nat;
        proof {
            let row = choose|row: int| #[trigger] mask.has(row);
            assert(judgment_run(cx, fuel, *expr, ids[row], None) is Some);
            assert(fuel > 0);
            assert forall|row: int| #[trigger] mask.has(row) implies rule_judgment(
                cx,
                less,
                name@,
                ids[row],
            ) is Some by {
                assert(judgment_run(cx, fuel, *expr, ids[row], None) is Some);
            }
            assert forall|row: int| #[trigger] mask.has(row) implies judgment_date_met(
                cx,
                fuel,
                *expr,
                ids[row],
            ) == judgment_dates(cx, name@, ids[row]) by {
                judgment_dates_at(cx, less, name@, ids[row]);
            }
        }
        match self.evaluate_judgment(name.as_str(), mask, Ghost(less)) {
            Err(error) => {
                proof {
                    met_alike(
                        ids,
                        *mask,
                        *mask,
                        error@,
                        |id: Seq<char>| judgment_dates(cx, name@, id),
                        |id: Seq<char>| judgment_date_met(cx, fuel, *expr, id),
                    );
                }
                Err(error)
            },
            Ok((outcomes, errors)) => {
                proof {
                    assert forall|row: int| #[trigger] mask.has(row) implies judges(
                        outcomes@,
                        errors,
                        row,
                        judgment_run(cx, fuel, *expr, ids[row], None),
                    ) by {
                        judgment_meaning_at(cx, less, name@, ids[row]);
                        assert(judges(
                            outcomes@,
                            errors,
                            row,
                            Some(judgment_meaning(cx, name@, ids[row])),
                        ));
                    }
                }
                Ok((outcomes, errors))
            },
        }
    }

    /// `and` or `or` on the rows of a mask: each item on the rows that are undecided.
    fn eval_short_circuit(
        &mut self,
        items: &Vec<JudgmentExpr>,
        mask: &RowMask,
        decisive: JudgmentOutcome,
        Ghost(fuel): Ghost<nat>,
    ) -> (r: Result<(Vec<JudgmentOutcome>, RowErrors), EvalError>)
        requires
            old(self).well_formed(),
            mask@.len() == old(self).ids().len(),
            decisive is Holds || decisive is NotHolds,
            forall|row: int| #[trigger]
                mask.has(row) ==> connective_run(
                    old(self).facts(),
                    fuel,
                    items@,
                    0,
                    decisive,
                    false,
                    old(self).ids()[row],
                    None,
                ) is Some,
        ensures
            final(self).continues(old(self)),
            match r {
                Ok((outcomes, errors)) => {
                    &&& outcomes@.len() == old(self).ids().len()
                    &&& forall|row: int| #[trigger] errors.failed(row) ==> mask.has(row)
                    &&& forall|row: int| #[trigger]
                        mask.has(row) ==> judges(
                            outcomes@,
                            errors,
                            row,
                            connective_run(
                                old(self).facts(),
                                fuel,
                                items@,
                                0,
                                decisive,
                                false,
                                old(self).ids()[row],
                                None,
                            ),
                        )
                },
                Err(error) => met_by(
                    old(self).ids(),
                    *mask,
                    error@,
                    |id: Seq<char>| connective_date_met(old(self).facts(), fuel, items@, 0, decisive, id),
                ),
            },
            r is Ok ==> unmet(
                old(self).ids(),
                *mask,
                |id: Seq<char>| connective_date_met(old(self).facts(), fuel, items@, 0, decisive, id),
            ),
        decreases 2 * fuel, items@, 0int,
    {
        let ghost (cx, ids) = (self.facts(), self.ids());
        let n = self.len();
        let mut outcomes: Vec<JudgmentOutcome> = repeated(decisive.negate(), n);
        let mut undetermined: Vec<bool> = repeated(false, n);
        let mut errors = RowErrors::new();
        let mut pending = mask.duplicate();
        let mut i: usize = 0;
        while i < items.len()
            invariant
                i <= items@.len(),
                n == ids.len(),
                cx == old(self).facts(),
                ids == old(self).ids(),
                self.continues(old(self)),
                mask@.len() == n,
                pending@.len() == n,
                outcomes@.len() == n,
                undetermined@.len() == n,
                decisive is Holds || decisive is NotHolds,
                forall|row: int| #[trigger] pending.has(row) ==> mask.has(row),
                forall|row: int| #[trigger]
                    mask.has(row) ==> connective_date_met(cx, fuel, items@, 0, decisive, ids[row])
                        == if pending.has(row) {
                        connective_date_met(cx, fuel, items@, i as nat, decisive, ids[row])
                    } else {
                        None
                    },
                forall|row: int| #[trigger] errors.failed(row) ==> mask.has(row) && !pending.has(row),
                forall|row: int| #[trigger]
                    mask.has(row) ==> row_decided(
                        connective_run(cx, fuel, items@, 0, decisive, false, ids[row], None),
                        connective_run(
                            cx,
                            fuel,
                            items@,
                            i as nat,
                            decisive,
                            undetermined@[row],
                            ids[row],
                            None,
                        ),
                        pending.has(row),
                        errors.at(row),
                        outcomes@[row],
                        decisive,
                    ),
            decreases items@.len() - i,
        {
            let ghost old_pending = pending;
            let ghost old_errors = errors;
            let ghost old_outcomes = outcomes@;
            let ghost old_undetermined = undetermined@;
            proof {
                assert forall|row: int| #[trigger] pending.has(row) implies judgment_run(
                    cx,
                    fuel,
                    items@[i as int],
                    ids[row],
                    None,
                ) is Some by {
                    assert(mask.has(row));
                    assert(row_decided(
                        connective_run(cx, fuel, items@, 0, decisive, false, ids[row], None),
                        connective_run(
                            cx,
                            fuel,
                            items@,
                            i as nat,
                            decisive,
                            undetermined@[row],
                            ids[row],
                            None,
                        ),
                        pending.has(row),
                        errors.at(row),
                        outcomes@[row],
                        decisive,
                    ));
                }
            }
            let (values, item_errors) = match self.eval_judgment_expr(
                &items[i],
                &pending,
                Ghost(fuel),
            ) {
                Ok(evaluated) => evaluated,
                Err(error) => {
                    proof {
                        let whole = |id: Seq<char>|
                            connective_date_met(cx, fuel, items@, 0, decisive, id);
                        let own = |id: Seq<char>| judgment_date_met(cx, fuel, items@[i as int], id);
                        assert forall|row: int| #[trigger] mask.has(row) implies if pending.has(row)
                            && own(ids[row]) is Some {
                            whole(ids[row]) == met_in(i as nat, own(ids[row]))
                        } else {
                            whole(ids[row]) matches Some(m) ==> m.path.len() > 0 && m.path[0] > i
                        } by {
                            connective_date_met_later(
                                cx,
                                fuel,
                                items@,
                                (i + 1) as nat,
                                decisive,
                                ids[row],
                            );
                        }
                        met_in_part(ids, pending, *mask, error@, own, whole, i as nat);
                    }
                    return Err(error);
                },
            };
            let live = pending.without(&item_errors);
            errors.absorb(item_errors);
            let mut kept: Vec<bool> = Vec::new();
            let mut row: usize = 0;
            while row < n
                invariant
                    row <= n,
                    values@.len() == n,
                    live@.len() == n,
                    outcomes@.len() == n,
                    undetermined@.len() == n,
                    old_outcomes.len() == n,
                    old_undetermined.len() == n,
                    kept@.len() == row,
                    forall|k: int| 0 <= k < row ==> #[trigger] kept@[k] == (values@[k] != decisive),
                    forall|k: int|
                        0 <= k < n ==> #[trigger] outcomes@[k] == if k < row && live.has(k)
                            && values@[k] == decisive {
                            decisive
                        } else {
                            old_outcomes[k]
                        },
                    forall|k: int|
                        0 <= k < n ==> #[trigger] undetermined@[k] == (old_undetermined[k] || (k
                            < row && live.has(k) && values@[k] is Undetermined)),
                decreases n - row,
            {
                let decided = same_outcome(values[row], decisive);
                if live.contains(row) {
                    if decided {
                        outcomes.set(row, decisive);
                    }
                    if same_outcome(values[row], JudgmentOutcome::Undetermined) {
                        undetermined.set(row, true);
                    }
                }
                kept.push(!decided);
                row = row + 1;
            }
            pending = live.keeping(&kept);
            proof {
                assert forall|k: int| #[trigger] errors.failed(k) <==> old_errors.failed(k)
                    || item_errors.failed(k) by {
                    assert(errors.at(k) == match old_errors.at(k) {
                        Some(error) => Some(error),
                        None => item_errors.at(k),
                    });
                }
                assert forall|k: int| #[trigger] pending.has(k) implies mask.has(k) by {
                    assert(live.has(k));
                    assert(old_pending.has(k));
                }
                assert forall|k: int| #[trigger] mask.has(k) implies connective_date_met(
                    cx,
                    fuel,
                    items@,
                    0,
                    decisive,
                    ids[k],
                ) == if pending.has(k) {
                    connective_date_met(cx, fuel, items@, (i + 1) as nat, decisive, ids[k])
                } else {
                    None
                } by {
                    assert(live.has(k) <==> old_pending.has(k) && !item_errors.failed(k));
                    assert(pending.has(k) <==> live.has(k) && kept@[k]);
                    if old_pending.has(k) {
                        assert(judges(
                            values@,
                            item_errors,
                            k,
                            judgment_run(cx, fuel, items@[i as int], ids[k], None),
                        ));
                        assert(judgment_date_met(cx, fuel, items@[i as int], ids[k]) is None);
                    }
                }
                assert forall|k: int| #[trigger] errors.failed(k) implies mask.has(k)
                    && !pending.has(k) by {
                    if item_errors.failed(k) {
                        assert(old_pending.has(k));
                        assert(!live.has(k));
                    } else {
                        assert(old_errors.failed(k));
                        assert(!old_pending.has(k));
                        if live.has(k) {
                            assert(old_pending.has(k));
                        }
                    }
                    if pending.has(k) {
                        assert(live.has(k));
                    }
                }
                assert forall|k: int| #[trigger] mask.has(k) implies row_decided(
                    connective_run(cx, fuel, items@, 0, decisive, false, ids[k], None),
                    connective_run(
                        cx,
                        fuel,
                        items@,
                        (i + 1) as nat,
                        decisive,
                        undetermined@[k],
                        ids[k],
                        None,
                    ),
                    pending.has(k),
                    errors.at(k),
                    outcomes@[k],
                    decisive,
                ) by {
                    assert(0 <= k < n);
                    assert(row_decided(
                        connective_run(cx, fuel, items@, 0, decisive, false, ids[k], None),
                        connective_run(
                            cx,
                            fuel,
                            items@,
                            i as nat,
                            decisive,
                            old_undetermined[k],
                            ids[k],
                            None,
                        ),
                        old_pending.has(k),
                        old_errors.at(k),
                        old_outcomes[k],
                        decisive,
                    ));
                    assert(errors.failed(k) <==> old_errors.failed(k) || item_errors.failed(k));
                    assert(errors.at(k) == match old_errors.at(k) {
                        Some(error) => Some(error),
                        None => item_errors.at(k),
                    });
                    assert(live.has(k) <==> old_pending.has(k) && !item_errors.failed(k));
                    assert(pending.has(k) <==> live.has(k) && kept@[k]);
                    if old_pending.has(k) {
                        assert(judges(
                            values@,
                            item_errors,
                            k,
                            judgment_run(cx, fuel, items@[i as int], ids[k], None),
                        ));
                    } else if item_errors.failed(k) {
                        assert(old_pending.has(k));
                    }
                }
            }
            i = i + 1;
        }
        let mut row: usize = 0;
        let ghost decided = outcomes@;
        while row < n
            invariant
                row <= n,
                pending@.len() == n,
                outcomes@.len() == n,
                undetermined@.len() == n,
                decided.len() == n,
                forall|k: int|
                    0 <= k < n ==> #[trigger] outcomes@[k] == if k < row && pending.has(k)
                        && undetermined@[k] {
                        JudgmentOutcome::Undetermined
                    } else {
                        decided[k]
                    },
            decreases n - row,
        {
            if pending.contains(row) && undetermined[row] {
                outcomes.set(row, JudgmentOutcome::Undetermined);
            }
            row = row + 1;
        }
        proof {
            assert forall|k: int| #[trigger] mask.has(k) implies judges(
                outcomes@,
                errors,
                k,
                connective_run(cx, fuel, items@, 0, decisive, false, ids[k], None),
            ) by {
                assert(0 <= k < n);
                assert(row_decided(
                    connective_run(cx, fuel, items@, 0, decisive, false, ids[k], None),
                    connective_run(
                        cx,
                        fuel,
                        items@,
                        items@.len(),
                        decisive,
                        undetermined@[k],
                        ids[k],
                        None,
                    ),
                    pending.has(k),
                    errors.at(k),
                    decided[k],
                    decisive,
                ));
                if pending.has(k) {
                    assert(!errors.failed(k)) by {
                        if errors.failed(k) {
                            assert(!pending.has(k));
                        }
                    }
                }
            }
        }
        Ok((outcomes, errors))
    }
}

/// What is known of a row of `and` or `or`: an undecided row goes on as the whole does,
/// and has the outcome of no item so far; a decided one has the decisive outcome or failed.
spec fn row_decided(
    whole: Option<Eval<JudgmentOutcome>>,
    rest: Option<Eval<JudgmentOutcome>>,
    pending: bool,
    error: Option<ErrorView>,
    outcome: JudgmentOutcome,
    decisive: JudgmentOutcome,
) -> bool {
    &&& whole is Some
    &&& if pending {
        rest is Some && whole->0.value == rest->0.value && outcome == decisive.negated() && error
            is None
    } else if error is Some {
        whole->0.value is Err && is_told(error->0, whole->0.value->Err_0)
    } else {
        whole->0.value == Ok::<JudgmentOutcome, ErrorView>(decisive) && outcome == decisive
    }
}

fn same_outcome(a: JudgmentOutcome, b: JudgmentOutcome) -> (r: bool)
    ensures
        r == (a == b),
{
    a == b
}

fn outcome_bits(outcomes: &Vec<JudgmentOutcome>) -> (r: Vec<bool>)
    ensures
        r@.len() == outcomes@.len(),
        forall|i: int| 0 <= i < outcomes@.len() ==> #[trigger] r@[i] == (outcomes@[i] is Holds),
{
    let mut out: Vec<bool> = Vec::new();
    let mut i: usize = 0;
    while i < outcomes.len()
        invariant
            i <= outcomes@.len(),
            out@.len() == i,
            forall|j: int| 0 <= j < i ==> #[trigger] out@[j] == (outcomes@[j] is Holds),
        decreases outcomes@.len() - i,
    {
        out.push(outcomes[i].is_holds());
        i = i + 1;
    }
    out
}

fn negated_outcomes(outcomes: &Vec<JudgmentOutcome>) -> (r: Vec<JudgmentOutcome>)
    ensures
        r@.len() == outcomes@.len(),
        forall|i: int| 0 <= i < outcomes@.len() ==> #[trigger] r@[i] == outcomes@[i].negated(),
{
    let mut out: Vec<JudgmentOutcome> = Vec::new();
    let mut i: usize = 0;
    while i < outcomes.len()
        invariant
            i <= outcomes@.len(),
            out@.len() == i,
            forall|j: int| 0 <= j < i ==> #[trigger] out@[j] == outcomes@[j].negated(),
        decreases outcomes@.len() - i,
    {
        out.push(outcomes[i].negate());
        i = i + 1;
    }
    out
}

/// The values of a rule that was asked for.
#[derive(Debug)]
pub enum OutputColumn {
    Scalar(ScalarColumn),
    Judgment(Vec<JudgmentOutcome>),
}

/// A rule that was asked for, evaluated.
#[derive(Debug)]
pub struct EvaluatedOutput {
    pub values: OutputColumn,
    pub errors: RowErrors,
}

/// Whether an output has, on the rows of a mask, what the interpreter computes.
pub open spec fn output_holds(
    cx: Facts,
    ids: Seq<Seq<char>>,
    name: Seq<char>,
    mask: RowMask,
    output: EvaluatedOutput,
) -> bool {
    match cx.program.rule(name) {
        None => false,
        Some(d) => match d.formula_at(cx.period.start) {
            None => forall|row: int| #[trigger]
                mask.has(row) ==> output.errors.at(row) == Some(
                    ErrorView::MissingDerivedFormulaVersion {
                        derived: name,
                        at: cx.period.start,
                    },
                ),
            Some(DerivedSemantics::Scalar(_)) => match output.values {
                OutputColumn::Scalar(column) => rule_scalars_hold(
                    cx,
                    ids,
                    name,
                    mask,
                    column,
                    output.errors,
                ),
                OutputColumn::Judgment(_) => false,
            },
            Some(DerivedSemantics::Judgment(_)) => match output.values {
                OutputColumn::Judgment(outcomes) => rule_judgments_hold(
                    cx,
                    ids,
                    name,
                    mask,
                    outcomes@,
                    output.errors,
                ),
                OutputColumn::Scalar(_) => false,
            },
        },
    }
}

/// One bound is enough for all rows.
proof fn shared_bound(cx: Facts, name: Seq<char>, ids: Seq<Seq<char>>, mask: RowMask, n: nat) -> (fuel:
    nat)
    requires
        n <= ids.len(),
        forall|row: int| #[trigger]
            mask.has(row) ==> scalar_terminates(cx, name, ids[row]) && judgment_terminates(
                cx,
                name,
                ids[row],
            ),
    ensures
        forall|row: int| #[trigger]
            mask.has(row) && row < n ==> rule_scalar(cx, fuel, name, ids[row]) is Some
                && rule_judgment(cx, fuel, name, ids[row]) is Some,
    decreases n,
{
    if n == 0 {
        0
    } else {
        let before = shared_bound(cx, name, ids, mask, (n - 1) as nat);
        let row = n - 1;
        if mask.has(row) {
            let a = choose|f: nat| #[trigger] rule_scalar(cx, f, name, ids[row]) is Some;
            let b = choose|f: nat| #[trigger] rule_judgment(cx, f, name, ids[row]) is Some;
            let fuel = before + a + b;
            assert forall|k: int| #[trigger] mask.has(k) && k < n implies rule_scalar(
                cx,
                fuel,
                name,
                ids[k],
            ) is Some && rule_judgment(cx, fuel, name, ids[k]) is Some by {
                if k < n - 1 {
                    crate::bounds::rule_scalar_stable(cx, before, fuel, name, ids[k]);
                    crate::bounds::rule_judgment_stable(cx, before, fuel, name, ids[k]);
                } else {
                    crate::bounds::rule_scalar_stable(cx, a, fuel, name, ids[k]);
                    crate::bounds::rule_judgment_stable(cx, b, fuel, name, ids[k]);
                }
            }
            fuel
        } else {
            before
        }
    }
}

impl<'a> BulkEvaluator<'a> {
    /// Evaluates a rule that was asked for on the rows of a mask.
    pub fn evaluate_output(&mut self, name: &str, mask: &RowMask) -> (r: Result<
        EvaluatedOutput,
        EvalError,
    >)
        requires
            old(self).well_formed(),
            mask@.len() == old(self).ids().len(),
            old(self).facts().program.rule(name@) is Some,
            forall|row: int| #[trigger]
                mask.has(row) ==> scalar_terminates(
                    old(self).facts(),
                    name@,
                    old(self).ids()[row],
                ) && judgment_terminates(old(self).facts(), name@, old(self).ids()[row]),
        ensures
            final(self).continues(old(self)),
            match r {
                Ok(output) => output_holds(
                    old(self).facts(),
                    old(self).ids(),
                    name@,
                    *mask,
                    output,
                ) && forall|row: int| #[trigger] output.errors.failed(row) ==> mask.has(row),
                Err(error) => met_by(
                    old(self).ids(),
                    *mask,
                    error@,
                    |id: Seq<char>| output_dates(old(self).facts(), name@, id),
                ),
            },
            r is Ok ==> unmet(
                old(self).ids(),
                *mask,
                |id: Seq<char>| output_dates(old(self).facts(), name@, id),
            ),
    {
        let ghost (cx, ids) = (self.facts(), self.ids());
        let ghost mut fuel: nat = 0;
        proof {
            fuel = shared_bound(cx, name@, ids, *mask, ids.len());
            assert forall|row: int| #[trigger] mask.has(row) implies rule_scalar(
                cx,
                fuel,
                name@,
                ids[row],
            ) is Some && rule_judgment(cx, fuel, name@, ids[row]) is Some by {
                assert(row < ids.len());
            }
        }
        let program: &'a Program = self.program;
        let derived = match find_named(&program.derived, name) {
            Some(derived) => derived,
            None => {
                let (column, errors) = self.fail_all(
                    mask,
                    EvalError::UnknownDerived(owned(name)),
                );
                return Ok(EvaluatedOutput { values: OutputColumn::Scalar(column), errors });
            },
        };
        match derived.semantics_at(&self.period) {
            None => {
                let error = EvalError::MissingDerivedFormulaVersion {
                    derived: owned(name),
                    at: self.period.start,
                };
                let (column, errors) = self.fail_all(mask, error);
                Ok(EvaluatedOutput { values: OutputColumn::Scalar(column), errors })
            },
            Some(DerivedSemantics::Scalar(_)) => {
                match self.evaluate_scalar(name, mask, Ghost(fuel)) {
                    Ok((column, errors)) => Ok(
                        EvaluatedOutput { values: OutputColumn::Scalar(column), errors },
                    ),
                    Err(error) => {
                        proof {
                            met_alike(
                                ids,
                                *mask,
                                *mask,
                                error@,
                                |id: Seq<char>| scalar_dates(cx, name@, id),
                                |id: Seq<char>| output_dates(cx, name@, id),
                            );
                        }
                        Err(error)
                    },
                }
            },
            Some(DerivedSemantics::Judgment(_)) => {
                match self.evaluate_judgment(name, mask, Ghost(fuel)) {
                    Ok((outcomes, errors)) => Ok(
                        EvaluatedOutput { values: OutputColumn::Judgment(outcomes), errors },
                    ),
                    Err(error) => {
                        proof {
                            met_alike(
                                ids,
                                *mask,
                                *mask,
                                error@,
                                |id: Seq<char>| judgment_dates(cx, name@, id),
                                |id: Seq<char>| output_dates(cx, name@, id),
                            );
                        }
                        Err(error)
                    },
                }
            },
        }
    }
}

} // verus!
