//! When a rewrite is safe: the old and the new formula give the same outcome on every
//! assignment of the facts that they read.
use crate::api::{
    ending_references_answer_queries, execute_explain, output_answer, output_entries,
    outputs_among, put, queries_error, query_facts, query_outputs, ExecutionMetadata,
    ExecutionMode, ExecutionQuery, OutputValue, OutputView,
};
use crate::catalog::derived_named;
use crate::date::{day_number, valid_ymd, Date};
use crate::error::ErrorView;
use crate::error_text::error_text;
use crate::exactly_one::{expanded_views, rules_sites, scan_source};
use crate::inputs::{contradicted_spell, validate_input_spells};
use crate::model::{
    find_named, DataSet, DerivedSemantics, InputRecord, Interval, JudgmentOutcome, Period,
    PeriodKind, PeriodKindView, PeriodView, Program, ScalarValue,
};
use crate::semantics::Facts;
use crate::termination::references_end;
use crate::text::{int_text, owned, same, texts, usize_text};
use vstd::arithmetic::div_mod::lemma_div_denominator;
use vstd::arithmetic::power2::{lemma2_to64, lemma_pow2_pos, lemma_pow2_strictly_increases, lemma_pow2_unfold, pow2};
use vstd::prelude::*;
use vstd::string::*;

verus! {

/// Why a formula has no program to try it with: its module does not lower, or the program
/// takes no such facts.
#[derive(Debug)]
pub enum ProbeFailure {
    Lowering(String),
    Refused(String),
}

/// What a trial of a formula gave.
#[derive(Debug)]
pub enum ProbeResult {
    Outcome(JudgmentOutcome),
    Failed(String),
}

/// What is known of a rewrite.
#[derive(Clone, Copy, Debug, PartialEq, Eq, Structural)]
pub struct GateReport {
    pub assignments: usize,
    pub outcomes_match: bool,
    pub rescan_clean: bool,
}

pub ghost enum ProbeView {
    Outcome(JudgmentOutcome),
    Failed(Seq<char>),
}

impl ProbeResult {
    pub open spec fn view(&self) -> ProbeView {
        match *self {
            ProbeResult::Outcome(outcome) => ProbeView::Outcome(outcome),
            ProbeResult::Failed(message) => ProbeView::Failed(message@),
        }
    }
}

/// The most facts whose assignments a rewrite is tried on.
pub const MAX_GATE_ARITY: usize = 12;

/// The rule that holds the formula of a trial.
pub const PROBE_RULE: &'static str = "migration_probe";

/// The entity of a trial.
pub const PROBE_ENTITY: &'static str = "probe-1";

/// The month of a trial.
pub open spec fn probe_start() -> Date {
    Date::of_number(day_number(2026, 1, 1))
}

pub open spec fn probe_end() -> Date {
    Date::of_number(day_number(2026, 1, 31))
}

/// Whether an assignment, counted through, has the fact at `i` hold.
pub open spec fn assigned(mask: nat, i: nat) -> bool {
    (mask / pow2(i)) % 2 == 1
}

/// Whether a record gives the trial's entity a fact over its month.
pub open spec fn is_fact(record: InputRecord, name: Seq<char>, holds: bool) -> bool {
    &&& record.name@ == name
    &&& record.entity@ == "Household"@
    &&& record.entity_id@ == PROBE_ENTITY@
    &&& record.interval.start == probe_start()
    &&& record.interval.end == probe_end()
    &&& record.value == ScalarValue::Bool(holds)
}

/// Whether data hold the facts of one assignment, and nothing else.
pub open spec fn is_assignment(data: DataSet, bases: Seq<Seq<char>>, mask: nat) -> bool {
    &&& data.relations@.len() == 0
    &&& data.inputs@.len() == bases.len()
    &&& forall|i: int|
        0 <= i < bases.len() ==> is_fact(
            #[trigger] data.inputs@[i],
            bases[i],
            assigned(mask, i as nat),
        )
}

pub open spec fn probe_facts(p: Program, data: DataSet) -> Facts {
    Facts {
        program: p,
        data: data@,
        period: PeriodView {
            kind: PeriodKindView::Month,
            start: probe_start(),
            end: probe_end(),
        },
    }
}

/// What a trial of a program on an assignment gives.
pub open spec fn trial(p: Program, data: DataSet) -> ProbeView {
    match contradicted_spell(data.inputs@, data.inputs@.len()) {
        Some(i) => ProbeView::Failed(
            "probe execution failed: "@ + error_text(
                ErrorView::AmbiguousInput {
                    name: data.inputs@[i as int].name@,
                    entity_id: data.inputs@[i as int].entity_id@,
                    effective_from: data.inputs@[i as int].interval.start,
                },
            ),
        ),
        None => match output_answer(probe_facts(p, data), PROBE_ENTITY@, PROBE_RULE@) {
            Err(error) => ProbeView::Failed("probe execution failed: "@ + error_text(error)),
            Ok((key, output)) => match output {
                OutputView::Judgment { outcome, .. } if key == PROBE_RULE@ => ProbeView::Outcome(
                    outcome,
                ),
                _ => ProbeView::Failed("probe produced no judgment: None"@),
            },
        },
    }
}

/// What a trial of a formula on an assignment gives.
pub open spec fn probed(reading: Result<Program, ProbeFailure>, data: DataSet) -> ProbeView {
    match reading {
        Err(ProbeFailure::Lowering(error)) => ProbeView::Failed(
            "probe lowering failed: "@ + error@,
        ),
        Err(ProbeFailure::Refused(error)) => ProbeView::Failed(
            "probe execution failed: "@ + error@,
        ),
        Ok(p) => trial(p, data),
    }
}

/// Whether the rule that is tried is a judgment.
pub open spec fn is_probe(p: Program) -> bool {
    match derived_named(p, PROBE_RULE@) {
        None => false,
        Some(name) => match p.rule(name) {
            None => true,
            Some(d) => match d.formula_at(probe_start()) {
                Some(DerivedSemantics::Scalar(_)) => false,
                _ => true,
            },
        },
    }
}

/// Whether a formula can be tried: the references of its program end, and the rule that is
/// tried is a judgment.
pub open spec fn can_be_tried(reading: Result<Program, ProbeFailure>) -> bool {
    reading matches Ok(p) ==> references_end(p) && is_probe(p)
}

/// What the trials of two formulas decide.
pub ghost enum ProbeDecision {
    Differ,
    BothFail(Seq<char>),
    Agree,
}

/// What the first `n` assignments decide: the first on which the formulas differ, or on
/// which both fail alike.
pub open spec fn decided(
    old: Result<Program, ProbeFailure>,
    new: Result<Program, ProbeFailure>,
    data: Seq<DataSet>,
    n: nat,
) -> ProbeDecision
    decreases n,
{
    if n == 0 || n > data.len() {
        ProbeDecision::Agree
    } else {
        match decided(old, new, data, (n - 1) as nat) {
            ProbeDecision::Agree => if probed(old, data[n - 1]) != probed(new, data[n - 1]) {
                ProbeDecision::Differ
            } else {
                match probed(old, data[n - 1]) {
                    ProbeView::Failed(error) => ProbeDecision::BothFail(error),
                    ProbeView::Outcome(_) => ProbeDecision::Agree,
                }
            },
            decision => decision,
        }
    }
}

/// Whether data are assignments of the facts, counted through from the first.
pub open spec fn are_assignments(data: Seq<DataSet>, bases: Seq<Seq<char>>) -> bool {
    forall|i: int| 0 <= i < data.len() ==> is_assignment(#[trigger] data[i], bases, i as nat)
}

/// Whether a formula's program is free of the pattern that the rewrite replaces.
pub open spec fn is_clean(reading: Result<Program, ProbeFailure>) -> bool {
    reading matches Ok(p) && rules_sites(p.derived@, p.derived@.len()).len() == 0
}

/// What comes of a rewrite that was tried on the assignments.
pub open spec fn judged(
    old: Result<Program, ProbeFailure>,
    new: Result<Program, ProbeFailure>,
    data: Seq<DataSet>,
    arity: nat,
    r: Result<GateReport, String>,
) -> bool {
    match decided(old, new, data, data.len()) {
        ProbeDecision::Differ => match r {
            Ok(report) => report.assignments == pow2(arity) && !report.outcomes_match
                && !report.rescan_clean,
            Err(_) => false,
        },
        ProbeDecision::BothFail(error) => match r {
            Err(message) => message@ == "both probes fail identically: "@ + error,
            Ok(_) => false,
        },
        ProbeDecision::Agree => data.len() == pow2(arity) && match r {
            Ok(report) => report.assignments == pow2(arity) && report.outcomes_match
                && report.rescan_clean == is_clean(new),
            Err(_) => false,
        },
    }
}

/// What comes of trying a rewrite: assignments are tried in order, until one decides.
pub open spec fn tried(
    old: Result<Program, ProbeFailure>,
    new: Result<Program, ProbeFailure>,
    bases: Seq<Seq<char>>,
    r: Result<GateReport, String>,
) -> bool {
    exists|data: Seq<DataSet>| #[trigger]
        are_assignments(data, bases) && judged(old, new, data, bases.len(), r)
}

pub open spec fn refused_arity(arity: nat) -> Seq<char> {
    "gate refuses arity "@ + int_text(arity as int) + " (>4096 assignments)"@
}

/// The month of a trial.
fn probe_period() -> (r: Period)
    ensures
        r@ == (PeriodView {
            kind: PeriodKindView::Month,
            start: probe_start(),
            end: probe_end(),
        }),
{
    let start = Date::from_ymd(2026, 1, 1);
    let end = Date::from_ymd(2026, 1, 31);
    assert(valid_ymd(2026, 1, 1) && valid_ymd(2026, 1, 31));
    Period { kind: PeriodKind::Month, start: start.unwrap(), end: end.unwrap() }
}

/// Whether the rule that is tried is a judgment.
pub fn check_probe(program: &Program) -> (r: bool)
    ensures
        r == is_probe(*program),
{
    match program.resolve_derived_name(PROBE_RULE) {
        None => false,
        Some(name) => match find_named(&program.derived, name.as_str()) {
            None => true,
            Some(rule) => {
                let period = probe_period();
                match rule.semantics_at(&period) {
                    Some(DerivedSemantics::Scalar(_)) => false,
                    _ => true,
                }
            },
        },
    }
}

/// The data of an assignment.
fn assignment(bases: &Vec<String>, mask: usize) -> (r: DataSet)
    ensures
        is_assignment(r, texts(bases@), mask as nat),
{
    let period = probe_period();
    let mut inputs: Vec<InputRecord> = Vec::new();
    let mut rest = mask;
    let mut i: usize = 0;
    proof {
        lemma2_to64();
    }
    while i < bases.len()
        invariant
            i <= bases@.len(),
            inputs@.len() == i,
            period.start == probe_start(),
            period.end == probe_end(),
            rest == mask as nat / pow2(i as nat),
            forall|k: int|
                0 <= k < i ==> is_fact(
                    #[trigger] inputs@[k],
                    bases@[k]@,
                    assigned(mask as nat, k as nat),
                ),
        decreases bases@.len() - i,
    {
        let holds = rest % 2 == 1;
        let record = InputRecord {
            name: bases[i].clone(),
            entity: owned("Household"),
            entity_id: owned(PROBE_ENTITY),
            interval: Interval { start: period.start, end: period.end },
            value: ScalarValue::Bool(holds),
        };
        assert(is_fact(record, bases@[i as int]@, assigned(mask as nat, i as nat)));
        inputs.push(record);
        proof {
            lemma_pow2_pos(i as nat);
            lemma_div_denominator(mask as int, pow2(i as nat) as int, 2);
            lemma_pow2_unfold((i + 1) as nat);
            assert(pow2(i as nat) * 2 == 2 * pow2(i as nat));
        }
        rest = rest / 2;
        i = i + 1;
    }
    DataSet { inputs, relations: Vec::new() }
}

/// The query of a trial.
fn probe_queries() -> (r: Vec<ExecutionQuery>)
    ensures
        r@.len() == 1,
        r@[0].entity_id@ == PROBE_ENTITY@,
        r@[0].period@ == (PeriodView {
            kind: PeriodKindView::Month,
            start: probe_start(),
            end: probe_end(),
        }),
        texts(r@[0].outputs@) =~= seq![PROBE_RULE@],
        r@[0].assessment_date is None,
{
    let mut outputs: Vec<String> = Vec::new();
    outputs.push(owned(PROBE_RULE));
    let query = ExecutionQuery {
        entity_id: owned(PROBE_ENTITY),
        period: probe_period(),
        outputs,
        assessment_date: None,
    };
    let mut queries: Vec<ExecutionQuery> = Vec::new();
    queries.push(query);
    queries
}

fn failed(prefix: &str, message: &str) -> (r: ProbeResult)
    ensures
        r@ == ProbeView::Failed(prefix@ + message@),
{
    let mut text = owned(prefix);
    text.append(message);
    ProbeResult::Failed(text)
}

/// Tries a program on an assignment.
fn try_program(program: &Program, data: &DataSet) -> (r: ProbeResult)
    requires
        references_end(*program),
        is_probe(*program),
    ensures
        r@ == trial(*program, *data),
{
    match validate_input_spells(data) {
        Ok(()) => {},
        Err(error) => {
            return failed("probe execution failed: ", error.to_text().as_str());
        },
    }
    let queries = probe_queries();
    let ghost query = queries@[0];
    let ghost cx = probe_facts(*program, *data);
    proof {
        ending_references_answer_queries(*program, *data, queries@);
        assert(query_facts(*program, *data, query) == cx);
        let references = texts(query.outputs@);
        assert(references.len() == 1 && references[0] == PROBE_RULE@);
        assert(outputs_among(cx, PROBE_ENTITY@, references, 0) == Ok::<
            Seq<(Seq<char>, OutputView)>,
            ErrorView,
        >(Seq::empty()));
        assert(outputs_among(cx, PROBE_ENTITY@, references, 1) == match output_answer(
            cx,
            PROBE_ENTITY@,
            PROBE_RULE@,
        ) {
            Err(error) => Err(error),
            Ok((key, output)) => Ok(put(Seq::empty(), key, output)),
        });
        assert(queries_error(*program, *data, queries@, 0) is None);
        assert(queries_error(*program, *data, queries@, 1) == match query_outputs(
            *program,
            *data,
            query,
        ) {
            Err(error) => Some(error),
            Ok(_) => None,
        });
    }
    let metadata = ExecutionMetadata {
        requested_mode: ExecutionMode::Explain,
        actual_mode: ExecutionMode::Explain,
        fallback_reason: None,
    };
    match execute_explain(program, data, &queries, metadata) {
        Err(error) => failed("probe execution failed: ", error.to_text().as_str()),
        Ok(response) => {
            let outputs = &response.results[0].outputs;
            proof {
                assert(output_answer(cx, PROBE_ENTITY@, PROBE_RULE@) is Ok);
                let (key, output) = output_answer(cx, PROBE_ENTITY@, PROBE_RULE@)->Ok_0;
                assert(put(Seq::<(Seq<char>, OutputView)>::empty(), key, output) =~= seq![
                    (key, output),
                ]);
                assert(output_entries(outputs@) =~= seq![(key, output)]);
                assert(output_entries(outputs@).len() == outputs@.len());
                assert(output_entries(outputs@)[0] == (outputs@[0].key@, outputs@[0].item@));
            }
            if same(outputs[0].key.as_str(), PROBE_RULE) {
                if let OutputValue::Judgment { outcome, .. } = &outputs[0].item {
                    return ProbeResult::Outcome(*outcome);
                }
            }
            ProbeResult::Failed(owned("probe produced no judgment: None"))
        },
    }
}

/// Tries a formula on an assignment.
fn try_formula(reading: &Result<Program, ProbeFailure>, data: &DataSet) -> (r: ProbeResult)
    requires
        can_be_tried(*reading),
    ensures
        r@ == probed(*reading, *data),
{
    match reading {
        Err(ProbeFailure::Lowering(error)) => failed("probe lowering failed: ", error.as_str()),
        Err(ProbeFailure::Refused(error)) => failed("probe execution failed: ", error.as_str()),
        Ok(program) => try_program(program, data),
    }
}

/// Whether two trials gave the same.
fn agree(a: &ProbeResult, b: &ProbeResult) -> (r: bool)
    ensures
        r == (a@ == b@),
{
    match (a, b) {
        (ProbeResult::Outcome(x), ProbeResult::Outcome(y)) => *x == *y,
        (ProbeResult::Failed(x), ProbeResult::Failed(y)) => same(x.as_str(), y.as_str()),
        _ => false,
    }
}

/// The number of assignments of so many facts.
fn assignment_count(arity: usize) -> (r: usize)
    requires
        arity <= MAX_GATE_ARITY,
    ensures
        r == pow2(arity as nat),
{
    let mut count: usize = 1;
    let mut i: usize = 0;
    proof {
        lemma2_to64();
    }
    while i < arity
        invariant
            i <= arity <= MAX_GATE_ARITY,
            count == pow2(i as nat),
            pow2(12) == 4096,
        decreases arity - i,
    {
        proof {
            lemma_pow2_unfold((i + 1) as nat);
            lemma_pow2_strictly_increases(i as nat, 12);
        }
        count = count * 2;
        i = i + 1;
    }
    count
}

/// Tries a rewrite: both formulas run on every assignment of the facts, and the new one is
/// searched for the pattern that it is to replace.
pub fn gate_rewrite(
    old: &Result<Program, ProbeFailure>,
    replacement: &Result<Program, ProbeFailure>,
    bases: &Vec<String>,
) -> (r: Result<GateReport, String>)
    requires
        can_be_tried(*old),
        can_be_tried(*replacement),
    ensures
        if bases@.len() > MAX_GATE_ARITY {
            match r {
                Err(message) => message@ == refused_arity(bases@.len()),
                Ok(_) => false,
            }
        } else {
            tried(*old, *replacement, texts(bases@), r)
        },
{
    if bases.len() > MAX_GATE_ARITY {
        let mut message = owned("gate refuses arity ");
        message.append(usize_text(bases.len()).as_str());
        message.append(" (>4096 assignments)");
        return Err(message);
    }
    let ghost names = texts(bases@);
    let assignments = assignment_count(bases.len());
    let ghost mut data: Seq<DataSet> = Seq::empty();
    let mut mask: usize = 0;
    while mask < assignments
        invariant
            mask <= assignments,
            assignments == pow2(names.len()),
            bases@.len() <= MAX_GATE_ARITY,
            names == texts(bases@),
            can_be_tried(*old),
            can_be_tried(*replacement),
            data.len() == mask,
            are_assignments(data, names),
            decided(*old, *replacement, data, mask as nat) is Agree,
            mask > 0 ==> replacement is Ok,
        decreases assignments - mask,
    {
        let facts = assignment(bases, mask);
        let before = try_formula(old, &facts);
        let after = try_formula(replacement, &facts);
        let ghost earlier = data;
        proof {
            data = data.push(facts);
            decided_on_first(*old, *replacement, earlier, data, mask as nat);
            assert(are_assignments(data, names));
        }
        if !agree(&before, &after) {
            let r = Ok(GateReport { assignments, outcomes_match: false, rescan_clean: false });
            assert(judged(*old, *replacement, data, names.len(), r));
            return r;
        }
        if let ProbeResult::Failed(error) = &before {
            let mut message = owned("both probes fail identically: ");
            message.append(error.as_str());
            let r: Result<GateReport, String> = Err(message);
            assert(judged(*old, *replacement, data, names.len(), r));
            return r;
        }
        mask = mask + 1;
    }
    proof {
        lemma_pow2_pos(names.len());
    }
    let rescan_clean = match replacement {
        Ok(program) => {
            let found = scan_source(program);
            assert(expanded_views(found@).len() == found@.len());
            found.len() == 0
        },
        Err(_) => false,
    };
    let r = Ok(GateReport { assignments, outcomes_match: true, rescan_clean });
    assert(judged(*old, *replacement, data, names.len(), r));
    r
}

proof fn decided_on_first(
    old: Result<Program, ProbeFailure>,
    new: Result<Program, ProbeFailure>,
    a: Seq<DataSet>,
    b: Seq<DataSet>,
    n: nat,
)
    requires
        n <= a.len(),
        n <= b.len(),
        a.take(n as int) =~= b.take(n as int),
    ensures
        decided(old, new, a, n) == decided(old, new, b, n),
    decreases n,
{
    if n > 0 {
        assert(a.take(n as int)[n - 1] == b.take(n as int)[n - 1]);
        assert(a.take(n - 1) =~= a.take(n as int).take(n - 1));
        assert(b.take(n - 1) =~= b.take(n as int).take(n - 1));
        decided_on_first(old, new, a, b, (n - 1) as nat);
    }
}

/// A rewrite passes only where the old and the new formula give the same outcome on every
/// assignment that was tried, and every assignment was.
pub proof fn passing_rewrites_agree(
    old: Result<Program, ProbeFailure>,
    new: Result<Program, ProbeFailure>,
    bases: Seq<Seq<char>>,
    r: Result<GateReport, String>,
) -> (data: Seq<DataSet>)
    requires
        tried(old, new, bases, r),
        r matches Ok(report) && report.outcomes_match,
    ensures
        data.len() == pow2(bases.len()),
        are_assignments(data, bases),
        forall|i: int|
            0 <= i < data.len() ==> probed(old, #[trigger] data[i]) == probed(new, data[i])
                && probed(old, data[i]) is Outcome,
{
    let data = choose|data: Seq<DataSet>| #[trigger]
        are_assignments(data, bases) && judged(old, new, data, bases.len(), r);
    agreement_on_each(old, new, data, data.len());
    data
}

proof fn agreement_on_each(
    old: Result<Program, ProbeFailure>,
    new: Result<Program, ProbeFailure>,
    data: Seq<DataSet>,
    n: nat,
)
    requires
        n <= data.len(),
        decided(old, new, data, n) is Agree,
    ensures
        forall|i: int|
            0 <= i < n ==> probed(old, #[trigger] data[i]) == probed(new, data[i])
                && probed(old, data[i]) is Outcome,
    decreases n,
{
    if n > 0 {
        agreement_on_each(old, new, data, (n - 1) as nat);
    }
}

} // verus!
