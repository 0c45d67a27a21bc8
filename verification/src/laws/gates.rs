//! Laws of rewriting a module: what stands between a plan and the text.
use crate::exactly_one::RewritePlan;
use crate::equivalence::GateReport;
use crate::module_text::{formula_site, replaced};
use crate::lines::raw_lines;
use crate::rewriting::{rewritten, whole_from};
use vstd::prelude::*;

verus! {

/// A module is rewritten exactly where the trial of its plan was made, the outcomes matched and the
/// rewritten module is clean, and the plan is for a whole formula that stands in the text; the
/// replacement then stands at that formula's place.
pub proof fn a_module_is_rewritten_where_its_trial_passes(
    source: Seq<char>,
    shown: Seq<char>,
    plan: RewritePlan,
    trial: Result<GateReport, String>,
)
    ensures
        ({
            let site = match plan.version {
                Some(version) => formula_site(raw_lines(source), plan.rule@, version as nat),
                None => None,
            };
            let passes = trial matches Ok(report) && report.outcomes_match && report.rescan_clean;
            &&& rewritten(source, shown, plan, trial) is Ok <==> passes && site is Some
            &&& rewritten(source, shown, plan, trial) matches Ok(text) ==> text == replaced(
                source,
                site->Some_0,
                plan.replacement@,
            )
        }),
{
}

/// The next plan to try is the first, from a place on, that is for a whole formula.
pub proof fn the_next_plan_is_the_first_for_a_whole_formula(plans: Seq<RewritePlan>, from: nat)
    ensures
        match whole_from(plans, from) {
            Some(k) => from <= k < plans.len() && plans[k as int].version is Some && forall|j: int|
                from <= j < k ==> (#[trigger] plans[j]).version is None,
            None => forall|j: int|
                from <= j < plans.len() ==> (#[trigger] plans[j]).version is None,
        },
    decreases plans.len() - from,
{
    if from < plans.len() && plans[from as int].version is None {
        the_next_plan_is_the_first_for_a_whole_formula(plans, from + 1);
    }
}

} // verus!
