//! A rewrite of a module's text, step by step: the formula that a plan replaces, and the text
//! with the new one once the trial of both has passed.
use crate::equivalence::GateReport;
use crate::exactly_one::RewritePlan;
use crate::lines::raw_lines;
use crate::module_text::{
    extract_version_formula, first_formula_site, formula_at, formula_site, is_cut_cleanly,
    replace_version_formula, replaced, SiteView,
};
use crate::text::{int_text, owned, text_outcome, usize_text};
use vstd::prelude::*;
use vstd::string::*;

verus! {

/// Where the formula of a plan is read: that of its version, where the plan is for the whole of
/// one.
pub open spec fn read_site(source: Seq<char>, plan: RewritePlan) -> Option<SiteView> {
    match plan.version {
        Some(version) => first_formula_site(raw_lines(source), plan.rule@, version as nat),
        None => None,
    }
}

/// Where the formula of a plan is replaced: where it is read, unless the rule is named twice.
pub open spec fn plan_site(source: Seq<char>, plan: RewritePlan) -> Option<SiteView> {
    match plan.version {
        Some(version) => formula_site(raw_lines(source), plan.rule@, version as nat),
        None => None,
    }
}

/// The first of plans from `from` on that is for the whole formula of a version.
pub open spec fn whole_from(plans: Seq<RewritePlan>, from: nat) -> Option<nat>
    decreases plans.len() - from,
{
    if from >= plans.len() {
        None
    } else if plans[from as int].version is Some {
        Some(from)
    } else {
        whole_from(plans, from + 1)
    }
}

/// The plan to apply next: the first that is for the whole formula of a version. The others
/// are for parts of formulas, which stay for hands.
pub fn next_plan(plans: &Vec<RewritePlan>) -> (r: Option<usize>)
    ensures
        whole_from(plans@, 0) == match r {
            Some(i) => Some(i as nat),
            None => None,
        },
        r matches Some(i) ==> i < plans@.len() && plans@[i as int].version is Some,
{
    let mut i: usize = 0;
    while i < plans.len()
        invariant
            i <= plans@.len(),
            whole_from(plans@, 0) == whole_from(plans@, i as nat),
        decreases plans@.len() - i,
    {
        if plans[i].version.is_some() {
            return Some(i);
        }
        i = i + 1;
    }
    None
}

/// What comes of looking for the formula of a plan.
pub open spec fn located(source: Seq<char>, shown: Seq<char>, plan: RewritePlan) -> Result<
    Seq<char>,
    Seq<char>,
> {
    match read_site(source, plan) {
        Some(site) => Ok(formula_at(raw_lines(source), site)),
        None => Err(shown + ": cannot locate formula for `"@ + plan.rule@ + "`"@),
    }
}

/// The formula that a plan replaces in a module's text. Its lines can be cut at their indent.
pub fn formula_to_replace(source: &str, shown: &str, plan: &RewritePlan) -> (r: Result<
    String,
    String,
>)
    requires
        read_site(source@, *plan) matches Some(site) ==> is_cut_cleanly(raw_lines(source@), site),
    ensures
        text_outcome(r) == located(source@, shown@, *plan),
{
    let found = match plan.version {
        Some(version) => extract_version_formula(source, plan.rule.as_str(), version),
        None => None,
    };
    match found {
        Some(formula) => Ok(formula),
        None => {
            let mut message = owned(shown);
            message.append(": cannot locate formula for `");
            message.append(plan.rule.as_str());
            message.append("`");
            Err(message)
        },
    }
}

pub open spec fn flag_text(flag: bool) -> Seq<char> {
    if flag {
        "true"@
    } else {
        "false"@
    }
}

/// The message of a rewrite that does not pass.
pub open spec fn refused_text(shown: Seq<char>, rule: Seq<char>, report: GateReport) -> Seq<char> {
    shown + ": gate REFUSED `"@ + rule + "` ("@ + int_text(report.assignments as int)
        + " assignments, outcomes_match="@ + flag_text(report.outcomes_match) + ", rescan_clean="@
        + flag_text(report.rescan_clean) + ")"@
}

/// What comes of a plan once its trial is done: the text with the new formula where the
/// formulas agree and the pattern is gone.
pub open spec fn rewritten(
    source: Seq<char>,
    shown: Seq<char>,
    plan: RewritePlan,
    trial: Result<GateReport, String>,
) -> Result<Seq<char>, Seq<char>> {
    match trial {
        Err(error) => Err(shown + ": gate failed for `"@ + plan.rule@ + "`: "@ + error@),
        Ok(report) => if !(report.outcomes_match && report.rescan_clean) {
            Err(refused_text(shown, plan.rule@, report))
        } else {
            match plan_site(source, plan) {
                Some(site) => Ok(replaced(source, site, plan.replacement@)),
                None => Err(shown + ": text surgery failed for `"@ + plan.rule@ + "`"@),
            }
        },
    }
}

fn flag(value: bool) -> (r: &'static str)
    ensures
        r@ == flag_text(value),
{
    if value {
        "true"
    } else {
        "false"
    }
}

/// The text of a module with the formula of a plan, once both formulas were tried.
pub fn apply_plan(
    source: &str,
    shown: &str,
    plan: &RewritePlan,
    trial: &Result<GateReport, String>,
) -> (r: Result<String, String>)
    ensures
        text_outcome(r) == rewritten(source@, shown@, *plan, *trial),
{
    match trial {
        Err(error) => {
            let mut message = owned(shown);
            message.append(": gate failed for `");
            message.append(plan.rule.as_str());
            message.append("`: ");
            message.append(error.as_str());
            Err(message)
        },
        Ok(report) => {
            if !(report.outcomes_match && report.rescan_clean) {
                let mut message = owned(shown);
                message.append(": gate REFUSED `");
                message.append(plan.rule.as_str());
                message.append("` (");
                message.append(usize_text(report.assignments).as_str());
                message.append(" assignments, outcomes_match=");
                message.append(flag(report.outcomes_match));
                message.append(", rescan_clean=");
                message.append(flag(report.rescan_clean));
                message.append(")");
                return Err(message);
            }
            let text = match plan.version {
                Some(version) => replace_version_formula(
                    source,
                    plan.rule.as_str(),
                    version,
                    plan.replacement.as_str(),
                ),
                None => None,
            };
            match text {
                Some(text) => Ok(text),
                None => {
                    let mut message = owned(shown);
                    message.append(": text surgery failed for `");
                    message.append(plan.rule.as_str());
                    message.append("`");
                    Err(message)
                },
            }
        },
    }
}

} // verus!
