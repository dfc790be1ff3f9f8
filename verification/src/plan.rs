//! Plan extraction: finding the plan an agent presented, so approval can
//! promote it into a child task.
//!
//! The search walks an attempt's processes newest first, considers those
//! whose executor type is the plan dialect and whose stdout is not blank,
//! normalizes their stdout, and takes the most recent plan-presentation
//! entry.

use vstd::prelude::*;

verus! {

use crate::Id;
use crate::model::{opt_view, text_of, ExecutionProcessView};
use crate::normalize::{
    NormalizedEntry, NormalizedEntryView, NormalizedEntryTypeView, ActionTypeView,
    agent_stdout_entries, agent_entries_exec, NormalizedEntryType, ActionType,
};
use crate::store::Store;
use crate::text::spec_blank;

/// The plan of the most recent plan-presentation entry, if any.
pub open spec fn plan_of_entries(entries: Seq<NormalizedEntryView>) -> Option<Seq<char>>
    decreases entries.len(),
{
    if entries.len() == 0 {
        Option::None
    } else {
        match entries.last().entry_type {
            NormalizedEntryTypeView::ToolUse { action_type } => match action_type {
                ActionTypeView::PlanPresentation { plan } => Option::Some(plan),
                _ => plan_of_entries(entries.drop_last()),
            },
            _ => plan_of_entries(entries.drop_last()),
        }
    }
}

/// The plan a single process presented, if it is a plan-dialect process with
/// non-blank stdout whose normalization holds a plan-presentation entry.
pub open spec fn plan_of_process(p: ExecutionProcessView) -> Option<Seq<char>> {
    if p.executor_type == Option::Some("plan-agent"@) && !spec_blank(text_of(p.stdout)) {
        plan_of_entries(agent_stdout_entries(text_of(p.stdout), p.working_directory))
    } else {
        Option::None
    }
}

/// The plan of an attempt: the newest plan-dialect process of the attempt
/// that presented one wins.
pub open spec fn spec_find_plan(ps: Seq<ExecutionProcessView>, attempt_id: Id) -> Option<Seq<char>>
    decreases ps.len(),
{
    if ps.len() == 0 {
        Option::None
    } else {
        let last = ps.last();
        if last.task_attempt_id == attempt_id && plan_of_process(last) is Some {
            plan_of_process(last)
        } else {
            spec_find_plan(ps.drop_last(), attempt_id)
        }
    }
}

/// The most recent plan-presentation entry of a normalized run.
fn last_plan_of_entries(entries: &Vec<NormalizedEntry>) -> (r: Option<String>)
    ensures
        opt_view(r) == plan_of_entries(entries@.map_values(|e: NormalizedEntry| e@)),
{
    let ghost ev = entries@.map_values(|e: NormalizedEntry| e@);
    let n: usize = entries.len();
    let mut i: usize = n;
    proof {
        assert(ev.take(n as int) =~= ev);
    }
    while i > 0
        invariant
            n == entries.len(),
            ev == entries@.map_values(|e: NormalizedEntry| e@),
            0 <= i <= n,
            plan_of_entries(ev) == plan_of_entries(ev.take(i as int)),
        decreases i,
    {
        proof {
            assert(ev.take(i as int).drop_last() =~= ev.take(i - 1));
            assert(ev.take(i as int).last() == ev[i - 1]);
        }
        match &entries[i - 1].entry_type {
            NormalizedEntryType::ToolUse { action_type } => match action_type {
                ActionType::PlanPresentation { plan } => {
                    return Option::Some(plan.clone());
                },
                _ => {},
            },
            _ => {},
        }
        i = i - 1;
    }
    proof {
        assert(ev.take(0) =~= Seq::<NormalizedEntryView>::empty());
    }
    Option::None
}

/// Find the plan content of an attempt, scanning its processes newest first.
pub fn find_plan_content(store: &Store, attempt_id: Id) -> (r: Option<String>)
    ensures
        opt_view(r) == spec_find_plan(store.processes_v(), attempt_id),
{
    let ghost pv = store.processes_v();
    let n: usize = store.processes.len();
    let mut i: usize = n;
    proof {
        assert(pv.take(n as int) =~= pv);
    }
    while i > 0
        invariant
            n == store.processes.len(),
            pv == store.processes_v(),
            0 <= i <= n,
            spec_find_plan(pv, attempt_id) == spec_find_plan(pv.take(i as int), attempt_id),
        decreases i,
    {
        proof {
            assert(pv.take(i as int).drop_last() =~= pv.take(i - 1));
            assert(pv.take(i as int).last() == pv[i - 1]);
        }
        let p = &store.processes[i - 1];
        let is_plan_dialect = match &p.executor_type {
            Option::Some(s) => crate::text::str_eq(s.as_str(), "plan-agent"),
            Option::None => false,
        };
        let has_stdout = match &p.stdout {
            Option::Some(s) => !crate::text::is_blank(s.as_str()),
            Option::None => false,
        };
        if p.task_attempt_id == attempt_id && is_plan_dialect && has_stdout {
            let stdout_str = match &p.stdout {
                Option::Some(s) => s.as_str(),
                Option::None => "",
            };
            let entries = agent_entries_exec(stdout_str, p.working_directory.as_str());
            match last_plan_of_entries(&entries) {
                Option::Some(plan) => {
                    return Option::Some(plan);
                },
                Option::None => {},
            }
        }
        i = i - 1;
    }
    proof {
        assert(pv.take(0) =~= Seq::<ExecutionProcessView>::empty());
    }
    Option::None
}

} // verus!
