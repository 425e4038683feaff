//! The tools that look at the whole: `conflict_scan`, `proactive_analysis` and
//! `project_analytics`.

use crate::canonical::repository::by_id;
use crate::compatibility::lemma::analytics::{
    format_project_progress, get_all_projects_analytics, get_project_analytics, progress_of,
    progress_text, projects_in, total_techs, total_usage,
};
use crate::compatibility::lemma::conflicts::{
    conflicts_among, conflicts_text, format_conflict_results, scan_for_conflicts,
};
use crate::compatibility::lemma::intelligence::{
    ProactiveSuggestion, ProactiveSuggestionView, ProjectProgress, ProjectProgressView,
};
use crate::compatibility::lemma::proactive::{
    advice, analysis, format_suggestions, run_full_analysis, suggestions_text,
};
use crate::compatibility::lemma::tool_args::{
    ConflictScanArgs, ProactiveAnalysisArgs, ProjectAnalyticsArgs,
};
use crate::daemon::dispatcher::{Dispatcher, DispatcherView};
use crate::daemon::envelope::{ToolResult, ToolResultView};
use crate::daemon::tools::common::{format_result, formatted, ok_result, ok_view};
use crate::daemon::tools::data::{ToolData, ToolDataView};
use crate::domain::guide::{Guide, GuideView};
use crate::domain::memory::{Memory, MemoryView};
use crate::domain::state::StateView;
use crate::figures::{percent_string, percent_text};
use crate::lists::{append_each, rank, select, written};
use crate::rank::ranked;
use crate::text::{dec, decimal, opt_view, same, views};
use vstd::prelude::*;

verus! {

/// The live memories of a project and of none, or all.
pub open spec fn live_in(s: StateView, project: Option<Seq<char>>) -> Seq<MemoryView> {
    by_id(s.memories).filter(
        |m: MemoryView|
            m.lifecycle is Live && (project is None || m.project is None || m.project == project),
    )
}

fn live_of(disp: &Dispatcher, project: &Option<String>) -> (r: Vec<Memory>)
    ensures
        views(r@) == live_in(disp@.store, opt_view(*project)),
{
    let all = disp.repo.all_memories();
    let ghost pv = opt_view(*project);
    select(
        &all,
        |m: &Memory| -> (b: bool)
            ensures
                b == (m@.lifecycle is Live && (pv is None || m@.project is None || m@.project
                    == pv))
            {
                let in_scope = match (project, &m.project) {
                    (Some(p), Some(mp)) => same(mp.as_str(), p.as_str()),
                    _ => true,
                };
                m.lifecycle.is_recallable() && in_scope
            },
        Ghost(
            |m: MemoryView|
                m.lifecycle is Live && (pv is None || m.project is None || m.project == pv),
        ),
    )
}

// ---------------------------------------------------------------------------
// conflict_scan
// ---------------------------------------------------------------------------

/// What `conflict_scan` answers.
#[verifier::opaque]
pub open spec fn conflict_scan(s: StateView, args: ConflictScanArgs) -> ToolResultView {
    let conflicts = conflicts_among(live_in(s, opt_view(args.project)));
    formatted(
        conflicts_text(conflicts),
        ToolDataView::Conflicts { conflicts },
        args.response_format,
    )
}

/// `conflict_scan`: the live memories that contradict each other.
pub fn exec_conflict_scan(disp: &Dispatcher, args: &ConflictScanArgs) -> (r: ToolResult)
    ensures
        r@ == conflict_scan(disp@.store, *args),
{
    proof {
        reveal(conflict_scan);
    }
    let conflicts = scan_for_conflicts(&live_of(disp, &args.project));
    format_result(
        format_conflict_results(&conflicts),
        ToolData::Conflicts { conflicts },
        args.response_format,
    )
}

// ---------------------------------------------------------------------------
// proactive_analysis
// ---------------------------------------------------------------------------

/// Memories contradict each other.
pub open spec fn pairs_message_text(n: nat) -> Seq<char> {
    dec(n) + " conflicting memory pair(s) detected. Run conflict_scan for details."@
}

pub fn pairs_message(n: usize) -> (r: String)
    ensures
        r@ == pairs_message_text(n as nat),
{
    let mut out = decimal(n as u64);
    out.append(" conflicting memory pair(s) detected. Run conflict_scan for details.");
    out
}

/// What was looked at.
pub open spec fn analysis_head_text(ms: nat, gs: nat) -> Seq<char> {
    "=== PROACTIVE ANALYSIS ===\nAnalyzed "@ + dec(ms) + " memories and "@ + dec(gs) + " guides.\n\n"@
}

pub fn analysis_head(ms: usize, gs: usize) -> (r: String)
    ensures
        r@ == analysis_head_text(ms as nat, gs as nat),
{
    let mut out = "=== PROACTIVE ANALYSIS ===\nAnalyzed ".to_owned();
    out.append(decimal(ms as u64).as_str());
    out.append(" memories and ");
    out.append(decimal(gs as u64).as_str());
    out.append(" guides.\n\n");
    out
}

/// All that is suggested.
pub open spec fn all_advice(ms: Seq<MemoryView>, gs: Seq<GuideView>, now: u64) -> Seq<
    ProactiveSuggestionView,
> {
    let list = analysis(ms, gs, now);
    let pairs = conflicts_among(ms).len();
    if pairs > 0 {
        list.push(advice("conflict"@, "high"@, pairs_message_text(pairs)))
    } else {
        list
    }
}

/// What `proactive_analysis` answers.
#[verifier::opaque]
pub open spec fn proactive_analysis(s: StateView, args: ProactiveAnalysisArgs) -> ToolResultView {
    let ms = live_in(s, opt_view(args.project));
    let list = all_advice(ms, s.guides, s.now);
    formatted(
        if list.len() == 0 {
            "=== PROACTIVE ANALYSIS ===\nNo issues detected. Knowledge base looks healthy."@
        } else {
            analysis_head_text(ms.len(), s.guides.len()) + suggestions_text(list)
        },
        ToolDataView::Analysis {
            analyzed_memories: ms.len() as usize,
            analyzed_guides: s.guides.len() as usize,
            suggestions: list,
        },
        args.response_format,
    )
}

/// `proactive_analysis`: what could be done about the memories and the guides.
pub fn exec_proactive_analysis(disp: &Dispatcher, args: &ProactiveAnalysisArgs) -> (r: ToolResult)
    ensures
        r@ == proactive_analysis(disp@.store, *args),
{
    proof {
        reveal(proactive_analysis);
    }
    broadcast use crate::text::lemma_views_push;

    let ms = live_of(disp, &args.project);
    let guides = disp.repo.get_guides();
    let mut list = run_full_analysis(&ms, &guides, disp.repo.now_millis());
    let conflicts = scan_for_conflicts(&ms);
    proof {
        assert(views(conflicts@).len() == conflicts@.len());
        assert(views(ms@).len() == ms@.len());
        assert(views(guides@).len() == guides@.len());
    }
    if conflicts.len() > 0 {
        list.push(
            ProactiveSuggestion {
                kind: "conflict".to_owned(),
                priority: "high".to_owned(),
                message: pairs_message(conflicts.len()),
                suggested_action: None,
            },
        );
    }
    proof {
        assert(views(list@).len() == list@.len());
    }
    let text = if list.len() == 0 {
        "=== PROACTIVE ANALYSIS ===\nNo issues detected. Knowledge base looks healthy.".to_owned()
    } else {
        let mut out = analysis_head(ms.len(), guides.len());
        out.append(format_suggestions(&list).as_str());
        out
    };
    format_result(
        text,
        ToolData::Analysis {
            analyzed_memories: ms.len(),
            analyzed_guides: guides.len(),
            suggestions: list,
        },
        args.response_format,
    )
}

// ---------------------------------------------------------------------------
// project_analytics
// ---------------------------------------------------------------------------

/// A project in a line.
pub open spec fn project_line_text(name: Seq<char>, ss: nat, ms: nat, h: Seq<char>) -> Seq<char> {
    name + ": "@ + dec(ss) + " sessions, "@ + dec(ms) + " memories, health "@ + h + "%\n"@
}

pub fn project_line(name: &str, ss: usize, ms: usize, h: &str) -> (r: String)
    ensures
        r@ == project_line_text(name@, ss as nat, ms as nat, h@),
{
    let mut out = name.to_owned();
    out.append(": ");
    out.append(decimal(ss as u64).as_str());
    out.append(" sessions, ");
    out.append(decimal(ms as u64).as_str());
    out.append(" memories, health ");
    out.append(h);
    out.append("%\n");
    out
}

/// The guides, the most used first.
pub open spec fn most_used(gs: Seq<GuideView>) -> Seq<GuideView> {
    ranked(gs, |g: GuideView| (-(g.usage_count as int), 0int))
}

pub open spec fn project_item(p: ProjectProgressView) -> Seq<char> {
    project_line_text(
        p.project,
        p.total_sessions as nat,
        p.total_memories as nat,
        percent_text(p.health_score),
    )
}

/// Whether the counts of a report fit.
pub open spec fn analytics_fit(d: DispatcherView) -> bool {
    total_usage(most_used(d.store.guides)) <= u32::MAX && total_techs(d.registry.sessions)
        <= u32::MAX
}

/// What `project_analytics` answers.
#[verifier::opaque]
pub open spec fn project_analytics(d: DispatcherView, args: ProjectAnalyticsArgs) -> ToolResultView {
    let ss = d.registry.sessions;
    let ms = live_in(d.store, None);
    let gs = most_used(d.store.guides);
    let now = d.store.now;
    match args.project {
        None => {
            let all = projects_in(ss, ms).map_values(
                |p: Seq<char>| progress_of(p, ss, ms, gs, now),
            );
            if all.len() == 0 {
                ok_view(
                    "No projects found with session or memory data."@,
                    ToolDataView::Projects { projects: all },
                )
            } else {
                formatted(
                    "=== ALL PROJECTS OVERVIEW ===\n\n"@ + written(
                        all,
                        |p: ProjectProgressView| project_item(p),
                    ),
                    ToolDataView::Projects { projects: all },
                    args.response_format,
                )
            }
        },
        Some(name) => {
            let p = progress_of(name@, ss, ms, gs, now);
            formatted(progress_text(p), ToolDataView::Project(p), args.response_format)
        },
    }
}

/// `project_analytics`: one project, or all of them, in figures.
pub fn exec_project_analytics(disp: &Dispatcher, args: &ProjectAnalyticsArgs) -> (r: ToolResult)
    requires
        analytics_fit(disp@),
    ensures
        r@ == project_analytics(disp@, *args),
{
    proof {
        reveal(project_analytics);
    }
    let now: u64 = disp.repo.now_millis();
    let guides = rank(
        &disp.repo.get_guides(),
        |g: &Guide| -> (k: (i128, u128))
            ensures
                k.0 == -g@.usage_count && k.1 == 0
            { (-(g.usage_count as i128), 0) },
        Ghost(|g: GuideView| (-(g.usage_count as int), 0int)),
    );
    let sessions = disp.registry.all_sessions_owned();
    let ms = live_of(disp, &None);
    match &args.project {
        None => {
            let all = get_all_projects_analytics(&sessions, &ms, &guides, now);
            proof {
                assert(views(all@).len() == all@.len());
            }
            if all.len() == 0 {
                return ok_result(
                    "No projects found with session or memory data.".to_owned(),
                    ToolData::Projects { projects: all },
                );
            }
            let mut out = "=== ALL PROJECTS OVERVIEW ===\n\n".to_owned();
            append_each(
                &mut out,
                &all,
                |p: &ProjectProgress| -> (t: String)
                    ensures
                        t@ == project_item(p@)
                    {
                        project_line(
                            p.project.as_str(),
                            p.total_sessions,
                            p.total_memories,
                            percent_string(p.health_score).as_str(),
                        )
                    },
                Ghost(|p: ProjectProgressView| project_item(p)),
            );
            format_result(out, ToolData::Projects { projects: all }, args.response_format)
        },
        Some(name) => {
            let p = get_project_analytics(name.as_str(), &sessions, &ms, &guides, now);
            format_result(format_project_progress(&p), ToolData::Project(p), args.response_format)
        },
    }
}

} // verus!
