//! One call of a tool.

use crate::canonical::laws::guides_room;
use crate::canonical::repository::last_number;
use crate::compatibility::lemma::analytics::{total_techs, total_usage};
use crate::compatibility::lemma::tool_args::{GuideMergeArgs, MemoryReadArgs, ToolArgs};
use crate::daemon::dispatcher::{Dispatcher, DispatcherView};
use crate::daemon::envelope::{IpcEnvelope, ToolResult};
use crate::daemon::tools::add::{exec_memory_add, memory_add};
use crate::daemon::tools::analysis::{
    analytics_fit, conflict_scan, exec_conflict_scan, exec_proactive_analysis,
    exec_project_analytics, proactive_analysis, project_analytics,
};
use crate::daemon::tools::common::{answer, Hit, HitView, Outcome};
use crate::daemon::tools::edit::{
    exec_memory_feedback, exec_memory_forget, exec_memory_merge, exec_memory_relate,
    exec_memory_update, memory_feedback, memory_forget, memory_merge, memory_relate,
    memory_update,
};
use crate::daemon::tools::guides::{
    exec_guide_create, exec_guide_distill, exec_guide_forget, exec_guide_get, exec_guide_merge,
    exec_guide_practice, exec_guide_update, find_guides, guide_create, guide_distill,
    guide_forget, guide_get, guide_merge, guide_practice, guide_update, guides_named, Effect,
};
use crate::daemon::tools::library::{exec_memory_library, memory_library};
use crate::daemon::tools::read::{exec_memory_read, memory_read, read_load};
use crate::daemon::tools::search::{exec_semantic_search, semantic_search};
use crate::daemon::tools::sessions::{
    exec_session_attempt, exec_session_end, exec_session_start, exec_session_stats,
    exec_suggestion_respond, guides_in_session, response_load, session_attempt, session_end,
    session_start, session_stats, suggestion_respond,
};
use crate::daemon::tools::stats::{
    exec_memory_audit, exec_memory_stats, memory_audit, memory_stats,
};
use crate::domain::command::DomainResult;
use crate::domain::guide::{Guide, GuideView};
use crate::domain::id::{uuid_from_text, SessionHandle};
use crate::domain::session::{Session, SessionView};
use crate::lists::rank;
use crate::text::views;
use vstd::prelude::*;

verus! {

/// An answer that the store did not refuse.
pub open spec fn done(e: Effect) -> Outcome {
    (e.0, Ok(e.1))
}

/// What a call of a tool does and answers. `hits` is what the search backend
/// found for it.
#[verifier::opaque]
pub open spec fn called(d: DispatcherView, env: IpcEnvelope, tool: ToolArgs, hits: Seq<HitView>) ->
    Outcome {
    match tool {
        ToolArgs::MemoryRead(a) => memory_read(d, env, a, hits),
        ToolArgs::MemoryAdd(a) => memory_add(d, env, a),
        ToolArgs::MemoryUpdate(a) => memory_update(d, env, a),
        ToolArgs::MemoryFeedback(a) => memory_feedback(d, env, a),
        ToolArgs::MemoryForget(a) => memory_forget(d, env, a),
        ToolArgs::MemoryMerge(a) => memory_merge(d, env, a),
        ToolArgs::MemoryRelate(a) => memory_relate(d, env, a),
        ToolArgs::MemoryStats(a) => (d, Ok(memory_stats(d.store, a))),
        ToolArgs::MemoryAudit(a) => (d, Ok(memory_audit(d.store, a))),
        ToolArgs::MemoryLibrary(a) => (d, Ok(memory_library(d.store, a))),
        ToolArgs::SemanticSearch(a) => (d, Ok(semantic_search(d.store, a, hits))),
        ToolArgs::GuideGet(a) => (d, Ok(guide_get(d.store, a))),
        ToolArgs::GuidePractice(a) => done(guide_practice(d, env, a)),
        ToolArgs::GuideCreate(a) => done(guide_create(d, a)),
        ToolArgs::GuideDistill(a) => done(guide_distill(d, a)),
        ToolArgs::GuideUpdate(a) => done(guide_update(d, a)),
        ToolArgs::GuideForget(a) => done(guide_forget(d, a)),
        ToolArgs::GuideMerge(a) => done(guide_merge(d, a)),
        ToolArgs::SessionStart(a) => done(session_start(d, env, a)),
        ToolArgs::SessionAttempt(a) => done(session_attempt(d, env, a)),
        ToolArgs::SessionEnd(a) => done(session_end(d, env, a)),
        ToolArgs::SessionStats(a) => (d, Ok(session_stats(d.registry, env, a))),
        ToolArgs::SuggestionRespond(a) => done(suggestion_respond(d, a)),
        ToolArgs::ConflictScan(a) => (d, Ok(conflict_scan(d.store, a))),
        ToolArgs::ProactiveAnalysis(a) => (d, Ok(proactive_analysis(d.store, a))),
        ToolArgs::ProjectAnalytics(a) => (d, Ok(project_analytics(d, a))),
    }
}

/// Whether the counters that a call steps, and the numbers that it adds up, stay
/// within the machine's.
#[verifier::opaque]
pub open spec fn ready(d: DispatcherView, env: IpcEnvelope, tool: ToolArgs) -> bool {
    match tool {
        ToolArgs::MemoryRead(a) => d.store.room(read_load(a)),
        ToolArgs::MemoryAdd(_) => d.store.room(2),
        ToolArgs::MemoryUpdate(_) => d.store.room(1),
        ToolArgs::MemoryFeedback(_) => d.store.room(1),
        ToolArgs::MemoryForget(_) => d.store.room(1),
        ToolArgs::MemoryMerge(a) => a.ids@.len() < u32::MAX && d.store.room(
            a.ids@.len() as int + 2,
        ),
        ToolArgs::MemoryRelate(_) => d.store.room(1),
        ToolArgs::GuidePractice(_) => d.store.room(1),
        ToolArgs::GuideDistill(_) => d.store.room(1),
        ToolArgs::GuideUpdate(_) => d.store.room(1),
        ToolArgs::GuideForget(_) => d.store.room(1),
        ToolArgs::GuideMerge(a) => d.store.room(a.guides@.len() as int + 1) && total_usage(
            guides_named(d.store.guides, views(a.guides@)),
        ) <= u32::MAX,
        ToolArgs::SessionStart(_) => d.store.room(3) && d.registry.room(16),
        ToolArgs::SessionAttempt(_) => d.registry.room(2),
        ToolArgs::SessionEnd(_) => d.store.room(guides_in_session(d, env)) && last_number(
            d.store.suggestions,
        ) + guides_in_session(d, env) <= u64::MAX,
        ToolArgs::SuggestionRespond(a) => d.registry.room(response_load(d, a.id)),
        ToolArgs::ProjectAnalytics(_) => analytics_fit(d),
        _ => true,
    }
}

/// Executes a call of a tool.
pub fn execute_tool(
    disp: &mut Dispatcher,
    envelope: &IpcEnvelope,
    tool: &ToolArgs,
    hits: &Vec<Hit>,
) -> (r: DomainResult<ToolResult>)
    requires
        old(disp)@.wf(),
        ready(old(disp)@, *envelope, *tool),
    ensures
        final(disp)@.wf(),
        (final(disp)@, answer(r)) == called(old(disp)@, *envelope, *tool, views(hits@)),
{
    proof {
        reveal(called);
        reveal(ready);
    }
    match tool {
        ToolArgs::MemoryRead(a) => exec_memory_read(disp, envelope, a, hits),
        ToolArgs::MemoryAdd(a) => exec_memory_add(disp, envelope, a),
        ToolArgs::MemoryUpdate(a) => exec_memory_update(disp, envelope, a),
        ToolArgs::MemoryFeedback(a) => exec_memory_feedback(disp, envelope, a),
        ToolArgs::MemoryForget(a) => exec_memory_forget(disp, envelope, a),
        ToolArgs::MemoryMerge(a) => exec_memory_merge(disp, envelope, a),
        ToolArgs::MemoryRelate(a) => exec_memory_relate(disp, envelope, a),
        ToolArgs::MemoryStats(a) => Ok(exec_memory_stats(disp, a)),
        ToolArgs::MemoryAudit(a) => Ok(exec_memory_audit(disp, a)),
        ToolArgs::MemoryLibrary(a) => Ok(exec_memory_library(disp, a)),
        ToolArgs::SemanticSearch(a) => Ok(exec_semantic_search(disp, a, hits)),
        ToolArgs::GuideGet(a) => Ok(exec_guide_get(disp, a)),
        ToolArgs::GuidePractice(a) => Ok(exec_guide_practice(disp, envelope, a)),
        ToolArgs::GuideCreate(a) => Ok(exec_guide_create(disp, a)),
        ToolArgs::GuideDistill(a) => Ok(exec_guide_distill(disp, a)),
        ToolArgs::GuideUpdate(a) => Ok(exec_guide_update(disp, a)),
        ToolArgs::GuideForget(a) => Ok(exec_guide_forget(disp, a)),
        ToolArgs::GuideMerge(a) => Ok(exec_guide_merge(disp, a)),
        ToolArgs::SessionStart(a) => Ok(exec_session_start(disp, envelope, a)),
        ToolArgs::SessionAttempt(a) => Ok(exec_session_attempt(disp, envelope, a)),
        ToolArgs::SessionEnd(a) => {
            proof {
                let n = guides_in_session(disp@, *envelope);
                assert forall|i: int| 0 <= i < disp@.store.guides.len() implies (
                #[trigger] disp@.store.guides[i]).room(n) by {}
                assert(guides_room(disp@.store.guides, n));
            }
            Ok(exec_session_end(disp, envelope, a))
        },
        ToolArgs::SessionStats(a) => Ok(exec_session_stats(disp, envelope, a)),
        ToolArgs::SuggestionRespond(a) => Ok(exec_suggestion_respond(disp, a)),
        ToolArgs::ConflictScan(a) => Ok(exec_conflict_scan(disp, a)),
        ToolArgs::ProactiveAnalysis(a) => Ok(exec_proactive_analysis(disp, a)),
        ToolArgs::ProjectAnalytics(a) => Ok(exec_project_analytics(disp, a)),
    }
}

// ---------------------------------------------------------------------------
// Whether a call can be made
// ---------------------------------------------------------------------------

/// No machine's store can be stepped more than `u64::MAX` times.
proof fn lemma_no_room(d: DispatcherView, n: int)
    requires
        n > u64::MAX,
    ensures
        !d.store.room(n),
{
}

fn store_has_room(disp: &Dispatcher, count: usize, more: u64) -> (r: bool)
    requires
        more <= 1000,
    ensures
        r == disp@.store.room(count + more),
{
    if count as u64 > u64::MAX - more {
        proof {
            lemma_no_room(disp@, count + more);
        }
        return false;
    }
    disp.repo.has_room(count as u64 + more)
}

fn can_read(disp: &Dispatcher, a: &MemoryReadArgs) -> (r: bool)
    ensures
        r == disp@.store.room(read_load(*a)),
{
    let names: usize = match &a.ids {
        Some(v) => v.len(),
        None => 0,
    };
    store_has_room(disp, names, 100)
}

proof fn lemma_usage_grows(gs: Seq<GuideView>, n: int)
    requires
        0 <= n <= gs.len(),
    ensures
        0 <= total_usage(gs.take(n)) <= total_usage(gs),
    decreases gs.len(),
{
    if n == gs.len() {
        assert(gs.take(n) =~= gs);
        if gs.len() > 0 {
            lemma_usage_grows(gs.drop_last(), n - 1);
        }
    } else {
        lemma_usage_grows(gs.drop_last(), n);
        assert(gs.drop_last().take(n) =~= gs.take(n));
    }
}

fn usage_fits(guides: &Vec<Guide>) -> (r: bool)
    ensures
        r == (total_usage(views(guides@)) <= u32::MAX),
{
    let ghost gs = views(guides@);
    let mut n: u64 = 0;
    let mut i: usize = 0;
    proof {
        assert(gs.take(0) =~= Seq::empty());
    }
    while i < guides.len()
        invariant
            i <= guides@.len(),
            gs == views(guides@),
            n == total_usage(gs.take(i as int)),
            n <= u32::MAX,
        decreases guides@.len() - i,
    {
        proof {
            let t = gs.take(i + 1);
            assert(t.drop_last() =~= gs.take(i as int));
            assert(t.last() == guides@[i as int]@);
            lemma_usage_grows(gs, i + 1);
        }
        n = n + guides[i].usage_count as u64;
        if n > u32::MAX as u64 {
            return false;
        }
        i += 1;
    }
    proof {
        assert(gs.take(gs.len() as int) =~= gs);
    }
    true
}

proof fn lemma_techs_grow(ss: Seq<SessionView>, n: int)
    requires
        0 <= n <= ss.len(),
    ensures
        0 <= total_techs(ss.take(n)) <= total_techs(ss),
    decreases ss.len(),
{
    if n == ss.len() {
        assert(ss.take(n) =~= ss);
        if ss.len() > 0 {
            lemma_techs_grow(ss.drop_last(), n - 1);
        }
    } else {
        lemma_techs_grow(ss.drop_last(), n);
        assert(ss.drop_last().take(n) =~= ss.take(n));
    }
}

fn techs_fit(sessions: &Vec<Session>) -> (r: bool)
    ensures
        r == (total_techs(views(sessions@)) <= u32::MAX),
{
    let ghost ss = views(sessions@);
    let mut n: u128 = 0;
    let mut i: usize = 0;
    proof {
        assert(ss.take(0) =~= Seq::empty());
    }
    while i < sessions.len()
        invariant
            i <= sessions@.len(),
            ss == views(sessions@),
            n == total_techs(ss.take(i as int)),
            n <= u32::MAX,
        decreases sessions@.len() - i,
    {
        proof {
            let t = ss.take(i + 1);
            assert(t.drop_last() =~= ss.take(i as int));
            assert(t.last() == sessions@[i as int]@);
            assert(views(sessions@[i as int].technologies@).len()
                == sessions@[i as int].technologies@.len());
            lemma_techs_grow(ss, i + 1);
        }
        n = n + sessions[i].technologies.len() as u128;
        if n > u32::MAX as u128 {
            return false;
        }
        i += 1;
    }
    proof {
        assert(ss.take(ss.len() as int) =~= ss);
    }
    true
}

fn can_merge_guides(disp: &Dispatcher, a: &GuideMergeArgs) -> (r: bool)
    ensures
        r == (disp@.store.room(a.guides@.len() as int + 1) && total_usage(
            guides_named(disp@.store.guides, views(a.guides@)),
        ) <= u32::MAX),
{
    store_has_room(disp, a.guides.len(), 1) && usage_fits(&find_guides(&disp.repo, &a.guides).0)
}

fn can_end(disp: &Dispatcher, envelope: &IpcEnvelope) -> (r: bool)
    requires
        disp@.wf(),
    ensures
        r == (disp@.store.room(guides_in_session(disp@, *envelope)) && last_number(
            disp@.store.suggestions,
        ) + guides_in_session(disp@, *envelope) <= u64::MAX),
{
    let n: usize = match disp.registry.resolve_session(envelope.frontend_id, envelope.channel_id) {
        Some(h) => match disp.registry.session(h) {
            Some(s) => {
                proof {
                    assert(views(s.guides_used@).len() == s.guides_used@.len());
                }
                s.guides_used.len()
            },
            None => 0,
        },
        None => 0,
    };
    store_has_room(disp, n, 0) && disp.repo.last_suggestion_id() <= u64::MAX - n as u64
}

fn can_respond(disp: &Dispatcher, id: u64) -> (r: bool)
    requires
        disp@.wf(),
    ensures
        r == disp@.registry.room(response_load(disp@, id)),
{
    let s = match disp.repo.get_suggestion(id) {
        Some(s) => s,
        None => return disp.registry.has_room(0),
    };
    let h = match &s.session_id {
        Some(t) => match uuid_from_text(t.as_str()) {
            Ok(u) => SessionHandle::new(u),
            Err(_) => return disp.registry.has_room(0),
        },
        None => return disp.registry.has_room(0),
    };
    match disp.registry.session(h) {
        Some(x) => {
            let n: usize = x.attempts.len();
            proof {
                assert(views(x.attempts@).len() == n);
            }
            if n as u64 > u32::MAX as u64 {
                proof {
                    let ss = disp@.registry.sessions;
                    let i = choose|i: int| 0 <= i < ss.len() && (#[trigger] ss[i]).handle == h;
                    assert(ss[i].attempts.len() + n > u32::MAX);
                }
                return false;
            }
            disp.registry.has_room(n as u32)
        },
        None => disp.registry.has_room(0),
    }
}

fn can_analyse(disp: &Dispatcher) -> (r: bool)
    ensures
        r == analytics_fit(disp@),
{
    let guides = rank(
        &disp.repo.get_guides(),
        |g: &Guide| -> (k: (i128, u128))
            ensures
                k.0 == -g@.usage_count && k.1 == 0
            { (-(g.usage_count as i128), 0) },
        Ghost(|g: GuideView| (-(g.usage_count as int), 0int)),
    );
    usage_fits(&guides) && techs_fit(&disp.registry.all_sessions_owned())
}

/// Whether a call can be made without a counter running over.
pub fn is_ready(disp: &Dispatcher, envelope: &IpcEnvelope, tool: &ToolArgs) -> (r: bool)
    requires
        disp@.wf(),
    ensures
        r == ready(disp@, *envelope, *tool),
{
    proof {
        reveal(ready);
    }
    match tool {
        ToolArgs::MemoryRead(a) => can_read(disp, a),
        ToolArgs::MemoryAdd(_) => disp.repo.has_room(2),
        ToolArgs::MemoryUpdate(_) => disp.repo.has_room(1),
        ToolArgs::MemoryFeedback(_) => disp.repo.has_room(1),
        ToolArgs::MemoryForget(_) => disp.repo.has_room(1),
        ToolArgs::MemoryMerge(a) => (a.ids.len() as u64) < u32::MAX as u64 && store_has_room(
            disp,
            a.ids.len(),
            2,
        ),
        ToolArgs::MemoryRelate(_) => disp.repo.has_room(1),
        ToolArgs::GuidePractice(_) => disp.repo.has_room(1),
        ToolArgs::GuideDistill(_) => disp.repo.has_room(1),
        ToolArgs::GuideUpdate(_) => disp.repo.has_room(1),
        ToolArgs::GuideForget(_) => disp.repo.has_room(1),
        ToolArgs::GuideMerge(a) => can_merge_guides(disp, a),
        ToolArgs::SessionStart(_) => disp.repo.has_room(3) && disp.registry.has_room(16),
        ToolArgs::SessionAttempt(_) => disp.registry.has_room(2),
        ToolArgs::SessionEnd(_) => can_end(disp, envelope),
        ToolArgs::SuggestionRespond(a) => can_respond(disp, a.id),
        ToolArgs::ProjectAnalytics(_) => can_analyse(disp),
        _ => true,
    }
}

} // verus!
