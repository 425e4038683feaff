//! What one channel can do to another: nothing.

use crate::canonical::repository::{found, legacy_name, suggestion_place};
use crate::compatibility::lemma::tool_args::{
    GuidePracticeArgs, MemoryAddArgs, MemoryMergeArgs, MemoryReadArgs, SessionAttemptArgs,
    SessionEndArgs, SessionStartArgs, SuggestionRespondArgs, ToolArgs,
};
use crate::daemon::dispatcher::{attempt_sent, handled, DispatcherView};
use crate::daemon::envelope::{DomainRequest, IpcEnvelope};
use crate::daemon::laws::{law_sessions_are_isolated, lemma_put_channel, lemma_put_session};
use crate::daemon::registry::{
    abandoned, changed_attempt, channel_of, has_channel, is_channel, refined, touched,
    ChannelBinding, RegistryView,
};
use crate::daemon::tools::add::{added_memory, linked, memory_add, noted};
use crate::daemon::tools::common::{issued, HitView};
use crate::daemon::tools::continuity::{
    boosted, dead_ends, recalled_dead_ends, DeadEndView, RECALL_STEP,
};
use crate::daemon::tools::edit::{
    memory_feedback, memory_forget, memory_merge, memory_relate, memory_update, merged_memory,
    superseding,
};
use crate::daemon::tools::execute::called;
use crate::daemon::tools::guides::{
    blank, guide_create, guide_distill, guide_forget, guide_merge, guide_practice, guide_update,
    practised_guide,
};
use crate::daemon::tools::read::{ids_of, memory_read, named};
use crate::daemon::tools::sessions::{
    attempt_made, decayed, is_critique, names_of, penalized, preloaded, read_noted,
    session_attempt, session_end, session_named, session_start, started, suggestion_respond,
    task_text, weighed, DECAY_STEP, RESPONSE_STEP,
};
use crate::domain::command::DomainCommandView;
use crate::domain::id::{ChannelId, EntityId, FrontendId, SessionHandle};
use crate::domain::interpreter::lemma_session_at;
use crate::domain::memory::MemoryView;
use crate::domain::session::{AttemptOutcome, AttemptView, SessionView, TaskOutcome};
use crate::domain::state::{ended, fresh_session, has_session, session_of};
use crate::text::{lowercase, opt_view, views, with_text, with_texts};
use crate::domain::score::Score;
use vstd::prelude::*;

verus! {

/// The sessions that are a channel's own: the one that it is bound to, and the
/// next to be started.
pub open spec fn own_sessions(r: RegistryView, f: FrontendId, c: ChannelId) -> Set<SessionHandle> {
    let next = Set::empty().insert(SessionHandle(r.handle_gen as u128));
    match r.bound(f, c) {
        Some(h) => next.insert(h),
        None => next,
    }
}

/// Whether a channel is bound as it was.
pub open spec fn same_binding(
    before: RegistryView,
    after: RegistryView,
    f: FrontendId,
    c: ChannelId,
) -> bool {
    &&& has_channel(after.channels, f, c) == has_channel(before.channels, f, c)
    &&& has_channel(before.channels, f, c) ==> channel_of(after.channels, f, c) == channel_of(
        before.channels,
        f,
        c,
    )
}

/// Whether a session is there or not as it was, and in the same status.
pub open spec fn same_status(before: RegistryView, after: RegistryView, h: SessionHandle) -> bool {
    &&& has_session(after.sessions, h) == has_session(before.sessions, h)
    &&& has_session(before.sessions, h) ==> session_of(after.sessions, h).status == session_of(
        before.sessions,
        h,
    ).status
}

/// Whether every other channel is bound as it was, and every session but those
/// in `own` is as it was.
pub open spec fn left_alone(
    before: RegistryView,
    after: RegistryView,
    f: FrontendId,
    c: ChannelId,
    own: Set<SessionHandle>,
) -> bool {
    &&& after.wf()
    &&& forall|f2: FrontendId, c2: ChannelId|
        f2 != f || c2 != c ==> #[trigger] same_binding(before, after, f2, c2)
    &&& forall|h: SessionHandle| !own.contains(h) ==> #[trigger] same_status(before, after, h)
}

proof fn lemma_left_alone_trans(
    a: RegistryView,
    b: RegistryView,
    z: RegistryView,
    f: FrontendId,
    c: ChannelId,
    own: Set<SessionHandle>,
)
    requires
        left_alone(a, b, f, c, own),
        left_alone(b, z, f, c, own),
    ensures
        left_alone(a, z, f, c, own),
{
    assert forall|f2: FrontendId, c2: ChannelId|
        f2 != f || c2 != c implies #[trigger] same_binding(a, z, f2, c2) by {
        assert(same_binding(a, b, f2, c2));
        assert(same_binding(b, z, f2, c2));
    }
    assert forall|h: SessionHandle| !own.contains(h) implies #[trigger] same_status(a, z, h) by {
        assert(same_status(a, b, h));
        assert(same_status(b, z, h));
    }
}

pub proof fn lemma_change_leaves_alone(
    r: RegistryView,
    h: SessionHandle,
    change: spec_fn(SessionView) -> SessionView,
    f: FrontendId,
    c: ChannelId,
    own: Set<SessionHandle>,
)
    requires
        r.wf(),
        forall|s: SessionView| (#[trigger] change(s)).handle == s.handle,
        own.contains(h) || forall|s: SessionView| (#[trigger] change(s)).status == s.status,
    ensures
        left_alone(r, r.with_change(h, change), f, c, own),
{
    let after = r.with_change(h, change);
    assert forall|i: int, j: int| 0 <= i < j < after.sessions.len() implies (
    #[trigger] after.sessions[i]).handle != (#[trigger] after.sessions[j]).handle by {
        assert(r.sessions[i].handle != r.sessions[j].handle);
        assert(change(r.sessions[i]).handle == r.sessions[i].handle);
        assert(change(r.sessions[j]).handle == r.sessions[j].handle);
    }
    assert forall|x: SessionHandle| !own.contains(x) implies #[trigger] same_status(r, after, x) by {
        if x != h {
            law_sessions_are_isolated(r, h, change, x);
        } else {
            if has_session(r.sessions, x) {
                let i = choose|i: int| 0 <= i < r.sessions.len() && (
                #[trigger] r.sessions[i]).handle == x;
                assert(change(r.sessions[i]).handle == x);
                assert(change(r.sessions[i]).status == r.sessions[i].status);
                assert(after.sessions[i] == change(r.sessions[i]));
                lemma_session_at(r.sessions, i, change);
                lemma_session_at(after.sessions, i, change);
            }
            if has_session(after.sessions, x) {
                let i = choose|i: int| 0 <= i < after.sessions.len() && (
                #[trigger] after.sessions[i]).handle == x;
                assert(change(r.sessions[i]).handle == r.sessions[i].handle);
            }
        }
    }
}

pub proof fn lemma_decay_leaves_alone(
    r: RegistryView,
    delta: Score,
    f: FrontendId,
    c: ChannelId,
    own: Set<SessionHandle>,
)
    requires
        r.wf(),
    ensures
        left_alone(r, decayed(r, delta), f, c, own),
        decayed(r, delta).bound(f, c) == r.bound(f, c),
{
    let after = decayed(r, delta);
    assert forall|i: int, j: int| 0 <= i < j < after.sessions.len() implies (
    #[trigger] after.sessions[i]).handle != (#[trigger] after.sessions[j]).handle by {
        assert(r.sessions[i].handle != r.sessions[j].handle);
    }
    assert forall|x: SessionHandle| #[trigger] same_status(r, after, x) by {
        let same = |s: SessionView| s;
        if has_session(r.sessions, x) {
            let i = choose|i: int| 0 <= i < r.sessions.len() && (#[trigger] r.sessions[i]).handle
                == x;
            assert(after.sessions[i].handle == x);
            lemma_session_at(r.sessions, i, same);
            lemma_session_at(after.sessions, i, same);
        }
        if has_session(after.sessions, x) {
            let i = choose|i: int| 0 <= i < after.sessions.len() && (
            #[trigger] after.sessions[i]).handle == x;
            assert(r.sessions[i].handle == x);
        }
    }
    if has_channel(r.channels, f, c) && channel_of(r.channels, f, c).session is Some {
        let h = channel_of(r.channels, f, c).session->0;
        assert(same_status(r, after, h));
    }
}

proof fn lemma_boost_leaves_alone(
    r: RegistryView,
    h: SessionHandle,
    seq: u32,
    delta: Score,
    now: u64,
    f: FrontendId,
    c: ChannelId,
    own: Set<SessionHandle>,
)
    requires
        r.wf(),
    ensures
        left_alone(r, boosted(r, h, seq, delta, now), f, c, own),
        left_alone(r, penalized(r, h, seq, delta, now), f, c, own),
{
    let up = |s: SessionView|
        changed_attempt(
            s,
            seq,
            |a: AttemptView| touched(a, a.confidence.up(delta), now),
        );
    let down = |s: SessionView|
        changed_attempt(
            s,
            seq,
            |a: AttemptView| touched(a, a.confidence.down(delta), now),
        );
    lemma_change_leaves_alone(r, h, up, f, c, own);
    lemma_change_leaves_alone(r, h, down, f, c, own);
}

pub proof fn lemma_recall_leaves_alone(
    r: RegistryView,
    ds: Seq<DeadEndView>,
    n: int,
    now: u64,
    f: FrontendId,
    c: ChannelId,
    own: Set<SessionHandle>,
)
    requires
        r.wf(),
    ensures
        left_alone(r, recalled_dead_ends(r, ds, n, now), f, c, own),
    decreases n,
{
    if n > 0 {
        lemma_recall_leaves_alone(r, ds, n - 1, now, f, c, own);
        let rest = recalled_dead_ends(r, ds, n - 1, now);
        lemma_boost_leaves_alone(
            rest,
            ds[n - 1].handle,
            ds[n - 1].seq,
            Score(RECALL_STEP),
            now,
            f,
            c,
            own,
        );
        lemma_left_alone_trans(r, rest, recalled_dead_ends(r, ds, n, now), f, c, own);
    }
}

proof fn lemma_weigh_leaves_alone(
    r: RegistryView,
    h: SessionHandle,
    attempts: Seq<AttemptView>,
    accept: bool,
    now: u64,
    n: int,
    f: FrontendId,
    c: ChannelId,
    own: Set<SessionHandle>,
)
    requires
        r.wf(),
    ensures
        left_alone(r, weighed(r, h, attempts, accept, now, n), f, c, own),
    decreases n,
{
    if n > 0 {
        lemma_weigh_leaves_alone(r, h, attempts, accept, now, n - 1, f, c, own);
        let rest = weighed(r, h, attempts, accept, now, n - 1);
        lemma_boost_leaves_alone(
            rest,
            h,
            attempts[n - 1].seq,
            Score(RESPONSE_STEP),
            now,
            f,
            c,
            own,
        );
        lemma_left_alone_trans(r, rest, weighed(r, h, attempts, accept, now, n), f, c, own);
    }
}

pub proof fn lemma_new_session_leaves_alone(
    r: RegistryView,
    f: FrontendId,
    c: ChannelId,
    project: Option<Seq<char>>,
    task_type: Option<Seq<char>>,
    technologies: Seq<Seq<char>>,
    now: u64,
    own: Set<SessionHandle>,
)
    requires
        r.wf(),
        own.contains(SessionHandle(r.handle_gen as u128)),
    ensures
        left_alone(
            r,
            r.with_new_session(f, c, project, task_type, technologies, now),
            f,
            c,
            own,
        ),
{
    let h = SessionHandle(r.handle_gen as u128);
    let b = ChannelBinding {
        frontend_id: f,
        channel_id: c,
        session: Some(h),
        lease: None,
        explicit: false,
    };
    lemma_put_session(r.sessions, fresh_session(h, c, project, task_type, technologies, now));
    lemma_put_channel(r.channels, b);
    let after = r.with_new_session(f, c, project, task_type, technologies, now);
    assert forall|f2: FrontendId, c2: ChannelId|
        f2 != f || c2 != c implies #[trigger] same_binding(r, after, f2, c2) by {
        assert(!is_channel(b, f2, c2));
        assert(has_channel(after.channels, f2, c2) == has_channel(r.channels, f2, c2));
    }
    assert forall|x: SessionHandle| !own.contains(x) implies #[trigger] same_status(r, after, x) by {
        assert(has_session(after.sessions, x) == has_session(r.sessions, x));
    }
}

pub proof fn lemma_active_change_leaves_alone(
    r: RegistryView,
    f: FrontendId,
    c: ChannelId,
    change: spec_fn(SessionView) -> SessionView,
    own: Set<SessionHandle>,
)
    requires
        r.wf(),
        forall|s: SessionView| (#[trigger] change(s)).handle == s.handle,
        forall|s: SessionView| (#[trigger] change(s)).status == s.status,
    ensures
        left_alone(r, r.with_active_change(f, c, change), f, c, own),
{
    if let Some(h) = r.bound(f, c) {
        lemma_change_leaves_alone(r, h, change, f, c, own);
    }
}

pub proof fn lemma_start_leaves_alone(r: RegistryView, env: IpcEnvelope, args: SessionStartArgs, now: u64)
    requires
        r.wf(),
    ensures
        left_alone(
            r,
            started(r, env, args, now),
            env.frontend_id,
            env.channel_id,
            own_sessions(r, env.frontend_id, env.channel_id),
        ),
{
    let f = env.frontend_id;
    let c = env.channel_id;
    let own = own_sessions(r, f, c);
    let h = SessionHandle(r.handle_gen as u128);
    let r1 = decayed(r, Score(DECAY_STEP));
    lemma_decay_leaves_alone(r, Score(DECAY_STEP), f, c, own);
    let give_up = |s: SessionView| abandoned(s, Some(TaskOutcome::Abandoned), now);
    let r2 = r1.with_abandoned(f, c, now);
    if let Some(x) = r1.active(f, c) {
        lemma_change_leaves_alone(r1, x, give_up, f, c, own);
    }
    lemma_left_alone_trans(r, r1, r2, f, c, own);
    let techs = views(args.technologies@);
    let r3 = r2.with_new_session(f, c, None, Some(args.task_type@), techs, now);
    assert(r2.handle_gen == r.handle_gen);
    lemma_new_session_leaves_alone(r2, f, c, None, Some(args.task_type@), techs, now, own);
    lemma_left_alone_trans(r, r2, r3, f, c, own);
    let approach = |s: SessionView|
        SessionView { initial_approach: opt_view(args.initial_approach), ..s };
    lemma_change_leaves_alone(r3, h, approach, f, c, own);
    lemma_left_alone_trans(r, r3, r3.with_change(h, approach), f, c, own);
}

proof fn lemma_session_start_leaves_alone(d: DispatcherView, env: IpcEnvelope, args: SessionStartArgs)
    requires
        d.wf(),
    ensures
        left_alone(
            d.registry,
            session_start(d, env, args).0.registry,
            env.frontend_id,
            env.channel_id,
            own_sessions(d.registry, env.frontend_id, env.channel_id),
        ),
{
    reveal(session_start);
    let f = env.frontend_id;
    let c = env.channel_id;
    let own = own_sessions(d.registry, f, c);
    let now = d.store.now;
    if !blank(args.task_type@) {
        let ms = preloaded(d.store, task_text(args));
        let r1 = started(d.registry, env, args, now);
        lemma_start_leaves_alone(d.registry, env, args, now);
        let read = |s: SessionView|
            SessionView { memories_read: with_texts(s.memories_read, names_of(ms)), ..s };
        lemma_active_change_leaves_alone(r1, f, c, read, own);
        let r2 = read_noted(r1, env, names_of(ms));
        lemma_left_alone_trans(d.registry, r1, r2, f, c, own);
        let dead = dead_ends(r2.sessions, args.task_type@, None);
        lemma_recall_leaves_alone(r2, dead, dead.len() as int, now, f, c, own);
        lemma_left_alone_trans(
            d.registry,
            r2,
            recalled_dead_ends(r2, dead, dead.len() as int, now),
            f,
            c,
            own,
        );
    }
}

proof fn lemma_add_leaves_alone(d: DispatcherView, env: IpcEnvelope, a: MemoryAddArgs)
    requires
        d.wf(),
    ensures
        left_alone(
            d.registry,
            memory_add(d, env, a).0.registry,
            env.frontend_id,
            env.channel_id,
            own_sessions(d.registry, env.frontend_id, env.channel_id),
        ),
{
    reveal(memory_add);
    let f = env.frontend_id;
    let c = env.channel_id;
    let own = own_sessions(d.registry, f, c);
    let m = added_memory(env.operation_id, a, d.store.now);
    let note = |s: SessionView|
        SessionView {
            memories_created: with_texts(s.memories_created, seq![legacy_name(m)]),
            ..s
        };
    lemma_active_change_leaves_alone(d.registry, f, c, note, own);
    let d1 = issued(d, env, 0, DomainCommandView::AddMemory { memory: m, session: None }).0;
    assert(d1.registry == d.registry);
    assert(linked(d1, env, m).registry == d.registry || linked(d1, env, m).registry == noted(
        d.registry,
        env,
        legacy_name(m),
    ));
}

proof fn lemma_practice_leaves_alone(d: DispatcherView, env: IpcEnvelope, a: GuidePracticeArgs)
    requires
        d.wf(),
    ensures
        left_alone(
            d.registry,
            guide_practice(d, env, a).0.registry,
            env.frontend_id,
            env.channel_id,
            own_sessions(d.registry, env.frontend_id, env.channel_id),
        ),
{
    reveal(guide_practice);
    let f = env.frontend_id;
    let c = env.channel_id;
    let own = own_sessions(d.registry, f, c);
    let g = practised_guide(d.store.guides, a, d.store.now);
    let note = |s: SessionView|
        SessionView { guides_used: with_text(s.guides_used, lowercase(g.name)), ..s };
    lemma_active_change_leaves_alone(d.registry, f, c, note, own);
}

proof fn lemma_attempt_leaves_alone(d: DispatcherView, env: IpcEnvelope, a: SessionAttemptArgs)
    requires
        d.wf(),
    ensures
        left_alone(
            d.registry,
            session_attempt(d, env, a).0.registry,
            env.frontend_id,
            env.channel_id,
            own_sessions(d.registry, env.frontend_id, env.channel_id),
        ),
{
    reveal(session_attempt);
    let f = env.frontend_id;
    let c = env.channel_id;
    let own = own_sessions(d.registry, f, c);
    if let Some(h) = d.registry.active(f, c) {
        let outcome = AttemptOutcome::named(a.outcome@);
        let x = attempt_made(d, env, a, outcome->0, h);
        let push = |s: SessionView| SessionView { attempts: s.attempts.push(x), ..s };
        let count = |s: SessionView| refined(s, is_critique(x));
        lemma_change_leaves_alone(d.registry, h, push, f, c, own);
        let r1 = d.registry.with_change(h, push);
        lemma_change_leaves_alone(r1, h, count, f, c, own);
        lemma_left_alone_trans(d.registry, r1, r1.with_change(h, count), f, c, own);
    }
}

proof fn lemma_end_leaves_alone(d: DispatcherView, env: IpcEnvelope, a: SessionEndArgs)
    requires
        d.wf(),
    ensures
        left_alone(
            d.registry,
            session_end(d, env, a).0.registry,
            env.frontend_id,
            env.channel_id,
            own_sessions(d.registry, env.frontend_id, env.channel_id),
        ),
{
    reveal(session_end);
    let f = env.frontend_id;
    let c = env.channel_id;
    let own = own_sessions(d.registry, f, c);
    if let Some(h) = d.registry.active(f, c) {
        let outcome = TaskOutcome::named(a.outcome@);
        let end = |s: SessionView|
            ended(
                s,
                outcome->0,
                opt_view(a.final_approach),
                views(a.lessons@),
                d.store.now,
            );
        lemma_change_leaves_alone(d.registry, h, end, f, c, own);
    }
}

proof fn lemma_response_leaves_alone(d: DispatcherView, env: IpcEnvelope, a: SuggestionRespondArgs)
    requires
        d.wf(),
    ensures
        left_alone(
            d.registry,
            suggestion_respond(d, a).0.registry,
            env.frontend_id,
            env.channel_id,
            own_sessions(d.registry, env.frontend_id, env.channel_id),
        ),
{
    reveal(suggestion_respond);
    let f = env.frontend_id;
    let c = env.channel_id;
    let own = own_sessions(d.registry, f, c);
    let i = suggestion_place(d.store.suggestions, a.id, 0);
    let named = d.store.suggestions[i].session_id;
    if let Some(h) = session_named(d.registry, named) {
        let attempts = session_of(d.registry.sessions, h).attempts;
        lemma_weigh_leaves_alone(
            d.registry,
            h,
            attempts,
            lowercase(a.action@) == "accept"@,
            d.store.now,
            attempts.len() as int,
            f,
            c,
            own,
        );
    }
}

proof fn lemma_edits_keep_registry(d: DispatcherView, env: IpcEnvelope, tool: ToolArgs)
    ensures
        match tool {
            ToolArgs::MemoryUpdate(a) => memory_update(d, env, a).0.registry == d.registry,
            ToolArgs::MemoryFeedback(a) => memory_feedback(d, env, a).0.registry == d.registry,
            ToolArgs::MemoryForget(a) => memory_forget(d, env, a).0.registry == d.registry,
            ToolArgs::MemoryRelate(a) => memory_relate(d, env, a).0.registry == d.registry,
            _ => true,
        },
{
    reveal(memory_update);
    reveal(memory_feedback);
    reveal(memory_forget);
    reveal(memory_relate);
}

proof fn lemma_reads_keep_registry(
    d: DispatcherView,
    env: IpcEnvelope,
    a: MemoryReadArgs,
    hits: Seq<HitView>,
)
    ensures
        memory_read(d, env, a, hits).0.registry == d.registry,
{
    reveal(memory_read);
}

proof fn lemma_guides_keep_registry(d: DispatcherView, tool: ToolArgs)
    ensures
        match tool {
            ToolArgs::GuideCreate(a) => guide_create(d, a).0.registry == d.registry,
            ToolArgs::GuideDistill(a) => guide_distill(d, a).0.registry == d.registry,
            ToolArgs::GuideUpdate(a) => guide_update(d, a).0.registry == d.registry,
            ToolArgs::GuideForget(a) => guide_forget(d, a).0.registry == d.registry,
            ToolArgs::GuideMerge(a) => guide_merge(d, a).0.registry == d.registry,
            _ => true,
        },
{
    reveal(guide_create);
    reveal(guide_distill);
    reveal(guide_update);
    reveal(guide_forget);
    reveal(guide_merge);
}

proof fn lemma_memory_read_called(
    d: DispatcherView,
    env: IpcEnvelope,
    a: MemoryReadArgs,
    hits: Seq<HitView>,
)
    requires
        d.wf(),
    ensures
        left_alone(
            d.registry,
            called(d, env, ToolArgs::MemoryRead(a), hits).0.registry,
            env.frontend_id,
            env.channel_id,
            own_sessions(d.registry, env.frontend_id, env.channel_id),
        ),
{
    let own = own_sessions(d.registry, env.frontend_id, env.channel_id);
    lemma_same_leaves_alone(d.registry, env.frontend_id, env.channel_id, own);
    lemma_reads_keep_registry(d, env, a, hits);
    assert(called(d, env, ToolArgs::MemoryRead(a), hits).0 == memory_read(d, env, a, hits).0) by {
        reveal(called);
    }
}

proof fn lemma_memory_add_called(
    d: DispatcherView,
    env: IpcEnvelope,
    a: MemoryAddArgs,
    hits: Seq<HitView>,
)
    requires
        d.wf(),
    ensures
        left_alone(
            d.registry,
            called(d, env, ToolArgs::MemoryAdd(a), hits).0.registry,
            env.frontend_id,
            env.channel_id,
            own_sessions(d.registry, env.frontend_id, env.channel_id),
        ),
{
    let own = own_sessions(d.registry, env.frontend_id, env.channel_id);
    lemma_same_leaves_alone(d.registry, env.frontend_id, env.channel_id, own);
    lemma_add_leaves_alone(d, env, a);
    assert(called(d, env, ToolArgs::MemoryAdd(a), hits).0 == memory_add(d, env, a).0) by {
        reveal(called);
    }
}

proof fn lemma_memory_merge_called(
    d: DispatcherView,
    env: IpcEnvelope,
    a: MemoryMergeArgs,
    hits: Seq<HitView>,
)
    requires
        d.wf(),
    ensures
        left_alone(
            d.registry,
            called(d, env, ToolArgs::MemoryMerge(a), hits).0.registry,
            env.frontend_id,
            env.channel_id,
            own_sessions(d.registry, env.frontend_id, env.channel_id),
        ),
{
    let own = own_sessions(d.registry, env.frontend_id, env.channel_id);
    lemma_same_leaves_alone(d.registry, env.frontend_id, env.channel_id, own);
    lemma_superseding_registry(d, env, a);
    assert(called(d, env, ToolArgs::MemoryMerge(a), hits).0 == memory_merge(d, env, a).0) by {
        reveal(called);
    }
}

proof fn lemma_guide_practice_called(
    d: DispatcherView,
    env: IpcEnvelope,
    a: GuidePracticeArgs,
    hits: Seq<HitView>,
)
    requires
        d.wf(),
    ensures
        left_alone(
            d.registry,
            called(d, env, ToolArgs::GuidePractice(a), hits).0.registry,
            env.frontend_id,
            env.channel_id,
            own_sessions(d.registry, env.frontend_id, env.channel_id),
        ),
{
    let own = own_sessions(d.registry, env.frontend_id, env.channel_id);
    lemma_same_leaves_alone(d.registry, env.frontend_id, env.channel_id, own);
    lemma_practice_leaves_alone(d, env, a);
    assert(called(d, env, ToolArgs::GuidePractice(a), hits).0 == guide_practice(d, env, a).0) by {
        reveal(called);
    }
}

proof fn lemma_session_start_called(
    d: DispatcherView,
    env: IpcEnvelope,
    a: SessionStartArgs,
    hits: Seq<HitView>,
)
    requires
        d.wf(),
    ensures
        left_alone(
            d.registry,
            called(d, env, ToolArgs::SessionStart(a), hits).0.registry,
            env.frontend_id,
            env.channel_id,
            own_sessions(d.registry, env.frontend_id, env.channel_id),
        ),
{
    let own = own_sessions(d.registry, env.frontend_id, env.channel_id);
    lemma_same_leaves_alone(d.registry, env.frontend_id, env.channel_id, own);
    lemma_session_start_leaves_alone(d, env, a);
    assert(called(d, env, ToolArgs::SessionStart(a), hits).0 == session_start(d, env, a).0) by {
        reveal(called);
    }
}

proof fn lemma_session_attempt_called(
    d: DispatcherView,
    env: IpcEnvelope,
    a: SessionAttemptArgs,
    hits: Seq<HitView>,
)
    requires
        d.wf(),
    ensures
        left_alone(
            d.registry,
            called(d, env, ToolArgs::SessionAttempt(a), hits).0.registry,
            env.frontend_id,
            env.channel_id,
            own_sessions(d.registry, env.frontend_id, env.channel_id),
        ),
{
    let own = own_sessions(d.registry, env.frontend_id, env.channel_id);
    lemma_same_leaves_alone(d.registry, env.frontend_id, env.channel_id, own);
    lemma_attempt_leaves_alone(d, env, a);
    assert(called(d, env, ToolArgs::SessionAttempt(a), hits).0 == session_attempt(d, env, a).0) by {
        reveal(called);
    }
}

proof fn lemma_session_end_called(
    d: DispatcherView,
    env: IpcEnvelope,
    a: SessionEndArgs,
    hits: Seq<HitView>,
)
    requires
        d.wf(),
    ensures
        left_alone(
            d.registry,
            called(d, env, ToolArgs::SessionEnd(a), hits).0.registry,
            env.frontend_id,
            env.channel_id,
            own_sessions(d.registry, env.frontend_id, env.channel_id),
        ),
{
    let own = own_sessions(d.registry, env.frontend_id, env.channel_id);
    lemma_same_leaves_alone(d.registry, env.frontend_id, env.channel_id, own);
    lemma_end_leaves_alone(d, env, a);
    assert(called(d, env, ToolArgs::SessionEnd(a), hits).0 == session_end(d, env, a).0) by {
        reveal(called);
    }
}

proof fn lemma_suggestion_respond_called(
    d: DispatcherView,
    env: IpcEnvelope,
    a: SuggestionRespondArgs,
    hits: Seq<HitView>,
)
    requires
        d.wf(),
    ensures
        left_alone(
            d.registry,
            called(d, env, ToolArgs::SuggestionRespond(a), hits).0.registry,
            env.frontend_id,
            env.channel_id,
            own_sessions(d.registry, env.frontend_id, env.channel_id),
        ),
{
    let own = own_sessions(d.registry, env.frontend_id, env.channel_id);
    lemma_same_leaves_alone(d.registry, env.frontend_id, env.channel_id, own);
    lemma_response_leaves_alone(d, env, a);
    assert(called(d, env, ToolArgs::SuggestionRespond(a), hits).0 == suggestion_respond(d, a).0) by {
        reveal(called);
    }
}

proof fn lemma_others_called(
    d: DispatcherView,
    env: IpcEnvelope,
    tool: ToolArgs,
    hits: Seq<HitView>,
)
    requires
        !(tool is MemoryRead),
        !(tool is MemoryAdd),
        !(tool is MemoryMerge),
        !(tool is GuidePractice),
        !(tool is SessionStart),
        !(tool is SessionAttempt),
        !(tool is SessionEnd),
        !(tool is SuggestionRespond),
    ensures
        called(d, env, tool, hits).0.registry == d.registry,
{
    lemma_edits_keep_registry(d, env, tool);
    lemma_guides_keep_registry(d, tool);
    reveal(called);
}

proof fn lemma_tool_leaves_alone(
    d: DispatcherView,
    env: IpcEnvelope,
    tool: ToolArgs,
    hits: Seq<HitView>,
)
    requires
        d.wf(),
    ensures
        left_alone(
            d.registry,
            called(d, env, tool, hits).0.registry,
            env.frontend_id,
            env.channel_id,
            own_sessions(d.registry, env.frontend_id, env.channel_id),
        ),
{
    match tool {
        ToolArgs::MemoryRead(a) => lemma_memory_read_called(d, env, a, hits),
        ToolArgs::MemoryAdd(a) => lemma_memory_add_called(d, env, a, hits),
        ToolArgs::MemoryMerge(a) => lemma_memory_merge_called(d, env, a, hits),
        ToolArgs::GuidePractice(a) => lemma_guide_practice_called(d, env, a, hits),
        ToolArgs::SessionStart(a) => lemma_session_start_called(d, env, a, hits),
        ToolArgs::SessionAttempt(a) => lemma_session_attempt_called(d, env, a, hits),
        ToolArgs::SessionEnd(a) => lemma_session_end_called(d, env, a, hits),
        ToolArgs::SuggestionRespond(a) => lemma_suggestion_respond_called(d, env, a, hits),
        _ => {
            let own = own_sessions(d.registry, env.frontend_id, env.channel_id);
            lemma_same_leaves_alone(d.registry, env.frontend_id, env.channel_id, own);
            lemma_others_called(d, env, tool, hits);
        },
    }
}

proof fn lemma_same_leaves_alone(
    r: RegistryView,
    f: FrontendId,
    c: ChannelId,
    own: Set<SessionHandle>,
)
    requires
        r.wf(),
    ensures
        left_alone(r, r, f, c, own),
{
}

proof fn lemma_superseding_registry(d: DispatcherView, env: IpcEnvelope, args: MemoryMergeArgs)
    ensures
        memory_merge(d, env, args).0.registry == d.registry,
{
    reveal(memory_merge);
    let ids = ids_of(named(d.store, views(args.ids@)));
    let result = merged_memory(env, args, d.store.now);
    let after = issued(d, env, 0, DomainCommandView::Merge { source_ids: ids, result }).0;
    let sources = found(after.store.memories, ids);
    lemma_superseding_keeps_registry(after, env, result.id, sources, sources.len() as int);
}

proof fn lemma_superseding_keeps_registry(
    d: DispatcherView,
    env: IpcEnvelope,
    id: EntityId,
    sources: Seq<MemoryView>,
    n: int,
)
    ensures
        superseding(d, env, id, sources, n).registry == d.registry,
    decreases n,
{
    if n > 0 {
        lemma_superseding_keeps_registry(d, env, id, sources, n - 1);
    }
}

proof fn lemma_request_leaves_alone(d: DispatcherView, env: IpcEnvelope, hits: Seq<HitView>)
    requires
        d.wf(),
    ensures
        left_alone(
            d.registry,
            handled(d, env, hits).0.registry,
            env.frontend_id,
            env.channel_id,
            own_sessions(d.registry, env.frontend_id, env.channel_id),
        ),
{
    let f = env.frontend_id;
    let c = env.channel_id;
    let own = own_sessions(d.registry, f, c);
    match env.body {
        DomainRequest::ToolCall { tool } => {
            lemma_tool_leaves_alone(d, env, tool, hits);
        },
        DomainRequest::SessionAttempt {
            approach,
            outcome,
            critique,
            rationale,
            related_memory_id,
        } => {
            if let Some(h) = d.registry.active(f, c) {
                let a = attempt_sent(
                    d,
                    env,
                    h,
                    approach@,
                    outcome,
                    opt_view(critique),
                    opt_view(rationale),
                    related_memory_id,
                );
                let push = |s: SessionView| SessionView { attempts: s.attempts.push(a), ..s };
                lemma_change_leaves_alone(d.registry, h, push, f, c, own);
            }
        },
        DomainRequest::SessionEnd { outcome, final_approach, lessons } => {
            if let Some(h) = d.registry.active(f, c) {
                let end = |s: SessionView|
                    ended(
                        s,
                        outcome,
                        opt_view(final_approach),
                        views(lessons@),
                        d.store.now,
                    );
                lemma_change_leaves_alone(d.registry, h, end, f, c, own);
            }
        },
        _ => {},
    }
}

/// Whatever a request asks for, the session of every other channel goes on or
/// is over as it was: one channel cannot end the session of another, nor start
/// one for it. Two channels that were bound to one session share it, and a
/// channel may have been bound by hand to a handle before it was given out.
pub proof fn law_requests_leave_other_channels(
    d: DispatcherView,
    env: IpcEnvelope,
    hits: Seq<HitView>,
    f: FrontendId,
    c: ChannelId,
)
    requires
        d.wf(),
        f != env.frontend_id || c != env.channel_id,
        has_channel(d.registry.channels, f, c) && channel_of(d.registry.channels, f, c).session
            is Some ==> !own_sessions(d.registry, env.frontend_id, env.channel_id).contains(
            channel_of(d.registry.channels, f, c).session->0,
        ),
    ensures
        handled(d, env, hits).0.registry.bound(f, c) == d.registry.bound(f, c),
        handled(d, env, hits).0.registry.active(f, c) == d.registry.active(f, c),
{
    lemma_request_leaves_alone(d, env, hits);
    let after = handled(d, env, hits).0.registry;
    assert(same_binding(d.registry, after, f, c));
    if has_channel(d.registry.channels, f, c) && channel_of(d.registry.channels, f, c).session
        is Some {
        assert(same_status(d.registry, after, channel_of(d.registry.channels, f, c).session->0));
    }
}

} // verus!
