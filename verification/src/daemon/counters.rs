//! How much room the operations on sessions leave in their counters.

use crate::daemon::registry::{
    abandoned, attempt_place, changed_attempt, changed_attempts, RegistryView,
};
use crate::domain::id::{ChannelId, FrontendId, SessionHandle};
use crate::domain::session::{AttemptView, SessionView, TaskOutcome};
use vstd::prelude::*;

verus! {

/// Whether the counters of a session can still be stepped `n` times.
pub open spec fn session_room(s: SessionView, n: int) -> bool {
    &&& s.refinement_attempts + n <= u32::MAX
    &&& s.self_critique_count + n <= u32::MAX
    &&& s.attempts.len() + n <= u32::MAX
    &&& forall|j: int|
        0 <= j < s.attempts.len() ==> (#[trigger] s.attempts[j]).access_count + n <= u64::MAX
}

pub open spec fn sessions_room(ss: Seq<SessionView>, n: int) -> bool {
    forall|i: int| 0 <= i < ss.len() ==> session_room(#[trigger] ss[i], n)
}

/// The room of a registry is that of its sessions and of its handles.
pub proof fn lemma_room_parts(r: RegistryView, n: int)
    ensures
        r.room(n) == (r.handle_gen + n <= u64::MAX && sessions_room(r.sessions, n)),
{
    if r.room(n) {
        assert forall|i: int| 0 <= i < r.sessions.len() implies session_room(
            #[trigger] r.sessions[i],
            n,
        ) by {
            assert forall|j: int| 0 <= j < r.sessions[i].attempts.len() implies (
            #[trigger] r.sessions[i].attempts[j]).access_count + n <= u64::MAX by {
                let x = r.sessions[i].attempts[j].access_count;
            }
        }
    }
    if r.handle_gen + n <= u64::MAX && sessions_room(r.sessions, n) {
        assert forall|i: int, j: int|
            0 <= i < r.sessions.len() && 0 <= j
                < r.sessions[i].attempts.len() implies #[trigger] r.sessions[i].attempts[j].access_count
            + n <= u64::MAX by {
            assert(session_room(r.sessions[i], n));
        }
        assert forall|i: int| 0 <= i < r.sessions.len() implies (
        #[trigger] r.sessions[i]).refinement_attempts + n <= u32::MAX
            && r.sessions[i].self_critique_count + n <= u32::MAX && r.sessions[i].attempts.len() + n
            <= u32::MAX by {
            assert(session_room(r.sessions[i], n));
        }
        assert(r.room(n));
    }
}

/// What can be stepped often can be stepped less often.
pub proof fn lemma_registry_room_mono(r: RegistryView, a: int, b: int)
    requires
        a <= b,
        r.room(b),
    ensures
        r.room(a),
{
    lemma_room_parts(r, a);
    lemma_room_parts(r, b);
    assert forall|i: int| 0 <= i < r.sessions.len() implies session_room(
        #[trigger] r.sessions[i],
        a,
    ) by {
        assert(session_room(r.sessions[i], b));
    }
}

/// A change to one session leaves the room that it leaves in each.
pub proof fn lemma_change_room(
    r: RegistryView,
    h: SessionHandle,
    change: spec_fn(SessionView) -> SessionView,
    a: int,
    b: int,
)
    requires
        r.room(b),
        a <= b,
        forall|s: SessionView| session_room(s, b) ==> session_room(#[trigger] change(s), a),
    ensures
        r.with_change(h, change).room(a),
{
    lemma_room_parts(r, b);
    lemma_registry_room_mono(r, a, b);
    lemma_room_parts(r, a);
    let after = r.with_change(h, change);
    assert forall|i: int| 0 <= i < after.sessions.len() implies session_room(
        #[trigger] after.sessions[i],
        a,
    ) by {
        assert(session_room(r.sessions[i], b));
        assert(session_room(r.sessions[i], a));
        assert(session_room(change(r.sessions[i]), a));
    }
    lemma_room_parts(after, a);
}

/// A change to the channel's session leaves the room that it leaves in each.
pub proof fn lemma_active_change_room(
    r: RegistryView,
    f: FrontendId,
    c: ChannelId,
    change: spec_fn(SessionView) -> SessionView,
    n: int,
)
    requires
        r.room(n),
        forall|s: SessionView| session_room(s, n) ==> session_room(#[trigger] change(s), n),
    ensures
        r.with_active_change(f, c, change).room(n),
{
    match r.bound(f, c) {
        Some(h) => lemma_change_room(r, h, change, n, n),
        None => {},
    }
}

/// A change to every attempt that steps no counter leaves the room.
pub proof fn lemma_attempts_room(
    r: RegistryView,
    change: spec_fn(AttemptView) -> AttemptView,
    n: int,
)
    requires
        r.room(n),
        forall|a: AttemptView| (#[trigger] change(a)).access_count == a.access_count,
    ensures
        (RegistryView {
            sessions: r.sessions.map_values(|s: SessionView| changed_attempts(s, change)),
            ..r
        }).room(n),
{
    lemma_room_parts(r, n);
    let after = RegistryView {
        sessions: r.sessions.map_values(|s: SessionView| changed_attempts(s, change)),
        ..r
    };
    assert forall|i: int| 0 <= i < after.sessions.len() implies session_room(
        #[trigger] after.sessions[i],
        n,
    ) by {
        assert(session_room(r.sessions[i], n));
        let s = after.sessions[i];
        assert forall|j: int| 0 <= j < s.attempts.len() implies (
        #[trigger] s.attempts[j]).access_count + n <= u64::MAX by {
            assert(s.attempts[j] == change(r.sessions[i].attempts[j]));
        }
    }
    lemma_room_parts(after, n);
}

/// A new session takes a handle.
pub proof fn lemma_new_session_room(
    r: RegistryView,
    f: FrontendId,
    c: ChannelId,
    project: Option<Seq<char>>,
    task_type: Option<Seq<char>>,
    technologies: Seq<Seq<char>>,
    now: u64,
    n: int,
)
    requires
        r.room(n + 1),
        0 <= n <= u32::MAX,
    ensures
        r.with_new_session(f, c, project, task_type, technologies, now).room(n),
{
    lemma_room_parts(r, n + 1);
    let after = r.with_new_session(f, c, project, task_type, technologies, now);
    assert forall|i: int| 0 <= i < after.sessions.len() implies session_room(
        #[trigger] after.sessions[i],
        n,
    ) by {
        if i < r.sessions.len() {
            assert(session_room(r.sessions[i], n + 1));
        }
    }
    lemma_room_parts(after, n);
}

/// Giving a session up steps no counter.
pub proof fn lemma_abandoned_room(r: RegistryView, f: FrontendId, c: ChannelId, now: u64, n: int)
    requires
        r.room(n),
    ensures
        r.with_abandoned(f, c, now).room(n),
{
    match r.active(f, c) {
        Some(h) => lemma_change_room(
            r,
            h,
            |s: SessionView| abandoned(s, Some(TaskOutcome::Abandoned), now),
            n,
            n,
        ),
        None => {},
    }
}

/// Looking at an attempt steps its counter.
pub proof fn lemma_touched_room(
    r: RegistryView,
    h: SessionHandle,
    seq: u32,
    change: spec_fn(AttemptView) -> AttemptView,
    n: int,
)
    requires
        r.room(n + 1),
        0 <= n,
        forall|a: AttemptView|
            a.access_count < u64::MAX ==> (#[trigger] change(a)).access_count == a.access_count + 1,
    ensures
        r.with_change(h, |s: SessionView| changed_attempt(s, seq, change)).room(n),
{
    let full = |s: SessionView| changed_attempt(s, seq, change);
    assert forall|s: SessionView| session_room(s, n + 1) implies session_room(
        #[trigger] full(s),
        n,
    ) by {
        lemma_attempt_place(s.attempts, seq, 0);
        let t = full(s);
        assert forall|j: int| 0 <= j < t.attempts.len() implies (
        #[trigger] t.attempts[j]).access_count + n <= u64::MAX by {
            assert(s.attempts[j].access_count + n + 1 <= u64::MAX);
        }
    }
    lemma_change_room(r, h, full, n, n + 1);
}

proof fn lemma_attempt_place(attempts: Seq<AttemptView>, seq: u32, from: int)
    requires
        0 <= from <= attempts.len(),
    ensures
        from <= attempt_place(attempts, seq, from) <= attempts.len(),
    decreases attempts.len() - from,
{
    if from < attempts.len() && attempts[from].seq != seq {
        lemma_attempt_place(attempts, seq, from + 1);
    }
}

} // verus!
