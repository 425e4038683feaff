//! The channels of the frontends and the sessions that are bound to them.
//!
//! There is no current session of the daemon: every operation goes by the
//! frontend and the channel that it comes from.

use crate::domain::id::{ChannelId, FrontendId, SessionHandle};
use crate::domain::interpreter::{end_one, lemma_session_at, open_session};
use crate::domain::memory::Instant;
use crate::domain::score::Score;
use crate::domain::session::{
    Attempt, AttemptView, Session, SessionStatus, SessionView, TaskOutcome,
};
use crate::domain::state::{
    edited_session, ended, fresh_session, has_session, session_of, unique_sessions,
};
use crate::text::{
    add_text, add_texts, clone_all, lower, lowercase, opt_view, views, with_text, with_texts,
};
use vstd::prelude::*;

verus! {

/// When a channel's session may be given up.
#[derive(Debug, Clone, Copy, PartialEq, Eq, Structural)]
pub struct Lease {
    pub expires_at: u64,
}

/// A channel with the session that is bound to it.
#[derive(Debug, Clone, Copy, PartialEq, Eq, Structural)]
pub struct ChannelBinding {
    pub frontend_id: FrontendId,
    pub channel_id: ChannelId,
    pub session: Option<SessionHandle>,
    pub lease: Option<Lease>,
    /// Whether the frontend chose the session itself.
    pub explicit: bool,
}

/// The channels and the sessions.
#[derive(Debug)]
pub struct FrontendRegistry {
    pub channels: Vec<ChannelBinding>,
    pub sessions: Vec<Session>,
    pub handle_gen: u64,
}

/// The content of a registry.
#[verifier::ext_equal]
pub struct RegistryView {
    pub channels: Seq<ChannelBinding>,
    pub sessions: Seq<SessionView>,
    /// The next handle to give out.
    pub handle_gen: u64,
}

impl View for FrontendRegistry {
    type V = RegistryView;

    open spec fn view(&self) -> RegistryView {
        RegistryView {
            channels: self.channels@,
            sessions: views(self.sessions@),
            handle_gen: self.handle_gen,
        }
    }
}

/// Whether a binding is that of a channel.
pub open spec fn is_channel(b: ChannelBinding, f: FrontendId, c: ChannelId) -> bool {
    b.frontend_id == f && b.channel_id == c
}

/// Whether a channel is registered.
pub open spec fn has_channel(bs: Seq<ChannelBinding>, f: FrontendId, c: ChannelId) -> bool {
    exists|i: int| 0 <= i < bs.len() && #[trigger] is_channel(bs[i], f, c)
}

/// The binding of a channel.
pub open spec fn channel_of(
    bs: Seq<ChannelBinding>,
    f: FrontendId,
    c: ChannelId,
) -> ChannelBinding {
    bs[choose|i: int| 0 <= i < bs.len() && #[trigger] is_channel(bs[i], f, c)]
}

/// The bindings with the one of its channel replaced, or added.
pub open spec fn with_channel(bs: Seq<ChannelBinding>, b: ChannelBinding) -> Seq<ChannelBinding> {
    if has_channel(bs, b.frontend_id, b.channel_id) {
        bs.map_values(
            |x: ChannelBinding|
                if is_channel(x, b.frontend_id, b.channel_id) {
                    b
                } else {
                    x
                },
        )
    } else {
        bs.push(b)
    }
}

/// The sessions with the one of its handle replaced, or added.
pub open spec fn with_session(ss: Seq<SessionView>, s: SessionView) -> Seq<SessionView> {
    if has_session(ss, s.handle) {
        edited_session(ss, s.handle, |x: SessionView| s)
    } else {
        ss.push(s)
    }
}

pub open spec fn unique_channels(bs: Seq<ChannelBinding>) -> bool {
    forall|i: int, j: int|
        0 <= i < j < bs.len() ==> !((#[trigger] bs[i]).frontend_id == (
        #[trigger] bs[j]).frontend_id && bs[i].channel_id == bs[j].channel_id)
}

/// The attempts with a change to each.
pub open spec fn changed_attempts(
    s: SessionView,
    change: spec_fn(AttemptView) -> AttemptView,
) -> SessionView {
    SessionView { attempts: s.attempts.map_values(change), ..s }
}

/// The place of the first attempt with a number, at or after `from`.
pub open spec fn attempt_place(attempts: Seq<AttemptView>, seq: u32, from: int) -> int
    decreases attempts.len() - from,
{
    if from < 0 || from >= attempts.len() || attempts[from].seq == seq {
        from
    } else {
        attempt_place(attempts, seq, from + 1)
    }
}

/// A session with its first attempt of a number changed.
pub open spec fn changed_attempt(
    s: SessionView,
    seq: u32,
    change: spec_fn(AttemptView) -> AttemptView,
) -> SessionView {
    let i = attempt_place(s.attempts, seq, 0);
    if i < s.attempts.len() {
        SessionView { attempts: s.attempts.update(i, change(s.attempts[i])), ..s }
    } else {
        s
    }
}

/// An attempt that was looked at, with its confidence moved.
pub open spec fn touched(a: AttemptView, confidence: Score, now: u64) -> AttemptView {
    AttemptView {
        confidence,
        access_count: (a.access_count + 1) as u64,
        last_accessed_at: Some(Instant(now)),
        ..a
    }
}

/// A session that was given up.
pub open spec fn abandoned(s: SessionView, outcome: Option<TaskOutcome>, now: u64) -> SessionView {
    SessionView {
        status: SessionStatus::Abandoned,
        outcome,
        ended_at: Some(Instant(now)),
        ..s
    }
}

impl RegistryView {
    /// No two bindings are of one channel, and no two sessions share a handle.
    pub open spec fn wf(self) -> bool {
        &&& unique_channels(self.channels)
        &&& unique_sessions(self.sessions)
    }

    /// Whether handles can still be given out and attempts still be counted.
    pub open spec fn room(self, n: int) -> bool {
        &&& self.handle_gen + n <= u64::MAX
        &&& forall|i: int, j: int|
            0 <= i < self.sessions.len() && 0 <= j < self.sessions[i].attempts.len()
                ==> #[trigger] self.sessions[i].attempts[j].access_count + n <= u64::MAX
        &&& forall|i: int|
            0 <= i < self.sessions.len() ==> (#[trigger] self.sessions[i]).refinement_attempts + n
                <= u32::MAX && self.sessions[i].self_critique_count + n <= u32::MAX
                && self.sessions[i].attempts.len() + n <= u32::MAX
    }

    /// The session that is bound to a channel, if it is known.
    pub open spec fn bound(self, f: FrontendId, c: ChannelId) -> Option<SessionHandle> {
        if has_channel(self.channels, f, c) {
            match channel_of(self.channels, f, c).session {
                Some(h) => if has_session(self.sessions, h) {
                    Some(h)
                } else {
                    None
                },
                None => None,
            }
        } else {
            None
        }
    }

    /// The session of a channel that is going on.
    pub open spec fn active(self, f: FrontendId, c: ChannelId) -> Option<SessionHandle> {
        match self.bound(f, c) {
            Some(h) => if session_of(self.sessions, h).status.terminal() {
                None
            } else {
                Some(h)
            },
            None => None,
        }
    }

    /// The registry with one session changed.
    pub open spec fn with_change(
        self,
        h: SessionHandle,
        change: spec_fn(SessionView) -> SessionView,
    ) -> RegistryView {
        RegistryView { sessions: edited_session(self.sessions, h, change), ..self }
    }

    /// The registry with the session of a channel changed, if one is going on.
    pub open spec fn with_active_change(
        self,
        f: FrontendId,
        c: ChannelId,
        change: spec_fn(SessionView) -> SessionView,
    ) -> RegistryView {
        match self.active(f, c) {
            Some(h) => self.with_change(h, change),
            None => self,
        }
    }

    /// The registry with a new session bound to a channel under the next
    /// handle.
    pub open spec fn with_new_session(
        self,
        f: FrontendId,
        c: ChannelId,
        project: Option<Seq<char>>,
        task_type: Option<Seq<char>>,
        technologies: Seq<Seq<char>>,
        now: u64,
    ) -> RegistryView {
        let h = SessionHandle(self.handle_gen as u128);
        RegistryView {
            channels: with_channel(
                self.channels,
                ChannelBinding {
                    frontend_id: f,
                    channel_id: c,
                    session: Some(h),
                    lease: None,
                    explicit: false,
                },
            ),
            sessions: with_session(
                self.sessions,
                fresh_session(h, c, project, task_type, technologies, now),
            ),
            handle_gen: (self.handle_gen + 1) as u64,
        }
    }

    /// The registry with the channel's session given up, if it is going on.
    pub open spec fn with_abandoned(self, f: FrontendId, c: ChannelId, now: u64) -> RegistryView {
        match self.active(f, c) {
            Some(h) => self.with_change(
                h,
                |s: SessionView| abandoned(s, Some(TaskOutcome::Abandoned), now),
            ),
            None => self,
        }
    }

    /// Whether a channel's lease has run out while its session is going on.
    pub open spec fn expired(self, b: ChannelBinding, now: u64) -> bool {
        &&& b.lease is Some
        &&& b.lease->0.expires_at <= now
        &&& b.session is Some
        &&& has_session(self.sessions, b.session->0)
        &&& !session_of(self.sessions, b.session->0).status.terminal()
    }

    /// The registry and the handles given up after the leases of the first `n`
    /// channels were looked at.
    pub open spec fn expire_first(self, n: int, now: u64) -> (RegistryView, Seq<SessionHandle>)
        decreases n,
    {
        if n <= 0 {
            (self, Seq::empty())
        } else {
            let (r, hs) = self.expire_first(n - 1, now);
            let b = self.channels[n - 1];
            if r.expired(b, now) {
                let h = b.session->0;
                (
                    r.with_change(
                        h,
                        |s: SessionView| abandoned(s, s.outcome, now),
                    ),
                    hs.push(h),
                )
            } else {
                (r, hs)
            }
        }
    }
}

pub proof fn lemma_channel_at(bs: Seq<ChannelBinding>, i: int)
    requires
        unique_channels(bs),
        0 <= i < bs.len(),
    ensures
        has_channel(bs, bs[i].frontend_id, bs[i].channel_id),
        channel_of(bs, bs[i].frontend_id, bs[i].channel_id) == bs[i],
{
    let f = bs[i].frontend_id;
    let c = bs[i].channel_id;
    assert(is_channel(bs[i], f, c));
    let k = choose|k: int| 0 <= k < bs.len() && #[trigger] is_channel(bs[k], f, c);
    assert(is_channel(bs[k], f, c));
    if k < i {
        assert(bs[k].frontend_id == bs[i].frontend_id);
    } else if k > i {
        assert(bs[i].frontend_id == bs[k].frontend_id);
    }
}

pub proof fn lemma_with_channel_at(bs: Seq<ChannelBinding>, i: int, b: ChannelBinding)
    requires
        unique_channels(bs),
        0 <= i < bs.len(),
        is_channel(bs[i], b.frontend_id, b.channel_id),
    ensures
        with_channel(bs, b) == bs.update(i, b),
        unique_channels(bs.update(i, b)),
{
    assert(has_channel(bs, b.frontend_id, b.channel_id));
    assert forall|j: int| 0 <= j < bs.len() implies with_channel(bs, b)[j] == bs.update(i, b)[j] by {
        if j < i {
            assert(!(bs[j].frontend_id == bs[i].frontend_id && bs[j].channel_id
                == bs[i].channel_id));
        } else if j > i {
            assert(!(bs[i].frontend_id == bs[j].frontend_id && bs[i].channel_id
                == bs[j].channel_id));
        }
    }
    assert(with_channel(bs, b) =~= bs.update(i, b));
    let u = bs.update(i, b);
    assert forall|x: int, y: int| 0 <= x < y < u.len() implies !((#[trigger] u[x]).frontend_id == (
    #[trigger] u[y]).frontend_id && u[x].channel_id == u[y].channel_id) by {
        assert(!(bs[x].frontend_id == bs[y].frontend_id && bs[x].channel_id == bs[y].channel_id));
    }
}

impl FrontendRegistry {
    pub fn new() -> (r: Self)
        ensures
            r@ == (RegistryView {
                channels: Seq::empty(),
                sessions: Seq::empty(),
                handle_gen: 1,
            }),
            r@.wf(),
    {
        let r = FrontendRegistry { channels: Vec::new(), sessions: Vec::new(), handle_gen: 1 };
        proof {
            assert(r.channels@ =~= Seq::empty());
            assert(views(r.sessions@) =~= Seq::empty());
        }
        r
    }

    fn next_handle(&mut self) -> (r: SessionHandle)
        requires
            old(self).handle_gen < u64::MAX,
        ensures
            r == SessionHandle(old(self).handle_gen as u128),
            final(self)@ == (RegistryView {
                handle_gen: (old(self).handle_gen + 1) as u64,
                ..old(self)@
            }),
    {
        let n: u64 = self.handle_gen;
        self.handle_gen = n + 1;
        SessionHandle::new(n as u128)
    }

    fn channel_position(&self, f: FrontendId, c: ChannelId) -> (r: Option<usize>)
        ensures
            match r {
                Some(i) => i < self@.channels.len() && is_channel(self@.channels[i as int], f, c),
                None => !has_channel(self@.channels, f, c),
            },
    {
        let mut i: usize = 0;
        while i < self.channels.len()
            invariant
                i <= self.channels.len(),
                forall|j: int| 0 <= j < i ==> !#[trigger] is_channel(self@.channels[j], f, c),
            decreases self.channels.len() - i,
        {
            if self.channels[i].frontend_id == f && self.channels[i].channel_id == c {
                return Some(i);
            }
            i += 1;
        }
        None
    }

    fn session_position(&self, handle: SessionHandle) -> (r: Option<usize>)
        ensures
            match r {
                Some(i) => i < self@.sessions.len() && self.sessions@[i as int]@
                    == self@.sessions[i as int] && self@.sessions[i as int].handle == handle,
                None => !has_session(self@.sessions, handle),
            },
    {
        let mut i: usize = 0;
        while i < self.sessions.len()
            invariant
                i <= self.sessions.len(),
                forall|j: int| 0 <= j < i ==> (#[trigger] self@.sessions[j]).handle != handle,
            decreases self.sessions.len() - i,
        {
            proof {
                assert(self@.sessions[i as int] == self.sessions@[i as int]@);
            }
            if self.sessions[i].handle == handle {
                return Some(i);
            }
            i += 1;
        }
        None
    }

    fn put_channel(&mut self, b: ChannelBinding)
        requires
            old(self)@.wf(),
        ensures
            final(self)@.wf(),
            final(self)@ == (RegistryView {
                channels: with_channel(old(self)@.channels, b),
                ..old(self)@
            }),
    {
        match self.channel_position(b.frontend_id, b.channel_id) {
            Some(i) => {
                proof {
                    lemma_with_channel_at(self@.channels, i as int, b);
                }
                self.channels.set(i, b);
            },
            None => {
                let ghost before = self.channels@;
                self.channels.push(b);
                proof {
                    assert forall|x: int, y: int| 0 <= x < y < self.channels@.len() implies !((
                    #[trigger] self.channels@[x]).frontend_id == (
                    #[trigger] self.channels@[y]).frontend_id && self.channels@[x].channel_id
                        == self.channels@[y].channel_id) by {
                        if y == before.len() {
                            assert(!is_channel(before[x], b.frontend_id, b.channel_id));
                        }
                    }
                }
            },
        }
    }

    fn put_session(&mut self, s: Session)
        requires
            old(self)@.wf(),
        ensures
            final(self)@.wf(),
            final(self)@ == (RegistryView {
                sessions: with_session(old(self)@.sessions, s@),
                ..old(self)@
            }),
    {
        let ghost before = self.sessions@;
        let ghost v = s@;
        match self.session_position(s.handle) {
            Some(i) => {
                proof {
                    lemma_session_at(self@.sessions, i as int, |x: SessionView| v);
                }
                self.sessions.set(i, s);
                proof {
                    assert(views(self.sessions@) =~= views(before).update(i as int, v));
                }
            },
            None => {
                self.sessions.push(s);
                proof {
                    assert(views(self.sessions@) =~= views(before).push(v));
                    assert forall|j: int| 0 <= j < views(before).len() implies (#[trigger] views(
                        before,
                    )[j]).handle != v.handle by {}
                }
            },
        }
    }

    /// Where the session that is bound to a channel is.
    fn bound_position(&self, f: FrontendId, c: ChannelId) -> (r: Option<usize>)
        requires
            self@.wf(),
        ensures
            match r {
                Some(i) => i < self@.sessions.len() && self.sessions@[i as int]@
                    == self@.sessions[i as int] && self@.bound(f, c) == Some(
                    self@.sessions[i as int].handle,
                ),
                None => self@.bound(f, c) is None,
            },
    {
        match self.channel_position(f, c) {
            None => None,
            Some(k) => {
                proof {
                    lemma_channel_at(self@.channels, k as int);
                }
                match self.channels[k].session {
                    None => None,
                    Some(h) => self.session_position(h),
                }
            },
        }
    }

    /// Where the session of a channel is, if it is going on.
    fn active_position(&self, f: FrontendId, c: ChannelId) -> (r: Option<usize>)
        requires
            self@.wf(),
        ensures
            match r {
                Some(i) => i < self@.sessions.len() && self.sessions@[i as int]@
                    == self@.sessions[i as int] && self@.active(f, c) == Some(
                    self@.sessions[i as int].handle,
                ),
                None => self@.active(f, c) is None,
            },
    {
        match self.bound_position(f, c) {
            None => None,
            Some(i) => {
                proof {
                    lemma_session_at(self@.sessions, i as int, |s: SessionView| s);
                }
                if self.sessions[i].can_end() {
                    Some(i)
                } else {
                    None
                }
            },
        }
    }

    /// Starts the session of a channel, or goes on with the one it has.
    pub fn start_session(
        &mut self,
        frontend_id: FrontendId,
        channel_id: ChannelId,
        project: Option<String>,
        task_type: Option<String>,
        now_millis: u64,
    ) -> (r: SessionHandle)
        requires
            old(self)@.wf(),
            old(self).handle_gen < u64::MAX,
        ensures
            final(self)@.wf(),
            match old(self)@.active(frontend_id, channel_id) {
                Some(h) => r == h && final(self)@ == old(self)@,
                None => r == SessionHandle(old(self).handle_gen as u128) && final(self)@ == old(
                    self,
                )@.with_new_session(
                    frontend_id,
                    channel_id,
                    opt_view(project),
                    opt_view(task_type),
                    Seq::empty(),
                    now_millis,
                ),
            },
    {
        if let Some(i) = self.bound_position(frontend_id, channel_id) {
            proof {
                lemma_session_at(self@.sessions, i as int, |x: SessionView| x);
            }
            if !self.sessions[i].status.is_terminal() {
                return self.sessions[i].handle;
            }
        }
        self.open_bound(frontend_id, channel_id, project, task_type, Vec::new(), now_millis)
    }

    fn open_bound(
        &mut self,
        frontend_id: FrontendId,
        channel_id: ChannelId,
        project: Option<String>,
        task_type: Option<String>,
        technologies: Vec<String>,
        now_millis: u64,
    ) -> (r: SessionHandle)
        requires
            old(self)@.wf(),
            old(self).handle_gen < u64::MAX,
        ensures
            final(self)@.wf(),
            r == SessionHandle(old(self).handle_gen as u128),
            final(self)@ == old(self)@.with_new_session(
                frontend_id,
                channel_id,
                opt_view(project),
                opt_view(task_type),
                views(technologies@),
                now_millis,
            ),
            technologies@.len() == 0 ==> final(self)@ == old(self)@.with_new_session(
                frontend_id,
                channel_id,
                opt_view(project),
                opt_view(task_type),
                Seq::empty(),
                now_millis,
            ),
    {
        proof {
            if technologies@.len() == 0 {
                assert(views(technologies@) =~= Seq::empty());
            }
        }
        let handle = self.next_handle();
        let session = open_session(
            handle,
            channel_id,
            project,
            task_type,
            technologies,
            now_millis,
        );
        self.put_session(session);
        self.put_channel(
            ChannelBinding {
                frontend_id,
                channel_id,
                session: Some(handle),
                lease: None,
                explicit: false,
            },
        );
        handle
    }

    /// Binds a session that the frontend chose to a channel.
    pub fn bind_native_session(
        &mut self,
        frontend_id: FrontendId,
        channel_id: ChannelId,
        handle: SessionHandle,
    )
        requires
            old(self)@.wf(),
        ensures
            final(self)@.wf(),
            final(self)@ == (RegistryView {
                channels: with_channel(
                    old(self)@.channels,
                    ChannelBinding {
                        frontend_id,
                        channel_id,
                        session: Some(handle),
                        lease: None,
                        explicit: true,
                    },
                ),
                sessions: if has_session(old(self)@.sessions, handle) {
                    old(self)@.sessions
                } else {
                    old(self)@.sessions.push(
                        fresh_session(handle, channel_id, None, None, Seq::empty(), 0),
                    )
                },
                ..old(self)@
            }),
    {
        self.put_channel(
            ChannelBinding {
                frontend_id,
                channel_id,
                session: Some(handle),
                lease: None,
                explicit: true,
            },
        );
        if self.session_position(handle).is_none() {
            let session = open_session(handle, channel_id, None, None, Vec::new(), 0);
            proof {
                assert(views(Seq::<String>::empty()) =~= Seq::<Seq<char>>::empty());
            }
            self.put_session(session);
        }
    }

    /// Gives up the channel's session, if it is going on, and starts another.
    pub fn start_legacy_session(
        &mut self,
        frontend_id: FrontendId,
        channel_id: ChannelId,
        task_type: String,
        technologies: Vec<String>,
        now_millis: u64,
    ) -> (r: SessionHandle)
        requires
            old(self)@.wf(),
            old(self).handle_gen < u64::MAX,
        ensures
            final(self)@.wf(),
            r == SessionHandle(old(self).handle_gen as u128),
            final(self)@ == old(self)@.with_abandoned(
                frontend_id,
                channel_id,
                now_millis,
            ).with_new_session(
                frontend_id,
                channel_id,
                None,
                Some(task_type@),
                views(technologies@),
                now_millis,
            ),
    {
        if let Some(i) = self.bound_position(frontend_id, channel_id) {
            let ghost before = self.sessions@;
            let ghost change = |s: SessionView|
                abandoned(s, Some(TaskOutcome::Abandoned), now_millis);
            proof {
                lemma_session_at(self@.sessions, i as int, change);
            }
            if self.sessions[i].can_end() {
                let s = &mut self.sessions[i];
                s.status = SessionStatus::Abandoned;
                s.outcome = Some(TaskOutcome::Abandoned);
                s.ended_at = Some(Instant::new(now_millis));
                proof {
                    assert(views(self.sessions@) =~= views(before).update(
                        i as int,
                        change(views(before)[i as int]),
                    ));
                }
            }
        }
        self.open_bound(
            frontend_id,
            channel_id,
            None,
            Some(task_type),
            technologies,
            now_millis,
        )
    }

    /// Records an attempt in the channel's session, and gives the session. Without
    /// a session that is going on there is none to give, and nothing is recorded.
    pub fn record_attempt(
        &mut self,
        frontend_id: FrontendId,
        channel_id: ChannelId,
        attempt: Attempt,
    ) -> (r: Option<SessionHandle>)
        requires
            old(self)@.wf(),
        ensures
            final(self)@.wf(),
            r == old(self)@.active(frontend_id, channel_id),
            final(self)@ == old(self)@.with_active_change(
                frontend_id,
                channel_id,
                |s: SessionView| SessionView { attempts: s.attempts.push(attempt@), ..s },
            ),
    {
        match self.active_position(frontend_id, channel_id) {
            None => None,
            Some(i) => {
                let ghost before = self.sessions@;
                let ghost added = attempt@;
                let ghost change = |s: SessionView|
                    SessionView { attempts: s.attempts.push(added), ..s };
                proof {
                    lemma_session_at(self@.sessions, i as int, change);
                }
                let handle = self.sessions[i].handle;
                let ghost attempts = self.sessions@[i as int].attempts@;
                self.sessions[i].attempts.push(attempt);
                proof {
                    assert(views(self.sessions@[i as int].attempts@) =~= views(attempts).push(
                        added,
                    ));
                    assert(views(self.sessions@) =~= views(before).update(
                        i as int,
                        change(views(before)[i as int]),
                    ));
                }
                Some(handle)
            },
        }
    }

    /// Notes that a guide was practised in the channel's session, if one is going
    /// on.
    pub fn track_guide_used(
        &mut self,
        frontend_id: FrontendId,
        channel_id: ChannelId,
        guide: &str,
    )
        requires
            old(self)@.wf(),
        ensures
            final(self)@.wf(),
            final(self)@ == old(self)@.with_active_change(
                frontend_id,
                channel_id,
                |s: SessionView|
                    SessionView {
                        guides_used: with_text(s.guides_used, lowercase(guide@)),
                        ..s
                    },
            ),
    {
        if let Some(i) = self.active_position(frontend_id, channel_id) {
            let ghost before = self.sessions@;
            let ghost change = |s: SessionView|
                SessionView { guides_used: with_text(s.guides_used, lowercase(guide@)), ..s };
            proof {
                lemma_session_at(self@.sessions, i as int, change);
            }
            let name = lower(guide);
            add_text(&mut self.sessions[i].guides_used, name.as_str());
            proof {
                assert(views(self.sessions@) =~= views(before).update(
                    i as int,
                    change(views(before)[i as int]),
                ));
            }
        }
    }

    /// Notes that memories were read in the channel's session, if one is going
    /// on.
    pub fn track_memories_read(
        &mut self,
        frontend_id: FrontendId,
        channel_id: ChannelId,
        ids: &Vec<String>,
    )
        requires
            old(self)@.wf(),
        ensures
            final(self)@.wf(),
            final(self)@ == old(self)@.with_active_change(
                frontend_id,
                channel_id,
                |s: SessionView|
                    SessionView { memories_read: with_texts(s.memories_read, views(ids@)), ..s },
            ),
    {
        if let Some(i) = self.active_position(frontend_id, channel_id) {
            let ghost before = self.sessions@;
            let ghost change = |s: SessionView|
                SessionView { memories_read: with_texts(s.memories_read, views(ids@)), ..s };
            proof {
                lemma_session_at(self@.sessions, i as int, change);
            }
            add_texts(&mut self.sessions[i].memories_read, ids);
            proof {
                assert(views(self.sessions@) =~= views(before).update(
                    i as int,
                    change(views(before)[i as int]),
                ));
            }
        }
    }

    /// Notes that memories were created in the channel's session, if one is going
    /// on.
    pub fn track_memories_created(
        &mut self,
        frontend_id: FrontendId,
        channel_id: ChannelId,
        ids: &Vec<String>,
    )
        requires
            old(self)@.wf(),
        ensures
            final(self)@.wf(),
            final(self)@ == old(self)@.with_active_change(
                frontend_id,
                channel_id,
                |s: SessionView|
                    SessionView {
                        memories_created: with_texts(s.memories_created, views(ids@)),
                        ..s
                    },
            ),
    {
        if let Some(i) = self.active_position(frontend_id, channel_id) {
            let ghost before = self.sessions@;
            let ghost change = |s: SessionView|
                SessionView { memories_created: with_texts(s.memories_created, views(ids@)), ..s };
            proof {
                lemma_session_at(self@.sessions, i as int, change);
            }
            add_texts(&mut self.sessions[i].memories_created, ids);
            proof {
                assert(views(self.sessions@) =~= views(before).update(
                    i as int,
                    change(views(before)[i as int]),
                ));
            }
        }
    }

    /// Lowers the confidence of every attempt.
    pub fn decay_attempts(&mut self, delta: Score)
        ensures
            final(self)@ == (RegistryView {
                sessions: old(self)@.sessions.map_values(
                    |s: SessionView|
                        changed_attempts(
                            s,
                            |a: AttemptView|
                                AttemptView { confidence: a.confidence.down(delta), ..a },
                        ),
                ),
                ..old(self)@
            }),
            old(self)@.wf() ==> final(self)@.wf(),
    {
        let ghost lowered = |a: AttemptView|
            AttemptView { confidence: a.confidence.down(delta), ..a };
        let ghost change = |s: SessionView| changed_attempts(s, lowered);
        let ghost start = views(self.sessions@);
        let mut i: usize = 0;
        while i < self.sessions.len()
            invariant
                i <= self.sessions.len(),
                self.channels == old(self).channels,
                self.handle_gen == old(self).handle_gen,
                start == old(self)@.sessions,
                self.sessions@.len() == start.len(),
                lowered == (|a: AttemptView|
                    AttemptView { confidence: a.confidence.down(delta), ..a }),
                change == (|s: SessionView| changed_attempts(s, lowered)),
                forall|j: int| 0 <= j < i ==> (#[trigger] self.sessions@[j])@ == change(start[j]),
                forall|j: int|
                    i <= j < start.len() ==> (#[trigger] self.sessions@[j])@ == start[j],
            decreases self.sessions.len() - i,
        {
            lower_attempts(&mut self.sessions[i], delta);
            i += 1;
        }
        proof {
            assert(views(self.sessions@) =~= start.map_values(change));
            if old(self)@.wf() {
                assert forall|x: int, y: int| 0 <= x < y < self@.sessions.len() implies (
                #[trigger] self@.sessions[x]).handle != (#[trigger] self@.sessions[y]).handle by {
                    assert(start[x].handle != start[y].handle);
                }
            }
        }
    }

    /// Raises the confidence of an attempt and notes that it was looked at.
    pub fn boost_attempt(&mut self, handle: SessionHandle, seq: u32, delta: Score, now: u64)
        requires
            old(self)@.wf(),
            old(self)@.room(1),
        ensures
            final(self)@.wf(),
            final(self)@ == (if has_session(old(self)@.sessions, handle) {
                old(self)@.with_change(
                    handle,
                    |s: SessionView|
                        changed_attempt(
                            s,
                            seq,
                            |a: AttemptView| touched(a, a.confidence.up(delta), now),
                        ),
                )
            } else {
                old(self)@
            }),
    {
        self.touch_attempt(handle, seq, delta, true, now);
        proof {
            let up = |a: AttemptView| touched(a, a.confidence.up(delta), now);
            let moved = |a: AttemptView|
                touched(
                    a,
                    if true {
                        a.confidence.up(delta)
                    } else {
                        a.confidence.down(delta)
                    },
                    now,
                );
            assert(up =~= moved);
            assert((|s: SessionView| changed_attempt(s, seq, up)) =~= (|s: SessionView|
                changed_attempt(s, seq, moved)));
        }
    }

    /// Lowers the confidence of an attempt and notes that it was looked at.
    pub fn penalize_attempt(&mut self, handle: SessionHandle, seq: u32, delta: Score, now: u64)
        requires
            old(self)@.wf(),
            old(self)@.room(1),
        ensures
            final(self)@.wf(),
            final(self)@ == (if has_session(old(self)@.sessions, handle) {
                old(self)@.with_change(
                    handle,
                    |s: SessionView|
                        changed_attempt(
                            s,
                            seq,
                            |a: AttemptView| touched(a, a.confidence.down(delta), now),
                        ),
                )
            } else {
                old(self)@
            }),
    {
        self.touch_attempt(handle, seq, delta, false, now);
        proof {
            let down = |a: AttemptView| touched(a, a.confidence.down(delta), now);
            let moved = |a: AttemptView|
                touched(
                    a,
                    if false {
                        a.confidence.up(delta)
                    } else {
                        a.confidence.down(delta)
                    },
                    now,
                );
            assert(down =~= moved);
            assert((|s: SessionView| changed_attempt(s, seq, down)) =~= (|s: SessionView|
                changed_attempt(s, seq, moved)));
        }
    }

    fn touch_attempt(
        &mut self,
        handle: SessionHandle,
        seq: u32,
        delta: Score,
        raise: bool,
        now: u64,
    )
        requires
            old(self)@.wf(),
            old(self)@.room(1),
        ensures
            final(self)@.wf(),
            final(self)@ == (if has_session(old(self)@.sessions, handle) {
                old(self)@.with_change(
                    handle,
                    |s: SessionView|
                        changed_attempt(
                            s,
                            seq,
                            |a: AttemptView|
                                touched(
                                    a,
                                    if raise {
                                        a.confidence.up(delta)
                                    } else {
                                        a.confidence.down(delta)
                                    },
                                    now,
                                ),
                        ),
                )
            } else {
                old(self)@
            }),
    {
        let ghost moved = |a: AttemptView|
            touched(
                a,
                if raise {
                    a.confidence.up(delta)
                } else {
                    a.confidence.down(delta)
                },
                now,
            );
        let ghost change = |s: SessionView| changed_attempt(s, seq, moved);
        if let Some(i) = self.session_position(handle) {
            let ghost before = self.sessions@;
            proof {
                lemma_session_at(self@.sessions, i as int, change);
                assert forall|j: int| 0 <= j < before[i as int]@.attempts.len() implies (
                #[trigger] before[i as int]@.attempts[j]).access_count < u64::MAX by {
                    assert(self@.sessions[i as int].attempts[j].access_count + 1 <= u64::MAX);
                }
            }
            touch_one(&mut self.sessions[i], seq, delta, raise, now);
            proof {
                assert(views(self.sessions@) =~= views(before).update(
                    i as int,
                    change(views(before)[i as int]),
                ));
            }
        }
    }

    /// Copies of all sessions, oldest first.
    pub fn all_sessions_owned(&self) -> (r: Vec<Session>)
        ensures
            views(r@) == self@.sessions,
    {
        clone_all(&self.sessions)
    }

    /// Ends the channel's session, and no other. One that is over stays as it
    /// is.
    pub fn end_session(
        &mut self,
        frontend_id: FrontendId,
        channel_id: ChannelId,
        outcome: TaskOutcome,
        final_approach: Option<String>,
        lessons: Vec<String>,
        now_millis: u64,
    ) -> (r: Option<SessionHandle>)
        requires
            old(self)@.wf(),
        ensures
            final(self)@.wf(),
            r == old(self)@.bound(frontend_id, channel_id),
            final(self)@ == (match old(self)@.active(frontend_id, channel_id) {
                Some(h) => old(self)@.with_change(
                    h,
                    |s: SessionView|
                        ended(s, outcome, opt_view(final_approach), views(lessons@), now_millis),
                ),
                None => old(self)@,
            }),
    {
        match self.bound_position(frontend_id, channel_id) {
            None => None,
            Some(i) => {
                let ghost before = self.sessions@;
                let ghost change = |s: SessionView|
                    ended(s, outcome, opt_view(final_approach), views(lessons@), now_millis);
                proof {
                    lemma_session_at(self@.sessions, i as int, change);
                }
                let handle = self.sessions[i].handle;
                if self.sessions[i].can_end() {
                    end_one(&mut self.sessions[i], outcome, &final_approach, &lessons, now_millis);
                    proof {
                        assert(views(self.sessions@) =~= views(before).update(
                            i as int,
                            change(views(before)[i as int]),
                        ));
                    }
                }
                Some(handle)
            },
        }
    }

    /// The session of a channel that is going on.
    pub fn resolve_session(&self, frontend_id: FrontendId, channel_id: ChannelId) -> (r: Option<
        SessionHandle,
    >)
        requires
            self@.wf(),
        ensures
            r == self@.active(frontend_id, channel_id),
    {
        match self.bound_position(frontend_id, channel_id) {
            None => None,
            Some(i) => {
                proof {
                    lemma_session_at(self@.sessions, i as int, |x: SessionView| x);
                }
                if self.sessions[i].status.is_terminal() {
                    None
                } else {
                    Some(self.sessions[i].handle)
                }
            },
        }
    }

    /// Whether the frontend chose the channel's session itself.
    pub fn is_explicit(&self, frontend_id: FrontendId, channel_id: ChannelId) -> (r: bool)
        requires
            self@.wf(),
        ensures
            r == (has_channel(self@.channels, frontend_id, channel_id) && channel_of(
                self@.channels,
                frontend_id,
                channel_id,
            ).explicit),
    {
        match self.channel_position(frontend_id, channel_id) {
            None => false,
            Some(i) => {
                proof {
                    lemma_channel_at(self@.channels, i as int);
                }
                self.channels[i].explicit
            },
        }
    }

    /// Gives up the sessions whose leases have run out, and tells which.
    pub fn expire_leases(&mut self, now_millis: u64) -> (r: Vec<SessionHandle>)
        requires
            old(self)@.wf(),
        ensures
            final(self)@.wf(),
            final(self)@ == old(self)@.expire_first(
                old(self)@.channels.len() as int,
                now_millis,
            ).0,
            r@ == old(self)@.expire_first(old(self)@.channels.len() as int, now_millis).1,
    {
        let mut given_up: Vec<SessionHandle> = Vec::new();
        let ghost start = self@;
        let mut k: usize = 0;
        proof {
            assert(given_up@ =~= Seq::empty());
        }
        while k < self.channels.len()
            invariant
                k <= self.channels@.len(),
                self@.channels == start.channels,
                self@.wf(),
                start.wf(),
                self@ == start.expire_first(k as int, now_millis).0,
                given_up@ == start.expire_first(k as int, now_millis).1,
            decreases self.channels@.len() - k,
        {
            let b = self.channels[k];
            let ghost prior = self@;
            if let Some(lease) = b.lease {
                if lease.expires_at <= now_millis {
                    if let Some(h) = b.session {
                        if let Some(i) = self.session_position(h) {
                            let ghost before = self.sessions@;
                            let ghost change = |s: SessionView|
                                abandoned(s, s.outcome, now_millis);
                            proof {
                                lemma_session_at(self@.sessions, i as int, change);
                            }
                            if self.sessions[i].can_end() {
                                let s = &mut self.sessions[i];
                                s.status = SessionStatus::Abandoned;
                                s.ended_at = Some(Instant::new(now_millis));
                                given_up.push(h);
                                proof {
                                    assert(views(self.sessions@) =~= views(before).update(
                                        i as int,
                                        change(views(before)[i as int]),
                                    ));
                                    assert(self@.sessions == edited_session(
                                        prior.sessions,
                                        h,
                                        change,
                                    ));
                                }
                            }
                        }
                    }
                }
            }
            k += 1;
        }
        given_up
    }

    /// Sets the lease of a channel, if it is registered.
    pub fn set_lease(&mut self, frontend_id: FrontendId, channel_id: ChannelId, lease: Lease)
        requires
            old(self)@.wf(),
        ensures
            final(self)@.wf(),
            final(self)@ == (if has_channel(old(self)@.channels, frontend_id, channel_id) {
                RegistryView {
                    channels: with_channel(
                        old(self)@.channels,
                        ChannelBinding {
                            lease: Some(lease),
                            ..channel_of(old(self)@.channels, frontend_id, channel_id)
                        },
                    ),
                    ..old(self)@
                }
            } else {
                old(self)@
            }),
    {
        if let Some(i) = self.channel_position(frontend_id, channel_id) {
            let mut b = self.channels[i];
            proof {
                lemma_channel_at(self@.channels, i as int);
            }
            b.lease = Some(lease);
            proof {
                lemma_with_channel_at(self@.channels, i as int, b);
            }
            self.channels.set(i, b);
        }
    }

    pub fn channel_count(&self) -> (r: usize)
        ensures
            r == self@.channels.len(),
    {
        self.channels.len()
    }

    pub fn session_count(&self) -> (r: usize)
        ensures
            r == self@.sessions.len(),
    {
        self.sessions.len()
    }

    /// The session with a handle.
    pub fn session(&self, handle: SessionHandle) -> (r: Option<&Session>)
        requires
            self@.wf(),
        ensures
            match r {
                Some(s) => has_session(self@.sessions, handle) && s@ == session_of(
                    self@.sessions,
                    handle,
                ),
                None => !has_session(self@.sessions, handle),
            },
    {
        match self.session_position(handle) {
            Some(i) => {
                proof {
                    lemma_session_at(self@.sessions, i as int, |x: SessionView| x);
                }
                Some(&self.sessions[i])
            },
            None => None,
        }
    }

    /// Notes the approach that a session sets out with.
    pub fn set_initial_approach(&mut self, handle: SessionHandle, approach: &Option<String>)
        requires
            old(self)@.wf(),
        ensures
            final(self)@.wf(),
            final(self)@ == (if has_session(old(self)@.sessions, handle) {
                old(self)@.with_change(
                    handle,
                    |s: SessionView| SessionView { initial_approach: opt_view(*approach), ..s },
                )
            } else {
                old(self)@
            }),
    {
        if let Some(i) = self.session_position(handle) {
            let ghost before = self.sessions@;
            let ghost change = |s: SessionView|
                SessionView { initial_approach: opt_view(*approach), ..s };
            proof {
                lemma_session_at(self@.sessions, i as int, change);
            }
            self.sessions[i].initial_approach = approach.clone();
            proof {
                assert(views(self.sessions@) =~= views(before).update(
                    i as int,
                    change(views(before)[i as int]),
                ));
            }
        }
    }

    /// Counts a refinement in a session, and a self-critique if there was one.
    pub fn count_refinement(&mut self, handle: SessionHandle, critique: bool)
        requires
            old(self)@.wf(),
            old(self)@.room(1),
        ensures
            final(self)@.wf(),
            final(self)@ == (if has_session(old(self)@.sessions, handle) {
                old(self)@.with_change(handle, |s: SessionView| refined(s, critique))
            } else {
                old(self)@
            }),
    {
        if let Some(i) = self.session_position(handle) {
            let ghost before = self.sessions@;
            let ghost change = |s: SessionView| refined(s, critique);
            proof {
                lemma_session_at(self@.sessions, i as int, change);
                assert(self@.sessions[i as int].refinement_attempts + 1 <= u32::MAX);
            }
            let s = &mut self.sessions[i];
            s.refinement_attempts = s.refinement_attempts + 1;
            if critique {
                s.self_critique_count = s.self_critique_count + 1;
            }
            proof {
                assert(views(self.sessions@) =~= views(before).update(
                    i as int,
                    change(views(before)[i as int]),
                ));
            }
        }
    }

    /// What is to be kept over a restart.
    pub fn snapshot(&self) -> (r: RegistrySnapshot)
        ensures
            r.handle_gen == self@.handle_gen,
            r.channels@ == self@.channels,
            views(r.sessions@) == self@.sessions,
    {
        RegistrySnapshot {
            handle_gen: self.handle_gen,
            channels: clone_bindings(&self.channels),
            sessions: clone_all(&self.sessions),
        }
    }

    /// The registry that was kept over a restart; an empty one where none was.
    /// Of two entries of one channel, or of one handle, the later counts.
    pub fn restore(kept: Option<RegistrySnapshot>) -> (r: Self)
        ensures
            r@.wf(),
            match kept {
                None => r@ == (RegistryView {
                    channels: Seq::empty(),
                    sessions: Seq::empty(),
                    handle_gen: 1,
                }),
                Some(k) => r@ == (RegistryView {
                    channels: all_channels(k.channels@),
                    sessions: all_sessions(views(k.sessions@)),
                    handle_gen: k.handle_gen,
                }),
            },
    {
        match kept {
            None => FrontendRegistry::new(),
            Some(k) => {
                let mut r = FrontendRegistry::new();
                r.handle_gen = k.handle_gen;
                let mut i: usize = 0;
                proof {
                    assert(k.channels@.take(0) =~= Seq::empty());
                    assert(views(k.sessions@).take(0) =~= Seq::empty());
                }
                while i < k.channels.len()
                    invariant
                        i <= k.channels@.len(),
                        r@.wf(),
                        r@ == (RegistryView {
                            channels: all_channels(k.channels@.take(i as int)),
                            sessions: Seq::empty(),
                            handle_gen: k.handle_gen,
                        }),
                    decreases k.channels@.len() - i,
                {
                    r.put_channel(k.channels[i]);
                    proof {
                        let t = k.channels@.take(i + 1);
                        assert(t.drop_last() =~= k.channels@.take(i as int));
                        assert(t.last() == k.channels@[i as int]);
                    }
                    i += 1;
                }
                proof {
                    assert(k.channels@.take(k.channels@.len() as int) =~= k.channels@);
                }
                let mut j: usize = 0;
                while j < k.sessions.len()
                    invariant
                        j <= k.sessions@.len(),
                        r@.wf(),
                        r@ == (RegistryView {
                            channels: all_channels(k.channels@),
                            sessions: all_sessions(views(k.sessions@).take(j as int)),
                            handle_gen: k.handle_gen,
                        }),
                    decreases k.sessions@.len() - j,
                {
                    r.put_session(k.sessions[j].clone());
                    proof {
                        let t = views(k.sessions@).take(j + 1);
                        assert(t.drop_last() =~= views(k.sessions@).take(j as int));
                        assert(t.last() == k.sessions@[j as int]@);
                    }
                    j += 1;
                }
                proof {
                    assert(views(k.sessions@).take(k.sessions@.len() as int) =~= views(k.sessions@));
                }
                r
            },
        }
    }

    /// Whether handles can still be given out and attempts still be counted.
    pub fn has_room(&self, n: u32) -> (r: bool)
        ensures
            r == self@.room(n as int),
    {
        if self.handle_gen > u64::MAX - n as u64 {
            return false;
        }
        let mut i: usize = 0;
        while i < self.sessions.len()
            invariant
                i <= self.sessions.len(),
                forall|x: int, y: int|
                    0 <= x < i && 0 <= y < self@.sessions[x].attempts.len()
                        ==> #[trigger] self@.sessions[x].attempts[y].access_count + n <= u64::MAX,
                forall|x: int|
                    0 <= x < i ==> (#[trigger] self@.sessions[x]).refinement_attempts + n
                        <= u32::MAX && self@.sessions[x].self_critique_count + n <= u32::MAX
                        && self@.sessions[x].attempts.len() + n <= u32::MAX,
            decreases self.sessions.len() - i,
        {
            proof {
                assert(self@.sessions[i as int] == self.sessions@[i as int]@);
            }
            let s = &self.sessions[i];
            let most: u32 = u32::MAX - n;
            if s.refinement_attempts > most || s.self_critique_count > most
                || s.attempts.len() as u64 > most as u64 {
                return false;
            }
            let mut j: usize = 0;
            while j < s.attempts.len()
                invariant
                    i < self.sessions@.len(),
                    self@.sessions[i as int] == self.sessions@[i as int]@,
                    *s == self.sessions@[i as int],
                    j <= s.attempts.len(),
                    forall|y: int|
                        0 <= y < j ==> #[trigger] self@.sessions[i as int].attempts[y].access_count
                            + n <= u64::MAX,
                decreases s.attempts.len() - j,
            {
                proof {
                    assert(self@.sessions[i as int].attempts[j as int] == s.attempts@[j as int]@);
                }
                if s.attempts[j].access_count > u64::MAX - n as u64 {
                    proof {
                        assert(self@.sessions[i as int].attempts[j as int].access_count + n
                            > u64::MAX);
                    }
                    return false;
                }
                j += 1;
            }
            i += 1;
        }
        true
    }
}

/// A session in which an approach was refined.
pub open spec fn refined(s: SessionView, critique: bool) -> SessionView {
    SessionView {
        refinement_attempts: (s.refinement_attempts + 1) as u32,
        self_critique_count: if critique {
            (s.self_critique_count + 1) as u32
        } else {
            s.self_critique_count
        },
        ..s
    }
}

/// What is kept of a registry over a restart.
#[derive(Debug)]
pub struct RegistrySnapshot {
    pub handle_gen: u64,
    pub channels: Vec<ChannelBinding>,
    pub sessions: Vec<Session>,
}

/// Bindings put in one after the other.
pub open spec fn all_channels(bs: Seq<ChannelBinding>) -> Seq<ChannelBinding>
    decreases bs.len(),
{
    if bs.len() == 0 {
        Seq::empty()
    } else {
        with_channel(all_channels(bs.drop_last()), bs.last())
    }
}

/// Sessions put in one after the other.
pub open spec fn all_sessions(ss: Seq<SessionView>) -> Seq<SessionView>
    decreases ss.len(),
{
    if ss.len() == 0 {
        Seq::empty()
    } else {
        with_session(all_sessions(ss.drop_last()), ss.last())
    }
}

fn clone_bindings(v: &Vec<ChannelBinding>) -> (r: Vec<ChannelBinding>)
    ensures
        r@ == v@,
{
    let r = v.clone();
    proof {
        assert forall|i: int| 0 <= i < v@.len() implies r@[i] == v@[i] by {
            assert(cloned::<ChannelBinding>(v@[i], r@[i]));
        }
        assert(r@ =~= v@);
    }
    r
}

fn lower_attempts(s: &mut Session, delta: Score)
    ensures
        final(s)@ == changed_attempts(
            old(s)@,
            |a: AttemptView| AttemptView { confidence: a.confidence.down(delta), ..a },
        ),
{
    let ghost change = |a: AttemptView| AttemptView { confidence: a.confidence.down(delta), ..a };
    let ghost start = s@;
    let mut j: usize = 0;
    while j < s.attempts.len()
        invariant
            j <= s.attempts.len(),
            change == (|a: AttemptView|
                AttemptView { confidence: a.confidence.down(delta), ..a }),
            s@ == (SessionView { attempts: views(s.attempts@), ..start }),
            s.attempts@.len() == start.attempts.len(),
            forall|k: int|
                0 <= k < j ==> (#[trigger] s.attempts@[k])@ == change(start.attempts[k]),
            forall|k: int|
                j <= k < start.attempts.len() ==> (#[trigger] s.attempts@[k])@ == start.attempts[k],
        decreases s.attempts.len() - j,
    {
        let c = s.attempts[j].confidence.lowered(delta);
        s.attempts[j].confidence = c;
        j += 1;
    }
    proof {
        assert(views(s.attempts@) =~= start.attempts.map_values(change));
    }
}

fn touch_one(s: &mut Session, seq: u32, delta: Score, raise: bool, now: u64)
    requires
        forall|j: int|
            0 <= j < old(s)@.attempts.len() ==> (#[trigger] old(s)@.attempts[j]).access_count
                < u64::MAX,
    ensures
        final(s)@ == changed_attempt(
            old(s)@,
            seq,
            |a: AttemptView|
                touched(
                    a,
                    if raise {
                        a.confidence.up(delta)
                    } else {
                        a.confidence.down(delta)
                    },
                    now,
                ),
        ),
{
    let ghost start = s@;
    let mut i: usize = 0;
    while i < s.attempts.len() && s.attempts[i].seq != seq
        invariant
            i <= s.attempts.len(),
            s@ == start,
            attempt_place(start.attempts, seq, 0) == attempt_place(start.attempts, seq, i as int),
        decreases s.attempts.len() - i,
    {
        proof {
            assert(start.attempts[i as int] == s.attempts@[i as int]@);
        }
        i += 1;
    }
    if i < s.attempts.len() {
        let ghost before = s.attempts@;
        proof {
            assert(start.attempts[i as int] == s.attempts@[i as int]@);
            assert(start.attempts[i as int].access_count < u64::MAX);
        }
        let c = if raise {
            s.attempts[i].confidence.raised(delta)
        } else {
            s.attempts[i].confidence.lowered(delta)
        };
        let a = &mut s.attempts[i];
        a.confidence = c;
        a.access_count = a.access_count + 1;
        a.last_accessed_at = Some(Instant::new(now));
        proof {
            assert(views(s.attempts@) =~= start.attempts.update(i as int, s.attempts@[i as int]@));
        }
    }
}

impl Default for FrontendRegistry {
    fn default() -> (r: Self)
        ensures
            r@.wf(),
            r@.channels.len() == 0,
            r@.sessions.len() == 0,
            r@.handle_gen == 1,
    {
        FrontendRegistry::new()
    }
}

} // verus!
