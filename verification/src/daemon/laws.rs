//! What holds of the channels and sessions over several operations.

use crate::daemon::registry::{
    abandoned, all_channels, all_sessions, channel_of, has_channel, is_channel, lemma_channel_at, lemma_with_channel_at, unique_channels,
    with_channel, with_session, ChannelBinding, RegistryView,
};
use crate::domain::id::{ChannelId, FrontendId, SessionHandle};
use crate::domain::interpreter::lemma_session_at;
use crate::domain::session::{SessionStatus, SessionView};
use crate::domain::state::{edited_session, fresh_session, has_session, session_of, unique_sessions};
use vstd::prelude::*;

verus! {

/// A change to one session leaves every other session as it is, and every
/// channel bound to what it was bound to. Ending the session of one channel
/// is such a change: it cannot end that of another.
pub proof fn law_sessions_are_isolated(
    r: RegistryView,
    h: SessionHandle,
    change: spec_fn(SessionView) -> SessionView,
    other: SessionHandle,
)
    requires
        r.wf(),
        other != h,
        forall|s: SessionView| (#[trigger] change(s)).handle == s.handle,
    ensures
        r.with_change(h, change).channels == r.channels,
        has_session(r.with_change(h, change).sessions, other) == has_session(r.sessions, other),
        has_session(r.sessions, other) ==> session_of(r.with_change(h, change).sessions, other)
            == session_of(r.sessions, other),
{
    lemma_edit_keeps_handles(r.sessions, h, change);
    let after = r.with_change(h, change).sessions;
    if has_session(r.sessions, other) {
        let i = choose|i: int| 0 <= i < r.sessions.len() && (#[trigger] r.sessions[i]).handle
            == other;
        lemma_session_at(r.sessions, i, change);
        assert(after[i] == r.sessions[i]);
        lemma_session_at(after, i, change);
    }
    if has_session(after, other) {
        let i = choose|i: int| 0 <= i < after.len() && (#[trigger] after[i]).handle == other;
        assert(r.sessions[i].handle == other);
    }
}

proof fn lemma_edit_keeps_handles(
    ss: Seq<SessionView>,
    h: SessionHandle,
    change: spec_fn(SessionView) -> SessionView,
)
    requires
        unique_sessions(ss),
        forall|s: SessionView| (#[trigger] change(s)).handle == s.handle,
    ensures
        edited_session(ss, h, change).len() == ss.len(),
        unique_sessions(edited_session(ss, h, change)),
        forall|i: int|
            0 <= i < ss.len() ==> (#[trigger] edited_session(ss, h, change)[i]).handle
                == ss[i].handle,
{
    let e = edited_session(ss, h, change);
    assert forall|i: int| 0 <= i < ss.len() implies (#[trigger] e[i]).handle == ss[i].handle by {
        assert(change(ss[i]).handle == ss[i].handle);
    }
    assert forall|i: int, j: int| 0 <= i < j < e.len() implies (#[trigger] e[i]).handle != (
    #[trigger] e[j]).handle by {
        assert(ss[i].handle != ss[j].handle);
    }
}

pub proof fn lemma_put_session(ss: Seq<SessionView>, s: SessionView)
    requires
        unique_sessions(ss),
    ensures
        unique_sessions(with_session(ss, s)),
        has_session(with_session(ss, s), s.handle),
        session_of(with_session(ss, s), s.handle) == s,
        forall|h: SessionHandle|
            #![trigger has_session(with_session(ss, s), h)]
            h != s.handle ==> has_session(with_session(ss, s), h) == has_session(ss, h),
        forall|h: SessionHandle|
            #![trigger session_of(with_session(ss, s), h)]
            h != s.handle && has_session(ss, h) ==> session_of(with_session(ss, s), h)
                == session_of(ss, h),
{
    let after = with_session(ss, s);
    let put = |x: SessionView| s;
    if has_session(ss, s.handle) {
        let i = choose|i: int| 0 <= i < ss.len() && (#[trigger] ss[i]).handle == s.handle;
        lemma_session_at(ss, i, put);
        assert(after == ss.update(i, s));
        lemma_session_at(after, i, put);
    } else {
        let n = ss.len() as int;
        assert forall|i: int, j: int| 0 <= i < j < after.len() implies (#[trigger] after[i]).handle
            != (#[trigger] after[j]).handle by {
            if j == n {
                assert(ss[i].handle != s.handle);
            }
        }
        assert(after[n] == s);
        lemma_session_at(after, n, put);
    }
    assert forall|h: SessionHandle| h != s.handle implies has_session(after, h) == has_session(
        ss,
        h,
    ) by {
        if has_session(ss, h) {
            let k = choose|k: int| 0 <= k < ss.len() && (#[trigger] ss[k]).handle == h;
            assert(after[k] == ss[k]);
        }
        if has_session(after, h) {
            let k = choose|k: int| 0 <= k < after.len() && (#[trigger] after[k]).handle == h;
            assert(ss[k].handle == h);
        }
    }
    assert forall|h: SessionHandle| h != s.handle && has_session(ss, h) implies session_of(after, h)
        == session_of(ss, h) by {
        let k = choose|k: int| 0 <= k < ss.len() && (#[trigger] ss[k]).handle == h;
        assert(after[k] == ss[k]);
        lemma_session_at(ss, k, put);
        lemma_session_at(after, k, put);
    }
}

pub proof fn lemma_put_channel(bs: Seq<ChannelBinding>, b: ChannelBinding)
    requires
        unique_channels(bs),
    ensures
        unique_channels(with_channel(bs, b)),
        has_channel(with_channel(bs, b), b.frontend_id, b.channel_id),
        channel_of(
            with_channel(bs, b),
            b.frontend_id,
            b.channel_id,
        ) == b,
        forall|f: FrontendId, c: ChannelId|
            #![trigger has_channel(with_channel(bs, b), f, c)]
            !is_channel(b, f, c) ==> has_channel(with_channel(bs, b), f, c) == has_channel(
                bs,
                f,
                c,
            ),
        forall|f: FrontendId, c: ChannelId|
            #![trigger channel_of(with_channel(bs, b), f, c)]
            !is_channel(b, f, c) && has_channel(bs, f, c) ==> channel_of(
                with_channel(bs, b),
                f,
                c,
            ) == channel_of(bs, f, c),
{
    let after = with_channel(bs, b);
    if has_channel(bs, b.frontend_id, b.channel_id) {
        let i = choose|i: int|
            0 <= i < bs.len() && #[trigger] is_channel(bs[i], b.frontend_id, b.channel_id);
        lemma_with_channel_at(bs, i, b);
        assert(after[i] == b);
        lemma_channel_at(after, i);
    } else {
        let n = bs.len() as int;
        assert forall|x: int, y: int| 0 <= x < y < after.len() implies !((
        #[trigger] after[x]).frontend_id == (#[trigger] after[y]).frontend_id
            && after[x].channel_id == after[y].channel_id) by {
            if y == n {
                assert(!is_channel(bs[x], b.frontend_id, b.channel_id));
            }
        }
        assert(after[n] == b);
        lemma_channel_at(after, n);
    }
    assert forall|f: FrontendId, c: ChannelId| !is_channel(b, f, c) implies has_channel(after, f, c)
        == has_channel(bs, f, c) by {
        if has_channel(bs, f, c) {
            let k = choose|k: int| 0 <= k < bs.len() && #[trigger] is_channel(bs[k], f, c);
            assert(after[k] == bs[k]);
            assert(is_channel(after[k], f, c));
        }
        if has_channel(after, f, c) {
            let k = choose|k: int| 0 <= k < after.len() && #[trigger] is_channel(after[k], f, c);
            assert(is_channel(bs[k], f, c));
        }
    }
    assert forall|f: FrontendId, c: ChannelId|
        !is_channel(b, f, c) && has_channel(
            bs,
            f,
            c,
        ) implies channel_of(after, f, c)
        == channel_of(bs, f, c) by {
        let k = choose|k: int| 0 <= k < bs.len() && #[trigger] is_channel(bs[k], f, c);
        assert(after[k] == bs[k]);
        lemma_channel_at(bs, k);
        lemma_channel_at(after, k);
    }
}

/// A session that was started is the one of its channel, so that starting it
/// again goes on with it.
pub proof fn law_started_session_is_active(
    r: RegistryView,
    f: FrontendId,
    c: ChannelId,
    project: Option<Seq<char>>,
    task_type: Option<Seq<char>>,
    technologies: Seq<Seq<char>>,
    now: u64,
)
    requires
        r.wf(),
    ensures
        r.with_new_session(f, c, project, task_type, technologies, now).active(f, c) == Some(
            SessionHandle(r.handle_gen as u128),
        ),
{
    let h = SessionHandle(r.handle_gen as u128);
    lemma_put_session(
        r.sessions,
        fresh_session(h, c, project, task_type, technologies, now),
    );
    lemma_put_channel(
        r.channels,
        ChannelBinding {
            frontend_id: f,
            channel_id: c,
            session: Some(h),
            lease: None,
            explicit: false,
        },
    );
}

/// Starting a session on one channel leaves the session of every other channel
/// as it was, as long as no other channel is bound to the handle that is given
/// out.
pub proof fn law_start_leaves_other_channels(
    r: RegistryView,
    f: FrontendId,
    c: ChannelId,
    project: Option<Seq<char>>,
    task_type: Option<Seq<char>>,
    technologies: Seq<Seq<char>>,
    now: u64,
    f2: FrontendId,
    c2: ChannelId,
)
    requires
        r.wf(),
        f2 != f || c2 != c,
        has_channel(r.channels, f2, c2) ==> channel_of(
            r.channels,
            f2,
            c2,
        ).session != Some(SessionHandle(r.handle_gen as u128)),
    ensures
        ({
            let after = r.with_new_session(f, c, project, task_type, technologies, now);
            &&& after.bound(f2, c2) == r.bound(f2, c2)
            &&& r.bound(f2, c2) is Some ==> session_of(after.sessions, r.bound(f2, c2)->0)
                == session_of(r.sessions, r.bound(f2, c2)->0)
        }),
{
    let h = SessionHandle(r.handle_gen as u128);
    let b = ChannelBinding {
        frontend_id: f,
        channel_id: c,
        session: Some(h),
        lease: None,
        explicit: false,
    };
    lemma_put_session(
        r.sessions,
        fresh_session(h, c, project, task_type, technologies, now),
    );
    lemma_put_channel(r.channels, b);
    assert(!is_channel(b, f2, c2));
    assert(has_channel(with_channel(r.channels, b), f2, c2) == has_channel(r.channels, f2, c2));
}

/// What was kept of a registry gives it back.
pub proof fn law_restore_gives_back(r: RegistryView)
    requires
        r.wf(),
    ensures
        all_channels(r.channels) == r.channels,
        all_sessions(r.sessions) == r.sessions,
{
    lemma_all_channels(r.channels);
    lemma_all_sessions(r.sessions);
}

proof fn lemma_all_channels(bs: Seq<ChannelBinding>)
    requires
        unique_channels(bs),
    ensures
        all_channels(bs) == bs,
    decreases bs.len(),
{
    if bs.len() > 0 {
        let front = bs.drop_last();
        let last = bs.last();
        assert forall|i: int, j: int| 0 <= i < j < front.len() implies !((
        #[trigger] front[i]).frontend_id == (#[trigger] front[j]).frontend_id
            && front[i].channel_id == front[j].channel_id) by {
            assert(!(bs[i].frontend_id == bs[j].frontend_id && bs[i].channel_id
                == bs[j].channel_id));
        }
        lemma_all_channels(front);
        if has_channel(front, last.frontend_id, last.channel_id) {
            let k = choose|k: int|
                0 <= k < front.len() && #[trigger] is_channel(
                    front[k],
                    last.frontend_id,
                    last.channel_id,
                );
            assert(!(bs[k].frontend_id == bs[bs.len() - 1].frontend_id && bs[k].channel_id
                == bs[bs.len() - 1].channel_id));
        }
        assert(front.push(last) =~= bs);
    } else {
        assert(bs =~= Seq::empty());
    }
}

proof fn lemma_all_sessions(ss: Seq<SessionView>)
    requires
        unique_sessions(ss),
    ensures
        all_sessions(ss) == ss,
    decreases ss.len(),
{
    if ss.len() > 0 {
        let front = ss.drop_last();
        let last = ss.last();
        assert forall|i: int, j: int| 0 <= i < j < front.len() implies (#[trigger] front[i]).handle
            != (#[trigger] front[j]).handle by {
            assert(ss[i].handle != ss[j].handle);
        }
        lemma_all_sessions(front);
        if has_session(front, last.handle) {
            let k = choose|k: int|
                0 <= k < front.len() && (#[trigger] front[k]).handle == last.handle;
            assert(ss[k].handle != ss[ss.len() - 1].handle);
        }
        assert(front.push(last) =~= ss);
    } else {
        assert(ss =~= Seq::empty());
    }
}

/// Leases that run out give up only sessions that are bound to a channel whose
/// lease has run out: every other session stays as it is.
pub proof fn law_expiry_spares_live_leases(r: RegistryView, now: u64, h: SessionHandle)
    requires
        r.wf(),
        has_session(r.sessions, h),
        forall|i: int|
            0 <= i < r.channels.len() && (#[trigger] r.channels[i]).session == Some(h)
                ==> r.channels[i].lease is None || r.channels[i].lease->0.expires_at > now,
    ensures
        ({
            let (after, given_up) = r.expire_first(r.channels.len() as int, now);
            &&& after.channels == r.channels
            &&& has_session(after.sessions, h)
            &&& session_of(after.sessions, h) == session_of(r.sessions, h)
            &&& !given_up.contains(h)
        }),
{
    lemma_expiry_spares(r, r.channels.len() as int, now, h);
}

proof fn lemma_expiry_spares(r: RegistryView, n: int, now: u64, h: SessionHandle)
    requires
        r.wf(),
        0 <= n <= r.channels.len(),
        has_session(r.sessions, h),
        forall|i: int|
            0 <= i < r.channels.len() && (#[trigger] r.channels[i]).session == Some(h)
                ==> r.channels[i].lease is None || r.channels[i].lease->0.expires_at > now,
    ensures
        r.expire_first(n, now).0.wf(),
        r.expire_first(n, now).0.channels == r.channels,
        has_session(r.expire_first(n, now).0.sessions, h),
        session_of(r.expire_first(n, now).0.sessions, h) == session_of(r.sessions, h),
        !r.expire_first(n, now).1.contains(h),
    decreases n,
{
    if n > 0 {
        lemma_expiry_spares(r, n - 1, now, h);
        let (mid, hs) = r.expire_first(n - 1, now);
        let b = r.channels[n - 1];
        if mid.expired(b, now) {
            let g = b.session->0;
            assert(g != h);
            let change = |s: SessionView| abandoned(s, s.outcome, now);
            lemma_edit_keeps_handles(mid.sessions, g, change);
            law_sessions_are_isolated(mid, g, change, h);
            assert forall|k: int| 0 <= k < hs.push(g).len() implies hs.push(g)[k] != h by {
                if k < hs.len() {
                    assert(hs.contains(hs[k]));
                }
            }
        }
    }
}

/// Every session that is given up was going on, and is abandoned afterwards.
pub proof fn law_expired_sessions_are_abandoned(r: RegistryView, now: u64, n: int)
    requires
        r.wf(),
        0 <= n < r.channels.len(),
        r.expired(r.channels[n], now),
    ensures
        session_of(
            r.expire_first(r.channels.len() as int, now).0.sessions,
            r.channels[n].session->0,
        ).status == SessionStatus::Abandoned,
{
    lemma_abandoned_by(r, r.channels.len() as int, now, n);
}

proof fn lemma_abandoned_by(r: RegistryView, m: int, now: u64, n: int)
    requires
        r.wf(),
        0 <= n < r.channels.len(),
        0 <= m <= r.channels.len(),
        r.expired(r.channels[n], now),
    ensures
        r.expire_first(m, now).0.wf(),
        r.expire_first(m, now).0.channels == r.channels,
        has_session(r.expire_first(m, now).0.sessions, r.channels[n].session->0),
        ({
            let s = session_of(r.expire_first(m, now).0.sessions, r.channels[n].session->0);
            &&& n < m ==> s.status == SessionStatus::Abandoned
            &&& s.status == SessionStatus::Abandoned || s == session_of(
                r.sessions,
                r.channels[n].session->0,
            )
        }),
    decreases m,
{
    let h = r.channels[n].session->0;
    if m > 0 {
        lemma_abandoned_by(r, m - 1, now, n);
        let (mid, hs) = r.expire_first(m - 1, now);
        let b = r.channels[m - 1];
        if mid.expired(b, now) {
            let g = b.session->0;
            let change = |s: SessionView| abandoned(s, s.outcome, now);
            lemma_edit_keeps_handles(mid.sessions, g, change);
            if g != h {
                law_sessions_are_isolated(mid, g, change, h);
            } else {
                let i = choose|i: int|
                    0 <= i < mid.sessions.len() && (#[trigger] mid.sessions[i]).handle == h;
                lemma_session_at(mid.sessions, i, change);
                lemma_session_at(edited_session(mid.sessions, g, change), i, change);
            }
        }
    }
}

} // verus!
