//! What holds of every request that is answered and of every connection.

use crate::canonical::repository::{edges_by_id, found, touches};
use crate::daemon::connection::{
    accepted, budgeted, requested, shaken, ActionView, Phase, WireReplyView,
};
use crate::daemon::dispatcher::{handled, DispatcherView};
use crate::daemon::envelope::{
    DomainPayloadView, DomainRequest, HandshakeResponse, IpcEnvelope, IpcResultView,
};
use crate::daemon::limits::{queued_for, QuotaView};
use crate::daemon::namespaces::{fresh_namespace, is_open, issued_to};
use crate::daemon::tools::common::HitView;
use crate::daemon::tools::recall_laws::lemma_by_id;
use crate::domain::command::RetryNamespace;
use crate::domain::id::{EntityId, FrontendId};
use crate::domain::memory::{Instant, MemoryView};
use crate::domain::relation::RelationView;
use crate::domain::session::SessionStatus;
use crate::domain::state::{has_memory, memory_of};
use crate::text::views;
use vstd::prelude::*;

verus! {

/// A request of another protocol is refused and changes nothing.
pub proof fn law_other_protocols_are_refused(
    d: DispatcherView,
    env: IpcEnvelope,
    hits: Seq<HitView>,
)
    requires
        env.protocol_version != 1,
    ensures
        handled(d, env, hits).0 == d,
        handled(d, env, hits).1 is Err,
{
}

/// What is answered is answered under the operation of the request.
pub proof fn law_answers_name_their_operation(
    d: DispatcherView,
    env: IpcEnvelope,
    hits: Seq<HitView>,
)
    ensures
        handled(d, env, hits).1 matches Ok(r) ==> r.operation_id == env.operation_id
            && r.protocol_version == 1 && r.result is Success,
{
}

proof fn lemma_found(ms: Seq<MemoryView>, ids: Seq<EntityId>)
    ensures
        forall|m: MemoryView| #[trigger]
            found(ms, ids).contains(m) <==> exists|i: int|
                0 <= i < ids.len() && has_memory(ms, #[trigger] ids[i]) && memory_of(ms, ids[i])
                    == m,
    decreases ids.len(),
{
    if ids.len() > 0 {
        let front = ids.drop_last();
        lemma_found(ms, front);
        let rest = found(ms, front);
        let all = found(ms, ids);
        assert forall|m: MemoryView| #[trigger] all.contains(m) <==> exists|i: int|
            0 <= i < ids.len() && has_memory(ms, #[trigger] ids[i]) && memory_of(ms, ids[i])
                == m by {
            if all.contains(m) {
                let k = all.index_of(m);
                if k < rest.len() {
                    assert(rest[k] == m);
                    assert(rest.contains(m));
                    let i = choose|i: int|
                        0 <= i < front.len() && has_memory(ms, #[trigger] front[i]) && memory_of(
                            ms,
                            front[i],
                        ) == m;
                    assert(ids[i] == front[i]);
                } else {
                    assert(ids[ids.len() - 1] == ids.last());
                }
            }
            if exists|i: int|
                0 <= i < ids.len() && has_memory(ms, #[trigger] ids[i]) && memory_of(ms, ids[i])
                    == m {
                let i = choose|i: int|
                    0 <= i < ids.len() && has_memory(ms, #[trigger] ids[i]) && memory_of(
                        ms,
                        ids[i],
                    ) == m;
                if i < front.len() {
                    assert(front[i] == ids[i]);
                    assert(rest.contains(m));
                    assert(all[rest.index_of(m)] == m);
                } else {
                    assert(all[all.len() - 1] == m);
                }
            }
        }
    } else {
        assert(found(ms, ids) == Seq::<MemoryView>::empty());
    }
}

/// Memories asked for by identifier are those of the store that bear one of
/// them; asked for all, all of them, live or not. Nothing changes.
pub proof fn law_memories_asked_for_are_given(
    d: DispatcherView,
    env: IpcEnvelope,
    hits: Seq<HitView>,
)
    requires
        d.wf(),
        env.protocol_version == 1,
        env.body is GetMemories || env.body is ListMemories,
    ensures
        ({
            let (after, answer) = handled(d, env, hits);
            &&& after == d
            &&& answer matches Ok(r)
            &&& r.result matches IpcResultView::Success {
                payload: DomainPayloadView::Memories(ms),
                ..
            }
            &&& forall|m: MemoryView| #[trigger]
                ms.contains(m) <==> d.store.memories.contains(m) && (match env.body {
                    DomainRequest::GetMemories { ids } => ids@.contains(m.id),
                    _ => true,
                })
        }),
{
    let store = d.store.memories;
    lemma_by_id(store);
    if let DomainRequest::GetMemories { ids } = env.body {
        lemma_found(store, ids@);
        assert forall|m: MemoryView| #[trigger] found(store, ids@).contains(m) <==> store.contains(
            m,
        ) && ids@.contains(m.id) by {
            if found(store, ids@).contains(m) {
                let i = choose|i: int|
                    0 <= i < ids@.len() && has_memory(store, #[trigger] ids@[i]) && memory_of(
                        store,
                        ids@[i],
                    ) == m;
                let k = choose|k: int| 0 <= k < store.len() && (#[trigger] store[k]).id == ids@[i];
                assert(store[k] == m);
            }
            if store.contains(m) && ids@.contains(m.id) {
                let k = store.index_of(m);
                let i = ids@.index_of(m.id);
                assert(store[k].id == ids@[i]);
                assert(has_memory(store, ids@[i]));
                let q = choose|q: int| 0 <= q < store.len() && (#[trigger] store[q]).id == ids@[i];
                if q < k {
                    assert(store[q].id != store[k].id);
                } else if k < q {
                    assert(store[k].id != store[q].id);
                }
                assert(memory_of(store, ids@[i]) == m);
            }
        }
    }
}

/// The edges of a memory are those that begin or end at it.
pub proof fn law_edges_asked_for_are_given(
    d: DispatcherView,
    env: IpcEnvelope,
    hits: Seq<HitView>,
    at_it: spec_fn(RelationView) -> bool,
)
    requires
        env.protocol_version == 1,
        env.body is Neighbors,
        forall|e: RelationView| #[trigger]
            at_it(e) <==> e.source == env.body->Neighbors_id || e.target == env.body->Neighbors_id,
    ensures
        ({
            let (after, answer) = handled(d, env, hits);
            &&& after == d
            &&& answer matches Ok(r)
            &&& r.result matches IpcResultView::Success {
                payload: DomainPayloadView::Relations(es),
                ..
            }
            &&& es == edges_by_id(d.store.relations).filter(at_it)
        }),
{
    let id = env.body->Neighbors_id;
    assert(at_it =~= (|e: RelationView| touches(e, id)));
}

/// An attempt that is sent goes to the end of the session of the channel, as it
/// was sent and fully trusted; without a session it is refused.
pub proof fn law_attempt_sent_is_recorded(
    d: DispatcherView,
    env: IpcEnvelope,
    hits: Seq<HitView>,
    i: int,
)
    requires
        d.wf(),
        env.protocol_version == 1,
        env.body is SessionAttempt,
        0 <= i < d.registry.sessions.len(),
        d.registry.sessions[i].attempts.len() < u32::MAX,
    ensures
        ({
            let (after, answer) = handled(d, env, hits);
            let b = d.registry.sessions[i];
            let x = after.registry.sessions[i];
            let a = x.attempts.last();
            &&& after.store == d.store
            &&& d.registry.active(env.frontend_id, env.channel_id) is None ==> after == d && answer
                is Err
            &&& d.registry.active(env.frontend_id, env.channel_id) is Some ==> answer is Ok
            &&& d.registry.active(env.frontend_id, env.channel_id) == Some(b.handle) ==> {
                &&& x.attempts == b.attempts.push(a)
                &&& a.approach == env.body->SessionAttempt_approach@
                &&& a.outcome == env.body->SessionAttempt_outcome
                &&& a.related_memory_id == env.body->SessionAttempt_related_memory_id
                &&& a.seq == b.attempts.len() + 1
                &&& a.session_id == b.handle
                &&& a.confidence.0 == 4_607_182_418_800_017_408
                &&& x.status == b.status
            }
            &&& d.registry.active(env.frontend_id, env.channel_id) != Some(b.handle) ==> x == b
        }),
{
    let b = d.registry.sessions[i];
    if d.registry.active(env.frontend_id, env.channel_id) == Some(b.handle) {
        let ss = d.registry.sessions;
        let k = choose|k: int| 0 <= k < ss.len() && (#[trigger] ss[k]).handle == b.handle;
        if k < i {
            assert(ss[k].handle != ss[i].handle);
        } else if i < k {
            assert(ss[i].handle != ss[k].handle);
        }
    }
}

/// The end of a session that is sent ends the session of the channel, with the
/// outcome and the lessons that were sent, and no other.
pub proof fn law_end_sent_ends_the_session(
    d: DispatcherView,
    env: IpcEnvelope,
    hits: Seq<HitView>,
    i: int,
)
    requires
        env.protocol_version == 1,
        env.body is SessionEnd,
        0 <= i < d.registry.sessions.len(),
    ensures
        ({
            let (after, answer) = handled(d, env, hits);
            let b = d.registry.sessions[i];
            let x = after.registry.sessions[i];
            &&& answer is Ok
            &&& after.store == d.store
            &&& d.registry.active(env.frontend_id, env.channel_id) == Some(b.handle) ==> {
                &&& x.status == SessionStatus::Ended
                &&& x.outcome == Some(env.body->SessionEnd_outcome)
                &&& x.lessons == views(env.body->SessionEnd_lessons@)
                &&& x.ended_at == Some(Instant(d.store.now))
                &&& x.attempts == b.attempts && x.task_type == b.task_type
            }
            &&& d.registry.active(env.frontend_id, env.channel_id) != Some(b.handle) ==> x == b
        }),
{
}

/// Only the user that the daemon runs as is read from; any other is turned away.
pub proof fn law_strangers_are_turned_away(peer: u32, own: u32)
    ensures
        accepted(peer, own).0 == Phase::Opening <==> peer == own,
        peer != own ==> accepted(peer, own).0 == Phase::Closed && accepted(
            peer,
            own,
        ).1 is SendAndClose,
        peer == own ==> accepted(peer, own).1 is Read,
{
}

/// A request of the frontend itself is dispatched if and only if there is room
/// in its queue and in the store; one in the name of another never is.
pub proof fn law_room_decides(f: FrontendId, q: QuotaView, env: IpcEnvelope)
    ensures
        requested(f, q, env).1 == ActionView::Dispatch(env) <==> env.frontend_id == f && queued_for(
            q.queued,
            f,
        ) < q.limits.max_queued_per_client && q.in_flight < q.limits.max_in_flight_storage,
        !(requested(f, q, env).1 is Dispatch) ==> requested(f, q, env).0 == (Phase::Serving {
            frontend: f,
        }) && requested(f, q, env).1 is Send,
{
}

/// A frontend is served after its handshake if and only if it is known or there
/// is room for one more.
pub proof fn law_handshake_needs_room(f: FrontendId, q: QuotaView, h: HandshakeResponse)
    ensures
        shaken(f, q, Ok(h)).0 == (Phase::Serving { frontend: f }) <==> q.clients.contains(f)
            || q.clients.len() < q.limits.max_clients,
        shaken(f, q, Ok(h)).0 != (Phase::Serving { frontend: f }) ==> shaken(f, q, Ok(h)).0
            == Phase::Closed,
{
}

/// A response of more bytes than the limit is replaced by an error under the
/// same operation; every other reply goes out as it is.
pub proof fn law_replies_keep_to_the_limit(reply: WireReplyView, bytes: usize, q: QuotaView)
    ensures
        bytes <= q.limits.max_response_bytes ==> budgeted(reply, bytes, q) == reply,
        !(reply is Response) ==> budgeted(reply, bytes, q) == reply,
        bytes > q.limits.max_response_bytes && reply is Response ==> {
            &&& budgeted(reply, bytes, q) matches WireReplyView::Response(r)
            &&& r.operation_id == reply->Response_0.operation_id
            &&& r.result is Error
        },
{
}

/// A namespace is issued for a day.
pub proof fn law_namespace_lasts_a_day(f: FrontendId, epoch: u64, now: u64)
    requires
        now + 86_400_000 <= u64::MAX,
    ensures
        fresh_namespace(f, epoch, now).expires_at == now + 86_400_000,
        fresh_namespace(f, epoch, now).issued_at == now,
        fresh_namespace(f, epoch, now).retry_epoch == epoch,
{
}

/// A namespace is open under its epoch until it runs out, and to no frontend
/// that has none.
pub proof fn law_namespace_is_open_in_time(
    ns: Seq<RetryNamespace>,
    f: FrontendId,
    epoch: u64,
    now: u64,
)
    ensures
        match issued_to(ns, f) {
            None => !is_open(ns, f, epoch, now),
            Some(n) => {
                &&& n.retry_epoch == epoch && n.expires_at > now ==> is_open(ns, f, epoch, now)
                &&& n.retry_epoch != epoch || n.expires_at <= now ==> !is_open(ns, f, epoch, now)
            },
        },
{
}

} // verus!
