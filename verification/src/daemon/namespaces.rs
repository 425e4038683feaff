//! Retry namespaces: the epoch under which a frontend may send its commands.
//!
//! A namespace is issued when a frontend connects. Its end is fixed then: a
//! frontend that connects again while it is open gets the same one back, no
//! longer than before. After that end it gets the next, and no epoch is issued
//! twice.

use crate::domain::command::RetryNamespace;
use crate::domain::id::FrontendId;
use vstd::prelude::*;

verus! {

/// How long a namespace is open: a day.
pub const NAMESPACE_TTL_MILLIS: u64 = 86_400_000;

/// Where the namespace of a frontend is, at or after `from`.
pub open spec fn namespace_place(ns: Seq<RetryNamespace>, f: FrontendId, from: int) -> int
    decreases ns.len() - from,
{
    if from < 0 || from >= ns.len() || ns[from].frontend_id == f {
        from
    } else {
        namespace_place(ns, f, from + 1)
    }
}

/// The namespace that was issued to a frontend last.
pub open spec fn issued_to(ns: Seq<RetryNamespace>, f: FrontendId) -> Option<RetryNamespace> {
    let i = namespace_place(ns, f, 0);
    if i < ns.len() {
        Some(ns[i])
    } else {
        None
    }
}

/// Whether a frontend may send commands under an epoch: it is the one that was
/// issued to it last, and has not run out.
pub open spec fn is_open(ns: Seq<RetryNamespace>, f: FrontendId, epoch: u64, now: u64) -> bool {
    match issued_to(ns, f) {
        Some(n) => n.retry_epoch == epoch && now < n.expires_at,
        None => false,
    }
}

/// A namespace that starts now.
pub open spec fn fresh_namespace(f: FrontendId, epoch: u64, now: u64) -> RetryNamespace {
    RetryNamespace {
        frontend_id: f,
        retry_epoch: epoch,
        issued_at: now,
        expires_at: if now + NAMESPACE_TTL_MILLIS > u64::MAX {
            u64::MAX
        } else {
            (now + NAMESPACE_TTL_MILLIS) as u64
        },
    }
}

/// The namespace that a frontend gets: the one it has, while that is open, and
/// the next otherwise.
pub open spec fn namespace_for(ns: Seq<RetryNamespace>, f: FrontendId, now: u64) -> RetryNamespace {
    match issued_to(ns, f) {
        Some(n) => if now < n.expires_at {
            n
        } else {
            fresh_namespace(f, (n.retry_epoch + 1) as u64, now)
        },
        None => fresh_namespace(f, 1, now),
    }
}

/// The namespaces after one was issued to a frontend.
pub open spec fn with_issued(ns: Seq<RetryNamespace>, f: FrontendId, now: u64) -> Seq<
    RetryNamespace,
> {
    let i = namespace_place(ns, f, 0);
    if i < ns.len() {
        ns.update(i, namespace_for(ns, f, now))
    } else {
        ns.push(namespace_for(ns, f, now))
    }
}

/// Whether a frontend can still be given a next epoch.
pub open spec fn has_next(ns: Seq<RetryNamespace>, f: FrontendId) -> bool {
    match issued_to(ns, f) {
        Some(n) => n.retry_epoch < u64::MAX,
        None => true,
    }
}

proof fn lemma_place(ns: Seq<RetryNamespace>, f: FrontendId, from: int)
    requires
        0 <= from <= ns.len(),
    ensures
        from <= namespace_place(ns, f, from) <= ns.len(),
        namespace_place(ns, f, from) < ns.len() ==> ns[namespace_place(ns, f, from)].frontend_id
            == f,
        forall|j: int|
            from <= j < namespace_place(ns, f, from) ==> (#[trigger] ns[j]).frontend_id != f,
    decreases ns.len() - from,
{
    if from < ns.len() && ns[from].frontend_id != f {
        lemma_place(ns, f, from + 1);
    }
}

proof fn lemma_place_is(ns: Seq<RetryNamespace>, f: FrontendId, from: int, i: int)
    requires
        0 <= from <= i <= ns.len(),
        i < ns.len() ==> ns[i].frontend_id == f,
        forall|j: int| from <= j < i ==> (#[trigger] ns[j]).frontend_id != f,
    ensures
        namespace_place(ns, f, from) == i,
    decreases i - from,
{
    if from < i {
        assert(ns[from].frontend_id != f);
        lemma_place_is(ns, f, from + 1, i);
    }
}

fn position_of(ns: &Vec<RetryNamespace>, f: FrontendId) -> (r: usize)
    ensures
        r == namespace_place(ns@, f, 0),
        r <= ns@.len(),
{
    let mut i: usize = 0;
    while i < ns.len() && ns[i].frontend_id != f
        invariant
            i <= ns@.len(),
            forall|j: int| 0 <= j < i ==> (#[trigger] ns@[j]).frontend_id != f,
        decreases ns@.len() - i,
    {
        i += 1;
    }
    proof {
        lemma_place_is(ns@, f, 0, i as int);
    }
    i
}

/// Whether a frontend may send commands under an epoch.
pub fn namespace_open(ns: &Vec<RetryNamespace>, f: FrontendId, epoch: u64, now: u64) -> (r: bool)
    ensures
        r == is_open(ns@, f, epoch, now),
{
    let i: usize = position_of(ns, f);
    i < ns.len() && ns[i].retry_epoch == epoch && ns[i].is_valid_at(now)
}

/// Whether a frontend can still be given a next epoch.
pub fn epochs_left(ns: &Vec<RetryNamespace>, f: FrontendId) -> (r: bool)
    ensures
        r == has_next(ns@, f),
{
    let i: usize = position_of(ns, f);
    i >= ns.len() || ns[i].retry_epoch < u64::MAX
}

/// Issues a namespace to a frontend.
pub fn issue_namespace(ns: &mut Vec<RetryNamespace>, f: FrontendId, now: u64) -> (r: RetryNamespace)
    requires
        has_next(old(ns)@, f),
    ensures
        r == namespace_for(old(ns)@, f, now),
        final(ns)@ == with_issued(old(ns)@, f, now),
{
    let i: usize = position_of(ns, f);
    let ttl: u64 = if now > u64::MAX - NAMESPACE_TTL_MILLIS {
        u64::MAX - now
    } else {
        NAMESPACE_TTL_MILLIS
    };
    if i < ns.len() {
        let had = ns[i];
        if had.is_valid_at(now) {
            proof {
                assert(ns@.update(i as int, had) =~= ns@);
            }
            return had;
        }
        let n = RetryNamespace::new(f, had.retry_epoch + 1, now, ttl);
        ns.set(i, n);
        n
    } else {
        let n = RetryNamespace::new(f, 1, now, ttl);
        ns.push(n);
        n
    }
}

/// What is issued to a frontend is what it has afterwards, and no other frontend
/// has anything else than before.
pub proof fn law_issued_is_held(ns: Seq<RetryNamespace>, f: FrontendId, g: FrontendId, now: u64)
    ensures
        issued_to(with_issued(ns, f, now), f) == Some(namespace_for(ns, f, now)),
        g != f ==> issued_to(with_issued(ns, f, now), g) == issued_to(ns, g),
{
    let i = namespace_place(ns, f, 0);
    let after = with_issued(ns, f, now);
    lemma_place(ns, f, 0);
    lemma_place(ns, g, 0);
    assert(namespace_for(ns, f, now).frontend_id == f);
    assert forall|j: int| 0 <= j < i implies (#[trigger] after[j]).frontend_id != f by {
        assert(after[j] == ns[j]);
    }
    lemma_place_is(after, f, 0, i);
    if g != f {
        let k = namespace_place(ns, g, 0);
        let end = if k < ns.len() {
            k
        } else {
            after.len() as int
        };
        assert forall|j: int| 0 <= j < end implies (#[trigger] after[j]).frontend_id != g by {
            if j < ns.len() && j != i {
                assert(after[j] == ns[j]);
            }
        }
        lemma_place_is(after, g, 0, end);
    }
}

/// A namespace is open from when it is issued, under its epoch and no other.
/// Connecting again while it is open gives it back and changes nothing: its end
/// is not put off.
pub proof fn law_reconnecting_extends_nothing(
    ns: Seq<RetryNamespace>,
    f: FrontendId,
    now: u64,
    later: u64,
)
    requires
        now <= later,
        later < namespace_for(ns, f, now).expires_at,
    ensures
        forall|epoch: u64|
            is_open(with_issued(ns, f, now), f, epoch, later) <==> epoch == namespace_for(
                ns,
                f,
                now,
            ).retry_epoch,
        namespace_for(with_issued(ns, f, now), f, later) == namespace_for(ns, f, now),
        with_issued(with_issued(ns, f, now), f, later) == with_issued(ns, f, now),
{
    law_issued_is_held(ns, f, f, now);
    let once = with_issued(ns, f, now);
    lemma_place(once, f, 0);
    let i = namespace_place(once, f, 0);
    assert(once.update(i, once[i]) =~= once);
}

/// Epochs only grow, so that what has run out stays out: an epoch that is not
/// open once its time has come is not opened again, whatever is issued later.
pub proof fn law_old_epochs_stay_closed(
    ns: Seq<RetryNamespace>,
    f: FrontendId,
    g: FrontendId,
    epoch: u64,
    now: u64,
    later: u64,
)
    requires
        has_next(ns, f),
        now <= later,
        issued_to(ns, g) is Some,
        epoch <= issued_to(ns, g)->0.retry_epoch,
        !is_open(ns, g, epoch, now),
    ensures
        !is_open(with_issued(ns, f, now), g, epoch, later),
        issued_to(with_issued(ns, f, now), g)->0.retry_epoch >= issued_to(ns, g)->0.retry_epoch,
{
    law_issued_is_held(ns, f, g, now);
}

} // verus!
