//! Quotas: how many clients, how much queued work for each, how many storage
//! operations at once, how large a response.

use crate::domain::id::FrontendId;
use vstd::prelude::*;

verus! {

/// The budgets of the daemon.
#[derive(Debug, Clone, Copy, PartialEq, Eq, Structural)]
pub struct ResourceLimits {
    /// Clients at once.
    pub max_clients: usize,
    /// Queued jobs of one client.
    pub max_queued_per_client: usize,
    /// Storage operations at once.
    pub max_in_flight_storage: usize,
    /// Bytes of one response.
    pub max_response_bytes: usize,
}

impl Default for ResourceLimits {
    fn default() -> (r: Self)
        ensures
            r == (ResourceLimits {
                max_clients: 64,
                max_queued_per_client: 128,
                max_in_flight_storage: 32,
                max_response_bytes: 8_388_608,
            }),
    {
        ResourceLimits {
            max_clients: 64,
            max_queued_per_client: 128,
            max_in_flight_storage: 32,
            max_response_bytes: 8_388_608,
        }
    }
}

/// Which quota was exceeded.
#[derive(Debug, Clone, Copy, PartialEq, Eq, Structural)]
pub enum QuotaError {
    TooManyClients,
    ClientQueueFull,
    StorageBusy,
}

impl QuotaError {
    /// The message for the reader.
    pub open spec fn text(self) -> Seq<char> {
        match self {
            QuotaError::TooManyClients => "client limit reached"@,
            QuotaError::ClientQueueFull => "per-client queue full"@,
            QuotaError::StorageBusy => "storage capacity exhausted"@,
        }
    }

    pub fn message(&self) -> (r: &'static str)
        ensures
            r@ == self.text(),
    {
        match self {
            QuotaError::TooManyClients => "client limit reached",
            QuotaError::ClientQueueFull => "per-client queue full",
            QuotaError::StorageBusy => "storage capacity exhausted",
        }
    }
}

/// What is in use, against the limits.
#[derive(Debug)]
pub struct QuotaTracker {
    limits: ResourceLimits,
    clients: Vec<FrontendId>,
    queued: Vec<(FrontendId, usize)>,
    in_flight: usize,
}

/// The content of a tracker.
#[verifier::ext_equal]
pub struct QuotaView {
    pub limits: ResourceLimits,
    pub clients: Seq<FrontendId>,
    pub queued: Seq<(FrontendId, usize)>,
    pub in_flight: usize,
}

/// The jobs that a client has queued.
pub open spec fn queued_for(q: Seq<(FrontendId, usize)>, id: FrontendId) -> int
    decreases q.len(),
{
    if q.len() == 0 {
        0
    } else {
        queued_for(q.drop_last(), id) + if q.last().0 == id {
            q.last().1 as int
        } else {
            0
        }
    }
}

/// The jobs that all clients have queued.
pub open spec fn queued_in_all(q: Seq<(FrontendId, usize)>) -> int
    decreases q.len(),
{
    if q.len() == 0 {
        0
    } else {
        queued_in_all(q.drop_last()) + q.last().1
    }
}

impl QuotaView {
    /// No client is listed twice, and no quota is exceeded.
    pub open spec fn wf(self) -> bool {
        &&& self.clients.no_duplicates()
        &&& self.clients.len() <= self.limits.max_clients
        &&& forall|i: int, j: int|
            0 <= i < j < self.queued.len() ==> (#[trigger] self.queued[i]).0 != (
            #[trigger] self.queued[j]).0
        &&& forall|i: int|
            0 <= i < self.queued.len() ==> (#[trigger] self.queued[i]).1
                <= self.limits.max_queued_per_client
        &&& self.in_flight <= self.limits.max_in_flight_storage
    }
}

impl View for QuotaTracker {
    type V = QuotaView;

    closed spec fn view(&self) -> QuotaView {
        QuotaView {
            limits: self.limits,
            clients: self.clients@,
            queued: self.queued@,
            in_flight: self.in_flight,
        }
    }
}

proof fn lemma_queued_absent(q: Seq<(FrontendId, usize)>, id: FrontendId)
    requires
        forall|i: int| 0 <= i < q.len() ==> (#[trigger] q[i]).0 != id,
    ensures
        queued_for(q, id) == 0,
    decreases q.len(),
{
    if q.len() > 0 {
        assert(q.last() == q[q.len() - 1]);
        assert forall|i: int| 0 <= i < q.drop_last().len() implies (#[trigger] q.drop_last()[i]).0
            != id by {
            assert(q.drop_last()[i] == q[i]);
        }
        lemma_queued_absent(q.drop_last(), id);
    }
}

proof fn lemma_queued_present(q: Seq<(FrontendId, usize)>, k: int)
    requires
        0 <= k < q.len(),
        forall|i: int, j: int|
            0 <= i < j < q.len() ==> (#[trigger] q[i]).0 != (#[trigger] q[j]).0,
    ensures
        queued_for(q, q[k].0) == q[k].1,
    decreases q.len(),
{
    let id = q[k].0;
    let d = q.drop_last();
    if k == q.len() - 1 {
        assert forall|i: int| 0 <= i < d.len() implies (#[trigger] d[i]).0 != id by {
            assert(d[i] == q[i]);
        }
        lemma_queued_absent(d, id);
    } else {
        assert(d[k] == q[k]);
        assert forall|i: int, j: int| 0 <= i < j < d.len() implies (#[trigger] d[i]).0 != (
        #[trigger] d[j]).0 by {
            assert(d[i] == q[i] && d[j] == q[j]);
        }
        lemma_queued_present(d, k);
        assert(q.last() == q[q.len() - 1]);
    }
}

proof fn lemma_queued_update(q: Seq<(FrontendId, usize)>, k: int, n: usize, x: FrontendId)
    requires
        0 <= k < q.len(),
    ensures
        queued_for(q.update(k, (q[k].0, n)), x) == queued_for(q, x) + if q[k].0 == x {
            n - q[k].1
        } else {
            0
        },
        queued_in_all(q.update(k, (q[k].0, n))) == queued_in_all(q) + n - q[k].1,
    decreases q.len(),
{
    let u = q.update(k, (q[k].0, n));
    if k == q.len() - 1 {
        assert(u.drop_last() =~= q.drop_last());
    } else {
        assert(u.drop_last() =~= q.drop_last().update(k, (q.drop_last()[k].0, n)));
        lemma_queued_update(q.drop_last(), k, n, x);
        assert(u.last() == q.last());
    }
}

proof fn lemma_queued_remove(q: Seq<(FrontendId, usize)>, k: int, x: FrontendId)
    requires
        0 <= k < q.len(),
    ensures
        queued_for(q.remove(k), x) == queued_for(q, x) - if q[k].0 == x {
            q[k].1 as int
        } else {
            0
        },
        queued_in_all(q.remove(k)) == queued_in_all(q) - q[k].1,
    decreases q.len(),
{
    let r = q.remove(k);
    if k == q.len() - 1 {
        assert(r =~= q.drop_last());
    } else {
        assert(r.drop_last() =~= q.drop_last().remove(k));
        lemma_queued_remove(q.drop_last(), k, x);
        assert(r.last() == q.last());
    }
}

impl QuotaTracker {
    pub fn new(limits: ResourceLimits) -> (r: Self)
        ensures
            r@ == (QuotaView {
                limits,
                clients: Seq::empty(),
                queued: Seq::empty(),
                in_flight: 0,
            }),
            r@.wf(),
    {
        QuotaTracker { limits, clients: Vec::new(), queued: Vec::new(), in_flight: 0 }
    }

    fn client_position(&self, id: FrontendId) -> (r: Option<usize>)
        ensures
            match r {
                Some(i) => i < self.clients@.len() && self.clients@[i as int] == id,
                None => !self.clients@.contains(id),
            },
    {
        let mut i: usize = 0;
        while i < self.clients.len()
            invariant
                i <= self.clients.len(),
                forall|j: int| 0 <= j < i ==> self.clients@[j] != id,
            decreases self.clients.len() - i,
        {
            if self.clients[i] == id {
                return Some(i);
            }
            i += 1;
        }
        None
    }

    fn queue_position(&self, id: FrontendId) -> (r: Option<usize>)
        ensures
            match r {
                Some(i) => i < self.queued@.len() && self.queued@[i as int].0 == id,
                None => forall|j: int| 0 <= j < self.queued@.len() ==> (#[trigger] self.queued@[j]).0
                    != id,
            },
    {
        let mut i: usize = 0;
        while i < self.queued.len()
            invariant
                i <= self.queued.len(),
                forall|j: int| 0 <= j < i ==> (#[trigger] self.queued@[j]).0 != id,
            decreases self.queued.len() - i,
        {
            if self.queued[i].0 == id {
                return Some(i);
            }
            i += 1;
        }
        None
    }

    /// Registers a client; one that is registered already is left as it is.
    pub fn register_client(&mut self, frontend_id: FrontendId) -> (r: Result<(), QuotaError>)
        requires
            old(self)@.wf(),
        ensures
            final(self)@.wf(),
            r is Ok <==> old(self)@.clients.contains(frontend_id) || old(self)@.clients.len()
                < old(self)@.limits.max_clients,
            r is Err ==> r->Err_0 == QuotaError::TooManyClients,
            final(self)@ == (QuotaView {
                clients: if r is Ok && !old(self)@.clients.contains(frontend_id) {
                    old(self)@.clients.push(frontend_id)
                } else {
                    old(self)@.clients
                },
                ..old(self)@
            }),
    {
        match self.client_position(frontend_id) {
            Some(i) => {
                proof {
                    assert(self@.clients[i as int] == frontend_id);
                }
                Ok(())
            },
            None => {
                if self.clients.len() >= self.limits.max_clients {
                    return Err(QuotaError::TooManyClients);
                }
                self.clients.push(frontend_id);
                Ok(())
            },
        }
    }

    /// Frees a client's slot; a client that is not registered is ignored.
    pub fn unregister_client(&mut self, frontend_id: FrontendId)
        requires
            old(self)@.wf(),
        ensures
            final(self)@.wf(),
            !final(self)@.clients.contains(frontend_id),
            forall|x: FrontendId|
                x != frontend_id ==> (#[trigger] final(self)@.clients.contains(x)
                    == old(self)@.clients.contains(x)),
            final(self)@.clients.len() == old(self)@.clients.len() - (if old(
                self,
            )@.clients.contains(frontend_id) {
                1int
            } else {
                0
            }),
            final(self)@ == (QuotaView { clients: final(self)@.clients, ..old(self)@ }),
    {
        if let Some(i) = self.client_position(frontend_id) {
            let ghost before = self.clients@;
            self.clients.remove(i);
            proof {
                let after = self.clients@;
                assert forall|x: FrontendId| x != frontend_id implies (#[trigger] after.contains(x)
                    == before.contains(x)) by {
                    if before.contains(x) {
                        let w = choose|w: int| 0 <= w < before.len() && before[w] == x;
                        if w < i {
                            assert(after[w] == x);
                        } else {
                            assert(after[w - 1] == x);
                        }
                    }
                    if after.contains(x) {
                        let w = choose|w: int| 0 <= w < after.len() && after[w] == x;
                        if w < i {
                            assert(before[w] == x);
                        } else {
                            assert(before[w + 1] == x);
                        }
                    }
                }
                if after.contains(frontend_id) {
                    let w = choose|w: int| 0 <= w < after.len() && after[w] == frontend_id;
                    if w < i {
                        assert(before[w] == before[i as int]);
                    } else {
                        assert(before[w + 1] == before[i as int]);
                    }
                }
            }
        }
    }

    /// Counts one more queued job of a client.
    pub fn try_enqueue(&mut self, frontend_id: FrontendId) -> (r: Result<(), QuotaError>)
        requires
            old(self)@.wf(),
        ensures
            final(self)@.wf(),
            r is Ok <==> queued_for(old(self)@.queued, frontend_id) < old(
                self,
            )@.limits.max_queued_per_client,
            r is Err ==> r->Err_0 == QuotaError::ClientQueueFull,
            forall|x: FrontendId| #[trigger]
                queued_for(final(self)@.queued, x) == queued_for(old(self)@.queued, x) + (if r is Ok
                    && x == frontend_id {
                    1int
                } else {
                    0
                }),
            queued_in_all(final(self)@.queued) == queued_in_all(old(self)@.queued) + (if r is Ok {
                1int
            } else {
                0
            }),
            final(self)@ == (QuotaView { queued: final(self)@.queued, ..old(self)@ }),
    {
        let ghost before = self.queued@;
        proof {
            assert(self@.queued == before);
        }
        match self.queue_position(frontend_id) {
            Some(i) => {
                let n: usize = self.queued[i].1;
                proof {
                    lemma_queued_present(before, i as int);
                }
                if n >= self.limits.max_queued_per_client {
                    return Err(QuotaError::ClientQueueFull);
                }
                self.queued.set(i, (frontend_id, n + 1));
                proof {
                    assert(self.queued@ =~= before.update(
                        i as int,
                        (before[i as int].0, (n + 1) as usize),
                    ));
                    assert forall|x: FrontendId| #[trigger]
                        queued_for(self.queued@, x) == queued_for(before, x) + (if x == frontend_id {
                            1int
                        } else {
                            0
                        }) by {
                        lemma_queued_update(before, i as int, (n + 1) as usize, x);
                    }
                    lemma_queued_update(before, i as int, (n + 1) as usize, frontend_id);
                }
                Ok(())
            },
            None => {
                proof {
                    lemma_queued_absent(before, frontend_id);
                }
                if self.limits.max_queued_per_client == 0 {
                    return Err(QuotaError::ClientQueueFull);
                }
                self.queued.push((frontend_id, 1));
                proof {
                    assert(self.queued@.drop_last() =~= before);
                }
                Ok(())
            },
        }
    }

    /// Counts one queued job of a client less; a client without any is
    /// ignored.
    pub fn dequeue(&mut self, frontend_id: FrontendId)
        requires
            old(self)@.wf(),
        ensures
            final(self)@.wf(),
            forall|x: FrontendId| #[trigger]
                queued_for(final(self)@.queued, x) == queued_for(old(self)@.queued, x) - (if x
                    == frontend_id && queued_for(old(self)@.queued, x) > 0 {
                    1int
                } else {
                    0
                }),
            queued_in_all(final(self)@.queued) == queued_in_all(old(self)@.queued) - (if queued_for(
                old(self)@.queued,
                frontend_id,
            ) > 0 {
                1int
            } else {
                0
            }),
            final(self)@ == (QuotaView { queued: final(self)@.queued, ..old(self)@ }),
    {
        let ghost before = self.queued@;
        proof {
            assert(self@.queued == before);
        }
        match self.queue_position(frontend_id) {
            Some(i) => {
                let n: usize = self.queued[i].1.saturating_sub(1);
                proof {
                    lemma_queued_present(before, i as int);
                }
                if n == 0 && self.queued[i].1 <= 1 {
                    self.queued.remove(i);
                    proof {
                        assert forall|x: FrontendId| #[trigger]
                            queued_for(self.queued@, x) == queued_for(before, x) - (if x
                                == frontend_id && queued_for(before, x) > 0 {
                                1int
                            } else {
                                0
                            }) by {
                            lemma_queued_remove(before, i as int, x);
                        }
                        lemma_queued_remove(before, i as int, frontend_id);
                        assert forall|a: int, b: int| 0 <= a < b < self.queued@.len() implies (
                        #[trigger] self.queued@[a]).0 != (#[trigger] self.queued@[b]).0 by {
                            let a2 = if a < i { a } else { a + 1 };
                            let b2 = if b < i { b } else { b + 1 };
                            assert(self.queued@[a] == before[a2]);
                            assert(self.queued@[b] == before[b2]);
                        }
                        assert forall|a: int| 0 <= a < self.queued@.len() implies (
                        #[trigger] self.queued@[a]).1 <= self.limits.max_queued_per_client by {
                            let a2 = if a < i { a } else { a + 1 };
                            assert(self.queued@[a] == before[a2]);
                        }
                    }
                } else {
                    self.queued.set(i, (frontend_id, n));
                    proof {
                        assert(self.queued@ =~= before.update(
                            i as int,
                            (before[i as int].0, n),
                        ));
                        assert forall|x: FrontendId| #[trigger]
                            queued_for(self.queued@, x) == queued_for(before, x) - (if x
                                == frontend_id && queued_for(before, x) > 0 {
                                1int
                            } else {
                                0
                            }) by {
                            lemma_queued_update(before, i as int, n, x);
                        }
                        lemma_queued_update(before, i as int, n, frontend_id);
                    }
                }
            },
            None => {
                proof {
                    lemma_queued_absent(before, frontend_id);
                }
            },
        }
    }

    /// Counts one more storage operation.
    pub fn try_start_storage(&mut self) -> (r: Result<(), QuotaError>)
        requires
            old(self)@.wf(),
        ensures
            final(self)@.wf(),
            r is Ok <==> old(self)@.in_flight < old(self)@.limits.max_in_flight_storage,
            r is Err ==> r->Err_0 == QuotaError::StorageBusy,
            final(self)@ == (QuotaView {
                in_flight: if r is Ok {
                    (old(self)@.in_flight + 1) as usize
                } else {
                    old(self)@.in_flight
                },
                ..old(self)@
            }),
    {
        if self.in_flight >= self.limits.max_in_flight_storage {
            return Err(QuotaError::StorageBusy);
        }
        self.in_flight = self.in_flight + 1;
        Ok(())
    }

    /// Counts one storage operation less.
    pub fn finish_storage(&mut self)
        requires
            old(self)@.wf(),
        ensures
            final(self)@.wf(),
            final(self)@ == (QuotaView {
                in_flight: if old(self)@.in_flight > 0 {
                    (old(self)@.in_flight - 1) as usize
                } else {
                    0
                },
                ..old(self)@
            }),
    {
        self.in_flight = self.in_flight.saturating_sub(1);
    }

    /// Whether a response of this size is within the budget.
    pub fn allows_response(&self, bytes: usize) -> (r: bool)
        ensures
            r == (bytes <= self@.limits.max_response_bytes),
    {
        bytes <= self.limits.max_response_bytes
    }

    pub fn client_count(&self) -> (r: usize)
        ensures
            r == self@.clients.len(),
    {
        self.clients.len()
    }

    /// Whether the jobs that all clients have queued can be counted.
    pub fn is_countable(&self) -> (r: bool)
        ensures
            r == (queued_in_all(self@.queued) <= usize::MAX),
    {
        let mut sum: usize = 0;
        let mut i: usize = 0;
        while i < self.queued.len()
            invariant
                i <= self.queued.len(),
                self@.queued == self.queued@,
                sum == queued_in_all(self.queued@.take(i as int)),
            decreases self.queued.len() - i,
        {
            proof {
                let t = self.queued@.take(i + 1);
                assert(t.drop_last() =~= self.queued@.take(i as int));
                assert(t.last() == self.queued@[i as int]);
                lemma_queued_prefix(self.queued@, i + 1);
            }
            match sum.checked_add(self.queued[i].1) {
                None => {
                    return false;
                },
                Some(n) => {
                    sum = n;
                },
            }
            i += 1;
        }
        proof {
            assert(self.queued@.take(self.queued@.len() as int) =~= self.queued@);
        }
        true
    }

    /// The jobs that all clients have queued.
    pub fn total_queued(&self) -> (r: usize)
        requires
            queued_in_all(self@.queued) <= usize::MAX,
        ensures
            r == queued_in_all(self@.queued),
    {
        let mut sum: usize = 0;
        let mut i: usize = 0;
        while i < self.queued.len()
            invariant
                i <= self.queued.len(),
                self@.queued == self.queued@,
                queued_in_all(self.queued@) <= usize::MAX,
                sum == queued_in_all(self.queued@.take(i as int)),
            decreases self.queued.len() - i,
        {
            proof {
                let t = self.queued@.take(i + 1);
                assert(t.drop_last() =~= self.queued@.take(i as int));
                assert(t.last() == self.queued@[i as int]);
                lemma_queued_prefix(self.queued@, i + 1);
            }
            sum = sum + self.queued[i].1;
            i += 1;
        }
        proof {
            assert(self.queued@.take(self.queued@.len() as int) =~= self.queued@);
        }
        sum
    }

    pub fn in_flight_storage(&self) -> (r: usize)
        ensures
            r == self@.in_flight,
    {
        self.in_flight
    }
}

proof fn lemma_queued_prefix(q: Seq<(FrontendId, usize)>, n: int)
    requires
        0 <= n <= q.len(),
    ensures
        0 <= queued_in_all(q.take(n)) <= queued_in_all(q),
    decreases q.len(),
{
    if n == q.len() {
        assert(q.take(n) =~= q);
        if n > 0 {
            lemma_queued_prefix(q.drop_last(), n - 1);
            assert(q.drop_last().take(n - 1) =~= q.drop_last());
        }
    } else {
        lemma_queued_prefix(q.drop_last(), n);
        assert(q.drop_last().take(n) =~= q.take(n));
    }
}

impl Default for QuotaTracker {
    fn default() -> (r: Self)
        ensures
            r@.wf(),
            r@.clients.len() == 0,
            r@.queued.len() == 0,
            r@.in_flight == 0,
            r@.limits.max_clients == 64,
            r@.limits.max_queued_per_client == 128,
            r@.limits.max_in_flight_storage == 32,
            r@.limits.max_response_bytes == 8_388_608,
    {
        QuotaTracker::new(ResourceLimits::default())
    }
}

} // verus!
