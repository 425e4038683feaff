//! Health and doctor output: how the daemon is doing, and nothing of what it
//! holds.

use crate::daemon::limits::QuotaTracker;
use crate::domain::id::StoreGeneration;
use crate::text::decimal;
use vstd::prelude::*;

verus! {

/// How the daemon is doing.
#[derive(Debug, Clone, Copy, PartialEq, Eq, Structural)]
pub struct HealthReport {
    /// Whether the daemon is ready to serve.
    pub ready: bool,
    /// The generation that is served.
    pub store_generation: StoreGeneration,
    pub protocol_version: u32,
    /// Whether the search projection is current.
    pub projection_current: bool,
    /// Registered clients.
    pub client_count: usize,
    /// Jobs queued by all clients.
    pub queued_jobs: usize,
    /// Storage operations that are going on.
    pub in_flight_storage: usize,
    /// Whether work is being turned away.
    pub backpressure_active: bool,
}

/// Gathers the report. `queue_full` is whether the scheduler's queue has no
/// place left.
pub fn build_health_report(
    ready: bool,
    store_generation: StoreGeneration,
    protocol_version: u32,
    projection_current: bool,
    queue_full: bool,
    quotas: &QuotaTracker,
) -> (r: HealthReport)
    requires
        crate::daemon::limits::queued_in_all(quotas@.queued) <= usize::MAX,
    ensures
        r.ready == ready,
        r.store_generation == store_generation,
        r.protocol_version == protocol_version,
        r.projection_current == projection_current,
        r.client_count == quotas@.clients.len(),
        r.queued_jobs == crate::daemon::limits::queued_in_all(quotas@.queued),
        r.in_flight_storage == quotas@.in_flight,
        r.backpressure_active == queue_full,
{
    HealthReport {
        ready,
        store_generation,
        protocol_version,
        projection_current,
        client_count: quotas.client_count(),
        queued_jobs: quotas.total_queued(),
        in_flight_storage: quotas.in_flight_storage(),
        backpressure_active: queue_full,
    }
}

/// A truth value in words.
pub open spec fn bool_text(b: bool) -> Seq<char> {
    if b {
        "true"@
    } else {
        "false"@
    }
}

fn bool_str(b: bool) -> (r: &'static str)
    ensures
        r@ == bool_text(b),
{
    if b {
        "true"
    } else {
        "false"
    }
}

/// The text of a report.
pub open spec fn doctor_text(report: HealthReport) -> Seq<char> {
    "ltmrs doctor\n  ready: "@ + bool_text(report.ready) + "\n  store_generation: "@
        + crate::text::dec(report.store_generation.0 as nat) + "\n  protocol: v"@
        + crate::text::dec(report.protocol_version as nat) + "\n  projection_current: "@
        + bool_text(report.projection_current) + "\n  clients: "@
        + crate::text::dec(report.client_count as nat) + "\n  queued_jobs: "@
        + crate::text::dec(report.queued_jobs as nat) + "\n  in_flight_storage: "@
        + crate::text::dec(report.in_flight_storage as nat) + "\n  backpressure_active: "@
        + bool_text(report.backpressure_active)
}

/// The report for the reader.
pub fn doctor_summary(report: &HealthReport) -> (r: String)
    ensures
        r@ == doctor_text(*report),
{
    let mut out = "ltmrs doctor\n  ready: ".to_owned();
    out.append(bool_str(report.ready));
    out.append("\n  store_generation: ");
    out.append(decimal(report.store_generation.as_u64()).as_str());
    out.append("\n  protocol: v");
    out.append(decimal(report.protocol_version as u64).as_str());
    out.append("\n  projection_current: ");
    out.append(bool_str(report.projection_current));
    out.append("\n  clients: ");
    out.append(decimal(report.client_count as u64).as_str());
    out.append("\n  queued_jobs: ");
    out.append(decimal(report.queued_jobs as u64).as_str());
    out.append("\n  in_flight_storage: ");
    out.append(decimal(report.in_flight_storage as u64).as_str());
    out.append("\n  backpressure_active: ");
    out.append(bool_str(report.backpressure_active));
    out
}

} // verus!
