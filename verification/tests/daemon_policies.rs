use ltmrs::daemon::cancellation::{
    decide, may_abort, receipt_must_survive, CancellationAction, RequestState,
};
use ltmrs::daemon::health::{build_health_report, doctor_summary, HealthReport};
use ltmrs::daemon::idle::IdleExitTracker;
use ltmrs::daemon::limits::{QuotaError, QuotaTracker, ResourceLimits};
use ltmrs::daemon::runtime::{
    directory_action, socket_action, DirectoryAction, RuntimeError, RuntimePaths, SocketAction,
};
use ltmrs::daemon::scheduler::{
    is_full, queue_depth, submitted, Offer, SchedulerConfig, SchedulerError,
};
use ltmrs::daemon::server::{peer_authorized, DaemonConfig, EmbeddingMode};
use ltmrs::domain::id::{FrontendId, StoreGeneration};

fn st(committed: bool, canceled: bool) -> RequestState {
    RequestState { committed, canceled }
}

#[test]
fn canceled_before_commit_aborts() {
    assert_eq!(decide(st(false, true)), CancellationAction::Abort);
    assert!(may_abort(st(false, true)));
    assert!(!receipt_must_survive(st(false, true)));
}

#[test]
fn committed_receipt_survives_late_cancellation() {
    assert_eq!(decide(st(true, true)), CancellationAction::KeepReceipt);
    assert!(receipt_must_survive(st(true, true)));
    assert!(!may_abort(st(true, true)));
}

#[test]
fn normal_committed_request_completes() {
    assert_eq!(decide(st(true, false)), CancellationAction::Complete);
}

#[test]
fn normal_uncommitted_request_completes() {
    assert_eq!(decide(st(false, false)), CancellationAction::Complete);
}

#[test]
fn exits_when_idle_after_timeout() {
    let t = IdleExitTracker::new(0);
    assert!(!t.should_exit(100, 1000));
    assert!(t.should_exit(1100, 1000));
}

#[test]
fn does_not_exit_while_connections_active() {
    let mut t = IdleExitTracker::new(0);
    t.note_connect(100);
    assert!(!t.should_exit(5000, 1000));
}

#[test]
fn reconnect_resets_idle_window() {
    let mut t = IdleExitTracker::new(0);
    t.note_connect(100);
    t.note_disconnect(200);
    assert!(!t.should_exit(1100, 1000));
    assert!(t.should_exit(1200, 1000));
    t.note_connect(1300);
    assert!(!t.should_exit(2300, 1000));
    t.note_disconnect(2400);
    assert!(!t.should_exit(3300, 1000));
    assert!(t.should_exit(3400, 1000));
}

#[test]
fn activity_resets_idle_window() {
    let mut t = IdleExitTracker::new(0);
    t.note_connect(0);
    t.note_activity(5000);
    t.note_disconnect(5100);
    assert!(!t.should_exit(6000, 1000));
    assert!(t.should_exit(6100, 1000));
}

#[test]
fn unmatched_disconnect_and_clock_going_back() {
    let mut t = IdleExitTracker::new(500);
    t.note_disconnect(600);
    assert_eq!(t.active_connections(), 0);
    assert!(!t.should_exit(100, 1));
    assert!(t.should_exit(100, 0));
}

#[test]
fn doctor_summary_has_no_memory_contents() {
    let report = HealthReport {
        ready: true,
        store_generation: StoreGeneration::first(),
        protocol_version: 1,
        projection_current: true,
        client_count: 3,
        queued_jobs: 5,
        in_flight_storage: 2,
        backpressure_active: false,
    };
    let summary = doctor_summary(&report);
    assert!(summary.contains("clients: 3"));
    assert!(summary.contains("queued_jobs: 5"));
}

#[test]
fn doctor_summary_text() {
    let report = HealthReport {
        ready: false,
        store_generation: StoreGeneration::new(12),
        protocol_version: 1,
        projection_current: true,
        client_count: 30,
        queued_jobs: 5,
        in_flight_storage: 2,
        backpressure_active: true,
    };
    assert_eq!(
        doctor_summary(&report),
        "ltmrs doctor\n  ready: false\n  store_generation: 12\n  protocol: v1\n  projection_current: true\n  clients: 30\n  queued_jobs: 5\n  in_flight_storage: 2\n  backpressure_active: true"
    );
}

#[test]
fn health_report_gathers_quotas() {
    let mut qt = QuotaTracker::new(ResourceLimits::default());
    let report = build_health_report(true, StoreGeneration::first(), 1, true, false, &qt);
    assert!(report.ready);
    assert_eq!(report.client_count, 0);
    assert!(!report.backpressure_active);
    qt.register_client(fe(1)).unwrap();
    qt.try_enqueue(fe(1)).unwrap();
    qt.try_enqueue(fe(2)).unwrap();
    qt.try_start_storage().unwrap();
    let report2 = build_health_report(true, StoreGeneration::first(), 1, true, true, &qt);
    assert_eq!(report2.client_count, 1);
    assert_eq!(report2.queued_jobs, 2);
    assert_eq!(report2.in_flight_storage, 1);
    assert!(report2.backpressure_active);
}

#[test]
fn paths_resolve_per_store_identity() {
    let a = RuntimePaths::resolve("/tmp", "store-a");
    let b = RuntimePaths::resolve("/tmp", "store-b");
    assert_ne!(a.socket_path, b.socket_path);
    assert!(a.socket_path.starts_with(&a.runtime_dir));
    assert_eq!(a.lock_path, "/tmp/ltmrs/store-a/daemon.lock");
    assert_eq!(RuntimePaths::resolve("/tmp/", "x").runtime_dir, "/tmp/ltmrs/x");
    assert_eq!(RuntimePaths::resolve("", "x").runtime_dir, "ltmrs/x");
    assert_eq!(RuntimePaths::resolve("/tmp", "/abs").socket_path, "/abs/daemon.sock");
}

#[test]
fn paths_agree_with_std() {
    let p = std::path::Path::new("/var/run").join("ltmrs").join("main");
    assert_eq!(
        RuntimePaths::resolve("/var/run", "main").socket_path,
        p.join("daemon.sock").to_str().unwrap()
    );
}

#[test]
fn what_is_found_in_the_runtime_directory() {
    assert_eq!(directory_action(false, false), DirectoryAction::Create);
    assert_eq!(directory_action(true, false), DirectoryAction::Use);
    assert_eq!(directory_action(true, true), DirectoryAction::Refuse);
    assert_eq!(socket_action(false, false), SocketAction::Nothing);
    assert_eq!(socket_action(true, false), SocketAction::Remove);
    assert_eq!(socket_action(true, true), SocketAction::Refuse);
    assert_eq!(
        RuntimeError::AlreadyRunning("/x/daemon.lock".to_string()).message(),
        "another daemon already owns the store lock (/x/daemon.lock)"
    );
    assert_eq!(RuntimeError::Io("gone".to_string()).message(), "io error: gone");
    assert_eq!(
        RuntimeError::UnsafePath("/l".to_string()).message(),
        "runtime path is a symlink or not a regular dir: /l"
    );
}

#[test]
fn daemon_config_defaults() {
    let config = DaemonConfig::default();
    assert!(config.store_path.is_empty());
    assert!(config.limits.max_clients > 0);
    assert_eq!(config.idle_timeout_millis, 0, "serve forever by default");
}

#[test]
fn peer_authorized_matches_uids() {
    assert!(peer_authorized(1000, 1000));
    assert!(!peer_authorized(0, 1000));
    assert!(!peer_authorized(1000, 0));
}

#[test]
fn embedding_disabled_by_default() {
    assert!(
        matches!(DaemonConfig::default().embedding, EmbeddingMode::Disabled),
        "the daemon must stay lexical-only unless embedding is configured"
    );
}

#[test]
fn scheduler_answers() {
    assert_eq!(submitted(Offer::Taken), Ok(()));
    assert_eq!(submitted(Offer::Full), Err(SchedulerError::Busy));
    assert_eq!(submitted(Offer::Closed), Err(SchedulerError::Closed));
    assert_eq!(queue_depth(4, 1), 3);
    assert!(is_full(0));
    assert!(!is_full(1));
    assert_eq!(SchedulerConfig::default().max_queue_depth, 1024);
    assert_eq!(SchedulerError::Busy.message(), "scheduler queue full; retry later");
}

fn fe(n: u64) -> FrontendId {
    FrontendId::new(n as u128)
}

#[test]
fn client_limit_enforced() {
    let mut tracker = QuotaTracker::new(ResourceLimits {
        max_clients: 2,
        ..Default::default()
    });
    assert!(tracker.register_client(fe(1)).is_ok());
    assert!(tracker.register_client(fe(2)).is_ok());
    assert_eq!(tracker.register_client(fe(3)), Err(QuotaError::TooManyClients));
    assert!(tracker.register_client(fe(1)).is_ok());
}

#[test]
fn per_client_queue_limit_enforced() {
    let mut tracker = QuotaTracker::new(ResourceLimits {
        max_queued_per_client: 2,
        ..Default::default()
    });
    assert!(tracker.try_enqueue(fe(1)).is_ok());
    assert!(tracker.try_enqueue(fe(1)).is_ok());
    assert_eq!(tracker.try_enqueue(fe(1)), Err(QuotaError::ClientQueueFull));
    assert!(tracker.try_enqueue(fe(2)).is_ok());
}

#[test]
fn storage_capacity_enforced() {
    let mut tracker = QuotaTracker::new(ResourceLimits {
        max_in_flight_storage: 2,
        ..Default::default()
    });
    assert!(tracker.try_start_storage().is_ok());
    assert!(tracker.try_start_storage().is_ok());
    assert_eq!(tracker.try_start_storage(), Err(QuotaError::StorageBusy));
    tracker.finish_storage();
    assert!(tracker.try_start_storage().is_ok());
}

#[test]
fn response_size_checked() {
    let tracker = QuotaTracker::new(ResourceLimits {
        max_response_bytes: 100,
        ..Default::default()
    });
    assert!(tracker.allows_response(50));
    assert!(!tracker.allows_response(150));
}

#[test]
fn unregister_frees_client_slot() {
    let mut tracker = QuotaTracker::new(ResourceLimits {
        max_clients: 1,
        ..Default::default()
    });
    tracker.register_client(fe(1)).unwrap();
    assert_eq!(tracker.register_client(fe(2)), Err(QuotaError::TooManyClients));
    tracker.unregister_client(fe(1));
    assert!(tracker.register_client(fe(2)).is_ok());
    assert_eq!(tracker.client_count(), 1);
    tracker.unregister_client(fe(99));
    assert_eq!(tracker.client_count(), 1);
}

#[test]
fn dequeue_undoes_enqueue() {
    let mut tracker = QuotaTracker::default();
    tracker.try_enqueue(fe(1)).unwrap();
    tracker.try_enqueue(fe(1)).unwrap();
    tracker.try_enqueue(fe(2)).unwrap();
    assert!(tracker.is_countable());
    assert_eq!(tracker.total_queued(), 3);
    tracker.dequeue(fe(1));
    assert_eq!(tracker.total_queued(), 2);
    tracker.dequeue(fe(1));
    tracker.dequeue(fe(1));
    assert_eq!(tracker.total_queued(), 1);
    tracker.dequeue(fe(7));
    assert_eq!(tracker.total_queued(), 1);
    assert_eq!(tracker.in_flight_storage(), 0);
    assert_eq!(QuotaError::StorageBusy.message(), "storage capacity exhausted");
}
