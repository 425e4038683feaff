use ltmrs::daemon::registry::{FrontendRegistry, Lease};
use ltmrs::domain::id::{ChannelId, EntityId, FrontendId, SessionHandle};
use ltmrs::domain::memory::Instant;
use ltmrs::domain::score::Score;
use ltmrs::domain::session::{Attempt, AttemptOutcome, SessionStatus, TaskOutcome};

/// The score of a number.
fn score(x: f64) -> Score {
    let size = x.abs().to_bits() as i64;
    Score(if x < 0.0 { -size } else { size })
}

fn fe(n: u64) -> FrontendId {
    FrontendId::new(n as u128)
}

fn ch(n: u64) -> ChannelId {
    ChannelId::new(n as u128)
}

fn attempt(id: u64, session: SessionHandle) -> Attempt {
    Attempt {
        id: EntityId::new(id as u128),
        session_id: session,
        seq: 1,
        approach: "try X".into(),
        outcome: AttemptOutcome::Rejected,
        critique: None,
        rationale: None,
        related_memory_id: None,
        confidence: score(1.0),
        access_count: 0,
        last_accessed_at: None,
        created_at: Instant::new(0),
    }
}

#[test]
fn one_channels_session_end_cannot_end_another() {
    let mut reg = FrontendRegistry::new();
    // Two channels, same MCP numeric request ID would be reused — but we
    // route by (frontend, channel), not by request ID.
    let h_a = reg.start_session(fe(1), ch(1), None, None, 0);
    let h_b = reg.start_session(fe(1), ch(2), None, None, 0);
    assert_ne!(h_a, h_b);

    // End channel 1's session.
    let ended = reg
        .end_session(fe(1), ch(1), TaskOutcome::Success, None, vec![], 100)
        .unwrap();
    assert_eq!(ended, h_a);

    // Channel 2's session must still be active.
    assert_eq!(reg.resolve_session(fe(1), ch(2)), Some(h_b));
    // Channel 1's session is now terminal.
    assert_eq!(reg.resolve_session(fe(1), ch(1)), None);
}

#[test]
fn thirty_two_channels_are_isolated() {
    let mut reg = FrontendRegistry::new();
    let mut handles = Vec::new();
    for i in 0..32 {
        let h = reg.start_session(fe(i as u64), ch(i as u64), None, None, 0);
        handles.push(h);
    }
    // All distinct.
    let unique = handles.iter().collect::<std::collections::HashSet<_>>();
    assert_eq!(unique.len(), 32, "32 channels => 32 distinct sessions");

    // Record an attempt on each; each lands on its own session.
    for i in 0..32 {
        let h = handles[i as usize];
        reg.record_attempt(fe(i as u64), ch(i as u64), attempt(i as u64, h));
    }
    // End only channel 5; others remain active.
    reg.end_session(fe(5), ch(5), TaskOutcome::Failure, None, vec![], 100);
    assert_eq!(reg.resolve_session(fe(5), ch(5)), None);
    for i in 0..32 {
        if i != 5 {
            assert_eq!(
                reg.resolve_session(fe(i as u64), ch(i as u64)),
                Some(handles[i as usize])
            );
        }
    }
}

#[test]
fn no_daemon_global_current_session() {
    // Starting a session on one channel must not be visible as the
    // "current" session of another channel.
    let mut reg = FrontendRegistry::new();
    let h = reg.start_session(fe(1), ch(1), None, None, 0);
    // A brand-new channel has no session.
    assert_eq!(reg.resolve_session(fe(2), ch(99)), None);
    // And the started handle is only bound to its own channel.
    assert_eq!(reg.resolve_session(fe(1), ch(1)), Some(h));
    assert_eq!(reg.resolve_session(fe(1), ch(2)), None);
}

#[test]
fn lease_expiry_abandons_only_expired_channels() {
    let mut reg = FrontendRegistry::new();
    let h_a = reg.start_session(fe(1), ch(1), None, None, 0);
    let h_b = reg.start_session(fe(1), ch(2), None, None, 0);
    // Lease A expires at 100, B at 1000.
    reg.set_lease(fe(1), ch(1), Lease { expires_at: 100 });
    reg.set_lease(fe(1), ch(2), Lease { expires_at: 1000 });

    let abandoned = reg.expire_leases(500);
    assert_eq!(abandoned, vec![h_a]);
    // A abandoned, B still active.
    assert_eq!(reg.resolve_session(fe(1), ch(1)), None);
    assert_eq!(reg.resolve_session(fe(1), ch(2)), Some(h_b));
}

#[test]
fn native_explicit_binding_is_tracked() {
    let mut reg = FrontendRegistry::new();
    let native = SessionHandle::new(999);
    reg.bind_native_session(fe(1), ch(1), native);
    assert!(reg.is_explicit(fe(1), ch(1)));
    assert_eq!(reg.resolve_session(fe(1), ch(1)), Some(native));
}

#[test]
fn sessions_persist_and_restore_across_restart() {
    // Start sessions, record attempts, persist.
    let mut reg = FrontendRegistry::new();
    let h_a = reg.start_session(fe(1), ch(1), Some("proj".into()), Some("debug".into()), 0);
    let h_b = reg.start_session(fe(1), ch(2), None, None, 0);
    reg.record_attempt(fe(1), ch(1), attempt(1, h_a));
    reg.set_lease(fe(1), ch(1), Lease { expires_at: 5000 });
    let kept = reg.snapshot();

    // Simulate restart: load into a fresh registry.
    let mut reg2 = FrontendRegistry::restore(Some(kept));
    // Active sessions restored.
    assert_eq!(reg2.resolve_session(fe(1), ch(1)), Some(h_a));
    assert_eq!(reg2.resolve_session(fe(1), ch(2)), Some(h_b));
    // Attempts and lease restored.
    assert_eq!(reg2.channel_count(), 2);
    // The restored session for ch(1) has its recorded attempt.
    let s = reg2.session(h_a).unwrap();
    assert_eq!(s.attempts.len(), 1);
    assert_eq!(s.project.as_deref(), Some("proj"));
    // The lease is restored so expiry still applies.
    let abandoned = reg2.expire_leases(6000);
    assert_eq!(abandoned, vec![h_a]);
}

#[test]
fn reconnect_restores_only_verified_channel_binding() {
    let mut reg = FrontendRegistry::new();
    let h_a = reg.start_session(fe(1), ch(1), None, None, 0);
    let kept = reg.snapshot();

    // A reconnecting frontend presents (frontend_id, channel_id). The
    // daemon restores the binding only if it matches a persisted one.
    let reg2 = FrontendRegistry::restore(Some(kept));
    // Verified: the persisted channel is found.
    assert_eq!(reg2.resolve_session(fe(1), ch(1)), Some(h_a));
    // Not verified: an unknown channel has no session (never guessed).
    assert_eq!(reg2.resolve_session(fe(1), ch(99)), None);
    // Not verified: a different frontend cannot claim the session.
    assert_eq!(reg2.resolve_session(fe(2), ch(1)), None);
}

#[test]
fn load_missing_file_yields_empty_registry() {
    let reg = FrontendRegistry::restore(None);
    assert_eq!(reg.channel_count(), 0);
    assert_eq!(reg.session_count(), 0);
}

/// A session that is over cannot end once more: what it ended with stays.
#[test]
fn a_second_end_changes_nothing() {
    let mut reg = FrontendRegistry::new();
    let h = reg.start_session(fe(1), ch(1), None, None, 0);
    reg.end_session(fe(1), ch(1), TaskOutcome::Success, None, vec!["a".to_string()], 100);
    let again = reg.end_session(fe(1), ch(1), TaskOutcome::Failure, None, vec![], 200);
    assert_eq!(again, Some(h));
    let s = reg.session(h).unwrap();
    assert_eq!(s.outcome, Some(TaskOutcome::Success));
    assert_eq!(s.lessons, vec!["a".to_string()]);
}

/// Starting on a channel with an active session goes on with it.
#[test]
fn starting_twice_keeps_the_session() {
    let mut reg = FrontendRegistry::new();
    let a = reg.start_session(fe(1), ch(1), None, None, 0);
    let b = reg.start_session(fe(1), ch(1), Some("p".to_string()), None, 50);
    assert_eq!(a, b);
    assert_eq!(reg.session_count(), 1);
}

#[test]
fn an_expired_session_is_abandoned() {
    let mut reg = FrontendRegistry::new();
    let h = reg.start_session(fe(1), ch(1), None, None, 0);
    reg.set_lease(fe(1), ch(1), Lease { expires_at: 100 });
    assert_eq!(reg.expire_leases(99), vec![]);
    assert_eq!(reg.expire_leases(100), vec![h]);
    assert!(matches!(reg.session(h).unwrap().status, SessionStatus::Abandoned));
    assert_eq!(reg.expire_leases(200), vec![]);
}

/// Decay never takes a confidence below its floor.
#[test]
fn attempts_decay_and_boost_within_bounds() {
    let mut reg = FrontendRegistry::new();
    let h = reg.start_session(fe(1), ch(1), None, None, 0);
    reg.record_attempt(fe(1), ch(1), attempt(1, h));
    reg.decay_attempts(score(0.3));
    assert_eq!(reg.session(h).unwrap().attempts[0].confidence, score(1.0 - 0.3));
    reg.boost_attempt(h, 1, score(0.9), 5);
    assert_eq!(reg.session(h).unwrap().attempts[0].confidence, score(1.0));
    reg.penalize_attempt(h, 1, score(0.1), 6);
    assert_eq!(reg.session(h).unwrap().attempts[0].confidence, score(1.0 - 0.1));
}

#[test]
fn a_session_that_is_over_takes_nothing_in() {
    let mut reg = FrontendRegistry::new();
    assert_eq!(reg.record_attempt(fe(1), ch(1), attempt(1, SessionHandle::new(9))), None);
    let h = reg.start_session(fe(1), ch(1), None, None, 0);
    reg.end_session(fe(1), ch(1), TaskOutcome::Success, None, vec![], 100);
    assert_eq!(reg.record_attempt(fe(1), ch(1), attempt(1, h)), None);
    reg.track_guide_used(fe(1), ch(1), "react");
    reg.track_memories_read(fe(1), ch(1), &vec!["a".to_string()]);
    reg.track_memories_created(fe(1), ch(1), &vec!["b".to_string()]);
    let s = reg.session(h).unwrap();
    assert!(s.attempts.is_empty());
    assert!(s.guides_used.is_empty());
    assert!(s.memories_read.is_empty());
    assert!(s.memories_created.is_empty());
}

#[test]
fn an_active_session_notes_what_was_used() {
    let mut reg = FrontendRegistry::new();
    let h = reg.start_session(fe(1), ch(1), None, None, 0);
    assert_eq!(reg.record_attempt(fe(1), ch(1), attempt(1, h)), Some(h));
    reg.track_guide_used(fe(1), ch(1), "React");
    reg.track_guide_used(fe(1), ch(1), "react");
    reg.track_memories_read(fe(1), ch(1), &vec!["a".to_string(), "a".to_string()]);
    let s = reg.session(h).unwrap();
    assert_eq!(s.attempts.len(), 1);
    assert_eq!(s.guides_used, vec!["react".to_string()]);
    assert_eq!(s.memories_read, vec!["a".to_string()]);
}

/// A step of any size is taken, either way.
#[test]
fn steps_of_any_size_stay_within_bounds() {
    let mut reg = FrontendRegistry::new();
    let h = reg.start_session(fe(1), ch(1), None, None, 0);
    reg.record_attempt(fe(1), ch(1), attempt(1, h));
    reg.penalize_attempt(h, 1, score(5.0), 1);
    assert_eq!(reg.session(h).unwrap().attempts[0].confidence, Score(0));
    reg.boost_attempt(h, 1, score(7.0), 2);
    assert_eq!(reg.session(h).unwrap().attempts[0].confidence, score(1.0));
    reg.boost_attempt(h, 1, score(-0.4), 3);
    assert_eq!(reg.session(h).unwrap().attempts[0].confidence, score(1.0 - 0.4));
    reg.decay_attempts(score(f64::MAX));
    assert_eq!(reg.session(h).unwrap().attempts[0].confidence, Score(0));
}
