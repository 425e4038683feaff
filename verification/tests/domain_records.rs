use ltmrs::compatibility::lemma::analytics::TRUSTED;
use ltmrs::compatibility::lemma::proactive::{DOUBTED, FADED};
use ltmrs::daemon::tools::retrieval::UNSCORED;
use ltmrs::domain::clock::{Clock, DeterministicIdGen, FrozenClock, TestTimeSource};
use ltmrs::domain::command::{
    DomainError, DomainErrorCode, ForgetMode, RetryNamespace, Scope, SnapshotToken,
};
use ltmrs::domain::graph::{reverse_view, validate_new_edge, GraphValidation};
use ltmrs::domain::id::{
    ChunkId, DocumentRevision, EligibilityRevision, EntityId, EntityRevision, ExternalAlias,
    FrontendId, ModelFingerprint, OperationId, StoreGeneration,
};
use ltmrs::domain::legacy::{
    all_mappings, classify_unknown_field, memory_fields, FieldDestination,
};
use ltmrs::domain::memory::{FragmentType, Instant, MemoryLifecycle, MemorySource};
use ltmrs::domain::project::Project;
use ltmrs::domain::projection::ProjectionJob;
use ltmrs::domain::relation::{Relation, RelationType};
use ltmrs::domain::score::{Score, ACCESS_STEP, BOOST_STEP, DECAY_STEP, UNIT};
use ltmrs::domain::session::{AttemptOutcome, SessionStatus, SuggestionStatus, TaskOutcome};

/// The score of a number.
fn score_of(x: f64) -> Score {
    let size = x.abs().to_bits() as i64;
    Score(if x < 0.0 { -size } else { size })
}

#[test]
fn quality_score_is_optional() {
    let score: Option<Score> = None;
    assert!(score.is_none());
    assert_eq!(Some(score_of(0.9)), Some(score_of(0.9)));
}

#[test]
fn lifecycle_distinctions() {
    assert!(MemoryLifecycle::Live.is_recallable());
    assert!(!MemoryLifecycle::Invalidated { at: Instant::new(1) }.is_recallable());
    assert!(!MemoryLifecycle::Archived { at: Instant::new(1) }.is_recallable());
    assert!(!MemoryLifecycle::Deleted { at: Instant::new(1) }.is_recallable());
}

#[test]
fn enums_roundtrip() {
    assert_eq!(TaskOutcome::parse("success"), Some(TaskOutcome::Success));
    assert_eq!(TaskOutcome::parse("nope"), None);
    assert_eq!(AttemptOutcome::parse("rejected"), Some(AttemptOutcome::Rejected));
    assert_eq!(SuggestionStatus::Pending.as_str(), "pending");
    for v in [
        TaskOutcome::Success,
        TaskOutcome::Partial,
        TaskOutcome::Failure,
        TaskOutcome::Abandoned,
    ] {
        assert_eq!(TaskOutcome::parse(v.as_str()), Some(v));
    }
}

#[test]
fn every_known_field_has_a_destination() {
    for m in all_mappings() {
        assert!(
            !matches!(m.destination, FieldDestination::LossReport)
                || m.legacy_field == "outcome",
            "unexpected loss report for {}",
            m.legacy_field
        );
    }
}

#[test]
fn unknown_fields_go_to_envelope() {
    assert_eq!(
        classify_unknown_field("some_future_field"),
        FieldDestination::Envelope
    );
}

#[test]
fn quality_score_is_canonical_optional() {
    let fields = memory_fields();
    let m = fields
        .iter()
        .find(|m| m.legacy_field == "quality_score")
        .unwrap();
    assert_eq!(m.destination, FieldDestination::Canonical);
    assert_eq!(m.canonical_field, Some("quality_score"));
}

#[test]
fn forget_modes_are_distinct() {
    assert_eq!(
        ForgetMode::Delete.lifecycle(),
        MemoryLifecycle::Deleted { at: Instant(0) }
    );
    assert_ne!(
        ForgetMode::Invalidate.lifecycle(),
        ForgetMode::Archive.lifecycle()
    );
    assert_eq!(MemorySource::parse("ai"), Some(MemorySource::Ai));
}

#[test]
fn scope_inheritance() {
    let scope = Scope {
        project: Some("app".into()),
        ..Default::default()
    };
    assert!(scope.includes_project(Some("app")));
    assert!(scope.includes_project(None));
    assert!(!scope.includes_project(Some("other")));

    let global_only = Scope::default();
    assert!(global_only.includes_project(None));
    assert!(!global_only.includes_project(Some("app")));

    let all = Scope {
        all_projects: true,
        ..Default::default()
    };
    assert!(all.includes_project(Some("anything")));
}

#[test]
fn project_global_scope_reflects_flag() {
    let p = Project {
        id: EntityId::new(1),
        name: "app".into(),
        legacy_name: Some("app".into()),
        is_global: false,
    };
    assert!(!p.is_global_scope());
    let g = Project {
        id: EntityId::new(2),
        name: "global".into(),
        legacy_name: None,
        is_global: true,
    };
    assert!(g.is_global_scope());
}

#[test]
fn seq_is_the_token_not_an_identity() {
    let a = ProjectionJob {
        memory_id: EntityId::new(1),
        desired_document_revision: DocumentRevision::new(1),
        seq: 1,
        enqueued_at_millis: 1000,
        is_tombstone: false,
    };
    let b = ProjectionJob {
        memory_id: EntityId::new(1),
        desired_document_revision: DocumentRevision::new(2),
        seq: 2,
        enqueued_at_millis: 2000,
        is_tombstone: false,
    };
    assert_ne!(a.seq, b.seq);
    assert_eq!(a.memory_id, b.memory_id);
}

fn id(n: u64) -> EntityId {
    EntityId::new(n as u128)
}

fn edge(s: u64, t: u64, ty: RelationType) -> Relation {
    Relation::new(id(1000 + s + t), id(s), id(t), ty, None, Instant::new(1))
}

fn all_live(_id: EntityId) -> bool {
    true
}

#[test]
fn rejects_self_supersession() {
    let e = edge(1, 1, RelationType::Supersedes);
    assert_eq!(
        validate_new_edge(&e, &vec![], all_live),
        GraphValidation::Reject(DomainErrorCode::SelfSupersession)
    );
}

#[test]
fn rejects_missing_endpoint() {
    let e = edge(1, 2, RelationType::RelatedTo);
    assert_eq!(
        validate_new_edge(&e, &vec![], |i| i != id(2)),
        GraphValidation::Reject(DomainErrorCode::NotFound)
    );
}

#[test]
fn rejects_duplicate_edge() {
    let e = edge(1, 2, RelationType::Supports);
    let existing = vec![edge(1, 2, RelationType::Supports)];
    assert_eq!(
        validate_new_edge(&e, &existing, all_live),
        GraphValidation::Reject(DomainErrorCode::DuplicateEdge)
    );
}

#[test]
fn rejects_supersession_cycle() {
    let existing = vec![edge(1, 2, RelationType::Supersedes)];
    let new = edge(2, 1, RelationType::Supersedes);
    assert_eq!(
        validate_new_edge(&new, &existing, all_live),
        GraphValidation::Reject(DomainErrorCode::SupersessionCycle)
    );
}

#[test]
fn rejects_long_supersession_cycle() {
    let existing = vec![
        edge(1, 2, RelationType::Supersedes),
        edge(2, 3, RelationType::Supersedes),
        edge(2, 4, RelationType::Supports),
        edge(3, 5, RelationType::SupersededBy),
    ];
    assert_eq!(
        validate_new_edge(&edge(5, 1, RelationType::Supersedes), &existing, all_live),
        GraphValidation::Reject(DomainErrorCode::SupersessionCycle)
    );
    assert_eq!(
        validate_new_edge(&edge(4, 1, RelationType::Supersedes), &existing, all_live),
        GraphValidation::Accept
    );
    assert_eq!(
        validate_new_edge(&edge(5, 1, RelationType::Supports), &existing, all_live),
        GraphValidation::Accept
    );
}

#[test]
fn allows_valid_edge() {
    let e = edge(1, 2, RelationType::Supports);
    assert_eq!(
        validate_new_edge(&e, &vec![], all_live),
        GraphValidation::Accept
    );
}

#[test]
fn reverse_view_derived() {
    let e = edge(1, 2, RelationType::Supersedes);
    let r = reverse_view(&e);
    assert_eq!(r.source, id(2));
    assert_eq!(r.target, id(1));
    assert_eq!(r.relation_type, RelationType::SupersededBy);
    assert_eq!(reverse_view(&r), e);
}

#[test]
fn relation_types() {
    for t in [
        RelationType::Supports,
        RelationType::Contradicts,
        RelationType::Supersedes,
        RelationType::SupersededBy,
        RelationType::RelatedTo,
    ] {
        assert_eq!(RelationType::parse(t.as_str()), Some(t));
        assert_eq!(t.inverse().inverse(), t);
        assert_eq!(t.is_symmetric(), !t.is_supersession());
    }
    assert_eq!(RelationType::parse("Supports"), None);
}

#[test]
fn fragment_types_and_sources() {
    for t in [
        FragmentType::Fact,
        FragmentType::Pattern,
        FragmentType::Lesson,
        FragmentType::Warning,
        FragmentType::Context,
    ] {
        assert_eq!(FragmentType::parse(t.as_str()), Some(t));
    }
    assert_eq!(FragmentType::parse(""), None);
    assert_eq!(MemorySource::parse(MemorySource::User.as_str()), Some(MemorySource::User));
    assert!(SessionStatus::Ended.is_terminal());
    assert!(SessionStatus::Abandoned.is_terminal());
    assert!(!SessionStatus::Active.is_terminal());
}

#[test]
fn error_codes_read_back() {
    for c in [
        DomainErrorCode::NotFound,
        DomainErrorCode::RevisionConflict,
        DomainErrorCode::DuplicateAlias,
        DomainErrorCode::DuplicateEdge,
        DomainErrorCode::SelfSupersession,
        DomainErrorCode::SupersessionCycle,
        DomainErrorCode::InvalidLifecycleTransition,
        DomainErrorCode::StaleReplay,
        DomainErrorCode::KeyReuseDifferentInput,
        DomainErrorCode::OutOfScope,
        DomainErrorCode::Validation,
    ] {
        assert_eq!(DomainErrorCode::parse(c.as_str()), c);
    }
    assert_eq!(DomainErrorCode::parse("anything"), DomainErrorCode::Validation);
    let e = DomainError::new(DomainErrorCode::NotFound, "gone");
    assert_eq!(e.message, "gone");
}

#[test]
fn retry_namespace_has_a_fixed_end() {
    let ns = RetryNamespace::new(FrontendId::new(1), 3, 1000, 500);
    assert_eq!(ns.expires_at, 1500);
    assert!(ns.is_valid_at(1499));
    assert!(!ns.is_valid_at(1500));
    assert_eq!(SnapshotToken::new(7).as_u64(), 7);
}

#[test]
fn clocks_and_ids_count() {
    let mut c = FrozenClock::new(5);
    c.advance(10);
    assert_eq!(c.now_millis(), 15);
    assert_eq!(Clock::now_millis(&c), 15);
    let mut t = TestTimeSource::new(1);
    t.advance(2);
    assert_eq!(t.now(), 3);
    let mut g = DeterministicIdGen::new(42);
    assert_eq!(g.next_entity_id(), EntityId::new(43));
    assert_eq!(g.next_operation_id(), OperationId::new(1043));
    assert_eq!(g.next_entity_id(), EntityId::new(44));
}

#[test]
fn plain_identities() {
    assert_eq!(StoreGeneration::first().as_u64(), 1);
    assert_eq!(EntityRevision::new(1).next().as_u64(), 2);
    assert_eq!(DocumentRevision::new(1).next().as_u64(), 2);
    assert_eq!(EligibilityRevision::new(1).next().as_u64(), 2);
    assert_eq!(ModelFingerprint::new(9).as_u64(), 9);
    assert_eq!(ChunkId::new(9).as_u32(), 9);
    assert_eq!(ExternalAlias::new("m1".to_string()).as_str(), "m1");
}

#[test]
fn scores_are_held_between_zero_and_one() {
    let up = Score(ACCESS_STEP);
    let down = Score(BOOST_STEP);
    assert_eq!(score_of(0.5).raised(up), score_of(0.5 + 0.015));
    assert_eq!(score_of(0.1).raised(up), score_of(0.1 + 0.015));
    assert_eq!(score_of(0.99).raised(up), score_of(1.0));
    assert_eq!(score_of(0.3).lowered(down), score_of(0.3 - 0.02));
    assert_eq!(score_of(0.01).lowered(down), Score(0));
    assert_eq!(score_of(0.02).lowered(down), Score(0));
    assert_eq!(score_of(1.5).raised(up), score_of(1.0));
    assert_eq!(score_of(1.5).lowered(down), score_of(1.5 - 0.02));
    assert_eq!(score_of(-0.5).raised(up), score_of(-0.5 + 0.015));
    assert!(score_of(1.0).is_valid());
    assert!(!score_of(1.0000000000000002).is_valid());
    assert!(!score_of(-1e-9).is_valid());
}

#[test]
fn the_steps_are_those_of_the_machine() {
    assert_eq!(Score(UNIT), score_of(1.0));
    assert_eq!(Score(ACCESS_STEP), score_of(0.015));
    assert_eq!(Score(BOOST_STEP), score_of(0.02));
    assert_eq!(Score(DECAY_STEP), score_of(0.002));
    assert_eq!(Score(UNSCORED), score_of(0.5));
    assert_eq!(Score(TRUSTED), score_of(0.8));
    assert_eq!(Score(FADED), score_of(0.2));
    assert_eq!(Score(DOUBTED), score_of(0.4));
}

#[test]
fn sums_of_scores_are_those_of_the_machine() {
    let mut seed = 17u64;
    let mut next = || {
        seed = seed.wrapping_mul(6364136223846793005).wrapping_add(1442695040888963407);
        (seed >> 11) as f64 / (1u64 << 53) as f64
    };
    for _ in 0..5000 {
        let (c, d) = (next(), next() * next());
        assert_eq!(score_of(c).raised(score_of(d)), score_of((c + d).min(1.0)));
        assert_eq!(score_of(c).lowered(score_of(d)), score_of((c - d).max(0.0)));
        let (c, d) = (c * 1e-12, d * 1e-13);
        assert_eq!(score_of(c).raised(score_of(d)), score_of(c + d));
        assert_eq!(score_of(c).lowered(score_of(d)), score_of((c - d).max(0.0)));
    }
}
