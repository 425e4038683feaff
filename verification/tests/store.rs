use ltmrs::canonical::repository::CanonicalRepository;
use ltmrs::daemon::tools::stats::filter_by_project;
use ltmrs::digest::sha256_hex;
use ltmrs::domain::command::{
    CommandContext, DomainCommand, DomainErrorCode, ForgetMode, MemoryPatch, ReceiptOutcome,
    Scope,
};
use ltmrs::domain::guide::Guide;
use ltmrs::domain::id::{
    ChannelId, DocumentRevision, EligibilityRevision, EntityId, EntityRevision, ExternalAlias,
    FrontendId, OperationId, SessionHandle, StoreGeneration,
};
use ltmrs::domain::interpreter::ReferenceInterpreter;
use ltmrs::domain::memory::{FragmentType, Instant, Memory, MemoryLifecycle, MemorySource};
use ltmrs::domain::relation::{Relation, RelationType};
use ltmrs::domain::score::Score;
use ltmrs::domain::session::TaskOutcome;

/// The score of a number.
fn score(x: f64) -> Score {
    let size = x.abs().to_bits() as i64;
    Score(if x < 0.0 { -size } else { size })
}

fn eid(n: u64) -> EntityId {
    EntityId::new(n as u128)
}

fn opid(n: u64) -> u64 {
    10_000 + n
}

fn memory(id: EntityId, title: &str) -> Memory {
    Memory {
        id,
        external_alias: None,
        title: title.to_string(),
        fragment: format!("frag-{title}"),
        description: String::new(),
        fragment_type: FragmentType::Fact,
        project: None,
        source: MemorySource::Ai,
        confidence: score(0.5),
        quality_score: None,
        lifecycle: MemoryLifecycle::Live,
        tags: vec![],
        associated_with: vec![],
        relations: vec![],
        parent_id: None,
        child_ids: vec![],
        session_id: None,
        task_type: None,
        related_guides: vec![],
        evidence: vec![],
        access_count: 0,
        last_accessed_at: None,
        positive_feedback: 0,
        negative_feedback: 0,
        negative_hits: 0,
        refinement_count: 0,
        distill_candidate: false,
        entity_revision: EntityRevision::new(1),
        document_revision: DocumentRevision::new(1),
        eligibility_revision: EligibilityRevision::new(1),
        created_at: Instant::new(1),
        updated_at: Instant::new(1),
        raw_created: None,
        unknown_fields: vec![],
    }
}

fn test_memory(n: u64) -> Memory {
    let mut m = memory(eid(n), &format!("Memory {n}"));
    m.fragment = format!("Fragment {n}");
    m.entity_revision = EntityRevision::new(0);
    m.created_at = Instant::new(0);
    m.updated_at = Instant::new(0);
    m
}

fn mem(n: u64, alias: Option<&str>) -> Memory {
    let mut m = memory(eid(n), &format!("t{n}"));
    m.fragment = format!("f{n}");
    m.entity_revision = EntityRevision::new(0);
    m.external_alias = alias.map(|a| ExternalAlias::new(a.to_string()));
    m
}

fn guide(name: &str, now: u64) -> Guide {
    Guide {
        name: name.to_string(),
        category: "web-frontend".into(),
        description: String::new(),
        contexts: vec![],
        learnings: vec![],
        usage_count: 0,
        last_used: None,
        success_count: 0,
        failure_count: 0,
        anti_patterns: vec![],
        pitfalls: vec![],
        depends_on: vec![],
        enables: vec![],
        source_memories: vec![],
        validated_by: vec![],
        superseded_by: None,
        deprecated: false,
        entity_revision: EntityRevision::new(1),
        created_at: Instant::new(now),
        updated_at: Instant::new(now),
    }
}

fn ctx(op_num: u64, digest: &str) -> CommandContext {
    CommandContext {
        store_generation: StoreGeneration::first(),
        frontend_id: FrontendId::new(1),
        channel_id: ChannelId::new(2),
        session: None,
        operation_id: OperationId::new(op_num as u128),
        request_digest: digest.to_string(),
        deadline_millis: None,
        scope: Scope::default(),
        retry_epoch: 1,
    }
}

fn test_ctx(op_num: u64) -> CommandContext {
    ctx(op_num, &format!("digest-{op_num}"))
}

#[test]
fn apply_add_memory_stores_receipt_atomically() {
    let mut repo = CanonicalRepository::new(1);
    let m = memory(eid(1), "hello");
    let r = repo
        .apply(
            &ctx(1, "d1"),
            &DomainCommand::AddMemory {
                memory: m,
                session: None,
            },
        )
        .unwrap();
    assert!(matches!(r.outcome, ReceiptOutcome::Success { .. }));
    // Receipt is durably recorded with the same operation key.
    let stored = repo
        .lookup_receipt(StoreGeneration::first(), r.operation_id)
        .unwrap();
    assert_eq!(stored.operation_id, r.operation_id);
    assert_eq!(stored.request_digest, "d1");
}

#[test]
fn idempotent_replay_returns_recorded_receipt() {
    let mut repo = CanonicalRepository::new(1);
    let m = memory(eid(1), "hello");
    let c = ctx(1, "d1");
    let r1 = repo
        .apply(
            &c,
            &DomainCommand::AddMemory {
                memory: m.clone(),
                session: None,
            },
        )
        .unwrap();
    // Same key + same digest: replay returns the recorded result, no error.
    let r2 = repo
        .apply(
            &c,
            &DomainCommand::AddMemory {
                memory: m,
                session: None,
            },
        )
        .unwrap();
    assert_eq!(r1.operation_id, r2.operation_id);
}

#[test]
fn key_reuse_with_different_input_is_error() {
    let mut repo = CanonicalRepository::new(1);
    let m = memory(eid(1), "hello");
    let c1 = ctx(1, "d1");
    repo.apply(
        &c1,
        &DomainCommand::AddMemory {
            memory: m,
            session: None,
        },
    )
    .unwrap();
    // Same operation key, different digest: must be rejected.
    let c2 = ctx(1, "DIFFERENT");
    let err = repo
        .apply(
            &c2,
            &DomainCommand::AddMemory {
                memory: memory(eid(1), "x"),
                session: None,
            },
        )
        .unwrap_err();
    assert_eq!(err.code, DomainErrorCode::KeyReuseDifferentInput);
}

#[test]
fn stale_revision_conflict_is_not_blindly_rebased() {
    let mut repo = CanonicalRepository::new(1);
    let m = memory(eid(1), "hello");
    repo.apply(
        &ctx(1, "d1"),
        &DomainCommand::AddMemory {
            memory: m,
            session: None,
        },
    )
    .unwrap();
    // Update with a stale expected_revision must be rejected, not rebased.
    let patch = MemoryPatch {
        title: Some("new".into()),
        ..Default::default()
    };
    let err = repo
        .apply(
            &ctx(2, "d2"),
            &DomainCommand::UpdateMemory {
                id: eid(1),
                expected_revision: Some(EntityRevision::new(99)),
                patch,
            },
        )
        .unwrap_err();
    assert_eq!(err.code, DomainErrorCode::RevisionConflict);
}

#[test]
fn supersession_cycle_rejected_concurrency_safely() {
    let mut repo = CanonicalRepository::new(1);
    for n in [1u64, 2, 3] {
        repo.apply(
            &ctx(n, &format!("m{n}")),
            &DomainCommand::AddMemory {
                memory: memory(eid(n), &format!("m{n}")),
                session: None,
            },
        )
        .unwrap();
    }
    // 1 -> 2 -> 3 supersession chain.
    repo.apply(
        &ctx(10, "e1"),
        &DomainCommand::Relate {
            relation: rel(eid(100), eid(1), eid(2), RelationType::Supersedes),
        },
    )
    .unwrap();
    repo.apply(
        &ctx(11, "e2"),
        &DomainCommand::Relate {
            relation: rel(eid(101), eid(2), eid(3), RelationType::Supersedes),
        },
    )
    .unwrap();
    // 3 -> 1 would form a cycle: must be rejected.
    let err = repo
        .apply(
            &ctx(12, "e3"),
            &DomainCommand::Relate {
                relation: rel(eid(102), eid(3), eid(1), RelationType::Supersedes),
            },
        )
        .unwrap_err();
    assert_eq!(err.code, DomainErrorCode::SupersessionCycle);
}

fn rel(id: EntityId, s: EntityId, t: EntityId, ty: RelationType) -> Relation {
    Relation::new(id, s, t, ty, None, Instant::new(1))
}

#[test]
fn forget_transitions_lifecycle() {
    let mut repo = CanonicalRepository::new(1);
    repo.apply(
        &ctx(1, "d1"),
        &DomainCommand::AddMemory {
            memory: memory(eid(1), "x"),
            session: None,
        },
    )
    .unwrap();
    repo.apply(
        &ctx(2, "d2"),
        &DomainCommand::Forget {
            id: eid(1),
            mode: ForgetMode::Invalidate,
        },
    )
    .unwrap();
    let m = repo.get_memories(&vec![eid(1)]).pop().unwrap();
    assert!(!m.lifecycle.is_recallable());
}

#[test]
fn hard_delete_severs_adjacency() {
    let mut repo = CanonicalRepository::new(1);
    repo.apply(
        &ctx(1, "d1"),
        &DomainCommand::AddMemory {
            memory: memory(eid(1), "a"),
            session: None,
        },
    )
    .unwrap();
    repo.apply(
        &ctx(2, "d2"),
        &DomainCommand::AddMemory {
            memory: memory(eid(2), "b"),
            session: None,
        },
    )
    .unwrap();
    repo.apply(
        &ctx(3, "e1"),
        &DomainCommand::Relate {
            relation: rel(eid(100), eid(1), eid(2), RelationType::Supports),
        },
    )
    .unwrap();
    assert_eq!(repo.neighbors(eid(1)).len(), 1);

    // Hard delete memory 1: its edge must be removed.
    repo.apply(
        &ctx(4, "d3"),
        &DomainCommand::Forget {
            id: eid(1),
            mode: ForgetMode::Delete,
        },
    )
    .unwrap();
    assert_eq!(repo.neighbors(eid(1)).len(), 0);
}

#[test]
fn one_winner_for_concurrent_absent_key() {
    let mut repo = CanonicalRepository::new(1);
    let mut winners = 0;
    for i in 0..8u64 {
        let r = repo.apply(
            &ctx(i + 100, &format!("d{i}")),
            &DomainCommand::AddMemory {
                memory: memory(eid(1), "T"),
                session: None,
            },
        );
        if r.is_ok() {
            winners += 1;
        }
    }
    let rows = repo.get_memories(&vec![eid(1)]).len();
    assert_eq!(winners, 1, "exactly one winner expected");
    assert_eq!(rows, 1, "exactly one row expected");
}

#[test]
fn test_add_memory() {
    let mut interp = ReferenceInterpreter::new(42, 0);
    let ctx = test_ctx(1);
    let memory = test_memory(100);
    let cmd = DomainCommand::AddMemory {
        memory: memory.clone(),
        session: None,
    };
    let receipt = interp.apply(&ctx, &cmd).unwrap();
    assert!(matches!(receipt.outcome, ReceiptOutcome::Success { .. }));
}

#[test]
fn test_idempotent_replay() {
    let mut interp = ReferenceInterpreter::new(42, 0);
    let ctx = test_ctx(1);
    let memory = test_memory(100);
    let cmd = DomainCommand::AddMemory {
        memory,
        session: None,
    };
    let receipt1 = interp.apply(&ctx, &cmd).unwrap();
    let receipt2 = interp.apply(&ctx, &cmd).unwrap();
    assert_eq!(
        receipt1.operation_id, receipt2.operation_id,
        "idempotent replay returns same operation"
    );
}

#[test]
fn test_revision_conflict() {
    let mut interp = ReferenceInterpreter::new(42, 0);
    let ctx1 = test_ctx(1);
    let memory = test_memory(100);
    let cmd = DomainCommand::AddMemory {
        memory,
        session: None,
    };
    let receipt = interp.apply(&ctx1, &cmd).unwrap();
    let affected = match receipt.outcome {
        ReceiptOutcome::Success { affected } => affected,
        _ => vec![],
    };
    let id = affected[0];

    let ctx2 = test_ctx(2);
    let stale_cmd = DomainCommand::UpdateMemory {
        id,
        expected_revision: Some(EntityRevision::new(999)),
        patch: MemoryPatch::default(),
    };
    let result = interp.apply(&ctx2, &stale_cmd);
    assert!(result.is_err());
}

#[test]
fn test_supersession_cycle_rejected() {
    let mut interp = ReferenceInterpreter::new(42, 0);
    let m1 = test_memory(1);
    let m2 = test_memory(2);
    interp
        .apply(
            &test_ctx(1),
            &DomainCommand::AddMemory {
                memory: m1.clone(),
                session: None,
            },
        )
        .unwrap();
    interp
        .apply(
            &test_ctx(2),
            &DomainCommand::AddMemory {
                memory: m2.clone(),
                session: None,
            },
        )
        .unwrap();

    let rel1 = Relation::new(
        EntityId::new(100),
        m1.id,
        m2.id,
        RelationType::Supersedes,
        None,
        Instant::new(0),
    );
    interp
        .apply(&test_ctx(3), &DomainCommand::Relate { relation: rel1 })
        .unwrap();

    let rel2 = Relation::new(
        EntityId::new(101),
        m2.id,
        m1.id,
        RelationType::Supersedes,
        None,
        Instant::new(0),
    );
    let result = interp.apply(&test_ctx(4), &DomainCommand::Relate { relation: rel2 });
    assert!(result.is_err());
}

#[test]
fn test_merge_archives_sources() {
    let mut interp = ReferenceInterpreter::new(42, 0);
    let m1 = test_memory(1);
    let m2 = test_memory(2);
    let m3 = test_memory(3);
    interp
        .apply(
            &test_ctx(1),
            &DomainCommand::AddMemory {
                memory: m1.clone(),
                session: None,
            },
        )
        .unwrap();
    interp
        .apply(
            &test_ctx(2),
            &DomainCommand::AddMemory {
                memory: m2.clone(),
                session: None,
            },
        )
        .unwrap();

    let cmd = DomainCommand::Merge {
        source_ids: vec![m1.id, m2.id],
        result: m3.clone(),
    };
    let receipt = interp.apply(&test_ctx(3), &cmd).unwrap();
    let affected = match receipt.outcome {
        ReceiptOutcome::Success { affected } => affected,
        _ => vec![],
    };
    assert_eq!(affected.len(), 3);
}

#[test]
fn test_feedback_updates_counters() {
    let mut interp = ReferenceInterpreter::new(42, 0);
    let m1 = test_memory(1);
    interp
        .apply(
            &test_ctx(1),
            &DomainCommand::AddMemory {
                memory: m1.clone(),
                session: None,
            },
        )
        .unwrap();

    interp
        .apply(
            &test_ctx(2),
            &DomainCommand::Feedback {
                memory_id: m1.id,
                useful: true,
            },
        )
        .unwrap();
    interp
        .apply(
            &test_ctx(3),
            &DomainCommand::Feedback {
                memory_id: m1.id,
                useful: false,
            },
        )
        .unwrap();

    assert_eq!(interp.feedback.len(), 2);
}

#[test]
fn test_forget_modes() {
    let mut interp = ReferenceInterpreter::new(42, 0);
    let m1 = test_memory(1);
    interp
        .apply(
            &test_ctx(1),
            &DomainCommand::AddMemory {
                memory: m1.clone(),
                session: None,
            },
        )
        .unwrap();

    interp
        .apply(
            &test_ctx(2),
            &DomainCommand::Forget {
                id: m1.id,
                mode: ForgetMode::Invalidate,
            },
        )
        .unwrap();

    let export = interp.export();
    let memory = export.memories.iter().find(|m| m.id == m1.id).unwrap();
    assert!(!memory.lifecycle.is_recallable());
}

#[test]
fn test_duplicate_memory_rejected() {
    let mut interp = ReferenceInterpreter::new(42, 0);
    let m1 = test_memory(1);
    interp
        .apply(
            &test_ctx(1),
            &DomainCommand::AddMemory {
                memory: m1.clone(),
                session: None,
            },
        )
        .unwrap();

    let result = interp.apply(
        &test_ctx(2),
        &DomainCommand::AddMemory {
            memory: m1,
            session: None,
        },
    );
    assert!(result.is_err());
}

#[test]
fn test_key_reuse_different_input() {
    let mut interp = ReferenceInterpreter::new(42, 0);
    let ctx1 = test_ctx(1);
    let m1 = test_memory(1);
    interp
        .apply(
            &ctx1,
            &DomainCommand::AddMemory {
                memory: m1,
                session: None,
            },
        )
        .unwrap();

    let mut ctx2 = test_ctx(1);
    ctx2.request_digest = "different-digest".to_string();
    let m2 = test_memory(2);
    let result = interp.apply(
        &ctx2,
        &DomainCommand::AddMemory {
            memory: m2,
            session: None,
        },
    );
    assert!(result.is_err());
}

#[test]
fn test_export_digest_stable() {
    let mut interp = ReferenceInterpreter::new(42, 0);
    let m1 = test_memory(1);
    interp
        .apply(
            &test_ctx(1),
            &DomainCommand::AddMemory {
                memory: m1,
                session: None,
            },
        )
        .unwrap();

    let export1 = interp.export();
    let digest1 = sha256_hex(&format!("{:?}", export1));
    let export2 = interp.export();
    let digest2 = sha256_hex(&format!("{:?}", export2));
    assert_eq!(digest1, digest2);
}

#[test]
fn test_session_lifecycle() {
    let mut interp = ReferenceInterpreter::new(42, 0);
    let handle = SessionHandle::new(1000);
    interp.register_session(
        handle,
        ChannelId::new(2),
        Some("debugging".to_string()),
        None,
    );

    let ctx = test_ctx(1);
    let cmd = DomainCommand::EndSession {
        session: handle,
        outcome: TaskOutcome::Success,
        final_approach: Some("fixed the bug".to_string()),
        lessons: vec!["always check logs".to_string()],
    };
    let receipt = interp.apply(&ctx, &cmd).unwrap();
    assert!(matches!(receipt.outcome, ReceiptOutcome::Success { .. }));
}

#[test]
fn test_guide_practice() {
    let mut interp = ReferenceInterpreter::new(42, 0);
    let ctx = test_ctx(1);
    let cmd = DomainCommand::GuidePractice {
        guide: "react".to_string(),
        category: "web-frontend".to_string(),
        contexts: vec!["hooks".to_string()],
        learnings: vec!["useCallback prevents re-renders".to_string()],
        outcome: Some(true),
    };
    let receipt = interp.apply(&ctx, &cmd).unwrap();
    assert!(matches!(receipt.outcome, ReceiptOutcome::Success { .. }));
}

#[test]
fn test_alias_allocation_collision() {
    let mut interp = ReferenceInterpreter::new(42, 0);
    let mut m1 = test_memory(1);
    m1.external_alias = Some(ExternalAlias::new("abc123".to_string()));
    interp
        .apply(
            &test_ctx(1),
            &DomainCommand::AddMemory {
                memory: m1,
                session: None,
            },
        )
        .unwrap();

    let alias = interp.allocate_alias("abc123");
    assert_ne!(alias.as_str(), "abc123");
}

/// Two writers at the same expected revision. Exactly
/// the permitted writer succeeds; the stale writer is rejected and its
/// intent is not silently reapplied.
#[test]
fn t_conc_01_single_writer_wins_at_same_revision() {
    let mut it = ReferenceInterpreter::new(1, 0);
    it.apply(
        &ctx(opid(1), "d1"),
        &DomainCommand::AddMemory {
            memory: mem(1, None),
            session: None,
        },
    )
    .unwrap();
    let id = eid(1);
    let rev = it.memory(id).unwrap().entity_revision;

    // Writer A changes content at the current revision => revision advances.
    let patch_a = MemoryPatch {
        title: Some("updated-a".into()),
        ..Default::default()
    };
    let a = it
        .apply(
            &ctx(opid(2), "da"),
            &DomainCommand::UpdateMemory {
                id,
                expected_revision: Some(rev),
                patch: patch_a,
            },
        )
        .unwrap();
    assert!(matches!(a.outcome, ReceiptOutcome::Success { .. }));

    // Writer B still holds the SAME (now stale) revision => must be rejected.
    let patch_b = MemoryPatch {
        title: Some("updated-b".into()),
        ..Default::default()
    };
    let b = it
        .apply(
            &ctx(opid(3), "db"),
            &DomainCommand::UpdateMemory {
                id,
                expected_revision: Some(rev),
                patch: patch_b,
            },
        )
        .unwrap_err();
    assert_eq!(b.code, DomainErrorCode::RevisionConflict);

    // The stale intent was NOT silently reapplied: revision advanced exactly once.
    assert_eq!(it.memory(id).unwrap().entity_revision, rev.next());
}

/// N independent sessions are all retained; a contested
/// create-if-absent for the same alias has exactly one winner.
#[test]
fn t_conc_02_independent_sessions_contested_alias_one_winner() {
    let mut it = ReferenceInterpreter::new(1, 0);
    for i in 0..32u64 {
        let h = SessionHandle::new(1000 + i as u128);
        let ch = ChannelId::new(2000 + i as u128);
        it.register_session(h, ch, Some("task".into()), None);
    }
    assert_eq!(it.sessions.len(), 32);

    let winner = it
        .apply(
            &ctx(opid(100), "w"),
            &DomainCommand::AddMemory {
                memory: mem(1, Some("contested")),
                session: None,
            },
        )
        .unwrap();
    assert!(matches!(winner.outcome, ReceiptOutcome::Success { .. }));

    let loser = it
        .apply(
            &ctx(opid(101), "l"),
            &DomainCommand::AddMemory {
                memory: mem(2, Some("contested")),
                session: None,
            },
        )
        .unwrap_err();
    assert_eq!(loser.code, DomainErrorCode::DuplicateAlias);
}

#[test]
fn guide_merge_removes_sources_and_forget_removes() {
    let mut it = ReferenceInterpreter::new(1, 0);
    for (i, g) in ["react", "hooks"].iter().enumerate() {
        it.apply(
            &ctx(opid(i as u64 + 1), &format!("g{}", i)),
            &DomainCommand::GuidePractice {
                guide: g.to_string(),
                category: "web".into(),
                contexts: vec![],
                learnings: vec![],
                outcome: None,
            },
        )
        .unwrap();
    }

    // Merge react + hooks into "react-complete".
    let now = it.clock.now_millis();
    let result = guide("react-complete", now);
    it.apply(
        &ctx(opid(10), "gm"),
        &DomainCommand::GuideMerge {
            source_names: vec!["react".into(), "hooks".into()],
            result,
        },
    )
    .unwrap();
    // Sources removed, merged guide present.
    assert!(!it.guide_position("react").is_some());
    assert!(!it.guide_position("hooks").is_some());
    assert!(it.guide_position("react-complete").is_some());

    // Forget the merged guide.
    it.apply(
        &ctx(opid(11), "gf"),
        &DomainCommand::GuideForget {
            name: "react-complete".into(),
        },
    )
    .unwrap();
    assert!(!it.guide_position("react-complete").is_some());
}

#[test]
fn a_project_inherits_what_belongs_to_none() {
    let mut alpha = memory(eid(1), "alpha");
    alpha.project = Some("Alpha".to_string());
    let mut beta = memory(eid(2), "beta");
    beta.project = Some("beta".to_string());
    let all = vec![alpha, beta, memory(eid(3), "global")];
    let titles = |project: Option<&str>| -> Vec<String> {
        filter_by_project(&all, &project.map(str::to_string)).into_iter().map(|m| m.title).collect()
    };
    assert_eq!(titles(Some(" ALPHA ")), vec!["alpha", "global"]);
    assert_eq!(titles(Some("gamma")), vec!["global"]);
    assert_eq!(titles(Some("  ")), vec!["global"]);
    assert_eq!(titles(None), vec!["global"]);
}

#[test]
fn a_guide_that_was_replaced_is_not_actionable() {
    let mut g = guide("react", 1);
    assert!(g.is_actionable());
    g.superseded_by = Some("vue".to_string());
    assert!(!g.is_actionable());
    g.superseded_by = None;
    g.deprecated = true;
    assert!(!g.is_actionable());
}
