use ltmrs::canonical::repository::CanonicalRepository;
use ltmrs::compatibility::lemma::tool_args::{
    ConflictScanArgs, GuideCreateArgs, GuideDistillArgs, GuideForgetArgs, GuideGetArgs,
    GuideMergeArgs, GuidePracticeArgs, GuideUpdateArgs, MemoryAddArgs, MemoryAuditArgs,
    MemoryFeedbackArgs, MemoryForgetArgs, MemoryLibraryArgs, MemoryMergeArgs, MemoryReadArgs,
    MemoryRelateArgs, MemoryStatsArgs, MemoryUpdateArgs, ProactiveAnalysisArgs,
    ProjectAnalyticsArgs, SemanticSearchArgs, SessionAttemptArgs, SessionEndArgs,
    SessionStartArgs, SessionStatsArgs, SuggestionRespondArgs, ToolArgs,
};
use ltmrs::daemon::dispatcher::Dispatcher;
use ltmrs::daemon::envelope::{DomainRequest, IpcEnvelope, ToolResult, PROTOCOL_VERSION};
use ltmrs::daemon::registry::FrontendRegistry;
use ltmrs::daemon::tools::data::{ReadData, ToolData};
use ltmrs::daemon::tools::execute::{execute_tool, is_ready};
use ltmrs::domain::command::Scope;
use ltmrs::domain::id::{ChannelId, FrontendId, OperationId, StoreGeneration};
use ltmrs::domain::memory::MemoryLifecycle;
use ltmrs::domain::score::Score;

/// The score of a number.
fn score(x: f64) -> Score {
    let size = x.abs().to_bits() as i64;
    Score(if x < 0.0 { -size } else { size })
}

fn fe(n: u64) -> FrontendId {
    FrontendId::new(n as u128)
}

fn ch(n: u64) -> ChannelId {
    ChannelId::new(n as u128)
}

fn test_dispatcher() -> Dispatcher {
    let mut d = Dispatcher::new(CanonicalRepository::new(1000), FrontendRegistry::new());
    assert_eq!(d.issue_namespace(FrontendId::new(1)).retry_epoch, 1);
    d
}

fn envelope(op: u64, body: DomainRequest) -> IpcEnvelope {
    let body_json = format!("{:?}", body);
    IpcEnvelope {
        protocol_version: PROTOCOL_VERSION,
        store_generation: StoreGeneration::first(),
        frontend_id: fe(1),
        channel_id: ch(1),
        operation_id: OperationId::new(op as u128),
        session: None,
        retry_epoch: 1,
        deadline_millis: None,
        scope: Scope::default(),
        body,
        body_json,
    }
}

fn tool_call(op: u64, tool: ToolArgs) -> IpcEnvelope {
    envelope(op, DomainRequest::ToolCall { tool })
}

fn run(disp: &mut Dispatcher, env: &IpcEnvelope, tool: &ToolArgs) -> ToolResult {
    assert!(is_ready(disp, env, tool));
    execute_tool(disp, env, tool, &Vec::new()).unwrap()
}

fn add_fragment(disp: &mut Dispatcher, op: u64, fragment: &str) -> String {
    let tool = ToolArgs::MemoryAdd(MemoryAddArgs {
        fragment: fragment.to_string(),
        ..Default::default()
    });
    let env = tool_call(op, tool.clone());
    let result = run(disp, &env, &tool);
    assert!(!result.is_error, "memory_add failed: {}", result.text);
    added_id(&result)
}

fn added_id(r: &ToolResult) -> String {
    match &r.structured {
        Some(ToolData::Added { id }) => id.clone(),
        other => panic!("unexpected data: {:?}", other),
    }
}

fn read_data(r: &ToolResult) -> &ReadData {
    match &r.structured {
        Some(ToolData::Read(d)) => d,
        other => panic!("unexpected data: {:?}", other),
    }
}

fn search_count(r: &ToolResult) -> usize {
    match &r.structured {
        Some(ToolData::Search(s)) => s.count,
        other => panic!("unexpected data: {:?}", other),
    }
}

fn practised(r: &ToolResult) -> u32 {
    match &r.structured {
        Some(ToolData::Practised { usage_count, .. }) => *usage_count,
        other => panic!("unexpected data: {:?}", other),
    }
}

fn result_text(r: &ToolResult) -> String {
    r.text.clone()
}

fn result_is_error(r: &ToolResult) -> bool {
    r.is_error
}

fn text_contains(r: &ToolResult, needle: &str) -> bool {
    r.text.contains(needle)
}

/// A score as a float.
fn number(s: Score) -> f64 {
    let size = f64::from_bits(s.0.unsigned_abs());
    if s.0 < 0 {
        -size
    } else {
        size
    }
}

#[test]
fn memory_add_stores_and_returns_id() {
    let mut disp = test_dispatcher();
    let env = tool_call(
        1,
        ToolArgs::MemoryAdd(MemoryAddArgs {
            fragment: "## Test Fragment\n\n### Context\nA test memory.\n".to_string(),
            project: Some("testproj".to_string()),
            ..Default::default()
        }),
    );
    let result = run(
        &mut disp,
        &env,
        &ToolArgs::MemoryAdd(MemoryAddArgs {
            fragment: "## Test Fragment\n\n### Context\nA test memory.\n".to_string(),
            project: Some("testproj".to_string()),
            ..Default::default()
        }),
    );
    assert!(!result_is_error(&result));
    let text = result_text(&result);
    assert!(text.contains("Added fragment [m"));
    assert!(added_id(&result).starts_with("m"));
}

#[test]
fn memory_add_redacts_secrets_by_default() {
    let mut disp = test_dispatcher();
    let frag = "api_key = sk_abc1234567890";
    let env = tool_call(
        1,
        ToolArgs::MemoryAdd(MemoryAddArgs {
            fragment: frag.to_string(),
            ..Default::default()
        }),
    );
    let result = run(
        &mut disp,
        &env,
        &ToolArgs::MemoryAdd(MemoryAddArgs {
            fragment: frag.to_string(),
            ..Default::default()
        }),
    );
    assert!(!result_is_error(&result));
    let id = added_id(&result);
    let eid = disp.repo.resolve_id(&id).unwrap();
    let mems = disp.repo.get_memories(&vec![eid]);
    assert!(mems[0].fragment.contains("[REDACTED]"));
    assert!(!mems[0].fragment.contains("sk_abc1234567890"));
}

#[test]
fn memory_add_confirm_stores_verbatim() {
    let mut disp = test_dispatcher();
    let frag = "api_key = sk_abc1234567890";
    let env = tool_call(
        1,
        ToolArgs::MemoryAdd(MemoryAddArgs {
            fragment: frag.to_string(),
            confirm: true,
            ..Default::default()
        }),
    );
    let result = run(
        &mut disp,
        &env,
        &ToolArgs::MemoryAdd(MemoryAddArgs {
            fragment: frag.to_string(),
            confirm: true,
            ..Default::default()
        }),
    );
    assert!(!result_is_error(&result));
    let id = added_id(&result);
    let eid = disp.repo.resolve_id(&id).unwrap();
    let mems = disp.repo.get_memories(&vec![eid]);
    assert!(mems[0].fragment.contains("sk_abc1234567890"));
}

#[test]
fn memory_add_rejects_duplicates() {
    let mut disp = test_dispatcher();
    add_fragment(
        &mut disp,
        1,
        "## Unique Topic Alpha\n\n### Context\nSomething unique about alpha topics and testing.",
    );
    let env = tool_call(2, ToolArgs::MemoryAdd(MemoryAddArgs {
        fragment: "## Unique Topic Alpha\n\n### Context\nSomething unique about alpha topics and testing.".to_string(),
        ..Default::default()
    }));
    let result = run(&mut disp, &env, &ToolArgs::MemoryAdd(MemoryAddArgs {
        fragment: "## Unique Topic Alpha\n\n### Context\nSomething unique about alpha topics and testing.".to_string(),
        ..Default::default()
    }));
    assert!(result_is_error(&result));
    assert!(result_text(&result).contains("similar memory already exists"));
}

#[test]
fn memory_add_flags_distill_candidate() {
    let mut disp = test_dispatcher();
    let env = tool_call(
        1,
        ToolArgs::MemoryAdd(MemoryAddArgs {
            fragment: "## A Lesson Learned\n\n### Context\nA lesson about testing.".to_string(),
            fragment_type: Some("lesson".to_string()),
            ..Default::default()
        }),
    );
    let result = run(
        &mut disp,
        &env,
        &ToolArgs::MemoryAdd(MemoryAddArgs {
            fragment: "## A Lesson Learned\n\n### Context\nA lesson about testing.".to_string(),
            fragment_type: Some("lesson".to_string()),
            ..Default::default()
        }),
    );
    assert!(result_text(&result).contains("distill candidate"));
}

#[test]
fn memory_read_browse_returns_summary() {
    let mut disp = test_dispatcher();
    add_fragment(
        &mut disp,
        1,
        "## Browseable Fragment One\n\n### Context\nFirst memory for browse testing.",
    );
    add_fragment(
        &mut disp,
        2,
        "## Browseable Fragment Two\n\n### Context\nSecond memory for browse testing.",
    );
    let env = tool_call(3, ToolArgs::MemoryRead(MemoryReadArgs::default()));
    let result = run(
        &mut disp,
        &env,
        &ToolArgs::MemoryRead(MemoryReadArgs::default()),
    );
    assert!(!result_is_error(&result));
    let text = result_text(&result);
    assert!(text.contains("## Memory Fragments"));
    assert!(text.contains("Browseable Fragment One"));
    assert_eq!(read_data(&result).count, 2);
}

#[test]
fn memory_read_by_id_returns_detail() {
    let mut disp = test_dispatcher();
    let id = add_fragment(
        &mut disp,
        1,
        "## Detail Fragment\n\n### Context\nA detail memory.",
    );
    let env = tool_call(
        2,
        ToolArgs::MemoryRead(MemoryReadArgs {
            id: Some(id.clone()),
            ..Default::default()
        }),
    );
    let result = run(
        &mut disp,
        &env,
        &ToolArgs::MemoryRead(MemoryReadArgs {
            id: Some(id.clone()),
            ..Default::default()
        }),
    );
    assert!(!result_is_error(&result));
    let text = result_text(&result);
    assert!(text.contains("=== MEMORY FRAGMENT DETAIL ==="));
    assert!(text.contains(&id));
    assert_eq!(read_data(&result).count, 1);
    assert_eq!(read_data(&result).fragments[0].id, id);
}

#[test]
fn memory_read_unknown_id_is_error() {
    let mut disp = test_dispatcher();
    let env = tool_call(
        1,
        ToolArgs::MemoryRead(MemoryReadArgs {
            id: Some("nonexistent".to_string()),
            ..Default::default()
        }),
    );
    let result = run(
        &mut disp,
        &env,
        &ToolArgs::MemoryRead(MemoryReadArgs {
            id: Some("nonexistent".to_string()),
            ..Default::default()
        }),
    );
    assert!(result_is_error(&result));
}

#[test]
fn memory_read_explain_includes_recall_explanation() {
    let mut disp = test_dispatcher();
    let id = add_fragment(
        &mut disp,
        1,
        "## Explain Fragment\n\n### Context\nFor explain testing.",
    );
    let env = tool_call(
        2,
        ToolArgs::MemoryRead(MemoryReadArgs {
            id: Some(id.clone()),
            explain: true,
            ..Default::default()
        }),
    );
    let result = run(
        &mut disp,
        &env,
        &ToolArgs::MemoryRead(MemoryReadArgs {
            id: Some(id.clone()),
            explain: true,
            ..Default::default()
        }),
    );
    assert!(!result_is_error(&result));
    let text = result_text(&result);
    assert!(text.contains("## Why these memories?"));
    assert!(text.contains("Requested by ID; no relevance ranking"));
    let exp = read_data(&result).recall_explanation.as_ref().unwrap();
    assert_eq!(exp.mode, "explicit_ids");
    assert_eq!(exp.items.len(), 1);
    assert_eq!(exp.items[0].method, "explicit_id");
    assert_eq!(exp.items[0].recorded_source, "ai");
    assert_eq!(exp.items[0].status, "no_evidence");
}

#[test]
fn memory_read_explain_query_mode_uses_ranked_method() {
    let mut disp = test_dispatcher();
    add_fragment(
        &mut disp,
        1,
        "## Query Explain Alpha\n\n### Context\nAbout alpha query explain testing.",
    );
    let env = tool_call(
        2,
        ToolArgs::MemoryRead(MemoryReadArgs {
            query: Some("alpha query explain".to_string()),
            explain: true,
            ..Default::default()
        }),
    );
    let result = run(
        &mut disp,
        &env,
        &ToolArgs::MemoryRead(MemoryReadArgs {
            query: Some("alpha query explain".to_string()),
            explain: true,
            ..Default::default()
        }),
    );
    assert!(!result_is_error(&result));
    let exp = read_data(&result).recall_explanation.as_ref().unwrap();
    assert_eq!(exp.mode, "project_and_global");
    let items = &exp.items;
    assert!(!items.is_empty());
    assert_eq!(items[0].method, "fts5_bm25");
    assert_eq!(items[0].rank, Some(1));
}

#[test]
fn memory_read_without_explain_has_no_explanation() {
    let mut disp = test_dispatcher();
    let id = add_fragment(
        &mut disp,
        1,
        "## No Explain Fragment\n\n### Context\nExplain flag off.",
    );
    let env = tool_call(
        2,
        ToolArgs::MemoryRead(MemoryReadArgs {
            id: Some(id.clone()),
            ..Default::default()
        }),
    );
    let result = run(
        &mut disp,
        &env,
        &ToolArgs::MemoryRead(MemoryReadArgs {
            id: Some(id.clone()),
            ..Default::default()
        }),
    );
    assert!(!result_is_error(&result));
    assert!(!result_text(&result).contains("Why these memories?"));
    assert!(read_data(&result).recall_explanation.is_none());
}

#[test]
fn memory_read_records_access_side_effect() {
    let mut disp = test_dispatcher();
    let id = add_fragment(
        &mut disp,
        1,
        "## Access Test Fragment\n\n### Context\nTesting access tracking.",
    );
    let eid = disp.repo.resolve_id(&id).unwrap();
    let upd = ToolArgs::MemoryUpdate(MemoryUpdateArgs {
        id: id.clone(),
        confidence: Some(score(0.5)),
        ..Default::default()
    });
    let env = tool_call(2, upd.clone());
    run(&mut disp, &env, &upd);

    let read = ToolArgs::MemoryRead(MemoryReadArgs {
        id: Some(id.clone()),
        context: Some("refactoring".to_string()),
        ..Default::default()
    });
    let env = tool_call(3, read.clone());
    let _ = run(&mut disp, &env, &read);

    let mems = disp.repo.get_memories(&vec![eid]);
    assert_eq!(mems[0].access_count, 1);
    assert!(mems[0].last_accessed_at.is_some());
    assert!((number(mems[0].confidence) - 0.515).abs() < 1e-9);
    assert!(mems[0].tags.contains(&"refactoring".to_string()));
}

#[test]
fn memory_update_changes_content() {
    let mut disp = test_dispatcher();
    let id = add_fragment(&mut disp, 1, "## Original Content\n\n### Context\nOriginal.");
    let env = tool_call(
        2,
        ToolArgs::MemoryUpdate(MemoryUpdateArgs {
            id: id.clone(),
            fragment: Some("## Updated Content\n\n### Context\nUpdated now.".to_string()),
            ..Default::default()
        }),
    );
    let result = run(
        &mut disp,
        &env,
        &ToolArgs::MemoryUpdate(MemoryUpdateArgs {
            id: id.clone(),
            fragment: Some("## Updated Content\n\n### Context\nUpdated now.".to_string()),
            ..Default::default()
        }),
    );
    assert!(!result_is_error(&result));
    assert!(result_text(&result).contains("Updated fragment"));
    let eid = disp.repo.resolve_id(&id).unwrap();
    let mems = disp.repo.get_memories(&vec![eid]);
    assert!(mems[0].fragment.contains("Updated Content"));
}

#[test]
fn memory_update_unknown_id_is_error() {
    let mut disp = test_dispatcher();
    let env = tool_call(
        1,
        ToolArgs::MemoryUpdate(MemoryUpdateArgs {
            id: "missing".to_string(),
            ..Default::default()
        }),
    );
    let result = run(
        &mut disp,
        &env,
        &ToolArgs::MemoryUpdate(MemoryUpdateArgs {
            id: "missing".to_string(),
            ..Default::default()
        }),
    );
    assert!(result_is_error(&result));
}

#[test]
fn memory_feedback_positive_boosts_confidence() {
    let mut disp = test_dispatcher();
    let id = add_fragment(
        &mut disp,
        1,
        "## Feedback Target\n\n### Context\nFor feedback testing.",
    );
    let eid = disp.repo.resolve_id(&id).unwrap();
    let upd = ToolArgs::MemoryUpdate(MemoryUpdateArgs {
        id: id.clone(),
        confidence: Some(score(0.5)),
        ..Default::default()
    });
    let env = tool_call(2, upd.clone());
    run(&mut disp, &env, &upd);
    let before = disp.repo.get_memories(&vec![eid])[0].confidence;
    let fb = ToolArgs::MemoryFeedback(MemoryFeedbackArgs {
        id: id.clone(),
        useful: true,
    });
    let env = tool_call(3, fb.clone());
    let result = run(&mut disp, &env, &fb);
    assert!(!result_is_error(&result));
    assert!(result_text(&result).contains("Positive feedback"));
    let m = &disp.repo.get_memories(&vec![eid])[0];
    assert!((number(m.confidence) - (number(before) + 0.015)).abs() < 1e-9);
    assert_eq!(m.access_count, 1);
    assert_eq!(m.positive_feedback, 1);
}

#[test]
fn memory_feedback_negative_reduces_confidence() {
    let mut disp = test_dispatcher();
    let id = add_fragment(
        &mut disp,
        1,
        "## Feedback Target Neg\n\n### Context\nFor negative feedback.",
    );
    let eid = disp.repo.resolve_id(&id).unwrap();
    let before = disp.repo.get_memories(&vec![eid])[0].confidence;
    let env = tool_call(
        2,
        ToolArgs::MemoryFeedback(MemoryFeedbackArgs {
            id: id.clone(),
            useful: false,
        }),
    );
    let result = run(
        &mut disp,
        &env,
        &ToolArgs::MemoryFeedback(MemoryFeedbackArgs {
            id: id.clone(),
            useful: false,
        }),
    );
    assert!(!result_is_error(&result));
    assert!(result_text(&result).contains("Negative feedback"));
    let m = &disp.repo.get_memories(&vec![eid])[0];
    assert!((number(m.confidence) - (number(before) - 0.02)).abs() < 1e-9);
    assert_eq!(m.negative_hits, 1);
    assert_eq!(m.negative_feedback, 1);
}

#[test]
fn memory_forget_hard_delete() {
    let mut disp = test_dispatcher();
    let id = add_fragment(&mut disp, 1, "## Forget Me\n\n### Context\nTo be deleted.");
    let eid = disp.repo.resolve_id(&id).unwrap();
    let env = tool_call(
        2,
        ToolArgs::MemoryForget(MemoryForgetArgs {
            id: id.clone(),
            ..Default::default()
        }),
    );
    let result = run(
        &mut disp,
        &env,
        &ToolArgs::MemoryForget(MemoryForgetArgs {
            id: id.clone(),
            ..Default::default()
        }),
    );
    assert!(!result_is_error(&result));
    assert!(result_text(&result).contains("Forgot fragment"));
    let mems = disp.repo.get_memories(&vec![eid]);
    assert!(matches!(
        mems[0].lifecycle,
        MemoryLifecycle::Deleted { .. }
    ));
}

#[test]
fn memory_forget_invalidate_hides_from_recall() {
    let mut disp = test_dispatcher();
    let id = add_fragment(
        &mut disp,
        1,
        "## Invalidate Me\n\n### Context\nTo be invalidated.",
    );
    let eid = disp.repo.resolve_id(&id).unwrap();
    let env = tool_call(
        2,
        ToolArgs::MemoryForget(MemoryForgetArgs {
            id: id.clone(),
            invalidate: true,
            ..Default::default()
        }),
    );
    let result = run(
        &mut disp,
        &env,
        &ToolArgs::MemoryForget(MemoryForgetArgs {
            id: id.clone(),
            invalidate: true,
            ..Default::default()
        }),
    );
    assert!(!result_is_error(&result));
    assert!(result_text(&result).contains("Invalidated fragment"));
    let mems = disp.repo.get_memories(&vec![eid]);
    assert!(!mems[0].lifecycle.is_recallable());
}

#[test]
fn memory_relate_creates_relation() {
    let mut disp = test_dispatcher();
    let id1 = add_fragment(
        &mut disp,
        1,
        "## Relate Source A\n\n### Context\nSource of relation.",
    );
    let id2 = add_fragment(
        &mut disp,
        2,
        "## Relate Target B\n\n### Context\nTarget of relation.",
    );
    let env = tool_call(
        3,
        ToolArgs::MemoryRelate(MemoryRelateArgs {
            source_id: id1.clone(),
            target_id: id2.clone(),
            relation_type: "supports".to_string(),
            note: None,
        }),
    );
    let result = run(
        &mut disp,
        &env,
        &ToolArgs::MemoryRelate(MemoryRelateArgs {
            source_id: id1.clone(),
            target_id: id2.clone(),
            relation_type: "supports".to_string(),
            note: None,
        }),
    );
    assert!(!result_is_error(&result));
    assert!(result_text(&result).contains("Created relation"));
    match &result.structured {
        Some(ToolData::Related { relation }) => assert_eq!(relation, "supports"),
        other => panic!("unexpected data: {:?}", other),
    }
}

#[test]
fn memory_relate_rejects_duplicate() {
    let mut disp = test_dispatcher();
    let id1 = add_fragment(
        &mut disp,
        1,
        "## Dup Relate A\n\n### Context\nFirst relation source.",
    );
    let id2 = add_fragment(
        &mut disp,
        2,
        "## Dup Relate B\n\n### Context\nFirst relation target.",
    );
    let tool = ToolArgs::MemoryRelate(MemoryRelateArgs {
        source_id: id1.clone(),
        target_id: id2.clone(),
        relation_type: "supports".to_string(),
        note: None,
    });
    let env1 = tool_call(3, tool.clone());
    let _ = run(&mut disp, &env1, &tool);
    let env2 = tool_call(4, tool.clone());
    let result = run(&mut disp, &env2, &tool);
    assert!(result_is_error(&result));
    assert!(result_text(&result).contains("already exists"));
}

#[test]
fn memory_relate_same_id_is_error() {
    let mut disp = test_dispatcher();
    let id = add_fragment(
        &mut disp,
        1,
        "## Self Relate\n\n### Context\nSelf relation test.",
    );
    let env = tool_call(
        2,
        ToolArgs::MemoryRelate(MemoryRelateArgs {
            source_id: id.clone(),
            target_id: id.clone(),
            relation_type: "supports".to_string(),
            note: None,
        }),
    );
    let result = run(
        &mut disp,
        &env,
        &ToolArgs::MemoryRelate(MemoryRelateArgs {
            source_id: id.clone(),
            target_id: id.clone(),
            relation_type: "supports".to_string(),
            note: None,
        }),
    );
    assert!(result_is_error(&result));
    assert!(result_text(&result).contains("cannot be the same"));
}

#[test]
fn memory_merge_combines_fragments() {
    let mut disp = test_dispatcher();
    let id1 = add_fragment(
        &mut disp,
        1,
        "## Merge Source One\n\n### Context\nFirst source of merge.",
    );
    let id2 = add_fragment(
        &mut disp,
        2,
        "## Merge Source Two\n\n### Context\nSecond source of merge.",
    );
    let env = tool_call(
        3,
        ToolArgs::MemoryMerge(MemoryMergeArgs {
            ids: vec![id1.clone(), id2.clone()],
            title: "Merged Result".to_string(),
            fragment: "## Merged Result\n\n### Context\nCombined content.".to_string(),
            project: None,
            consolidate: false,
        }),
    );
    let result = run(
        &mut disp,
        &env,
        &ToolArgs::MemoryMerge(MemoryMergeArgs {
            ids: vec![id1.clone(), id2.clone()],
            title: "Merged Result".to_string(),
            fragment: "## Merged Result\n\n### Context\nCombined content.".to_string(),
            project: None,
            consolidate: false,
        }),
    );
    assert!(!result_is_error(&result));
    assert!(result_text(&result).contains("Merged 2 fragments"));
    match &result.structured {
        Some(ToolData::Merged { merged_ids, .. }) => assert_eq!(merged_ids.len(), 2),
        other => panic!("unexpected data: {:?}", other),
    }
}

#[test]
fn memory_merge_requires_two_ids() {
    let mut disp = test_dispatcher();
    let id1 = add_fragment(
        &mut disp,
        1,
        "## Single Source\n\n### Context\nOnly one source.",
    );
    let env = tool_call(
        2,
        ToolArgs::MemoryMerge(MemoryMergeArgs {
            ids: vec![id1.clone()],
            title: "Bad Merge".to_string(),
            fragment: "## Bad\n\n### Context\nToo few.".to_string(),
            project: None,
            consolidate: false,
        }),
    );
    let result = run(
        &mut disp,
        &env,
        &ToolArgs::MemoryMerge(MemoryMergeArgs {
            ids: vec![id1.clone()],
            title: "Bad Merge".to_string(),
            fragment: "## Bad\n\n### Context\nToo few.".to_string(),
            project: None,
            consolidate: false,
        }),
    );
    assert!(result_is_error(&result));
}

#[test]
fn memory_stats_reports_counts() {
    let mut disp = test_dispatcher();
    add_fragment(
        &mut disp,
        1,
        "## Stats Fragment A\n\n### Context\nFirst stats memory.",
    );
    add_fragment(
        &mut disp,
        2,
        "## Stats Fragment B\n\n### Context\nSecond stats memory.",
    );
    let env = tool_call(3, ToolArgs::MemoryStats(MemoryStatsArgs::default()));
    let result = run(
        &mut disp,
        &env,
        &ToolArgs::MemoryStats(MemoryStatsArgs::default()),
    );
    assert!(!result_is_error(&result));
    match &result.structured {
        Some(ToolData::Stats(s)) => assert_eq!(s.total, 2),
        other => panic!("unexpected data: {:?}", other),
    }
    assert!(result_text(&result).contains("## Memory Stats"));
}

#[test]
fn memory_audit_reports_healthy() {
    let mut disp = test_dispatcher();
    add_fragment(
        &mut disp,
        1,
        "## Audit Fragment\n\n### Context\nFor audit testing.",
    );
    let env = tool_call(2, ToolArgs::MemoryAudit(MemoryAuditArgs::default()));
    let result = run(
        &mut disp,
        &env,
        &ToolArgs::MemoryAudit(MemoryAuditArgs::default()),
    );
    assert!(!result_is_error(&result));
    match &result.structured {
        Some(ToolData::Audit(a)) => assert_eq!(a.total_fragments, 1),
        other => panic!("unexpected data: {:?}", other),
    }
    assert!(result_text(&result).contains("## Memory Audit"));
}

#[test]
fn memory_library_returns_snapshot() {
    let mut disp = test_dispatcher();
    add_fragment(
        &mut disp,
        1,
        "## Library Fragment\n\n### Context\nFor library testing.",
    );
    let env = tool_call(2, ToolArgs::MemoryLibrary(MemoryLibraryArgs::default()));
    let result = run(
        &mut disp,
        &env,
        &ToolArgs::MemoryLibrary(MemoryLibraryArgs::default()),
    );
    assert!(!result_is_error(&result));
    match &result.structured {
        Some(ToolData::Library(l)) => assert_eq!(l.fragments_total, 1),
        other => panic!("unexpected data: {:?}", other),
    }
    assert!(result_text(&result).contains("LIBRARY MODE SNAPSHOT"));
}

#[test]
fn semantic_search_finds_relevant() {
    let mut disp = test_dispatcher();
    add_fragment(
        &mut disp,
        1,
        "## Rust Testing Patterns\n\n### Context\nHow to write tests in Rust with cargo test.",
    );
    add_fragment(
        &mut disp,
        2,
        "## Cooking Recipes\n\n### Context\nHow to bake bread at home.",
    );
    let ss_args = |q: &str| SemanticSearchArgs {
        query: q.to_string(),
        project: None,
        top_k: None,
        offset: None,
        hybrid: false,
        explain: false,
        response_format: None,
    };
    let env = tool_call(3, ToolArgs::SemanticSearch(ss_args("rust testing cargo")));
    let result = run(
        &mut disp,
        &env,
        &ToolArgs::SemanticSearch(ss_args("rust testing cargo")),
    );
    assert!(!result_is_error(&result));
    assert!(search_count(&result) >= 1);
    assert!(result_text(&result).contains("SEMANTIC SEARCH RESULTS"));
}

#[test]
fn semantic_search_empty_result() {
    let mut disp = test_dispatcher();
    add_fragment(
        &mut disp,
        1,
        "## Unrelated Content\n\n### Context\nNothing matching here.",
    );
    let ss_args = |q: &str| SemanticSearchArgs {
        query: q.to_string(),
        project: None,
        top_k: None,
        offset: None,
        hybrid: false,
        explain: false,
        response_format: None,
    };
    let env = tool_call(
        2,
        ToolArgs::SemanticSearch(ss_args("quantum chromodynamics lattice")),
    );
    let result = run(
        &mut disp,
        &env,
        &ToolArgs::SemanticSearch(ss_args("quantum chromodynamics lattice")),
    );
    assert!(!result_is_error(&result));
    assert_eq!(search_count(&result), 0);
    assert!(result_text(&result).contains("No semantically similar memories found"));
}

#[test]
fn guide_create_then_get_roundtrip() {
    let mut disp = test_dispatcher();
    let env = tool_call(
        1,
        ToolArgs::GuideCreate(GuideCreateArgs {
            guide: "react".to_string(),
            category: "web-frontend".to_string(),
            description: "## React Guide\n\n### Protocol\nUse hooks.".to_string(),
            contexts: vec!["hooks".to_string()],
            learnings: vec!["useCallback prevents re-renders".to_string()],
        }),
    );
    let result = run(
        &mut disp,
        &env,
        &ToolArgs::GuideCreate(GuideCreateArgs {
            guide: "react".to_string(),
            category: "web-frontend".to_string(),
            description: "## React Guide\n\n### Protocol\nUse hooks.".to_string(),
            contexts: vec!["hooks".to_string()],
            learnings: vec!["useCallback prevents re-renders".to_string()],
        }),
    );
    assert!(!result_is_error(&result));
    assert!(result_text(&result).contains("Created new guide \"react\""));

    let env2 = tool_call(
        2,
        ToolArgs::GuideGet(GuideGetArgs {
            guide: Some("react".to_string()),
            ..Default::default()
        }),
    );
    let result2 = run(
        &mut disp,
        &env2,
        &ToolArgs::GuideGet(GuideGetArgs {
            guide: Some("react".to_string()),
            ..Default::default()
        }),
    );
    let text2 = result_text(&result2);
    assert!(text2.contains("=== GUIDE: react ==="));
    assert!(text2.contains("useCallback prevents re-renders"));
}

#[test]
fn guide_practice_increments_usage() {
    let mut disp = test_dispatcher();
    let env = tool_call(
        1,
        ToolArgs::GuidePractice(GuidePracticeArgs {
            guide: "git".to_string(),
            category: "dev-tool".to_string(),
            description: None,
            contexts: vec!["commits".to_string()],
            learnings: vec!["always stage selectively".to_string()],
            outcome: Some("success".to_string()),
        }),
    );
    let result = run(
        &mut disp,
        &env,
        &ToolArgs::GuidePractice(GuidePracticeArgs {
            guide: "git".to_string(),
            category: "dev-tool".to_string(),
            description: None,
            contexts: vec!["commits".to_string()],
            learnings: vec!["always stage selectively".to_string()],
            outcome: Some("success".to_string()),
        }),
    );
    assert!(!result_is_error(&result));
    assert!(result_text(&result).contains("Created guide \"git\""));
    assert_eq!(practised(&result), 1);

    let env2 = tool_call(
        2,
        ToolArgs::GuidePractice(GuidePracticeArgs {
            guide: "git".to_string(),
            category: "dev-tool".to_string(),
            description: None,
            contexts: vec!["branches".to_string()],
            learnings: vec!["rebase before merge".to_string()],
            outcome: Some("failure".to_string()),
        }),
    );
    let result2 = run(
        &mut disp,
        &env2,
        &ToolArgs::GuidePractice(GuidePracticeArgs {
            guide: "git".to_string(),
            category: "dev-tool".to_string(),
            description: None,
            contexts: vec!["branches".to_string()],
            learnings: vec!["rebase before merge".to_string()],
            outcome: Some("failure".to_string()),
        }),
    );
    assert!(result_text(&result2).contains("Updated guide \"git\""));
    assert_eq!(practised(&result2), 2);
}

#[test]
fn guide_forget_removes_guide() {
    let mut disp = test_dispatcher();
    let env = tool_call(
        1,
        ToolArgs::GuideCreate(GuideCreateArgs {
            guide: "temp".to_string(),
            category: "dev-tool".to_string(),
            description: "temp guide".to_string(),
            contexts: vec![],
            learnings: vec![],
        }),
    );
    run(
        &mut disp,
        &env,
        &ToolArgs::GuideCreate(GuideCreateArgs {
            guide: "temp".to_string(),
            category: "dev-tool".to_string(),
            description: "temp guide".to_string(),
            contexts: vec![],
            learnings: vec![],
        }),
    );

    let env2 = tool_call(
        2,
        ToolArgs::GuideForget(GuideForgetArgs {
            guide: "temp".to_string(),
        }),
    );
    let result = run(
        &mut disp,
        &env2,
        &ToolArgs::GuideForget(GuideForgetArgs {
            guide: "temp".to_string(),
        }),
    );
    assert!(!result_is_error(&result));
    assert!(result_text(&result).contains("Successfully forgot guide: temp"));

    let env3 = tool_call(
        3,
        ToolArgs::GuideGet(GuideGetArgs {
            guide: Some("temp".to_string()),
            ..Default::default()
        }),
    );
    let result3 = run(
        &mut disp,
        &env3,
        &ToolArgs::GuideGet(GuideGetArgs {
            guide: Some("temp".to_string()),
            ..Default::default()
        }),
    );
    assert!(result_text(&result3).contains("Guide not found"));
}

#[test]
fn guide_distill_links_memory_to_guide() {
    let mut disp = test_dispatcher();
    let mem_id = add_fragment(
        &mut disp,
        1,
        "## A pattern worth distilling\n\n### Context\nReusable skill.",
    );
    let env = tool_call(
        2,
        ToolArgs::GuideDistill(GuideDistillArgs {
            memory_id: mem_id.clone(),
            guide: "react".to_string(),
            category: Some("web-frontend".to_string()),
        }),
    );
    let result = run(
        &mut disp,
        &env,
        &ToolArgs::GuideDistill(GuideDistillArgs {
            memory_id: mem_id.clone(),
            guide: "react".to_string(),
            category: Some("web-frontend".to_string()),
        }),
    );
    assert!(!result_is_error(&result));
    assert!(result_text(&result).contains("Successfully distilled memory"));

    let env2 = tool_call(
        3,
        ToolArgs::GuideGet(GuideGetArgs {
            guide: Some("react".to_string()),
            ..Default::default()
        }),
    );
    let result2 = run(
        &mut disp,
        &env2,
        &ToolArgs::GuideGet(GuideGetArgs {
            guide: Some("react".to_string()),
            ..Default::default()
        }),
    );
    assert!(result_text(&result2).contains("A pattern worth distilling"));
}

#[test]
fn guide_forget_removes_memory_references() {
    let mut disp = test_dispatcher();
    let mem_id = add_fragment(
        &mut disp,
        1,
        "## Distillable pattern\n\n### Context\nReusable skill.",
    );
    let distill = ToolArgs::GuideDistill(GuideDistillArgs {
        memory_id: mem_id.clone(),
        guide: "react".to_string(),
        category: Some("web-frontend".to_string()),
    });
    let env = tool_call(2, distill.clone());
    run(&mut disp, &env, &distill);

    let eid = disp.repo.resolve_id(&mem_id).unwrap();
    let mems = disp.repo.get_memories(&vec![eid]);
    assert!(mems[0].related_guides.iter().any(|g| g == "react"));

    let forget = ToolArgs::GuideForget(GuideForgetArgs {
        guide: "react".to_string(),
    });
    let env2 = tool_call(3, forget.clone());
    let result = run(&mut disp, &env2, &forget);
    assert!(!result_is_error(&result));

    let mems = disp.repo.get_memories(&vec![eid]);
    assert!(
        !mems[0]
            .related_guides
            .iter()
            .any(|g| g.eq_ignore_ascii_case("react")),
        "related_guides should not reference a forgotten guide"
    );
}

#[test]
fn guide_update_renames_memory_references() {
    let mut disp = test_dispatcher();
    let mem_id = add_fragment(
        &mut disp,
        1,
        "## Renamable pattern\n\n### Context\nReusable skill.",
    );
    let distill = ToolArgs::GuideDistill(GuideDistillArgs {
        memory_id: mem_id.clone(),
        guide: "react".to_string(),
        category: Some("web-frontend".to_string()),
    });
    let env = tool_call(2, distill.clone());
    run(&mut disp, &env, &distill);

    let eid = disp.repo.resolve_id(&mem_id).unwrap();
    let mems = disp.repo.get_memories(&vec![eid]);
    assert!(mems[0].related_guides.iter().any(|g| g == "react"));

    let update = ToolArgs::GuideUpdate(GuideUpdateArgs {
        guide: "react".to_string(),
        new_name: Some("react18".to_string()),
        ..Default::default()
    });
    let env2 = tool_call(3, update.clone());
    let result = run(&mut disp, &env2, &update);
    assert!(!result_is_error(&result));

    let mems = disp.repo.get_memories(&vec![eid]);
    assert!(
        mems[0]
            .related_guides
            .iter()
            .any(|g| g.eq_ignore_ascii_case("react18")),
        "related_guides should reference the renamed guide"
    );
    assert!(
        !mems[0]
            .related_guides
            .iter()
            .any(|g| g.eq_ignore_ascii_case("react")),
        "related_guides should not reference the old name"
    );
}

#[test]
fn guide_merge_combines_guides() {
    let mut disp = test_dispatcher();
    for (op, name) in [(1, "alpha"), (2, "beta")] {
        let env = tool_call(
            op,
            ToolArgs::GuideCreate(GuideCreateArgs {
                guide: name.to_string(),
                category: "dev-tool".to_string(),
                description: format!("{name} desc"),
                contexts: vec![format!("{name}-ctx")],
                learnings: vec![format!("{name}-learn")],
            }),
        );
        run(
        &mut disp,
        &env,
            &ToolArgs::GuideCreate(GuideCreateArgs {
                guide: name.to_string(),
                category: "dev-tool".to_string(),
                description: format!("{name} desc"),
                contexts: vec![format!("{name}-ctx")],
                learnings: vec![format!("{name}-learn")],
            }),
        );
    }

    let env = tool_call(
        3,
        ToolArgs::GuideMerge(GuideMergeArgs {
            guides: vec!["alpha".to_string(), "beta".to_string()],
            guide: "gamma".to_string(),
            category: "dev-tool".to_string(),
            description: Some("merged".to_string()),
            contexts: None,
            learnings: None,
        }),
    );
    let result = run(
        &mut disp,
        &env,
        &ToolArgs::GuideMerge(GuideMergeArgs {
            guides: vec!["alpha".to_string(), "beta".to_string()],
            guide: "gamma".to_string(),
            category: "dev-tool".to_string(),
            description: Some("merged".to_string()),
            contexts: None,
            learnings: None,
        }),
    );
    assert!(!result_is_error(&result));
    assert!(result_text(&result).contains("Merged 2 guides into \"gamma\""));

    let env2 = tool_call(
        4,
        ToolArgs::GuideGet(GuideGetArgs {
            guide: Some("gamma".to_string()),
            ..Default::default()
        }),
    );
    let result2 = run(
        &mut disp,
        &env2,
        &ToolArgs::GuideGet(GuideGetArgs {
            guide: Some("gamma".to_string()),
            ..Default::default()
        }),
    );
    let text2 = result_text(&result2);
    assert!(text2.contains("alpha-learn"));
    assert!(text2.contains("beta-learn"));
}

#[test]
fn session_start_attempt_end_lifecycle() {
    let mut disp = test_dispatcher();
    let env = tool_call(
        1,
        ToolArgs::SessionStart(SessionStartArgs {
            task_type: "debugging".to_string(),
            technologies: vec!["rust".to_string()],
            initial_approach: Some("read the code".to_string()),
        }),
    );
    let result = run(
        &mut disp,
        &env,
        &ToolArgs::SessionStart(SessionStartArgs {
            task_type: "debugging".to_string(),
            technologies: vec!["rust".to_string()],
            initial_approach: Some("read the code".to_string()),
        }),
    );
    assert!(!result_is_error(&result));
    assert!(result_text(&result).contains("Session started:"));

    let env2 = tool_call(
        2,
        ToolArgs::SessionAttempt(SessionAttemptArgs {
            approach: "try X".to_string(),
            outcome: "rejected".to_string(),
            critique: Some("didn't work".to_string()),
            rationale: None,
            related_memory_id: None,
        }),
    );
    let result2 = run(
        &mut disp,
        &env2,
        &ToolArgs::SessionAttempt(SessionAttemptArgs {
            approach: "try X".to_string(),
            outcome: "rejected".to_string(),
            critique: Some("didn't work".to_string()),
            rationale: None,
            related_memory_id: None,
        }),
    );
    assert!(!result_is_error(&result2));
    assert!(text_contains(&result2, "Recorded attempt #1"));

    let env3 = tool_call(
        3,
        ToolArgs::SessionEnd(SessionEndArgs {
            outcome: "success".to_string(),
            final_approach: Some("fixed it".to_string()),
            lessons: vec!["lesson one".to_string()],
        }),
    );
    let result3 = run(
        &mut disp,
        &env3,
        &ToolArgs::SessionEnd(SessionEndArgs {
            outcome: "success".to_string(),
            final_approach: Some("fixed it".to_string()),
            lessons: vec!["lesson one".to_string()],
        }),
    );
    assert!(!result_is_error(&result3));
    assert!(text_contains(&result3, "ended: success"));
}

#[test]
fn session_stats_reports_active_completed_and_empty() {
    let stats = |disp: &mut Dispatcher, op: u64| {
        let args = ToolArgs::SessionStats(SessionStatsArgs {
            count: Some(10),
            response_format: None,
        });
        run(disp, &tool_call(op, args.clone()), &args)
    };
    let mut disp = test_dispatcher();
    let empty = stats(&mut disp, 1);
    assert!(!result_is_error(&empty));
    assert!(result_text(&empty).contains("No past sessions recorded yet."));

    let start = ToolArgs::SessionStart(SessionStartArgs {
        task_type: "debugging".to_string(),
        technologies: vec!["rust".to_string()],
        initial_approach: None,
    });
    run(&mut disp, &tool_call(2, start.clone()), &start);
    let attempt = ToolArgs::SessionAttempt(SessionAttemptArgs {
        approach: "try X".to_string(),
        outcome: "rejected".to_string(),
        critique: None,
        rationale: None,
        related_memory_id: None,
    });
    run(&mut disp, &tool_call(3, attempt.clone()), &attempt);
    let active = stats(&mut disp, 4);
    assert!(!result_is_error(&active));
    let text = result_text(&active);
    assert!(text.contains("Active session: 1 tool calls"));
    assert!(text.contains("Technologies: rust"));

    let end = ToolArgs::SessionEnd(SessionEndArgs {
        outcome: "success".to_string(),
        final_approach: None,
        lessons: vec![],
    });
    run(&mut disp, &tool_call(5, end.clone()), &end);
    let done = stats(&mut disp, 6);
    assert!(!result_is_error(&done));
    let text = result_text(&done);
    assert!(text.contains("Recent sessions (1):"));
    assert!(!text.contains("Active session:"));
}

#[test]
fn session_start_preload_boosts_confidence_by_002() {
    let mut disp = test_dispatcher();
    let id = add_fragment(
        &mut disp,
        1,
        "## Rust debugging fragment\n\n### Context\nRust debugging notes.",
    );
    let eid = disp.repo.resolve_id(&id).unwrap();
    let upd = ToolArgs::MemoryUpdate(MemoryUpdateArgs {
        id: id.clone(),
        confidence: Some(score(0.5)),
        ..Default::default()
    });
    let env = tool_call(2, upd.clone());
    run(&mut disp, &env, &upd);

    let start = ToolArgs::SessionStart(SessionStartArgs {
        task_type: "debugging".to_string(),
        technologies: vec!["rust".to_string()],
        initial_approach: None,
    });
    let env = tool_call(3, start.clone());
    let result = run(&mut disp, &env, &start);
    assert!(!result_is_error(&result));
    assert!(result_text(&result).contains("Pre-loaded memories:"));

    let mems = disp.repo.get_memories(&vec![eid]);
    assert!(
        (number(mems[0].confidence) - 0.52).abs() < 1e-9,
        "expected 0.52, got {}",
        number(mems[0].confidence)
    );
    assert_eq!(mems[0].access_count, 1);
}

#[test]
fn session_end_is_retry_safe_no_double_count() {
    let mut disp = test_dispatcher();
    let start = ToolArgs::SessionStart(SessionStartArgs {
        task_type: "debugging".to_string(),
        technologies: vec![],
        initial_approach: None,
    });
    let env = tool_call(1, start.clone());
    run(&mut disp, &env, &start);

    let practice = ToolArgs::GuidePractice(GuidePracticeArgs {
        guide: "git".to_string(),
        category: "dev-tool".to_string(),
        description: None,
        contexts: vec![],
        learnings: vec![],
        outcome: None,
    });
    let env = tool_call(2, practice.clone());
    run(&mut disp, &env, &practice);

    let end = ToolArgs::SessionEnd(SessionEndArgs {
        outcome: "success".to_string(),
        final_approach: None,
        lessons: vec![],
    });
    let env = tool_call(3, end.clone());
    let result = run(&mut disp, &env, &end);
    assert!(!result_is_error(&result));
    let guide = disp.repo.get_guide("git").unwrap();
    assert_eq!(guide.success_count, 1, "first end should count once");

    let env = tool_call(4, end.clone());
    let result2 = run(&mut disp, &env, &end);
    assert!(result_is_error(&result2));
    assert!(result_text(&result2).contains("No active session"));
    let guide = disp.repo.get_guide("git").unwrap();
    assert_eq!(
        guide.success_count, 1,
        "a retried session_end must not double-count guide outcomes"
    );
}

#[test]
fn session_attempt_without_session_is_error() {
    let mut disp = test_dispatcher();
    let env = tool_call(
        1,
        ToolArgs::SessionAttempt(SessionAttemptArgs {
            approach: "try X".to_string(),
            outcome: "rejected".to_string(),
            critique: None,
            rationale: None,
            related_memory_id: None,
        }),
    );
    let result = run(
        &mut disp,
        &env,
        &ToolArgs::SessionAttempt(SessionAttemptArgs {
            approach: "try X".to_string(),
            outcome: "rejected".to_string(),
            critique: None,
            rationale: None,
            related_memory_id: None,
        }),
    );
    assert!(result_is_error(&result));
    assert!(result_text(&result).contains("No active session"));
}

#[test]
fn session_end_without_session_is_error() {
    let mut disp = test_dispatcher();
    let env = tool_call(
        1,
        ToolArgs::SessionEnd(SessionEndArgs {
            outcome: "success".to_string(),
            final_approach: None,
            lessons: vec![],
        }),
    );
    let result = run(
        &mut disp,
        &env,
        &ToolArgs::SessionEnd(SessionEndArgs {
            outcome: "success".to_string(),
            final_approach: None,
            lessons: vec![],
        }),
    );
    assert!(result_is_error(&result));
    assert!(result_text(&result).contains("No active session"));
}

#[test]
fn conflict_scan_detects_opposing_fragments() {
    let mut disp = test_dispatcher();
    add_fragment(
        &mut disp,
        1,
        "Always use Redis for caching session data in the API layer.",
    );
    add_fragment(
        &mut disp,
        2,
        "Never use Redis for caching session data; pick Memcached instead.",
    );

    let env = tool_call(3, ToolArgs::ConflictScan(ConflictScanArgs::default()));
    let result = run(
        &mut disp,
        &env,
        &ToolArgs::ConflictScan(ConflictScanArgs::default()),
    );
    assert!(!result_is_error(&result));
    match &result.structured {
        Some(ToolData::Conflicts { conflicts }) => {
            assert!(!conflicts.is_empty(), "expected a conflict pair")
        }
        other => panic!("unexpected data: {:?}", other),
    }
    assert!(result_text(&result).contains("CONFLICT DETECTION"));
}

#[test]
fn proactive_analysis_runs_cleanly() {
    let mut disp = test_dispatcher();
    add_fragment(&mut disp, 1, "## A fact\n\n### Context\nSome durable fact.");

    let env = tool_call(
        2,
        ToolArgs::ProactiveAnalysis(ProactiveAnalysisArgs::default()),
    );
    let result = run(
        &mut disp,
        &env,
        &ToolArgs::ProactiveAnalysis(ProactiveAnalysisArgs::default()),
    );
    assert!(!result_is_error(&result));
    let text = result_text(&result);
    assert!(text.contains("PROACTIVE ANALYSIS"));
}

#[test]
fn project_analytics_all_projects_overview() {
    let mut disp = test_dispatcher();
    let env = tool_call(
        1,
        ToolArgs::ProjectAnalytics(ProjectAnalyticsArgs::default()),
    );
    let result = run(
        &mut disp,
        &env,
        &ToolArgs::ProjectAnalytics(ProjectAnalyticsArgs::default()),
    );
    assert!(!result_is_error(&result));
    assert!(result_text(&result).contains("No projects found"));
}

#[test]
fn suggestion_respond_requires_valid_action() {
    let mut disp = test_dispatcher();
    let env = tool_call(
        1,
        ToolArgs::SuggestionRespond(SuggestionRespondArgs {
            id: 1,
            action: "bogus".to_string(),
        }),
    );
    let result = run(
        &mut disp,
        &env,
        &ToolArgs::SuggestionRespond(SuggestionRespondArgs {
            id: 1,
            action: "bogus".to_string(),
        }),
    );
    assert!(result_is_error(&result));
    assert!(result_text(&result).contains("must be one of: accept, dismiss"));
}

#[test]
fn suggestion_respond_missing_suggestion_is_error() {
    let mut disp = test_dispatcher();
    let env = tool_call(
        1,
        ToolArgs::SuggestionRespond(SuggestionRespondArgs {
            id: 999,
            action: "accept".to_string(),
        }),
    );
    let result = run(
        &mut disp,
        &env,
        &ToolArgs::SuggestionRespond(SuggestionRespondArgs {
            id: 999,
            action: "accept".to_string(),
        }),
    );
    assert!(result_is_error(&result));
    assert!(result_text(&result).contains("Could not update this suggestion"));
}

#[test]
fn memory_read_browse_falls_back_on_empty_backend() {
    let mut disp = test_dispatcher();
    add_fragment(
        &mut disp,
        1,
        "## Fallback Fragment\n\n### Context\nVisible without an index.",
    );
    let args = ToolArgs::MemoryRead(MemoryReadArgs {
        query: Some("fallback".to_string()),
        all: true,
        ..Default::default()
    });
    let result = run(&mut disp, &tool_call(2, args.clone()), &args);
    assert_eq!(
        read_data(&result).count,
        1,
        "empty backend must fall back to the snapshot scan"
    );
}
