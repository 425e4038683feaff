use ltmrs::canonical::repository::CanonicalRepository;
use ltmrs::compatibility::lemma::tool_args::{
    GuideDistillArgs, GuideForgetArgs, GuideUpdateArgs, MemoryAddArgs, MemoryForgetArgs,
    MemoryLibraryArgs, MemoryReadArgs, MemoryRelateArgs, MemoryStatsArgs, SemanticSearchArgs, SessionEndArgs, SessionStartArgs, ToolArgs,
};
use ltmrs::daemon::dispatcher::Dispatcher;
use ltmrs::daemon::envelope::{
    DomainPayload, DomainRequest, IpcEnvelope, IpcResult, ToolResult, PROTOCOL_VERSION,
};
use ltmrs::daemon::registry::FrontendRegistry;
use ltmrs::daemon::tools::data::ToolData;
use ltmrs::daemon::tools::graph::expand_graph;
use ltmrs::daemon::tools::retrieval::{
    backend_request, hit_score, recall_request, search_request, UNSCORED,
};
use ltmrs::domain::command::{ForgetMode, MemoryPatch, Scope};
use ltmrs::domain::id::{ChannelId, EntityId, FrontendId, OperationId, StoreGeneration};
use ltmrs::domain::memory::{Instant, Memory};
use ltmrs::domain::relation::{Relation, RelationType};
use ltmrs::domain::score::{Score, ACCESS_STEP, UNIT};

fn daemon() -> Dispatcher {
    let mut d = Dispatcher::new(CanonicalRepository::new(1000), FrontendRegistry::new());
    assert_eq!(d.issue_namespace(FrontendId::new(1)).retry_epoch, 1);
    d
}

fn on_channel(channel: u128, op: u128, body: DomainRequest) -> IpcEnvelope {
    let body_json = format!("{:?}", body);
    IpcEnvelope {
        protocol_version: PROTOCOL_VERSION,
        store_generation: StoreGeneration::first(),
        frontend_id: FrontendId::new(1),
        channel_id: ChannelId::new(channel),
        operation_id: OperationId::new(op),
        session: None,
        retry_epoch: 1,
        deadline_millis: None,
        scope: Scope::default(),
        body,
        body_json,
    }
}

fn ask(d: &mut Dispatcher, channel: u128, op: u128, body: DomainRequest) -> DomainPayload {
    let env = on_channel(channel, op, body);
    assert!(d.can_handle(&env));
    match d.handle(&env, &vec![]).unwrap().result {
        IpcResult::Success { payload, .. } => payload,
        other => panic!("unexpected result: {:?}", other),
    }
}

fn call(d: &mut Dispatcher, channel: u128, op: u128, tool: ToolArgs) -> ToolResult {
    match ask(d, channel, op, DomainRequest::ToolCall { tool }) {
        DomainPayload::ToolResult(r) => r,
        other => panic!("unexpected payload: {:?}", other),
    }
}

fn add(d: &mut Dispatcher, op: u128, text: &str) -> String {
    let args = MemoryAddArgs { fragment: text.to_string(), ..Default::default() };
    match call(d, 1, op, ToolArgs::MemoryAdd(args)).structured {
        Some(ToolData::Added { id }) => id,
        other => panic!("unexpected data: {:?}", other),
    }
}

fn memory_named(d: &Dispatcher, name: &str) -> Memory {
    d.repo.look_up(name).unwrap()
}

fn start(d: &mut Dispatcher, channel: u128, op: u128) {
    let args = SessionStartArgs { task_type: "debug".to_string(), ..Default::default() };
    let r = call(d, channel, op, ToolArgs::SessionStart(args));
    assert!(!r.is_error, "{}", r.text);
}

fn end(d: &mut Dispatcher, channel: u128, op: u128) -> ToolResult {
    let args = SessionEndArgs { outcome: "success".to_string(), ..Default::default() };
    call(d, channel, op, ToolArgs::SessionEnd(args))
}

fn active(d: &Dispatcher, channel: u128) -> bool {
    d.registry.resolve_session(FrontendId::new(1), ChannelId::new(channel)).is_some()
}

#[test]
fn what_was_added_is_found_without_its_secrets() {
    let mut d = daemon();
    let id = add(&mut d, 1, "the key is api_key = sk_abc1234567890 and more");
    let m = memory_named(&d, &id);
    assert_eq!(m.fragment, "the key is [REDACTED] and more");
    assert!(m.lifecycle.is_recallable());
}

#[test]
fn a_patch_changes_the_named_memory_only() {
    let mut d = daemon();
    let a = add(&mut d, 1, "alpha beta gamma");
    let b = add(&mut d, 2, "delta epsilon zeta");
    let before = format!("{:?}", memory_named(&d, &b));
    let id = memory_named(&d, &a).id;
    let patch = MemoryPatch { title: Some("new".to_string()), ..Default::default() };
    ask(
        &mut d,
        1,
        3,
        DomainRequest::UpdateMemory { id, expected_revision: None, patch },
    );
    assert_eq!(memory_named(&d, &a).title, "new");
    assert_eq!(format!("{:?}", memory_named(&d, &b)), before);
}

#[test]
fn a_deleted_memory_stays_without_its_edges() {
    let mut d = daemon();
    let a = add(&mut d, 1, "alpha beta gamma");
    let b = add(&mut d, 2, "delta epsilon zeta");
    let c = add(&mut d, 3, "eta theta iota");
    for (op, x, y) in [(4, &a, &b), (5, &b, &c)] {
        let args = MemoryRelateArgs {
            source_id: x.clone(),
            target_id: y.clone(),
            relation_type: "supports".to_string(),
            note: None,
        };
        assert!(!call(&mut d, 1, op, ToolArgs::MemoryRelate(args)).is_error);
    }
    let id = memory_named(&d, &a).id;
    ask(&mut d, 1, 6, DomainRequest::Forget { id, mode: ForgetMode::Delete });
    assert!(d.repo.neighbors(id).is_empty());
    assert_eq!(d.repo.all_relations().len(), 1);
    assert_eq!(d.repo.all_memories().len(), 3);
    assert!(!memory_named(&d, &a).lifecycle.is_recallable());
}

#[test]
fn an_edge_can_be_taken_back() {
    let mut d = daemon();
    let a = add(&mut d, 1, "alpha beta gamma");
    let b = add(&mut d, 2, "delta epsilon zeta");
    let (x, y) = (memory_named(&d, &a).id, memory_named(&d, &b).id);
    let relation =
        Relation::new(EntityId::new(77), x, y, RelationType::Supports, None, Instant::new(1));
    ask(&mut d, 1, 3, DomainRequest::Relate { relation });
    assert_eq!(d.repo.all_relations().len(), 1);
    ask(
        &mut d,
        1,
        4,
        DomainRequest::Unrelate { source: x, target: y, relation_type: RelationType::Supports },
    );
    assert!(d.repo.all_relations().is_empty());
}

#[test]
fn a_refused_request_leaves_no_trace() {
    let mut d = daemon();
    let a = add(&mut d, 1, "alpha beta gamma");
    let id = memory_named(&d, &a).id;
    let before = format!("{:?}", d);
    let relation =
        Relation::new(EntityId::new(77), id, id, RelationType::Supersedes, None, Instant::new(1));
    let env = on_channel(1, 2, DomainRequest::Relate { relation });
    assert!(d.handle(&env, &vec![]).is_err());
    let env = on_channel(1, 3, DomainRequest::Forget { id: EntityId::new(5), mode: ForgetMode::Archive });
    assert!(d.handle(&env, &vec![]).is_err());
    assert_eq!(format!("{:?}", d), before);
}

#[test]
fn looking_leaves_no_trace() {
    let mut d = daemon();
    add(&mut d, 1, "alpha beta gamma");
    let before = format!("{:?}", d);
    ask(&mut d, 1, 2, DomainRequest::ListMemories);
    call(&mut d, 1, 3, ToolArgs::MemoryStats(MemoryStatsArgs::default()));
    assert_eq!(format!("{:?}", d), before);
}

#[test]
fn reading_counts_an_access() {
    let mut d = daemon();
    let a = add(&mut d, 1, "alpha beta gamma");
    let args = MemoryReadArgs { id: Some(a.clone()), ..Default::default() };
    call(&mut d, 1, 2, ToolArgs::MemoryRead(args));
    assert_eq!(memory_named(&d, &a).access_count, 1);
}

#[test]
fn channels_do_not_end_each_others_sessions() {
    let mut d = daemon();
    start(&mut d, 1, 1);
    start(&mut d, 2, 2);
    assert!(active(&d, 1) && active(&d, 2));
    assert!(!end(&mut d, 1, 3).is_error);
    assert!(!active(&d, 1) && active(&d, 2));
    start(&mut d, 1, 4);
    assert!(active(&d, 1) && active(&d, 2));
}

#[test]
fn a_session_cannot_end_twice() {
    let mut d = daemon();
    start(&mut d, 1, 1);
    assert!(!end(&mut d, 1, 2).is_error);
    let before = format!("{:?}", d);
    let r = end(&mut d, 1, 3);
    assert!(r.is_error);
    assert!(r.text.contains("No active session to end."));
    assert_eq!(format!("{:?}", d), before);
}

#[test]
fn guides_take_their_references_along() {
    let mut d = daemon();
    let a = add(&mut d, 1, "alpha beta gamma");
    let args = GuideDistillArgs {
        memory_id: a.clone(),
        guide: "Greek".to_string(),
        ..Default::default()
    };
    assert!(!call(&mut d, 1, 2, ToolArgs::GuideDistill(args)).is_error);
    assert_eq!(memory_named(&d, &a).related_guides, vec!["greek".to_string()]);

    let args = GuideUpdateArgs {
        guide: "greek".to_string(),
        new_name: Some("letters".to_string()),
        ..Default::default()
    };
    assert!(!call(&mut d, 1, 3, ToolArgs::GuideUpdate(args)).is_error);
    assert_eq!(memory_named(&d, &a).related_guides, vec!["letters".to_string()]);
    assert!(d.repo.get_guide("greek").is_none());
    assert_eq!(d.repo.get_guide(" LETTERS ").unwrap().name, "letters");

    let args = GuideForgetArgs { guide: "letters".to_string() };
    assert!(!call(&mut d, 1, 4, ToolArgs::GuideForget(args)).is_error);
    assert!(d.repo.get_guide("letters").is_none());
    assert!(memory_named(&d, &a).related_guides.is_empty());
}

#[test]
fn a_forgotten_memory_is_not_recalled() {
    let mut d = daemon();
    let a = add(&mut d, 1, "alpha beta gamma");
    let args = MemoryForgetArgs { id: a.clone(), invalidate: true, ..Default::default() };
    assert!(!call(&mut d, 1, 2, ToolArgs::MemoryForget(args)).is_error);
    let r = call(&mut d, 1, 3, ToolArgs::MemoryRead(MemoryReadArgs::default()));
    assert!(!r.text.contains("alpha"), "{}", r.text);
}

#[test]
fn the_neighbourhood_goes_two_edges_far() {
    let mut d = daemon();
    let texts = ["alpha root", "bravo left", "charlie right", "delta below", "echo under", "foxtrot"];
    let names: Vec<String> =
        texts.iter().enumerate().map(|(i, t)| add(&mut d, 1 + i as u128, t)).collect();
    let relate = |d: &mut Dispatcher, op: u128, a: usize, b: usize| {
        let r = call(
            d,
            1,
            op,
            ToolArgs::MemoryRelate(MemoryRelateArgs {
                source_id: names[a].clone(),
                target_id: names[b].clone(),
                relation_type: "related_to".to_string(),
                note: None,
            }),
        );
        assert!(!r.is_error, "{}", r.text);
    };
    for (i, (a, b)) in [(0, 1), (0, 2), (1, 3), (2, 4), (4, 5), (1, 2)].into_iter().enumerate() {
        relate(&mut d, 20 + i as u128, a, b);
    }
    let ids: Vec<EntityId> = names.iter().map(|n| memory_named(&d, n).id).collect();
    let mut depths: Vec<(usize, u32)> = expand_graph(&d.repo, ids[0])
        .into_iter()
        .map(|n| (ids.iter().position(|id| *id == n.memory.id).unwrap(), n.depth))
        .collect();
    assert!(depths.windows(2).all(|w| w[0].1 <= w[1].1));
    depths.sort();
    assert_eq!(depths, vec![(1, 1), (2, 1), (3, 2), (4, 2)]);
}

#[test]
fn an_offset_beyond_everything_gives_an_empty_page() {
    let mut d = daemon();
    add(&mut d, 1, "alpha root");
    let far = Some(usize::MAX);
    let read = ToolArgs::MemoryRead(MemoryReadArgs { offset: far, ..Default::default() });
    assert!(!call(&mut d, 1, 2, read).is_error);
    let library = ToolArgs::MemoryLibrary(MemoryLibraryArgs { offset: far, ..Default::default() });
    assert!(!call(&mut d, 1, 3, library).is_error);
    let search = ToolArgs::SemanticSearch(SemanticSearchArgs {
        query: "alpha".to_string(),
        project: None,
        top_k: None,
        offset: far,
        hybrid: false,
        explain: false,
        response_format: None,
    });
    assert!(!call(&mut d, 1, 4, search).is_error);
}

#[test]
fn every_secret_is_gone_before_a_memory_is_kept() {
    let mut d = daemon();
    let name = add(&mut d, 1, "api_key = aaaaaaaa1 and api_key = bbbbbbbb2");
    assert_eq!(memory_named(&d, &name).fragment, "[REDACTED] and [REDACTED]");
}

#[test]
fn the_backend_is_asked_for_what_a_call_names() {
    let read = MemoryReadArgs {
        query: Some("alpha".to_string()),
        project: Some("app".to_string()),
        all: true,
        min_confidence: Some(Score(UNIT)),
        limit: Some(3),
        offset: Some(4),
        ..Default::default()
    };
    let asked = recall_request(&read);
    assert_eq!(asked.query, "alpha");
    assert_eq!(asked.scope.project, Some("app".to_string()));
    assert_eq!(asked.scope.min_confidence, Some(Score(UNIT)));
    assert!(asked.scope.all_projects && asked.dense);
    assert!(asked.scope.fragment_types.is_none());
    assert_eq!((asked.scope.after, asked.scope.before), (None, None));
    assert_eq!(asked.limit, 100);
    let asked = recall_request(&MemoryReadArgs::default());
    assert_eq!(asked.query, "");
    assert_eq!(asked.scope.project, None);
    assert!(!asked.scope.all_projects);

    let search = |top_k, offset| SemanticSearchArgs {
        query: "beta".to_string(),
        project: Some("app".to_string()),
        top_k,
        offset,
        hybrid: false,
        explain: false,
        response_format: None,
    };
    let asked = search_request(&search(None, None));
    assert_eq!(asked.query, "beta");
    assert_eq!(asked.scope.project, Some("app".to_string()));
    assert!(!asked.scope.all_projects && asked.dense);
    assert_eq!(asked.scope.min_confidence, None);
    assert_eq!(asked.limit, 10);
    assert_eq!(search_request(&search(Some(0), Some(7))).limit, 8);
    assert_eq!(search_request(&search(Some(99), Some(7))).limit, 37);
    assert_eq!(search_request(&search(Some(5), Some(usize::MAX))).limit, usize::MAX);
}

#[test]
fn only_a_search_or_a_browse_asks_the_backend() {
    let asks = |tool| backend_request(&DomainRequest::ToolCall { tool }).is_some();
    let read = MemoryReadArgs::default;
    assert!(asks(ToolArgs::MemoryRead(read())));
    assert!(asks(ToolArgs::MemoryRead(MemoryReadArgs { ids: Some(vec![]), ..read() })));
    let one = Some("a".to_string());
    assert!(!asks(ToolArgs::MemoryRead(MemoryReadArgs { id: one, ..read() })));
    let some = Some(vec!["a".to_string()]);
    assert!(!asks(ToolArgs::MemoryRead(MemoryReadArgs { ids: some, ..read() })));
    assert!(!asks(ToolArgs::MemoryStats(MemoryStatsArgs::default())));
}

#[test]
fn a_hit_is_shown_with_its_better_score() {
    let (low, high) = (Score(ACCESS_STEP), Score(UNIT));
    assert_eq!(hit_score(Some((low, high))), high);
    assert_eq!(hit_score(Some((high, low))), high);
    assert_eq!(hit_score(None), Score(UNSCORED));
}

/// What a search finds by its words has the number of them as its score.
#[test]
fn words_are_counted_in_whole_scores() {
    let mut d = daemon();
    add(&mut d, 1, "alpha beta gamma");
    let search = ToolArgs::SemanticSearch(SemanticSearchArgs {
        query: "alpha gamma delta".to_string(),
        project: None,
        top_k: None,
        offset: None,
        hybrid: false,
        explain: false,
        response_format: None,
    });
    let r = call(&mut d, 1, 2, search);
    match r.structured {
        Some(ToolData::Search(data)) => {
            assert_eq!(data.results[0].score, Score(2.0f64.to_bits() as i64))
        }
        other => panic!("unexpected data: {:?}", other),
    }
    assert!(r.text.contains("[200%]"));
}
