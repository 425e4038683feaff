//! The tools for sessions: `session_start`, `session_attempt`, `session_end`,
//! `session_stats` and `suggestion_respond`.

use crate::canonical::laws::{guides_room, lemma_room_mono};
use crate::canonical::repository::{
    by_id, guide_key, guide_of, guide_place, guide_slot, last_number, legacy_id, legacy_name,
    resolved, suggestion_place, with_guide, with_suggestion, without_key, CanonicalRepository,
};
use crate::compatibility::lemma::privacy::{redact, redacted};
use crate::compatibility::lemma::tool_args::{
    SessionAttemptArgs, SessionEndArgs, SessionStartArgs, SessionStatsArgs, SuggestionRespondArgs,
};
use crate::daemon::counters::{
    lemma_abandoned_room, lemma_attempts_room, lemma_active_change_room, lemma_change_room,
    lemma_new_session_room, lemma_registry_room_mono, lemma_touched_room, session_room,
};
use crate::daemon::dispatcher::{Dispatcher, DispatcherView};
use crate::daemon::envelope::{IpcEnvelope, ToolResult, ToolResultView};
use crate::daemon::registry::{
    changed_attempt, changed_attempts, refined, touched, FrontendRegistry, RegistryView,
};
use crate::daemon::tools::common::{
    err_result, err_view, format_result, formatted, issue, issued, ok_result, ok_view, relevance,
    relevance_of, text_or, text_or_else,
};
use crate::daemon::tools::continuity::{
    boosted, build_continuity_recall, continuity_text, dead_ends, lessons_of, recalled_dead_ends,
    warnings_of,
};
use crate::daemon::tools::data::{
    ActiveSession, ActiveSessionView, RecentSession, RecentSessionView, ToolData, ToolDataView,
};
use crate::daemon::tools::detail::part_if;
use crate::daemon::tools::guide_text::{tries, tries_of};
use crate::daemon::tools::guides::{blank, is_blank, is_weak, Effect};
use crate::daemon::tools::read::{collect_ids, ids_of};
use crate::daemon::tools::suggest::{
    format_guide_suggestions, suggest_guides, suggested, suggestions_text, GuideSuggestion,
    GuideSuggestionView,
};
use crate::dates::{iso8601, moment_of};
use crate::domain::command::{DomainCommand, DomainCommandView};
use crate::domain::guide::{Guide, GuideView};
use crate::domain::id::{
    uuid_from_name, uuid_from_text, uuid_named, uuid_read, uuid_text, uuid_to_text, EntityId,
    OperationId, SessionHandle,
};
use crate::domain::memory::{Instant, Memory, MemoryView};
use crate::domain::score::{Score, UNIT};
use crate::domain::session::{
    Attempt, AttemptOutcome, AttemptView, Session, SessionStatus, SessionView, Suggestion,
    SuggestionStatus, SuggestionView, TaskOutcome,
};
use crate::domain::state::{ended, has_session, session_of, StateView};
use crate::double::quotient;
use crate::figures::{ratio_string, ratio_text, score_string, score_text};
use crate::lists::{append_each, first, mapped, rank, select, take_first, texts, written};
use crate::overlap::{byte_cut, byte_len, bytes_below, take_bytes};
use crate::rank::{lemma_filter_members, ranked};
use crate::text::{
    clone_all, dec, decimal, join, joined, lower, lowercase, opt_view, same, split_words, trim,
    trimmed, views, with_texts,
};
use vstd::prelude::*;

verus! {

// ---------------------------------------------------------------------------
// session_start
// ---------------------------------------------------------------------------

/// How much every attempt loses when a session starts: two thousandths.
pub const DECAY_STEP: i64 = 4_566_758_108_544_739_836;

/// The registry with every attempt a little less trusted.
pub open spec fn decayed(r: RegistryView, delta: Score) -> RegistryView {
    RegistryView {
        sessions: r.sessions.map_values(
            |s: SessionView|
                changed_attempts(
                    s,
                    |a: AttemptView| AttemptView { confidence: a.confidence.down(delta), ..a },
                ),
        ),
        ..r
    }
}

/// The registry with a new session on the channel. One that is going on there
/// is given up.
pub open spec fn started(r: RegistryView, env: IpcEnvelope, args: SessionStartArgs, now: u64) ->
    RegistryView {
    let h = SessionHandle(r.handle_gen as u128);
    let fresh = decayed(r, Score(DECAY_STEP)).with_abandoned(
        env.frontend_id,
        env.channel_id,
        now,
    ).with_new_session(
        env.frontend_id,
        env.channel_id,
        None,
        Some(args.task_type@),
        views(args.technologies@),
        now,
    );
    if has_session(fresh.sessions, h) {
        fresh.with_change(
            h,
            |s: SessionView|
                SessionView { initial_approach: opt_view(args.initial_approach), ..s },
        )
    } else {
        fresh
    }
}

/// What the task is, in words.
pub open spec fn task_text(args: SessionStartArgs) -> Seq<char> {
    args.task_type@ + " "@ + joined(views(args.technologies@), " "@)
}

/// The memories that are loaded at the start: the three with the most words of
/// the task.
pub open spec fn preloaded(s: StateView, task: Seq<char>) -> Seq<MemoryView> {
    let q = lowercase(task);
    first(
        ranked(
            by_id(s.memories).filter(|m: MemoryView| m.lifecycle is Live),
            |m: MemoryView| (-(relevance(m, q) as int), m.id.0 as int),
        ),
        3,
    )
}

/// The store with the loaded memories trusted more.
pub open spec fn trusted(d: DispatcherView, env: IpcEnvelope, ids: Seq<EntityId>) -> DispatcherView {
    if ids.len() == 0 {
        d
    } else {
        issued(d, env, 0, DomainCommandView::BoostConfidence { memory_ids: ids }).0
    }
}

/// The sessions with memories noted as read in the one of the channel.
pub open spec fn read_noted(r: RegistryView, env: IpcEnvelope, names: Seq<Seq<char>>) -> RegistryView {
    r.with_active_change(
        env.frontend_id,
        env.channel_id,
        |s: SessionView| SessionView { memories_read: with_texts(s.memories_read, names), ..s },
    )
}

pub open spec fn names_of(ms: Seq<MemoryView>) -> Seq<Seq<char>> {
    ms.map_values(|m: MemoryView| legacy_name(m))
}

/// The session that started.
pub open spec fn start_head_text(id: Seq<char>, kind: Seq<char>) -> Seq<char> {
    "Session started: "@ + id + " ("@ + kind + ")\n"@
}

pub fn start_head(id: &str, kind: &str) -> (r: String)
    ensures
        r@ == start_head_text(id@, kind@),
{
    let mut out = "Session started: ".to_owned();
    out.append(id);
    out.append(" (");
    out.append(kind);
    out.append(")\n");
    out
}

/// What it is done with.
pub open spec fn technologies_line_text(list: Seq<char>) -> Seq<char> {
    "Technologies: "@ + list + "\n"@
}

pub fn technologies_line(list: &str) -> (r: String)
    ensures
        r@ == technologies_line_text(list@),
{
    let mut out = "Technologies: ".to_owned();
    out.append(list);
    out.append("\n");
    out
}

/// A memory that was loaded.
pub open spec fn loaded_line_text(
    id: Seq<char>,
    scope: Seq<char>,
    title: Seq<char>,
    c: Seq<char>,
    description: Seq<char>,
) -> Seq<char> {
    "  ["@ + id + "] ["@ + scope + "] "@ + title + " ("@ + c + ")\n    "@ + description + "\n"@
}

pub fn loaded_line(id: &str, scope: &str, title: &str, c: &str, description: &str) -> (r: String)
    ensures
        r@ == loaded_line_text(id@, scope@, title@, c@, description@),
{
    let mut out = "  [".to_owned();
    out.append(id);
    out.append("] [");
    out.append(scope);
    out.append("] ");
    out.append(title);
    out.append(" (");
    out.append(c);
    out.append(")\n    ");
    out.append(description);
    out.append("\n");
    out
}

/// A suggestion that waits.
pub open spec fn pending_line_text(id: nat, t: Seq<char>) -> Seq<char> {
    "- ["@ + dec(id) + "] "@ + t + "\n"@
}

pub fn pending_line(id: u64, t: &str) -> (r: String)
    ensures
        r@ == pending_line_text(id as nat, t@),
{
    let mut out = "- [".to_owned();
    out.append(decimal(id).as_str());
    out.append("] ");
    out.append(t);
    out.append("\n");
    out
}

pub open spec fn loaded_item(m: MemoryView) -> Seq<char> {
    loaded_line_text(
        legacy_name(m),
        text_or(m.project, "global"@),
        m.title,
        score_text(m.confidence),
        m.description,
    )
}

/// The suggestions that wait: three at most.
pub open spec fn pending(s: StateView) -> Seq<SuggestionView> {
    first(s.suggestions.filter(|x: SuggestionView| x.status is Pending), 3)
}

/// The suggestions that wait, as text.
pub open spec fn pending_text(list: Seq<SuggestionView>) -> Seq<char> {
    part_if(
        list.len() > 0,
        "\n\n## Past improvement suggestions (consider; dismiss if not relevant)\n"@ + written(
            list,
            |x: SuggestionView| pending_line_text(x.id as nat, x.suggestion),
        ),
    )
}

/// What is said at the start of a session.
pub open spec fn start_text(
    h: SessionHandle,
    args: SessionStartArgs,
    ms: Seq<MemoryView>,
    guides: Seq<GuideSuggestionView>,
    past: Seq<char>,
    waiting: Seq<SuggestionView>,
) -> Seq<char> {
    start_head_text(uuid_text(h.0), args.task_type@) + part_if(
        args.technologies@.len() > 0,
        technologies_line_text(joined(views(args.technologies@), ", "@)),
    ) + part_if(
        ms.len() > 0,
        "\nPre-loaded memories:\n"@ + written(ms, |m: MemoryView| loaded_item(m)),
    ) + ("\n"@ + suggestions_text(guides)) + past + pending_text(waiting)
}

/// What `session_start` does and answers.
#[verifier::opaque]
pub open spec fn session_start(d: DispatcherView, env: IpcEnvelope, args: SessionStartArgs) -> Effect {
    if blank(args.task_type@) {
        (d, err_view("'task_type' parameter is required"@))
    } else {
        let now = d.store.now;
        let h = SessionHandle(d.registry.handle_gen as u128);
        let guides = suggested(task_text(args), d.store.guides);
        let ms = preloaded(d.store, task_text(args));
        let d1 = trusted(
            DispatcherView { registry: started(d.registry, env, args, now), ..d },
            env,
            ids_of(ms),
        );
        let registry = read_noted(d1.registry, env, names_of(ms));
        let dead = dead_ends(registry.sessions, args.task_type@, None);
        (
            DispatcherView {
                registry: recalled_dead_ends(registry, dead, dead.len() as int, now),
                ..d1
            },
            ok_view(
                start_text(
                    h,
                    args,
                    ms,
                    guides,
                    continuity_text(
                        args.task_type@,
                        dead,
                        lessons_of(registry.sessions, args.task_type@, None),
                        warnings_of(d1.store, None),
                    ),
                    pending(d1.store),
                ),
                ToolDataView::SessionStarted {
                    session_id: uuid_text(h.0),
                    guides: guides.map_values(|x: GuideSuggestionView| x.guide),
                    preloaded_memories: names_of(ms),
                },
            ),
        )
    }
}

fn start_registry(
    reg: &mut FrontendRegistry,
    envelope: &IpcEnvelope,
    args: &SessionStartArgs,
    now: u64,
) -> (r: SessionHandle)
    requires
        old(reg)@.wf(),
        old(reg)@.room(16),
    ensures
        final(reg)@.wf(),
        r == SessionHandle(old(reg)@.handle_gen as u128),
        final(reg)@ == started(old(reg)@, *envelope, *args, now),
        final(reg)@.room(15),
{
    proof {
        lemma_attempts_room(
            reg@,
            |a: AttemptView| AttemptView { confidence: a.confidence.down(Score(DECAY_STEP)), ..a },
            16,
        );
        let r1 = decayed(reg@, Score(DECAY_STEP));
        lemma_abandoned_room(r1, envelope.frontend_id, envelope.channel_id, now, 16);
        let r2 = r1.with_abandoned(envelope.frontend_id, envelope.channel_id, now);
        lemma_new_session_room(
            r2,
            envelope.frontend_id,
            envelope.channel_id,
            None,
            Some(args.task_type@),
            views(args.technologies@),
            now,
            15,
        );
    }
    reg.decay_attempts(Score(DECAY_STEP));
    let h = reg.start_legacy_session(
        envelope.frontend_id,
        envelope.channel_id,
        args.task_type.clone(),
        clone_all(&args.technologies),
        now,
    );
    proof {
        lemma_change_room(
            reg@,
            h,
            |s: SessionView|
                SessionView { initial_approach: opt_view(args.initial_approach), ..s },
            15,
            15,
        );
    }
    reg.set_initial_approach(h, &args.initial_approach);
    h
}

fn load_memories(repo: &CanonicalRepository, task: &str) -> (r: Vec<Memory>)
    ensures
        views(r@) == preloaded(repo@, task@),
        r@.len() <= 3,
{
    let all = repo.all_memories();
    let live = select(
        &all,
        |m: &Memory| -> (b: bool)
            ensures
                b == (m@.lifecycle is Live)
            { m.lifecycle.is_recallable() },
        Ghost(|m: MemoryView| m.lifecycle is Live),
    );
    let q = lower(task);
    let ws = split_words(q.as_str());
    let ghost qv = q@;
    let best = rank(
        &live,
        |m: &Memory| -> (k: (i128, u128))
            ensures
                k.0 == -relevance(m@, qv) && k.1 == m@.id.0
            { (-(relevance_of(m, &ws, Ghost(qv)) as i128), m.id.0) },
        Ghost(|m: MemoryView| (-(relevance(m, qv) as int), m.id.0 as int)),
    );
    take_first(&best, 3)
}

fn trust_loaded(disp: &mut Dispatcher, envelope: &IpcEnvelope, ids: Vec<EntityId>)
    requires
        old(disp)@.wf(),
        old(disp)@.store.room(3),
        ids@.len() <= 3,
    ensures
        final(disp)@.wf(),
        final(disp)@ == trusted(old(disp)@, *envelope, ids@),
{
    if ids.len() == 0 {
        return;
    }
    let cmd = DomainCommand::BoostConfidence { memory_ids: ids };
    proof {
        lemma_room_mono(disp@.store, ids@.len() as int, 3);
    }
    let _ = issue(disp, envelope, 0, &cmd);
}

fn pending_string(repo: &CanonicalRepository) -> (r: String)
    ensures
        r@ == pending_text(pending(repo@)),
{
    let all = repo.get_suggestions();
    let waiting = select(
        &all,
        |x: &Suggestion| -> (b: bool)
            ensures
                b == (x@.status is Pending)
            { matches!(x.status, SuggestionStatus::Pending) },
        Ghost(|x: SuggestionView| x.status is Pending),
    );
    let some = take_first(&waiting, 3);
    proof {
        assert(views(some@).len() == some@.len());
    }
    if some.len() == 0 {
        return "".to_owned();
    }
    let mut out = "\n\n## Past improvement suggestions (consider; dismiss if not relevant)\n".to_owned();
    append_each(
        &mut out,
        &some,
        |x: &Suggestion| -> (t: String)
            ensures
                t@ == pending_line_text(x@.id as nat, x@.suggestion)
            { pending_line(x.id, x.suggestion.as_str()) },
        Ghost(|x: SuggestionView| pending_line_text(x.id as nat, x.suggestion)),
    );
    out
}

fn start_string(
    h: SessionHandle,
    args: &SessionStartArgs,
    ms: &Vec<Memory>,
    guides: &Vec<GuideSuggestion>,
    past: &str,
    waiting: &str,
    Ghost(list): Ghost<Seq<SuggestionView>>,
) -> (r: String)
    requires
        waiting@ == pending_text(list),
    ensures
        r@ == start_text(h, *args, views(ms@), views(guides@), past@, list),
{
    proof {
        assert(views(ms@).len() == ms@.len());
    }
    let mut out = start_head(uuid_to_text(h.0).as_str(), args.task_type.as_str());
    if args.technologies.len() > 0 {
        out.append(technologies_line(join(&args.technologies, ", ").as_str()).as_str());
    } else {
        out.append("");
    }
    if ms.len() > 0 {
        let mut part = "\nPre-loaded memories:\n".to_owned();
        append_each(
            &mut part,
            ms,
            |m: &Memory| -> (t: String)
                ensures
                    t@ == loaded_item(m@)
                {
                    loaded_line(
                        legacy_id(m).as_str(),
                        text_or_else(&m.project, "global").as_str(),
                        m.title.as_str(),
                        score_string(m.confidence).as_str(),
                        m.description.as_str(),
                    )
                },
            Ghost(|m: MemoryView| loaded_item(m)),
        );
        out.append(part.as_str());
    } else {
        out.append("");
    }
    let mut suggestions = "\n".to_owned();
    suggestions.append(format_guide_suggestions(guides).as_str());
    out.append(suggestions.as_str());
    out.append(past);
    out.append(waiting);
    out
}

/// `session_start`: a new session on the channel, with the guides, memories and
/// lessons that may help.
#[verifier::spinoff_prover]
#[verifier::rlimit(60)]
pub fn exec_session_start(
    disp: &mut Dispatcher,
    envelope: &IpcEnvelope,
    args: &SessionStartArgs,
) -> (r: ToolResult)
    requires
        old(disp)@.wf(),
        old(disp)@.store.room(3),
        old(disp)@.registry.room(16),
    ensures
        final(disp)@.wf(),
        (final(disp)@, r@) == session_start(old(disp)@, *envelope, *args),
{
    if is_blank(args.task_type.as_str()) {
        proof {
            reveal(session_start);
        }
        return err_result("'task_type' parameter is required");
    }
    let now: u64 = disp.repo.now_millis();
    let h = start_registry(&mut disp.registry, envelope, args, now);
    let mut task = args.task_type.clone();
    task.append(" ");
    task.append(join(&args.technologies, " ").as_str());
    let guides = suggest_guides(task.as_str(), &disp.repo.get_guides());
    let ms = load_memories(&disp.repo, task.as_str());
    trust_loaded(disp, envelope, collect_ids(&ms));
    let names = texts(
        &ms,
        |m: &Memory| -> (t: String)
            ensures
                t@ == legacy_name(m@)
            { legacy_id(m) },
        Ghost(|m: MemoryView| legacy_name(m)),
    );
    proof {
        lemma_active_change_room(
            disp@.registry,
            envelope.frontend_id,
            envelope.channel_id,
            |s: SessionView|
                SessionView { memories_read: with_texts(s.memories_read, views(names@)), ..s },
            15,
        );
    }
    disp.registry.track_memories_read(envelope.frontend_id, envelope.channel_id, &names);
    let past = build_continuity_recall(disp, args.task_type.as_str(), &None, now);
    let waiting = pending_string(&disp.repo);
    let ghost list = pending(disp@.store);
    let text = start_string(
        h,
        args,
        &ms,
        &guides,
        past.as_str(),
        waiting.as_str(),
        Ghost(list),
    );
    let guide_names = texts(
        &guides,
        |x: &GuideSuggestion| -> (t: String)
            ensures
                t@ == x@.guide
            { x.guide.clone() },
        Ghost(|x: GuideSuggestionView| x.guide),
    );
    proof {
        reveal(session_start);
    }
    ok_result(
        text,
        ToolData::SessionStarted {
            session_id: uuid_to_text(h.0),
            guides: guide_names,
            preloaded_memories: names,
        },
    )
}

// ---------------------------------------------------------------------------
// session_attempt
// ---------------------------------------------------------------------------

/// The identifier of a new attempt.
pub open spec fn new_attempt(op: OperationId) -> EntityId {
    EntityId(uuid_named("ltmrs:attempt:"@ + uuid_text(op.0)))
}

pub fn new_attempt_id(envelope: &IpcEnvelope) -> (r: EntityId)
    ensures
        r == new_attempt(envelope.operation_id),
{
    let mut key = "ltmrs:attempt:".to_owned();
    key.append(uuid_to_text(envelope.operation_id.0).as_str());
    EntityId::new(uuid_from_name(key.as_str()))
}

/// The memory that an attempt refers to.
pub open spec fn related_memory(s: StateView, name: Option<Seq<char>>) -> Option<EntityId> {
    match name {
        Some(n) => resolved(s, n),
        None => None,
    }
}

/// The attempt that is recorded, the next of its session. Secrets are taken out
/// of what it says.
pub open spec fn attempt_made(
    d: DispatcherView,
    env: IpcEnvelope,
    args: SessionAttemptArgs,
    outcome: AttemptOutcome,
    h: SessionHandle,
) -> AttemptView {
    AttemptView {
        id: new_attempt(env.operation_id),
        session_id: h,
        seq: (session_of(d.registry.sessions, h).attempts.len() + 1) as u32,
        approach: redacted(args.approach@),
        outcome,
        critique: match args.critique {
            Some(c) => Some(redacted(c@)),
            None => None,
        },
        rationale: opt_view(args.rationale),
        related_memory_id: related_memory(d.store, opt_view(args.related_memory_id)),
        confidence: Score(UNIT),
        access_count: 0,
        last_accessed_at: None,
        created_at: Instant(d.store.now),
    }
}

/// Whether an attempt holds a critique of itself.
pub open spec fn is_critique(a: AttemptView) -> bool {
    (a.outcome is Rejected || a.outcome is Partial) && a.critique is Some
}

/// The registry with an attempt recorded in a session.
pub open spec fn recorded(r: RegistryView, h: SessionHandle, a: AttemptView) -> RegistryView {
    r.with_change(
        h,
        |s: SessionView| SessionView { attempts: s.attempts.push(a), ..s },
    ).with_change(h, |s: SessionView| refined(s, is_critique(a)))
}

/// The attempt that was recorded.
pub open spec fn attempt_text_text(seq: nat, preview: Seq<char>, tag: Seq<char>) -> Seq<char> {
    "Recorded attempt #"@ + dec(seq) + " — "@ + preview + " "@ + tag + "."@
}

pub fn attempt_text(seq: u64, preview: &str, tag: &str) -> (r: String)
    ensures
        r@ == attempt_text_text(seq as nat, preview@, tag@),
{
    let mut out = "Recorded attempt #".to_owned();
    out.append(decimal(seq).as_str());
    out.append(" — ");
    out.append(preview);
    out.append(" ");
    out.append(tag);
    out.append(".");
    out
}

/// The name of an attempt.
pub open spec fn attempt_name_text(id: Seq<char>, seq: nat) -> Seq<char> {
    id + "#"@ + dec(seq)
}

pub fn attempt_name(id: &str, seq: u64) -> (r: String)
    ensures
        r@ == attempt_name_text(id@, seq as nat),
{
    let mut out = id.to_owned();
    out.append("#");
    out.append(decimal(seq).as_str());
    out
}

/// How much an attempt is worth.
pub open spec fn worth(o: AttemptOutcome) -> Seq<char> {
    match o {
        AttemptOutcome::Rejected => "(dead end — most valuable)"@,
        AttemptOutcome::Partial => "(partial)"@,
        AttemptOutcome::Promising => "(promising)"@,
    }
}

fn worth_of(o: AttemptOutcome) -> (r: &'static str)
    ensures
        r@ == worth(o),
{
    match o {
        AttemptOutcome::Rejected => "(dead end — most valuable)",
        AttemptOutcome::Partial => "(partial)",
        AttemptOutcome::Promising => "(promising)",
    }
}

/// How a text begins: the characters that eighty bytes hold.
pub open spec fn preview(t: Seq<char>) -> Seq<char> {
    if byte_len(t) > 80 {
        t.take(byte_cut(t, 80, 0)) + "…"@
    } else {
        t
    }
}

fn preview_of(t: &str) -> (r: String)
    ensures
        r@ == preview(t@),
{
    if bytes_below(t, 81).is_none() {
        let mut out = take_bytes(t, 80);
        out.append("…");
        out
    } else {
        t.to_owned()
    }
}

/// What `session_attempt` does and answers.
#[verifier::opaque]
pub open spec fn session_attempt(d: DispatcherView, env: IpcEnvelope, args: SessionAttemptArgs) ->
    Effect {
    let outcome = AttemptOutcome::named(args.outcome@);
    let session = d.registry.active(env.frontend_id, env.channel_id);
    if blank(args.approach@) || blank(args.outcome@) {
        (d, err_view("'approach' and 'outcome' are required for session_attempt."@))
    } else if outcome is None {
        (d, err_view("'outcome' must be one of: rejected, partial, promising."@))
    } else if session is None {
        (d, err_view("No active session. Call session_start before recording attempts."@))
    } else {
        let h = session->0;
        let a = attempt_made(d, env, args, outcome->0, h);
        (
            DispatcherView { registry: recorded(d.registry, h, a), ..d },
            ok_view(
                attempt_text_text(a.seq as nat, preview(a.approach), worth(a.outcome)),
                ToolDataView::AttemptRecorded {
                    attempt_id: attempt_name_text(uuid_text(h.0), a.seq as nat),
                },
            ),
        )
    }
}

fn make_attempt(
    disp: &Dispatcher,
    envelope: &IpcEnvelope,
    args: &SessionAttemptArgs,
    outcome: AttemptOutcome,
    h: SessionHandle,
) -> (r: Attempt)
    requires
        disp@.wf(),
        disp@.registry.room(1),
        has_session(disp@.registry.sessions, h),
    ensures
        r@ == attempt_made(disp@, *envelope, *args, outcome, h),
{
    let seq: u32 = match disp.registry.session(h) {
        Some(s) => {
            proof {
                let ss = disp@.registry.sessions;
                let i = choose|i: int| 0 <= i < ss.len() && (#[trigger] ss[i]).handle == h;
                assert(ss[i].attempts.len() + 1 <= u32::MAX);
                assert(views(s.attempts@).len() == s.attempts@.len());
            }
            s.attempts.len() as u32 + 1
        },
        None => 1,
    };
    let related_memory_id = match &args.related_memory_id {
        Some(name) => match disp.repo.resolve_id(name.as_str()) {
            Ok(id) => Some(id),
            Err(_) => None,
        },
        None => None,
    };
    Attempt {
        id: new_attempt_id(envelope),
        session_id: h,
        seq,
        approach: redact(args.approach.as_str()),
        outcome,
        critique: match &args.critique {
            Some(c) => Some(redact(c.as_str())),
            None => None,
        },
        rationale: args.rationale.clone(),
        related_memory_id,
        confidence: Score(UNIT),
        access_count: 0,
        last_accessed_at: None,
        created_at: Instant::new(disp.repo.now_millis()),
    }
}

proof fn lemma_still_there(
    ss: Seq<SessionView>,
    h: SessionHandle,
    change: spec_fn(SessionView) -> SessionView,
)
    requires
        has_session(ss, h),
        forall|s: SessionView| (#[trigger] change(s)).handle == s.handle,
    ensures
        has_session(crate::domain::state::edited_session(ss, h, change), h),
{
    let i = choose|i: int| 0 <= i < ss.len() && (#[trigger] ss[i]).handle == h;
    let es = crate::domain::state::edited_session(ss, h, change);
    assert(es[i].handle == h);
}

/// `session_attempt`: notes an attempt in the channel's session.
pub fn exec_session_attempt(
    disp: &mut Dispatcher,
    envelope: &IpcEnvelope,
    args: &SessionAttemptArgs,
) -> (r: ToolResult)
    requires
        old(disp)@.wf(),
        old(disp)@.registry.room(2),
    ensures
        final(disp)@.wf(),
        (final(disp)@, r@) == session_attempt(old(disp)@, *envelope, *args),
{
    proof {
        reveal(session_attempt);
    }
    if is_blank(args.approach.as_str()) || is_blank(args.outcome.as_str()) {
        return err_result("'approach' and 'outcome' are required for session_attempt.");
    }
    let outcome = match AttemptOutcome::parse(args.outcome.as_str()) {
        Some(o) => o,
        None => return err_result("'outcome' must be one of: rejected, partial, promising."),
    };
    let h = match disp.registry.resolve_session(envelope.frontend_id, envelope.channel_id) {
        Some(h) => h,
        None => return err_result(
            "No active session. Call session_start before recording attempts.",
        ),
    };
    proof {
        lemma_registry_room_mono(disp@.registry, 1, 2);
    }
    let a = make_attempt(disp, envelope, args, outcome, h);
    let seq: u32 = a.seq;
    let text = attempt_text(
        seq as u64,
        preview_of(a.approach.as_str()).as_str(),
        worth_of(outcome),
    );
    let critique = match outcome {
        AttemptOutcome::Promising => false,
        _ => a.critique.is_some(),
    };
    let ghost av = a@;
    proof {
        let push = |s: SessionView| SessionView { attempts: s.attempts.push(av), ..s };
        assert forall|s: SessionView| session_room(s, 2) implies session_room(
            #[trigger] push(s),
            1,
        ) by {
            let t = push(s);
            assert forall|j: int| 0 <= j < t.attempts.len() implies (
            #[trigger] t.attempts[j]).access_count + 1 <= u64::MAX by {
                if j < s.attempts.len() {
                    assert(t.attempts[j] == s.attempts[j]);
                }
            }
        }
        lemma_change_room(disp@.registry, h, push, 1, 2);
        lemma_still_there(disp@.registry.sessions, h, push);
    }
    let _ = disp.registry.record_attempt(envelope.frontend_id, envelope.channel_id, a);
    disp.registry.count_refinement(h, critique);
    ok_result(
        text,
        ToolData::AttemptRecorded {
            attempt_id: attempt_name(uuid_to_text(h.0).as_str(), seq as u64),
        },
    )
}

// ---------------------------------------------------------------------------
// session_end
// ---------------------------------------------------------------------------

/// The registry with a session ended.
pub open spec fn ended_session(
    r: RegistryView,
    h: SessionHandle,
    outcome: TaskOutcome,
    args: SessionEndArgs,
    now: u64,
) -> RegistryView {
    r.with_change(
        h,
        |s: SessionView|
            ended(s, outcome, opt_view(args.final_approach), views(args.lessons@), now),
    )
}

/// A guide after a session that used it.
pub open spec fn judged_guide(g: GuideView, outcome: TaskOutcome, now: u64) -> GuideView {
    GuideView {
        success_count: if outcome is Success {
            (g.success_count + 1) as u32
        } else {
            g.success_count
        },
        failure_count: if outcome is Failure {
            (g.failure_count + 1) as u32
        } else {
            g.failure_count
        },
        updated_at: Instant(now),
        ..g
    }
}

/// A guide that fails more often than not.
pub open spec fn weak_line_text(name: Seq<char>, rate: Seq<char>, n: nat, all: nat) -> Seq<char> {
    "  [!] Guide \""@ + name + "\" success rate is "@ + rate + " ("@ + dec(n) + "/"@ + dec(all) + "). Consider refining with guide_update."@
}

pub fn weak_line(name: &str, rate: &str, n: u64, all: u64) -> (r: String)
    ensures
        r@ == weak_line_text(name@, rate@, n as nat, all as nat),
{
    let mut out = "  [!] Guide \"".to_owned();
    out.append(name);
    out.append("\" success rate is ");
    out.append(rate);
    out.append(" (");
    out.append(decimal(n).as_str());
    out.append("/");
    out.append(decimal(all).as_str());
    out.append("). Consider refining with guide_update.");
    out
}

pub open spec fn weak_guide_line(g: GuideView) -> Seq<char> {
    weak_line_text(
        g.name,
        ratio_text(g.success_count as nat, tries(g)),
        g.success_count as nat,
        tries(g),
    )
}

/// The guides after the first `n` of those that a session used were judged, and
/// what is suggested of them.
pub open spec fn judged_guides(
    gs: Seq<GuideView>,
    names: Seq<Seq<char>>,
    outcome: TaskOutcome,
    now: u64,
    n: int,
) -> (Seq<GuideView>, Seq<Seq<char>>)
    decreases n,
{
    if n <= 0 {
        (gs, Seq::empty())
    } else {
        let (rest, lines) = judged_guides(gs, names, outcome, now, n - 1);
        match guide_of(rest, names[n - 1]) {
            Some(found) => {
                let g = judged_guide(found, outcome, now);
                (
                    with_guide(rest, g),
                    if outcome is Failure && is_weak(g) {
                        lines.push(weak_guide_line(g))
                    } else {
                        lines
                    },
                )
            },
            None => (rest, lines),
        }
    }
}

/// The suggestions with the first `n` lines added, each under the next number.
pub open spec fn with_lines(
    ss: Seq<SuggestionView>,
    h: SessionHandle,
    lines: Seq<Seq<char>>,
    now: u64,
    n: int,
) -> Seq<SuggestionView>
    decreases n,
{
    if n <= 0 {
        ss
    } else {
        let rest = with_lines(ss, h, lines, now, n - 1);
        with_suggestion(
            rest,
            SuggestionView {
                id: (last_number(rest) + 1) as u64,
                session_id: Some(uuid_text(h.0)),
                suggestion: trimmed(lines[n - 1]),
                status: SuggestionStatus::Pending,
                created_at: Instant(now),
                resolved_at: None,
            },
        )
    }
}

/// The session that ended.
pub open spec fn end_head_text(id: Seq<char>, outcome: Seq<char>) -> Seq<char> {
    "Session "@ + id + " ended: "@ + outcome + "\n"@
}

pub fn end_head(id: &str, outcome: &str) -> (r: String)
    ensures
        r@ == end_head_text(id@, outcome@),
{
    let mut out = "Session ".to_owned();
    out.append(id);
    out.append(" ended: ");
    out.append(outcome);
    out.append("\n");
    out
}

/// What it was about.
pub open spec fn task_line_text(kind: Seq<char>, from: Seq<char>, to: Seq<char>) -> Seq<char> {
    "Task: "@ + kind + " | Duration: "@ + from + " → "@ + to + "\n"@
}

pub fn task_line(kind: &str, from: &str, to: &str) -> (r: String)
    ensures
        r@ == task_line_text(kind@, from@, to@),
{
    let mut out = "Task: ".to_owned();
    out.append(kind);
    out.append(" | Duration: ");
    out.append(from);
    out.append(" → ");
    out.append(to);
    out.append("\n");
    out
}

/// What was learned.
pub open spec fn lessons_line_text(n: nat) -> Seq<char> {
    "Lessons: "@ + dec(n) + " recorded\n"@
}

pub fn lessons_line(n: usize) -> (r: String)
    ensures
        r@ == lessons_line_text(n as nat),
{
    let mut out = "Lessons: ".to_owned();
    out.append(decimal(n as u64).as_str());
    out.append(" recorded\n");
    out
}

/// What is suggested.
pub open spec fn improvements_text(list: Seq<char>) -> Seq<char> {
    "\nIMPROVEMENT SUGGESTIONS:\n"@ + list + "\n"@
}

pub fn improvements(list: &str) -> (r: String)
    ensures
        r@ == improvements_text(list@),
{
    let mut out = "\nIMPROVEMENT SUGGESTIONS:\n".to_owned();
    out.append(list);
    out.append("\n");
    out
}

/// A name in brackets.
pub open spec fn bracket_text(id: Seq<char>) -> Seq<char> {
    "["@ + id + "]"@
}

pub fn bracket(id: &str) -> (r: String)
    ensures
        r@ == bracket_text(id@),
{
    let mut out = "[".to_owned();
    out.append(id);
    out.append("]");
    out
}

/// What was read.
pub open spec fn review_read_text(list: Seq<char>) -> Seq<char> {
    "\n  Memories read: "@ + list
}

pub fn review_read(list: &str) -> (r: String)
    ensures
        r@ == review_read_text(list@),
{
    let mut out = "\n  Memories read: ".to_owned();
    out.append(list);
    out
}

/// What was made.
pub open spec fn review_created_text(list: Seq<char>) -> Seq<char> {
    "\n  Memories created: "@ + list
}

pub fn review_created(list: &str) -> (r: String)
    ensures
        r@ == review_created_text(list@),
{
    let mut out = "\n  Memories created: ".to_owned();
    out.append(list);
    out
}

/// What was used.
pub open spec fn review_guides_text(list: Seq<char>) -> Seq<char> {
    "\n  Guides used: "@ + list
}

pub fn review_guides(list: &str) -> (r: String)
    ensures
        r@ == review_guides_text(list@),
{
    let mut out = "\n  Guides used: ".to_owned();
    out.append(list);
    out
}

pub open spec fn bracketed(list: Seq<Seq<char>>) -> Seq<char> {
    joined(list.map_values(|t: Seq<char>| bracket_text(t)), ", "@)
}

/// What a session read, made and used, as text.
pub open spec fn review_text(s: SessionView) -> Seq<char> {
    part_if(
        s.memories_read.len() > 0 || s.memories_created.len() > 0 || s.guides_used.len() > 0,
        "\nSESSION REVIEW:"@ + part_if(
            s.memories_read.len() > 0,
            review_read_text(bracketed(s.memories_read)),
        ) + part_if(
            s.memories_created.len() > 0,
            review_created_text(bracketed(s.memories_created)),
        ) + part_if(
            s.guides_used.len() > 0,
            review_guides_text(joined(s.guides_used, ", "@)),
        ),
    )
}

/// What is said at the end of a session.
pub open spec fn end_text(s: SessionView, outcome: Seq<char>, lines: Seq<Seq<char>>, now: u64) ->
    Seq<char> {
    end_head_text(uuid_text(s.handle.0), outcome) + task_line_text(
        text_or(s.task_type, ""@),
        moment_of(s.started_at.0),
        moment_of(now),
    ) + part_if(s.lessons.len() > 0, lessons_line_text(s.lessons.len())) + part_if(
        lines.len() > 0,
        improvements_text(joined(lines, "\n"@)),
    ) + review_text(s)
}

/// What comes of ending a session that is going on.
pub open spec fn end_active(
    d: DispatcherView,
    args: SessionEndArgs,
    outcome: TaskOutcome,
    h: SessionHandle,
) -> Effect {
    let now = d.store.now;
    let registry = ended_session(d.registry, h, outcome, args, now);
    let s = session_of(registry.sessions, h);
    let (guides, lines) = judged_guides(
        d.store.guides,
        s.guides_used,
        outcome,
        now,
        s.guides_used.len() as int,
    );
    (
        DispatcherView {
            store: StateView {
                guides,
                suggestions: with_lines(d.store.suggestions, h, lines, now, lines.len() as int),
                ..d.store
            },
            registry,
            ..d
        },
        ok_view(
            end_text(s, args.outcome@, lines, now),
            ToolDataView::SessionEnded { suggestions: lines },
        ),
    )
}

/// What `session_end` does and answers.
#[verifier::opaque]
pub open spec fn session_end(d: DispatcherView, env: IpcEnvelope, args: SessionEndArgs) -> Effect {
    let outcome = TaskOutcome::named(args.outcome@);
    let session = d.registry.active(env.frontend_id, env.channel_id);
    if blank(args.outcome@) {
        (d, err_view("'outcome' parameter is required"@))
    } else if outcome is None {
        (d, err_view("'outcome' must be one of: success, partial, failure, abandoned."@))
    } else if session is None {
        (d, err_view("No active session to end."@))
    } else {
        end_active(d, args, outcome->0, session->0)
    }
}

/// How many guides the channel's session used.
pub open spec fn guides_in_session(d: DispatcherView, env: IpcEnvelope) -> int {
    match d.registry.active(env.frontend_id, env.channel_id) {
        Some(h) => session_of(d.registry.sessions, h).guides_used.len() as int,
        None => 0,
    }
}

fn judge_guide(found: Guide, outcome: TaskOutcome, now: u64) -> (r: Guide)
    requires
        found.success_count < u32::MAX,
        found.failure_count < u32::MAX,
    ensures
        r@ == judged_guide(found@, outcome, now),
{
    let mut g = found;
    match outcome {
        TaskOutcome::Success => {
            g.success_count = g.success_count + 1;
        },
        TaskOutcome::Failure => {
            g.failure_count = g.failure_count + 1;
        },
        _ => {},
    }
    g.updated_at = Instant::new(now);
    g
}

fn weak(g: &Guide) -> (r: bool)
    ensures
        r == is_weak(g@),
{
    let all: u64 = tries_of(g);
    all >= 3 && quotient(g.success_count as u128, all as u128).is_below(quotient(2, 5))
}

proof fn lemma_guide_found(gs: Seq<GuideView>, name: Seq<char>, n: int)
    requires
        guides_room(gs, n),
    ensures
        guide_of(gs, name) is Some ==> guide_of(gs, name)->0.room(n),
{
    lemma_place(gs, guide_key(name), 0);
}

proof fn lemma_place(gs: Seq<GuideView>, key: Seq<char>, from: int)
    requires
        0 <= from <= gs.len(),
    ensures
        from <= guide_place(gs, key, from) <= gs.len(),
    decreases gs.len() - from,
{
    if from < gs.len() && guide_key(gs[from].name) != key {
        lemma_place(gs, key, from + 1);
    }
}

proof fn lemma_guide_slot(gs: Seq<GuideView>, key: Seq<char>, from: int)
    requires
        0 <= from <= gs.len(),
    ensures
        from <= guide_slot(gs, key, from) <= gs.len(),
    decreases gs.len() - from,
{
    if from < gs.len() && !crate::order::text_lt(key, guide_key(gs[from].name)) {
        lemma_guide_slot(gs, key, from + 1);
    }
}

proof fn lemma_with_guide_room(gs: Seq<GuideView>, g: GuideView, n: int)
    requires
        guides_room(gs, n),
        g.room(n),
    ensures
        guides_room(with_guide(gs, g), n),
{
    let keep = |x: GuideView| guide_key(x.name) != guide_key(g.name);
    lemma_filter_members(gs, keep);
    let rest = without_key(gs, guide_key(g.name));
    lemma_guide_slot(rest, guide_key(g.name), 0);
    let after = with_guide(gs, g);
    let p = guide_slot(rest, guide_key(g.name), 0);
    assert forall|i: int| 0 <= i < after.len() implies (#[trigger] after[i]).room(n) by {
        if i < p {
            assert(after[i] == rest[i]);
            assert(gs.contains(rest[i]));
        } else if i > p {
            assert(after[i] == rest[i - 1]);
            assert(gs.contains(rest[i - 1]));
        }
    }
}

fn judge_guides(repo: &mut CanonicalRepository, names: &Vec<String>, outcome: TaskOutcome) -> (r: Vec<
    String,
>)
    requires
        old(repo)@.wf(),
        guides_room(old(repo)@.guides, names@.len() as int),
    ensures
        final(repo)@.wf(),
        final(repo)@ == (StateView {
            guides: judged_guides(
                old(repo)@.guides,
                views(names@),
                outcome,
                old(repo)@.now,
                names@.len() as int,
            ).0,
            ..old(repo)@
        }),
        views(r@) == judged_guides(
            old(repo)@.guides,
            views(names@),
            outcome,
            old(repo)@.now,
            names@.len() as int,
        ).1,
        r@.len() <= names@.len(),
{
    let ghost start = repo@;
    let ghost ns = views(names@);
    let now: u64 = repo.now_millis();
    let mut lines: Vec<String> = Vec::new();
    let mut i: usize = 0;
    proof {
        assert(views(lines@) =~= Seq::empty());
    }
    while i < names.len()
        invariant
            i <= names@.len(),
            ns == views(names@),
            now == start.now,
            repo@.wf(),
            lines@.len() <= i,
            guides_room(repo@.guides, names@.len() - i),
            repo@ == (StateView {
                guides: judged_guides(start.guides, ns, outcome, now, i as int).0,
                ..start
            }),
            views(lines@) == judged_guides(start.guides, ns, outcome, now, i as int).1,
        decreases names@.len() - i,
    {
        broadcast use crate::text::lemma_views_push;

        proof {
            assert(ns[i as int] == names@[i as int]@);
            lemma_guide_found(repo@.guides, ns[i as int], names@.len() - i);
        }
        let ghost before = repo@.guides;
        if let Some(found) = repo.get_guide(names[i].as_str()) {
            let g = judge_guide(found, outcome, now);
            if matches!(outcome, TaskOutcome::Failure) && weak(&g) {
                let all: u64 = tries_of(&g);
                let rate = ratio_string(g.success_count as u64, all);
                lines.push(
                    weak_line(g.name.as_str(), rate.as_str(), g.success_count as u64, all),
                );
            }
            proof {
                assert(guides_room(before, names@.len() - i - 1)) by {
                    assert forall|k: int| 0 <= k < before.len() implies (
                    #[trigger] before[k]).room(names@.len() - i - 1) by {
                        assert(before[k].room(names@.len() - i));
                    }
                }
                lemma_with_guide_room(before, g@, names@.len() - i - 1);
            }
            repo.put_guide(&g);
        } else {
            proof {
                assert forall|k: int| 0 <= k < before.len() implies (#[trigger] before[k]).room(
                    names@.len() - i - 1,
                ) by {
                    assert(before[k].room(names@.len() - i));
                }
            }
        }
        i += 1;
    }
    lines
}

proof fn lemma_numbers(ss: Seq<SuggestionView>, s: SuggestionView)
    requires
        s.id == last_number(ss) + 1,
    ensures
        suggestion_place(ss, s.id, 0) == ss.len(),
        last_number(with_suggestion(ss, s)) == s.id,
{
    lemma_no_place(ss, s.id, 0);
    assert(ss.push(s).drop_last() =~= ss);
}

proof fn lemma_no_place(ss: Seq<SuggestionView>, id: u64, from: int)
    requires
        0 <= from <= ss.len(),
        id > last_number(ss),
    ensures
        suggestion_place(ss, id, from) == ss.len(),
    decreases ss.len() - from,
{
    if from < ss.len() {
        lemma_numbers_up_to(ss, from);
        lemma_no_place(ss, id, from + 1);
    }
}

proof fn lemma_numbers_up_to(ss: Seq<SuggestionView>, i: int)
    requires
        0 <= i < ss.len(),
    ensures
        ss[i].id <= last_number(ss),
    decreases ss.len(),
{
    if i < ss.len() - 1 {
        lemma_numbers_up_to(ss.drop_last(), i);
    }
}

fn keep_lines(repo: &mut CanonicalRepository, h: SessionHandle, lines: &Vec<String>)
    requires
        old(repo)@.wf(),
        last_number(old(repo)@.suggestions) + lines@.len() <= u64::MAX,
    ensures
        final(repo)@.wf(),
        final(repo)@ == (StateView {
            suggestions: with_lines(
                old(repo)@.suggestions,
                h,
                views(lines@),
                old(repo)@.now,
                lines@.len() as int,
            ),
            ..old(repo)@
        }),
{
    let ghost start = repo@;
    let ghost ls = views(lines@);
    let now: u64 = repo.now_millis();
    let mut i: usize = 0;
    while i < lines.len()
        invariant
            i <= lines@.len(),
            ls == views(lines@),
            now == start.now,
            repo@.wf(),
            last_number(repo@.suggestions) + (lines@.len() - i) <= u64::MAX,
            repo@ == (StateView {
                suggestions: with_lines(start.suggestions, h, ls, now, i as int),
                ..start
            }),
        decreases lines@.len() - i,
    {
        proof {
            assert(ls[i as int] == lines@[i as int]@);
        }
        let id: u64 = repo.next_suggestion_id();
        let s = Suggestion {
            id,
            session_id: Some(uuid_to_text(h.0)),
            suggestion: trim(lines[i].as_str()),
            status: SuggestionStatus::Pending,
            created_at: Instant::new(now),
            resolved_at: None,
        };
        proof {
            lemma_numbers(repo@.suggestions, s@);
        }
        repo.put_suggestion(&s);
        i += 1;
    }
}

fn bracketed_string(list: &Vec<String>) -> (r: String)
    ensures
        r@ == bracketed(views(list@)),
{
    let items = texts(
        list,
        |t: &String| -> (s: String)
            ensures
                s@ == bracket_text(t@)
            { bracket(t.as_str()) },
        Ghost(|t: Seq<char>| bracket_text(t)),
    );
    join(&items, ", ")
}

fn review_string(s: &Session) -> (r: String)
    ensures
        r@ == review_text(s@),
{
    proof {
        assert(views(s.memories_read@).len() == s.memories_read@.len());
        assert(views(s.memories_created@).len() == s.memories_created@.len());
        assert(views(s.guides_used@).len() == s.guides_used@.len());
    }
    if s.memories_read.len() == 0 && s.memories_created.len() == 0 && s.guides_used.len() == 0 {
        return "".to_owned();
    }
    let mut out = "\nSESSION REVIEW:".to_owned();
    if s.memories_read.len() > 0 {
        out.append(review_read(bracketed_string(&s.memories_read).as_str()).as_str());
    } else {
        out.append("");
    }
    if s.memories_created.len() > 0 {
        out.append(review_created(bracketed_string(&s.memories_created).as_str()).as_str());
    } else {
        out.append("");
    }
    if s.guides_used.len() > 0 {
        out.append(review_guides(join(&s.guides_used, ", ").as_str()).as_str());
    } else {
        out.append("");
    }
    out
}

fn end_string(s: &Session, outcome: &str, lines: &Vec<String>, now: u64) -> (r: String)
    ensures
        r@ == end_text(s@, outcome@, views(lines@), now),
{
    proof {
        assert(views(s.lessons@).len() == s.lessons@.len());
        assert(views(lines@).len() == lines@.len());
    }
    let mut out = end_head(uuid_to_text(s.handle.0).as_str(), outcome);
    out.append(
        task_line(
            text_or_else(&s.task_type, "").as_str(),
            iso8601(s.started_at.0).as_str(),
            iso8601(now).as_str(),
        ).as_str(),
    );
    if s.lessons.len() > 0 {
        out.append(lessons_line(s.lessons.len()).as_str());
    } else {
        out.append("");
    }
    if lines.len() > 0 {
        out.append(improvements(join(lines, "\n").as_str()).as_str());
    } else {
        out.append("");
    }
    out.append(review_string(s).as_str());
    out
}

fn exec_end_active(
    disp: &mut Dispatcher,
    args: &SessionEndArgs,
    outcome: TaskOutcome,
    h: SessionHandle,
    s: &Session,
    Ghost(d): Ghost<DispatcherView>,
) -> (r: ToolResult)
    requires
        old(disp)@.wf(),
        old(disp)@ == (DispatcherView {
            registry: ended_session(d.registry, h, outcome, *args, d.store.now),
            ..d
        }),
        s@ == session_of(old(disp)@.registry.sessions, h),
        guides_room(d.store.guides, s.guides_used@.len() as int),
        last_number(d.store.suggestions) + s.guides_used@.len() <= u64::MAX,
    ensures
        final(disp)@.wf(),
        (final(disp)@, r@) == end_active(d, *args, outcome, h),
{
    let now: u64 = disp.repo.now_millis();
    proof {
        assert(views(s.guides_used@).len() == s.guides_used@.len());
    }
    let lines = judge_guides(&mut disp.repo, &s.guides_used, outcome);
    proof {
        assert(views(lines@).len() == lines@.len());
    }
    keep_lines(&mut disp.repo, h, &lines);
    let text = end_string(s, args.outcome.as_str(), &lines, now);
    ok_result(text, ToolData::SessionEnded { suggestions: lines })
}

/// `session_end`: ends the channel's session, and no other. The guides that it
/// used are judged by its outcome.
pub fn exec_session_end(disp: &mut Dispatcher, envelope: &IpcEnvelope, args: &SessionEndArgs) -> (r:
    ToolResult)
    requires
        old(disp)@.wf(),
        guides_room(old(disp)@.store.guides, guides_in_session(old(disp)@, *envelope)),
        last_number(old(disp)@.store.suggestions) + guides_in_session(old(disp)@, *envelope)
            <= u64::MAX,
    ensures
        final(disp)@.wf(),
        (final(disp)@, r@) == session_end(old(disp)@, *envelope, *args),
{
    proof {
        reveal(session_end);
    }
    if is_blank(args.outcome.as_str()) {
        return err_result("'outcome' parameter is required");
    }
    let outcome = match TaskOutcome::parse(args.outcome.as_str()) {
        Some(o) => o,
        None => return err_result(
            "'outcome' must be one of: success, partial, failure, abandoned.",
        ),
    };
    let h = match disp.registry.resolve_session(envelope.frontend_id, envelope.channel_id) {
        Some(h) => h,
        None => return err_result("No active session to end."),
    };
    let ghost d = disp@;
    let now: u64 = disp.repo.now_millis();
    let _ = disp.registry.end_session(
        envelope.frontend_id,
        envelope.channel_id,
        outcome,
        args.final_approach.clone(),
        clone_all(&args.lessons),
        now,
    );
    proof {
        lemma_ended_session(d.registry, h, outcome, *args, now);
        assert(disp@.registry == ended_session(d.registry, h, outcome, *args, now));
    }
    let s = match disp.registry.session(h) {
        Some(s) => s.clone(),
        None => return err_result("No active session to end."),
    };
    proof {
        assert(views(s.guides_used@).len() == s.guides_used@.len());
    }
    exec_end_active(disp, args, outcome, h, &s, Ghost(d))
}

/// A session that is ended keeps what it has used.
proof fn lemma_ended_session(
    r: RegistryView,
    h: SessionHandle,
    outcome: TaskOutcome,
    args: SessionEndArgs,
    now: u64,
)
    requires
        r.wf(),
        has_session(r.sessions, h),
    ensures
        has_session(ended_session(r, h, outcome, args, now).sessions, h),
        session_of(ended_session(r, h, outcome, args, now).sessions, h).guides_used == session_of(
            r.sessions,
            h,
        ).guides_used,
{
    let change = |s: SessionView|
        ended(s, outcome, opt_view(args.final_approach), views(args.lessons@), now);
    let ss = r.sessions;
    let i = choose|i: int| 0 <= i < ss.len() && (#[trigger] ss[i]).handle == h;
    crate::domain::interpreter::lemma_session_at(ss, i, change);
    let es = crate::domain::state::edited_session(ss, h, change);
    assert(es[i].handle == h);
    let k = choose|k: int| 0 <= k < es.len() && (#[trigger] es[k]).handle == h;
    assert(ss[k].handle == h);
    if k < i {
        assert(ss[k].handle != ss[i].handle);
    } else if k > i {
        assert(ss[i].handle != ss[k].handle);
    }
}

// ---------------------------------------------------------------------------
// session_stats
// ---------------------------------------------------------------------------

/// The session that is going on.
pub open spec fn active_line_text(n: nat) -> Seq<char> {
    "Active session: "@ + dec(n) + " tool calls\n"@
}

pub fn active_line(n: usize) -> (r: String)
    ensures
        r@ == active_line_text(n as nat),
{
    let mut out = "Active session: ".to_owned();
    out.append(decimal(n as u64).as_str());
    out.append(" tool calls\n");
    out
}

/// The guides that it uses.
pub open spec fn used_line_text(list: Seq<char>) -> Seq<char> {
    "Guides used: "@ + list + "\n"@
}

pub fn used_line(list: &str) -> (r: String)
    ensures
        r@ == used_line_text(list@),
{
    let mut out = "Guides used: ".to_owned();
    out.append(list);
    out.append("\n");
    out
}

/// How many are over.
pub open spec fn recent_head_text(n: nat) -> Seq<char> {
    "Recent sessions ("@ + dec(n) + "):\n"@
}

pub fn recent_head(n: usize) -> (r: String)
    ensures
        r@ == recent_head_text(n as nat),
{
    let mut out = "Recent sessions (".to_owned();
    out.append(decimal(n as u64).as_str());
    out.append("):\n");
    out
}

/// A session that is over.
pub open spec fn recent_line_text(id: Seq<char>, n: nat, techs: Seq<char>) -> Seq<char> {
    "  "@ + id + ": "@ + dec(n) + " calls"@ + techs + "\n"@
}

pub fn recent_line(id: &str, n: usize, techs: &str) -> (r: String)
    ensures
        r@ == recent_line_text(id@, n as nat, techs@),
{
    let mut out = "  ".to_owned();
    out.append(id);
    out.append(": ");
    out.append(decimal(n as u64).as_str());
    out.append(" calls");
    out.append(techs);
    out.append("\n");
    out
}

/// What it was done with.
pub open spec fn techs_part_text(list: Seq<char>) -> Seq<char> {
    " ["@ + list + "]"@
}

pub fn techs_part(list: &str) -> (r: String)
    ensures
        r@ == techs_part_text(list@),
{
    let mut out = " [".to_owned();
    out.append(list);
    out.append("]");
    out
}

/// The sessions that are over, the latest first.
pub open spec fn recent(ss: Seq<SessionView>, args: SessionStatsArgs) -> Seq<SessionView> {
    let most = match args.count {
        None => 5,
        Some(n) => if n < 5 {
            n as int
        } else {
            5
        },
    };
    first(
        ranked(
            ss.filter(|s: SessionView| s.status is Ended),
            |s: SessionView| (-(s.started_at.0 as int), 0int),
        ),
        most,
    )
}

/// The session of a channel that is going on, if there is one.
pub open spec fn current(r: RegistryView, env: IpcEnvelope) -> Option<SessionView> {
    match r.active(env.frontend_id, env.channel_id) {
        Some(h) => Some(session_of(r.sessions, h)),
        None => None,
    }
}

pub open spec fn current_text(s: Option<SessionView>) -> Seq<char> {
    match s {
        Some(c) => active_line_text(c.attempts.len()) + part_if(
            c.technologies.len() > 0,
            technologies_line_text(joined(c.technologies, ", "@)),
        ) + part_if(
            c.guides_used.len() > 0,
            used_line_text(joined(c.guides_used, ", "@)),
        ) + "\n"@,
        None => ""@,
    }
}

pub open spec fn recent_item(s: SessionView) -> Seq<char> {
    recent_line_text(
        uuid_text(s.handle.0),
        s.attempts.len(),
        part_if(s.technologies.len() > 0, techs_part_text(joined(s.technologies, ", "@))),
    )
}

/// The sessions in figures, as text.
pub open spec fn session_stats_text(now: Option<SessionView>, past: Seq<SessionView>) -> Seq<char> {
    "## Session Stats\n"@ + current_text(now) + if past.len() > 0 {
        recent_head_text(past.len()) + written(past, |s: SessionView| recent_item(s))
    } else {
        "No past sessions recorded yet.\n"@
    }
}

pub open spec fn active_entry(s: SessionView) -> ActiveSessionView {
    ActiveSessionView {
        tool_calls: s.attempts.len() as usize,
        technologies: s.technologies,
        guides_used: s.guides_used,
    }
}

pub open spec fn recent_entry(s: SessionView) -> RecentSessionView {
    RecentSessionView {
        id: uuid_text(s.handle.0),
        tool_calls: s.attempts.len() as usize,
        technologies: s.technologies,
    }
}

/// What `session_stats` answers.
#[verifier::opaque]
pub open spec fn session_stats(r: RegistryView, env: IpcEnvelope, args: SessionStatsArgs) ->
    ToolResultView {
    let past = recent(r.sessions, args);
    formatted(
        session_stats_text(current(r, env), past),
        ToolDataView::SessionFigures {
            active: match current(r, env) {
                Some(s) => Some(active_entry(s)),
                None => None,
            },
            recent: past.map_values(|s: SessionView| recent_entry(s)),
        },
        args.response_format,
    )
}

fn find_recent(sessions: &Vec<Session>, args: &SessionStatsArgs) -> (r: Vec<Session>)
    ensures
        views(r@) == recent(views(sessions@), *args),
{
    let over = select(
        sessions,
        |s: &Session| -> (b: bool)
            ensures
                b == (s@.status is Ended)
            { matches!(s.status, SessionStatus::Ended) },
        Ghost(|s: SessionView| s.status is Ended),
    );
    let latest = rank(
        &over,
        |s: &Session| -> (k: (i128, u128))
            ensures
                k.0 == -s@.started_at.0 && k.1 == 0
            { (-(s.started_at.0 as i128), 0) },
        Ghost(|s: SessionView| (-(s.started_at.0 as int), 0int)),
    );
    let most: usize = match args.count {
        None => 5,
        Some(n) => if n < 5 {
            n
        } else {
            5
        },
    };
    take_first(&latest, most)
}

fn append_current(out: &mut String, c: &Session)
    ensures
        final(out)@ == old(out)@ + current_text(Some(c@)),
{
    proof {
        assert(views(c.technologies@).len() == c.technologies@.len());
        assert(views(c.guides_used@).len() == c.guides_used@.len());
        assert(views(c.attempts@).len() == c.attempts@.len());
    }
    let mut part = active_line(c.attempts.len());
    if c.technologies.len() > 0 {
        part.append(technologies_line(join(&c.technologies, ", ").as_str()).as_str());
    } else {
        part.append("");
    }
    if c.guides_used.len() > 0 {
        part.append(used_line(join(&c.guides_used, ", ").as_str()).as_str());
    } else {
        part.append("");
    }
    part.append("\n");
    out.append(part.as_str());
}

fn recent_string(s: &Session) -> (r: String)
    ensures
        r@ == recent_item(s@),
{
    proof {
        assert(views(s.technologies@).len() == s.technologies@.len());
        assert(views(s.attempts@).len() == s.attempts@.len());
    }
    let techs = if s.technologies.len() > 0 {
        techs_part(join(&s.technologies, ", ").as_str())
    } else {
        "".to_owned()
    };
    recent_line(uuid_to_text(s.handle.0).as_str(), s.attempts.len(), techs.as_str())
}

/// `session_stats`: the channel's session, and those that are over.
pub fn exec_session_stats(disp: &Dispatcher, envelope: &IpcEnvelope, args: &SessionStatsArgs) -> (r:
    ToolResult)
    requires
        disp@.wf(),
    ensures
        r@ == session_stats(disp@.registry, *envelope, *args),
{
    proof {
        reveal(session_stats);
    }
    let past = find_recent(&disp.registry.all_sessions_owned(), args);
    proof {
        assert(views(past@).len() == past@.len());
    }
    let now = match disp.registry.resolve_session(envelope.frontend_id, envelope.channel_id) {
        Some(h) => disp.registry.session(h),
        None => None,
    };
    let mut out = "## Session Stats\n".to_owned();
    let active = match now {
        Some(c) => {
            append_current(&mut out, c);
            proof {
                assert(views(c.attempts@).len() == c.attempts@.len());
            }
            Some(
                ActiveSession {
                    tool_calls: c.attempts.len(),
                    technologies: clone_all(&c.technologies),
                    guides_used: clone_all(&c.guides_used),
                },
            )
        },
        None => {
            out.append("");
            None
        },
    };
    if past.len() > 0 {
        let mut part = recent_head(past.len());
        append_each(
            &mut part,
            &past,
            |s: &Session| -> (t: String)
                ensures
                    t@ == recent_item(s@)
                { recent_string(s) },
            Ghost(|s: SessionView| recent_item(s)),
        );
        out.append(part.as_str());
    } else {
        out.append("No past sessions recorded yet.\n");
    }
    let entries: Vec<RecentSession> = mapped(
        &past,
        |s: &Session| -> (e: RecentSession)
            ensures
                e@ == recent_entry(s@)
            {
                proof {
                    assert(views(s.attempts@).len() == s.attempts@.len());
                }
                RecentSession {
                    id: uuid_to_text(s.handle.0),
                    tool_calls: s.attempts.len(),
                    technologies: clone_all(&s.technologies),
                }
            },
        Ghost(|s: SessionView| recent_entry(s)),
    );
    format_result(out, ToolData::SessionFigures { active, recent: entries }, args.response_format)
}

// ---------------------------------------------------------------------------
// suggestion_respond
// ---------------------------------------------------------------------------

/// How much an attempt gains or loses by a response: two hundredths.
pub const RESPONSE_STEP: i64 = 4_581_421_828_931_458_171;

/// A suggestion was accepted.
pub open spec fn accepted_text(id: nat) -> Seq<char> {
    "Accepted suggestion #"@ + dec(id) + ". It will no longer be surfaced; related promising attempts were reinforced."@
}

pub fn accepted(id: u64) -> (r: String)
    ensures
        r@ == accepted_text(id as nat),
{
    let mut out = "Accepted suggestion #".to_owned();
    out.append(decimal(id).as_str());
    out.append(". It will no longer be surfaced; related promising attempts were reinforced.");
    out
}

/// A suggestion was dismissed.
pub open spec fn dismissed_text(id: nat) -> Seq<char> {
    "Dismissed suggestion #"@ + dec(id) + ". It will no longer be surfaced; related dead ends were de-prioritized."@
}

pub fn dismissed(id: u64) -> (r: String)
    ensures
        r@ == dismissed_text(id as nat),
{
    let mut out = "Dismissed suggestion #".to_owned();
    out.append(decimal(id).as_str());
    out.append(". It will no longer be surfaced; related dead ends were de-prioritized.");
    out
}

/// The registry after an attempt was looked at and lost confidence.
pub open spec fn penalized(
    r: RegistryView,
    h: SessionHandle,
    seq: u32,
    delta: Score,
    now: u64,
) -> RegistryView {
    if has_session(r.sessions, h) {
        r.with_change(
            h,
            |s: SessionView|
                changed_attempt(
                    s,
                    seq,
                    |a: AttemptView| touched(a, a.confidence.down(delta), now),
                ),
        )
    } else {
        r
    }
}

/// The registry after the first `n` of a session's attempts were weighed: where
/// a suggestion was accepted, the promising ones gain; where it was dismissed,
/// the dead ends lose.
pub open spec fn weighed(
    r: RegistryView,
    h: SessionHandle,
    attempts: Seq<AttemptView>,
    accept: bool,
    now: u64,
    n: int,
) -> RegistryView
    decreases n,
{
    if n <= 0 {
        r
    } else {
        let rest = weighed(r, h, attempts, accept, now, n - 1);
        let a = attempts[n - 1];
        if accept && a.outcome is Promising {
            boosted(rest, h, a.seq, Score(RESPONSE_STEP), now)
        } else if !accept && !(a.outcome is Promising) {
            penalized(rest, h, a.seq, Score(RESPONSE_STEP), now)
        } else {
            rest
        }
    }
}

/// The session that a suggestion came from, if it is known.
pub open spec fn session_named(r: RegistryView, name: Option<Seq<char>>) -> Option<SessionHandle> {
    match name {
        Some(t) => match uuid_read(t) {
            Ok(u) => if has_session(r.sessions, SessionHandle(u)) {
                Some(SessionHandle(u))
            } else {
                None
            },
            Err(_) => None,
        },
        None => None,
    }
}

/// The registry after a response to a suggestion.
pub open spec fn after_response(
    r: RegistryView,
    session: Option<Seq<char>>,
    accept: bool,
    now: u64,
) -> RegistryView {
    match session_named(r, session) {
        Some(h) => {
            let attempts = session_of(r.sessions, h).attempts;
            weighed(r, h, attempts, accept, now, attempts.len() as int)
        },
        None => r,
    }
}

/// How many attempts a response may weigh.
pub open spec fn response_load(d: DispatcherView, id: u64) -> int {
    let i = suggestion_place(d.store.suggestions, id, 0);
    if i < d.store.suggestions.len() {
        match session_named(d.registry, d.store.suggestions[i].session_id) {
            Some(h) => session_of(d.registry.sessions, h).attempts.len() as int,
            None => 0,
        }
    } else {
        0
    }
}

/// What `suggestion_respond` does and answers.
#[verifier::opaque]
pub open spec fn suggestion_respond(d: DispatcherView, args: SuggestionRespondArgs) -> Effect {
    let action = lowercase(args.action@);
    let accept = action == "accept"@;
    let now = d.store.now;
    let i = suggestion_place(d.store.suggestions, args.id, 0);
    if !(accept || action == "dismiss"@) {
        (d, err_view("'action' must be one of: accept, dismiss."@))
    } else if i >= d.store.suggestions.len() {
        (d, err_view("Could not update this suggestion in the store."@))
    } else {
        let s = SuggestionView {
            status: if accept {
                SuggestionStatus::Accepted
            } else {
                SuggestionStatus::Dismissed
            },
            resolved_at: Some(Instant(now)),
            ..d.store.suggestions[i]
        };
        (
            DispatcherView {
                store: StateView {
                    suggestions: with_suggestion(d.store.suggestions, s),
                    ..d.store
                },
                registry: after_response(d.registry, s.session_id, accept, now),
                ..d
            },
            ok_view(
                if accept {
                    accepted_text(args.id as nat)
                } else {
                    dismissed_text(args.id as nat)
                },
                ToolDataView::SuggestionResolved { id: args.id },
            ),
        )
    }
}

fn weigh(reg: &mut FrontendRegistry, h: SessionHandle, attempts: &Vec<Attempt>, accept: bool, now: u64)
    requires
        old(reg)@.wf(),
        old(reg)@.room(attempts@.len() as int),
    ensures
        final(reg)@.wf(),
        final(reg)@ == weighed(
            old(reg)@,
            h,
            views(attempts@),
            accept,
            now,
            attempts@.len() as int,
        ),
{
    let ghost start = reg@;
    let ghost xs = views(attempts@);
    let mut i: usize = 0;
    while i < attempts.len()
        invariant
            i <= attempts@.len(),
            xs == views(attempts@),
            reg@.wf(),
            reg@.room(attempts@.len() - i),
            reg@ == weighed(start, h, xs, accept, now, i as int),
        decreases attempts@.len() - i,
    {
        let seq: u32 = attempts[i].seq;
        proof {
            assert(xs[i as int] == attempts@[i as int]@);
            lemma_registry_room_mono(reg@, 1, attempts@.len() - i);
            lemma_registry_room_mono(reg@, attempts@.len() - i - 1, attempts@.len() - i);
            lemma_touched_room(
                reg@,
                h,
                seq,
                |a: AttemptView| touched(a, a.confidence.up(Score(RESPONSE_STEP)), now),
                attempts@.len() - i - 1,
            );
            lemma_touched_room(
                reg@,
                h,
                seq,
                |a: AttemptView| touched(a, a.confidence.down(Score(RESPONSE_STEP)), now),
                attempts@.len() - i - 1,
            );
        }
        let promising = matches!(attempts[i].outcome, AttemptOutcome::Promising);
        if accept && promising {
            reg.boost_attempt(h, seq, Score(RESPONSE_STEP), now);
        } else if !accept && !promising {
            reg.penalize_attempt(h, seq, Score(RESPONSE_STEP), now);
        }
        i += 1;
    }
}

fn respond(reg: &mut FrontendRegistry, session: &Option<String>, accept: bool, now: u64)
    requires
        old(reg)@.wf(),
        old(reg)@.room(
            match session_named(old(reg)@, opt_view(*session)) {
                Some(h) => session_of(old(reg)@.sessions, h).attempts.len() as int,
                None => 0,
            },
        ),
    ensures
        final(reg)@.wf(),
        final(reg)@ == after_response(old(reg)@, opt_view(*session), accept, now),
{
    let text = match session {
        Some(t) => t,
        None => return ,
    };
    let h = match uuid_from_text(text.as_str()) {
        Ok(u) => SessionHandle::new(u),
        Err(_) => return ,
    };
    let attempts = match reg.session(h) {
        Some(s) => {
            proof {
                assert(views(s.attempts@).len() == s.attempts@.len());
            }
            clone_all(&s.attempts)
        },
        None => return ,
    };
    proof {
        assert(views(attempts@).len() == attempts@.len());
    }
    weigh(reg, h, &attempts, accept, now);
}

/// `suggestion_respond`: a suggestion is accepted or dismissed, and the attempts
/// of its session are weighed by that.
pub fn exec_suggestion_respond(disp: &mut Dispatcher, args: &SuggestionRespondArgs) -> (r: ToolResult)
    requires
        old(disp)@.wf(),
        old(disp)@.registry.room(response_load(old(disp)@, args.id)),
    ensures
        final(disp)@.wf(),
        (final(disp)@, r@) == suggestion_respond(old(disp)@, *args),
{
    proof {
        reveal(suggestion_respond);
    }
    let action = lower(args.action.as_str());
    let accept = same(action.as_str(), "accept");
    if !accept && !same(action.as_str(), "dismiss") {
        return err_result("'action' must be one of: accept, dismiss.");
    }
    let now: u64 = disp.repo.now_millis();
    let mut s = match disp.repo.get_suggestion(args.id) {
        Some(s) => s,
        None => return err_result("Could not update this suggestion in the store."),
    };
    s.status = if accept {
        SuggestionStatus::Accepted
    } else {
        SuggestionStatus::Dismissed
    };
    s.resolved_at = Some(Instant::new(now));
    disp.repo.put_suggestion(&s);
    respond(&mut disp.registry, &s.session_id, accept, now);
    let text = if accept {
        accepted(args.id)
    } else {
        dismissed(args.id)
    };
    ok_result(text, ToolData::SuggestionResolved { id: args.id })
}

} // verus!
