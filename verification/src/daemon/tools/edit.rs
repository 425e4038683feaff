//! The tools that change memories: `memory_update`, `memory_feedback`,
//! `memory_forget`, `memory_merge` and `memory_relate`.

use crate::canonical::laws::{lemma_relate_room, lemma_room_mono, lemma_stored_room};
use crate::canonical::repository::{
    by_id, found, legacy_id, legacy_name, looked_up, resolved,
};
use crate::compatibility::lemma::tool_args::{
    MemoryFeedbackArgs, MemoryForgetArgs, MemoryMergeArgs, MemoryRelateArgs, MemoryUpdateArgs,
};
use crate::daemon::dispatcher::{Dispatcher, DispatcherView};
use crate::daemon::envelope::{IpcEnvelope, ToolResult};
use crate::daemon::tools::add::{alike, is_alike};
use crate::daemon::tools::common::{
    answer, description_from, err_result, err_view, fresh_memory, generate_description, issue,
    issued, make_memory, new_edge, new_legacy_id, new_name, new_relation, not_found, not_found_text,
    ok_result, ok_view, project_from, project_of, scope_string, scope_text, Outcome,
};
use crate::daemon::tools::data::{ToolData, ToolDataView};
use crate::daemon::tools::detail::part_if;
use crate::daemon::tools::read::{ids_of, named};
use crate::domain::command::{
    refusal, DomainCommand, DomainCommandView, DomainError, DomainErrorCode, DomainResult,
    ForgetMode, MemoryPatch, MemoryPatchView,
};
use crate::domain::id::EntityId;
use crate::domain::memory::{clone_ids, Memory, MemoryView};
use crate::domain::relation::RelationType;
use crate::domain::score::{Score, UNIT};
use crate::domain::state::{has_memory, is_edge, memory_of, StateView};
use crate::figures::{score_string, score_text};
use crate::lists::{find, first_place};
use crate::rank::lemma_filter_step;
use crate::text::{clone_all, dec, decimal, join, joined, opt_view, views};
use vstd::prelude::*;

verus! {

// ---------------------------------------------------------------------------
// memory_update
// ---------------------------------------------------------------------------

/// Another memory says the same.
pub open spec fn like_it_text(sid: Seq<char>, title: Seq<char>) -> Seq<char> {
    "Similar fragment already exists: ["@ + sid + "] \""@ + title + "\". Use a different content or update the existing one."@
}

pub fn like_it(sid: &str, title: &str) -> (r: String)
    ensures
        r@ == like_it_text(sid@, title@),
{
    let mut out = "Similar fragment already exists: [".to_owned();
    out.append(sid);
    out.append("] \"");
    out.append(title);
    out.append("\". Use a different content or update the existing one.");
    out
}

/// What was changed.
pub open spec fn updated_text(id: Seq<char>, title: Seq<char>) -> Seq<char> {
    "Updated fragment ["@ + id + "]: \""@ + title + "\""@
}

pub fn updated(id: &str, title: &str) -> (r: String)
    ensures
        r@ == updated_text(id@, title@),
{
    let mut out = "Updated fragment [".to_owned();
    out.append(id);
    out.append("]: \"");
    out.append(title);
    out.append("\"");
    out
}

/// The patch of an update.
pub open spec fn update_patch(args: MemoryUpdateArgs) -> MemoryPatchView {
    MemoryPatchView {
        title: opt_view(args.title),
        fragment: opt_view(args.fragment),
        confidence: args.confidence,
        ..MemoryPatchView::empty()
    }
}

/// Whether another live memory says the same.
pub open spec fn says_the_same(m: MemoryView, id: EntityId, fragment: Seq<char>) -> bool {
    m.id != id && m.lifecycle is Live && alike(fragment, m.fragment)
}

/// Where the first other memory that says the same is.
pub open spec fn rival_place(s: StateView, id: EntityId, fragment: Option<Seq<char>>) -> int {
    let all = by_id(s.memories);
    match fragment {
        Some(f) => first_place(all, |m: MemoryView| says_the_same(m, id, f), 0),
        None => all.len() as int,
    }
}

/// What `memory_update` answers.
#[verifier::opaque]
pub open spec fn memory_update(d: DispatcherView, env: IpcEnvelope, args: MemoryUpdateArgs) ->
    Outcome {
    match looked_up(d.store, args.id@) {
        None => (d, Ok(err_view(not_found_text(args.id@)))),
        Some(m) => {
            let all = by_id(d.store.memories);
            let i = rival_place(d.store, m.id, opt_view(args.fragment));
            if args.confidence is Some && !(0 <= (args.confidence->0).0 <= UNIT) {
                (d, Ok(err_view("'confidence' must be a number between 0 and 1"@)))
            } else if i < all.len() {
                (d, Ok(err_view(like_it_text(legacy_name(all[i]), all[i].title))))
            } else {
                let (after, r) = issued(
                    d,
                    env,
                    0,
                    DomainCommandView::UpdateMemory {
                        id: m.id,
                        expected_revision: None,
                        patch: update_patch(args),
                    },
                );
                match r {
                    Err(e) => (after, Err(e)),
                    Ok(_) => (
                        after,
                        Ok(
                            ok_view(
                                updated_text(
                                    args.id@,
                                    match args.title {
                                        Some(t) => t@,
                                        None => m.title,
                                    },
                                ) + part_if(
                                    args.fragment is Some,
                                    "\nOrphan relations cleaned up after content change."@,
                                ),
                                ToolDataView::Changed { id: args.id@ },
                            ),
                        ),
                    ),
                }
            }
        },
    }
}

/// `memory_update`: a new title, text or confidence for a memory. A text that
/// another live memory holds already is refused.
pub fn exec_memory_update(disp: &mut Dispatcher, envelope: &IpcEnvelope, args: &MemoryUpdateArgs) -> (
r: DomainResult<ToolResult>)
    requires
        old(disp)@.wf(),
        old(disp)@.store.room(1),
    ensures
        final(disp)@.wf(),
        (final(disp)@, answer(r)) == memory_update(old(disp)@, *envelope, *args),
{
    proof {
        reveal(memory_update);
    }
    let m = match disp.repo.look_up(args.id.as_str()) {
        Some(m) => m,
        None => return Ok(err_result(not_found(args.id.as_str()).as_str())),
    };
    if let Some(c) = args.confidence {
        if c.0 < 0 || c.0 > UNIT {
            return Ok(err_result("'confidence' must be a number between 0 and 1"));
        }
    }
    if let Some(fragment) = &args.fragment {
        let all = disp.repo.all_memories();
        let id = m.id;
        proof {
            assert(views(all@).len() == all@.len());
        }
        let place = find(
            &all,
            |x: &Memory| -> (b: bool)
                ensures
                    b == says_the_same(x@, id, fragment@)
                {
                    x.id != id && x.lifecycle.is_recallable() && is_alike(
                        fragment.as_str(),
                        x.fragment.as_str(),
                    )
                },
            Ghost(|x: MemoryView| says_the_same(x, id, fragment@)),
        );
        if let Some(i) = place {
            return Ok(
                err_result(
                    like_it(legacy_id(&all[i]).as_str(), all[i].title.as_str()).as_str(),
                ),
            );
        }
    }
    let mut patch = MemoryPatch::default();
    patch.title = args.title.clone();
    patch.fragment = args.fragment.clone();
    patch.confidence = args.confidence;
    proof {
        assert(patch@ =~= update_patch(*args));
    }
    let cmd = DomainCommand::UpdateMemory { id: m.id, expected_revision: None, patch };
    if let Err(e) = issue(disp, envelope, 0, &cmd) {
        return Err(e);
    }
    let title = match &args.title {
        Some(t) => t.clone(),
        None => m.title.clone(),
    };
    let mut text = updated(args.id.as_str(), title.as_str());
    if args.fragment.is_some() {
        text.append("\nOrphan relations cleaned up after content change.");
    } else {
        text.append("");
    }
    Ok(ok_result(text, ToolData::Changed { id: args.id.clone() }))
}

// ---------------------------------------------------------------------------
// memory_feedback
// ---------------------------------------------------------------------------

/// A memory was useful.
pub open spec fn praised_text(id: Seq<char>, c: Seq<char>) -> Seq<char> {
    "Positive feedback recorded for ["@ + id + "]. Confidence boosted to "@ + c + "."@
}

pub fn praised(id: &str, c: &str) -> (r: String)
    ensures
        r@ == praised_text(id@, c@),
{
    let mut out = "Positive feedback recorded for [".to_owned();
    out.append(id);
    out.append("]. Confidence boosted to ");
    out.append(c);
    out.append(".");
    out
}

/// A memory was of no use.
pub open spec fn blamed_text(id: Seq<char>, c: Seq<char>) -> Seq<char> {
    "Negative feedback recorded for ["@ + id + "]. Confidence reduced to "@ + c + "."@
}

pub fn blamed(id: &str, c: &str) -> (r: String)
    ensures
        r@ == blamed_text(id@, c@),
{
    let mut out = "Negative feedback recorded for [".to_owned();
    out.append(id);
    out.append("]. Confidence reduced to ");
    out.append(c);
    out.append(".");
    out
}

/// What `memory_feedback` answers.
#[verifier::opaque]
pub open spec fn memory_feedback(d: DispatcherView, env: IpcEnvelope, args: MemoryFeedbackArgs) ->
    Outcome {
    match looked_up(d.store, args.id@) {
        None => (d, Ok(err_view(not_found_text(args.id@)))),
        Some(m) => {
            let (after, r) = issued(
                d,
                env,
                0,
                DomainCommandView::Feedback { memory_id: m.id, useful: args.useful },
            );
            match r {
                Err(e) => (after, Err(e)),
                Ok(_) => {
                    let c = memory_of(after.store.memories, m.id).confidence;
                    (
                        after,
                        Ok(
                            ok_view(
                                if args.useful {
                                    praised_text(args.id@, score_text(c))
                                } else {
                                    blamed_text(args.id@, score_text(c))
                                },
                                ToolDataView::Judged { id: args.id@, confidence: c },
                            ),
                        ),
                    )
                },
            }
        },
    }
}

/// `memory_feedback`: a memory was useful, or it was not.
pub fn exec_memory_feedback(
    disp: &mut Dispatcher,
    envelope: &IpcEnvelope,
    args: &MemoryFeedbackArgs,
) -> (r: DomainResult<ToolResult>)
    requires
        old(disp)@.wf(),
        old(disp)@.store.room(1),
    ensures
        final(disp)@.wf(),
        (final(disp)@, answer(r)) == memory_feedback(old(disp)@, *envelope, *args),
{
    proof {
        reveal(memory_feedback);
    }
    let m = match disp.repo.look_up(args.id.as_str()) {
        Some(m) => m,
        None => return Ok(err_result(not_found(args.id.as_str()).as_str())),
    };
    let cmd = DomainCommand::Feedback { memory_id: m.id, useful: args.useful };
    proof {
        lemma_stored_room(disp@.store, envelope.sub_context(0), cmd@, 0);
    }
    if let Err(e) = issue(disp, envelope, 0, &cmd) {
        return Err(e);
    }
    let confidence: Score = match disp.repo.memory(m.id) {
        Some(x) => x.confidence,
        None => m.confidence,
    };
    let c = score_string(confidence);
    let text = if args.useful {
        praised(args.id.as_str(), c.as_str())
    } else {
        blamed(args.id.as_str(), c.as_str())
    };
    Ok(ok_result(text, ToolData::Judged { id: args.id.clone(), confidence }))
}

// ---------------------------------------------------------------------------
// memory_forget
// ---------------------------------------------------------------------------

/// A memory was taken out of recall.
pub open spec fn hidden_text(id: Seq<char>) -> Seq<char> {
    "Invalidated fragment ["@ + id + "] — hidden from recall but preserved (content + history kept). Reversible."@
}

pub fn hidden(id: &str) -> (r: String)
    ensures
        r@ == hidden_text(id@),
{
    let mut out = "Invalidated fragment [".to_owned();
    out.append(id);
    out.append("] — hidden from recall but preserved (content + history kept). Reversible.");
    out
}

/// A memory counts for little.
pub open spec fn lowered_text(id: Seq<char>) -> Seq<char> {
    "Archived fragment ["@ + id + "] — down-weighted to 0.05 (kept and reversible), not deleted. Pass consolidate=false to hard-delete."@
}

pub fn lowered(id: &str) -> (r: String)
    ensures
        r@ == lowered_text(id@),
{
    let mut out = "Archived fragment [".to_owned();
    out.append(id);
    out.append("] — down-weighted to 0.05 (kept and reversible), not deleted. Pass consolidate=false to hard-delete.");
    out
}

/// A memory is gone.
pub open spec fn removed_text(id: Seq<char>) -> Seq<char> {
    "Forgot fragment with ID: "@ + id
}

pub fn removed(id: &str) -> (r: String)
    ensures
        r@ == removed_text(id@),
{
    let mut out = "Forgot fragment with ID: ".to_owned();
    out.append(id);
    out
}

/// The confidence of a memory that was put aside: five hundredths.
pub const ASIDE: i64 = 4_587_366_580_439_587_226;

/// The command that forgets a memory.
pub open spec fn forget_command(args: MemoryForgetArgs, id: EntityId) -> DomainCommandView {
    if args.invalidate {
        DomainCommandView::Forget { id, mode: ForgetMode::Invalidate }
    } else if args.consolidate {
        DomainCommandView::UpdateMemory {
            id,
            expected_revision: None,
            patch: MemoryPatchView { confidence: Some(Score(ASIDE)), ..MemoryPatchView::empty() },
        }
    } else {
        DomainCommandView::Forget { id, mode: ForgetMode::Delete }
    }
}

/// What is said of it.
pub open spec fn forget_text(args: MemoryForgetArgs) -> Seq<char> {
    if args.invalidate {
        hidden_text(args.id@)
    } else if args.consolidate {
        lowered_text(args.id@)
    } else {
        removed_text(args.id@)
    }
}

/// What `memory_forget` answers.
#[verifier::opaque]
pub open spec fn memory_forget(d: DispatcherView, env: IpcEnvelope, args: MemoryForgetArgs) ->
    Outcome {
    match looked_up(d.store, args.id@) {
        None => (d, Ok(err_view(not_found_text(args.id@)))),
        Some(m) => {
            let (after, r) = issued(d, env, 0, forget_command(args, m.id));
            match r {
                Err(e) => (after, Err(e)),
                Ok(_) => (
                    after,
                    Ok(ok_view(forget_text(args), ToolDataView::Changed { id: args.id@ })),
                ),
            }
        },
    }
}

/// `memory_forget`: hides a memory, puts it aside, or deletes it.
pub fn exec_memory_forget(disp: &mut Dispatcher, envelope: &IpcEnvelope, args: &MemoryForgetArgs) -> (
r: DomainResult<ToolResult>)
    requires
        old(disp)@.wf(),
        old(disp)@.store.room(1),
    ensures
        final(disp)@.wf(),
        (final(disp)@, answer(r)) == memory_forget(old(disp)@, *envelope, *args),
{
    proof {
        reveal(memory_forget);
    }
    let m = match disp.repo.look_up(args.id.as_str()) {
        Some(m) => m,
        None => return Ok(err_result(not_found(args.id.as_str()).as_str())),
    };
    let cmd = if args.invalidate {
        DomainCommand::Forget { id: m.id, mode: ForgetMode::Invalidate }
    } else if args.consolidate {
        let mut patch = MemoryPatch::default();
        patch.confidence = Some(Score(ASIDE));
        DomainCommand::UpdateMemory { id: m.id, expected_revision: None, patch }
    } else {
        DomainCommand::Forget { id: m.id, mode: ForgetMode::Delete }
    };
    proof {
        assert(cmd@ == forget_command(*args, m.id));
    }
    if let Err(e) = issue(disp, envelope, 0, &cmd) {
        return Err(e);
    }
    let text = if args.invalidate {
        hidden(args.id.as_str())
    } else if args.consolidate {
        lowered(args.id.as_str())
    } else {
        removed(args.id.as_str())
    };
    Ok(ok_result(text, ToolData::Changed { id: args.id.clone() }))
}

// ---------------------------------------------------------------------------
// memory_merge
// ---------------------------------------------------------------------------

/// Some memories are not there.
pub open spec fn none_of_text(ids: Seq<char>) -> Seq<char> {
    "Fragment(s) not found: "@ + ids
}

pub fn none_of(ids: &str) -> (r: String)
    ensures
        r@ == none_of_text(ids@),
{
    let mut out = "Fragment(s) not found: ".to_owned();
    out.append(ids);
    out
}

/// Memories were put together, and the old ones are kept.
pub open spec fn consolidated_text(
    n: nat,
    id: Seq<char>,
    scope: Seq<char>,
    title: Seq<char>,
    ids: Seq<char>,
) -> Seq<char> {
    "Consolidated "@ + dec(n) + " fragments into ["@ + id + "]"@ + scope + ": \""@ + title + "\"\nSuperseded (kept, down-weighted, reversible) IDs: "@ + ids
}

pub fn consolidated(n: usize, id: &str, scope: &str, title: &str, ids: &str) -> (r: String)
    ensures
        r@ == consolidated_text(n as nat, id@, scope@, title@, ids@),
{
    let mut out = "Consolidated ".to_owned();
    out.append(decimal(n as u64).as_str());
    out.append(" fragments into [");
    out.append(id);
    out.append("]");
    out.append(scope);
    out.append(": \"");
    out.append(title);
    out.append("\"\nSuperseded (kept, down-weighted, reversible) IDs: ");
    out.append(ids);
    out
}

/// Memories were put together.
pub open spec fn merged_text(
    n: nat,
    id: Seq<char>,
    scope: Seq<char>,
    title: Seq<char>,
    ids: Seq<char>,
) -> Seq<char> {
    "Merged "@ + dec(n) + " fragments into ["@ + id + "]"@ + scope + ": \""@ + title + "\"\nRemoved IDs: "@ + ids
}

pub fn merged(n: usize, id: &str, scope: &str, title: &str, ids: &str) -> (r: String)
    ensures
        r@ == merged_text(n as nat, id@, scope@, title@, ids@),
{
    let mut out = "Merged ".to_owned();
    out.append(decimal(n as u64).as_str());
    out.append(" fragments into [");
    out.append(id);
    out.append("]");
    out.append(scope);
    out.append(": \"");
    out.append(title);
    out.append("\"\nRemoved IDs: ");
    out.append(ids);
    out
}

/// The names that stand for no memory.
pub open spec fn missing(s: StateView, names: Seq<Seq<char>>) -> Seq<Seq<char>> {
    names.filter(|n: Seq<char>| looked_up(s, n) is None)
}

/// The memory that takes the place of others.
pub open spec fn merged_memory(env: IpcEnvelope, args: MemoryMergeArgs, now: u64) -> MemoryView {
    fresh_memory(
        env.operation_id,
        args.title@,
        args.fragment@,
        description_from(args.fragment@),
        project_of(opt_view(args.project)),
        now,
    )
}

/// The state after the first `n` of the sources were marked as superseded, as
/// far as the store allows it.
pub open spec fn superseding(
    d: DispatcherView,
    env: IpcEnvelope,
    id: EntityId,
    sources: Seq<MemoryView>,
    n: int,
) -> DispatcherView
    decreases n,
{
    if n <= 0 {
        d
    } else {
        issued(
            superseding(d, env, id, sources, n - 1),
            env,
            n as nat,
            DomainCommandView::Relate {
                relation: new_edge(
                    env.operation_id,
                    id,
                    sources[n - 1].id,
                    RelationType::Supersedes,
                    Some("consolidated"@),
                ),
            },
        ).0
    }
}

/// What is said of memories that were put together.
pub open spec fn merge_text(env: IpcEnvelope, args: MemoryMergeArgs) -> Seq<char> {
    let scope = scope_text(project_of(opt_view(args.project)));
    let ids = joined(views(args.ids@), ", "@);
    if args.consolidate {
        consolidated_text(args.ids@.len(), new_name(env.operation_id), scope, args.title@, ids)
    } else {
        merged_text(args.ids@.len(), new_name(env.operation_id), scope, args.title@, ids)
    }
}

/// What comes of merging memories that are all there.
pub open spec fn merge_named(d: DispatcherView, env: IpcEnvelope, args: MemoryMergeArgs) -> Outcome {
    let ids = ids_of(named(d.store, views(args.ids@)));
    let result = merged_memory(env, args, d.store.now);
    let (after, r) = issued(
        d,
        env,
        0,
        DomainCommandView::Merge { source_ids: ids, result },
    );
    match r {
        Err(e) => (after, Err(e)),
        Ok(_) => {
            let sources = found(after.store.memories, ids);
            (
                if args.consolidate {
                    superseding(after, env, result.id, sources, sources.len() as int)
                } else {
                    after
                },
                Ok(
                    ok_view(
                        merge_text(env, args),
                        ToolDataView::Merged {
                            id: new_name(env.operation_id),
                            merged_ids: views(args.ids@),
                        },
                    ),
                ),
            )
        },
    }
}

/// What `memory_merge` answers.
#[verifier::opaque]
pub open spec fn memory_merge(d: DispatcherView, env: IpcEnvelope, args: MemoryMergeArgs) -> Outcome {
    let gone = missing(d.store, views(args.ids@));
    if args.ids@.len() < 2 {
        (d, Ok(err_view("'ids' must be an array with at least 2 fragment IDs"@)))
    } else if gone.len() > 0 {
        (d, Ok(err_view(none_of_text(joined(gone, ", "@)))))
    } else {
        merge_named(d, env, args)
    }
}

fn supersede(disp: &mut Dispatcher, envelope: &IpcEnvelope, id: EntityId, sources: &Vec<Memory>)
    requires
        old(disp)@.wf(),
        old(disp)@.store.room(1),
        sources@.len() < u32::MAX,
    ensures
        final(disp)@.wf(),
        final(disp)@ == superseding(
            old(disp)@,
            *envelope,
            id,
            views(sources@),
            sources@.len() as int,
        ),
{
    let ghost d = disp@;
    let ghost vs = views(sources@);
    let mut i: usize = 0;
    while i < sources.len()
        invariant
            i <= sources@.len() < u32::MAX,
            vs == views(sources@),
            disp@.wf(),
            disp@.store.room(1),
            disp@ == superseding(d, *envelope, id, vs, i as int),
        decreases sources@.len() - i,
    {
        proof {
            assert(vs[i as int] == sources@[i as int]@);
        }
        let relation = new_relation(
            envelope,
            id,
            sources[i].id,
            RelationType::Supersedes,
            Some("consolidated".to_owned()),
        );
        proof {
            lemma_relate_room(disp@.store, envelope.sub_context((i + 1) as nat), relation@, 1);
        }
        let n: u32 = i as u32 + 1;
        let _ = issue(disp, envelope, n, &DomainCommand::Relate { relation });
        i += 1;
    }
}

fn exec_merge_named(
    disp: &mut Dispatcher,
    envelope: &IpcEnvelope,
    args: &MemoryMergeArgs,
    ids: &Vec<EntityId>,
) -> (r: DomainResult<ToolResult>)
    requires
        old(disp)@.wf(),
        ids@ == ids_of(named(old(disp)@.store, views(args.ids@))),
        ids@.len() < u32::MAX,
        old(disp)@.store.room(ids@.len() as int + 2),
    ensures
        final(disp)@.wf(),
        (final(disp)@, answer(r)) == merge_named(old(disp)@, *envelope, *args),
{
    let result = make_memory(
        envelope,
        args.title.clone(),
        args.fragment.clone(),
        generate_description(args.fragment.as_str()),
        project_from(&args.project),
        disp.repo.now_millis(),
    );
    let id = result.id;
    let cmd = DomainCommand::Merge { source_ids: clone_ids(ids), result };
    proof {
        assert(cmd@.weight() == ids@.len() + 1);
        lemma_room_mono(disp@.store, cmd@.weight(), ids@.len() as int + 2);
        lemma_stored_room(disp@.store, envelope.sub_context(0), cmd@, 1);
    }
    if let Err(e) = issue(disp, envelope, 0, &cmd) {
        return Err(e);
    }
    if args.consolidate {
        let sources = disp.repo.get_memories(ids);
        proof {
            lemma_found_len(disp@.store.memories, ids@);
            assert(views(sources@).len() == sources@.len());
        }
        supersede(disp, envelope, id, &sources);
    }
    let scope = scope_string(&project_from(&args.project));
    let list = join(&args.ids, ", ");
    let name = new_legacy_id(envelope);
    let text = if args.consolidate {
        consolidated(
            args.ids.len(),
            name.as_str(),
            scope.as_str(),
            args.title.as_str(),
            list.as_str(),
        )
    } else {
        merged(
            args.ids.len(),
            name.as_str(),
            scope.as_str(),
            args.title.as_str(),
            list.as_str(),
        )
    };
    Ok(ok_result(text, ToolData::Merged { id: name, merged_ids: clone_all(&args.ids) }))
}

proof fn lemma_found_len(ms: Seq<MemoryView>, ids: Seq<EntityId>)
    ensures
        found(ms, ids).len() <= ids.len(),
    decreases ids.len(),
{
    if ids.len() > 0 {
        lemma_found_len(ms, ids.drop_last());
    }
}

/// `memory_merge`: one memory takes the place of several.
pub fn exec_memory_merge(disp: &mut Dispatcher, envelope: &IpcEnvelope, args: &MemoryMergeArgs) -> (r:
    DomainResult<ToolResult>)
    requires
        old(disp)@.wf(),
        args.ids@.len() < u32::MAX,
        old(disp)@.store.room(args.ids@.len() as int + 2),
    ensures
        final(disp)@.wf(),
        (final(disp)@, answer(r)) == memory_merge(old(disp)@, *envelope, *args),
{
    proof {
        reveal(memory_merge);
    }
    if args.ids.len() < 2 {
        return Ok(err_result("'ids' must be an array with at least 2 fragment IDs"));
    }
    let ghost s = disp@.store;
    let ghost ns = views(args.ids@);
    let ghost lost = |n: Seq<char>| looked_up(s, n) is None;
    let mut ids: Vec<EntityId> = Vec::new();
    let mut gone: Vec<String> = Vec::new();
    let mut i: usize = 0;
    proof {
        assert(ns.take(0) =~= Seq::empty());
        reveal(Seq::filter);
        assert(views(gone@) =~= Seq::empty());
        assert(ids@ =~= ids_of(named(s, ns.take(0))));
    }
    while i < args.ids.len()
        invariant
            i <= args.ids@.len(),
            ns == views(args.ids@),
            disp@ == old(disp)@,
            s == disp@.store,
            s.wf(),
            lost == (|n: Seq<char>| looked_up(s, n) is None),
            ids@.len() <= i,
            ids@ == ids_of(named(s, ns.take(i as int))),
            views(gone@) == ns.take(i as int).filter(lost),
        decreases args.ids@.len() - i,
    {
        broadcast use crate::text::lemma_views_push;

        proof {
            let t = ns.take(i + 1);
            assert(t.drop_last() =~= ns.take(i as int));
            assert(t.last() == args.ids@[i as int]@);
            assert(ns[i as int] == args.ids@[i as int]@);
            lemma_filter_step(ns, i as int, lost);
        }
        match disp.repo.look_up(args.ids[i].as_str()) {
            Some(m) => {
                proof {
                    let before = named(s, ns.take(i as int));
                    assert(ids_of(before.push(m@)) =~= ids_of(before).push(m@.id));
                }
                ids.push(m.id);
            },
            None => {
                gone.push(args.ids[i].clone());
            },
        }
        i += 1;
    }
    proof {
        assert(ns.take(ns.len() as int) =~= ns);
        assert(views(gone@).len() == gone@.len());
        assert(missing(s, ns) == ns.filter(lost));
    }
    if gone.len() > 0 {
        return Ok(err_result(none_of(join(&gone, ", ").as_str()).as_str()));
    }
    proof {
        lemma_room_mono(s, ids@.len() as int + 2, args.ids@.len() as int + 2);
    }
    exec_merge_named(disp, envelope, args, &ids)
}

// ---------------------------------------------------------------------------
// memory_relate
// ---------------------------------------------------------------------------

/// The edge has no start.
pub open spec fn no_source_text(id: Seq<char>) -> Seq<char> {
    "Source fragment ["@ + id + "] not found"@
}

pub fn no_source(id: &str) -> (r: String)
    ensures
        r@ == no_source_text(id@),
{
    let mut out = "Source fragment [".to_owned();
    out.append(id);
    out.append("] not found");
    out
}

/// The edge has no end.
pub open spec fn no_target_text(id: Seq<char>) -> Seq<char> {
    "Target fragment ["@ + id + "] not found"@
}

pub fn no_target(id: &str) -> (r: String)
    ensures
        r@ == no_target_text(id@),
{
    let mut out = "Target fragment [".to_owned();
    out.append(id);
    out.append("] not found");
    out
}

/// The edge is there.
pub open spec fn related_before_text(source: Seq<char>, target: Seq<char>, kind: Seq<char>) -> Seq<char> {
    "Relation already exists between ["@ + source + "] and ["@ + target + "] with type '"@ + kind + "'"@
}

pub fn related_before(source: &str, target: &str, kind: &str) -> (r: String)
    ensures
        r@ == related_before_text(source@, target@, kind@),
{
    let mut out = "Relation already exists between [".to_owned();
    out.append(source);
    out.append("] and [");
    out.append(target);
    out.append("] with type '");
    out.append(kind);
    out.append("'");
    out
}

/// The edge that was drawn.
pub open spec fn related_text(source: Seq<char>, kind: Seq<char>, target: Seq<char>, note: Seq<char>) -> Seq<char> {
    "Created relation: ["@ + source + "] --"@ + kind + "--> ["@ + target + "]"@ + note
}

pub fn related(source: &str, kind: &str, target: &str, note: &str) -> (r: String)
    ensures
        r@ == related_text(source@, kind@, target@, note@),
{
    let mut out = "Created relation: [".to_owned();
    out.append(source);
    out.append("] --");
    out.append(kind);
    out.append("--> [");
    out.append(target);
    out.append("]");
    out.append(note);
    out
}

/// The note of an edge.
pub open spec fn note_part_text(note: Seq<char>) -> Seq<char> {
    " ("@ + note + ")"@
}

pub fn note_part(note: &str) -> (r: String)
    ensures
        r@ == note_part_text(note@),
{
    let mut out = " (".to_owned();
    out.append(note);
    out.append(")");
    out
}

/// Whether there is an edge with these ends and this type.
pub open spec fn has_edge(
    s: StateView,
    source: EntityId,
    target: EntityId,
    rtype: RelationType,
) -> bool {
    exists|i: int|
        0 <= i < s.relations.len() && #[trigger] is_edge(s.relations[i], source, target, rtype)
}

/// Why an edge is not drawn between two names.
pub open spec fn relate_fault(s: StateView, args: MemoryRelateArgs, rtype: RelationType) -> Option<
    Seq<char>,
> {
    let source = resolved(s, args.source_id@);
    let target = resolved(s, args.target_id@);
    if source is None {
        Some(no_source_text(args.source_id@))
    } else if target is None {
        Some(no_target_text(args.target_id@))
    } else if source == target {
        Some("sourceId and targetId cannot be the same"@)
    } else if !has_memory(s.memories, source->0) {
        Some(no_source_text(args.source_id@))
    } else if !has_memory(s.memories, target->0) {
        Some(no_target_text(args.target_id@))
    } else if has_edge(s, source->0, target->0, rtype) {
        Some(related_before_text(args.source_id@, args.target_id@, args.relation_type@))
    } else {
        None
    }
}

/// What `memory_relate` answers.
#[verifier::opaque]
pub open spec fn memory_relate(d: DispatcherView, env: IpcEnvelope, args: MemoryRelateArgs) ->
    Outcome {
    match RelationType::named(args.relation_type@) {
        None => (
            d,
            Err(
                refusal(
                    DomainErrorCode::Validation,
                    "'type' must be one of: contradicts, supersedes, supports, related_to"@,
                ),
            ),
        ),
        Some(rtype) => match relate_fault(d.store, args, rtype) {
            Some(fault) => (d, Ok(err_view(fault))),
            None => {
                let (after, r) = issued(
                    d,
                    env,
                    0,
                    DomainCommandView::Relate {
                        relation: new_edge(
                            env.operation_id,
                            resolved(d.store, args.source_id@)->0,
                            resolved(d.store, args.target_id@)->0,
                            rtype,
                            opt_view(args.note),
                        ),
                    },
                );
                match r {
                    Err(e) => (after, Err(e)),
                    Ok(_) => (
                        after,
                        Ok(
                            ok_view(
                                related_text(
                                    args.source_id@,
                                    args.relation_type@,
                                    args.target_id@,
                                    match args.note {
                                        Some(n) => note_part_text(n@),
                                        None => ""@,
                                    },
                                ),
                                ToolDataView::Related { relation: args.relation_type@ },
                            ),
                        ),
                    ),
                }
            },
        },
    }
}

fn fault_of(disp: &Dispatcher, args: &MemoryRelateArgs, rtype: RelationType) -> (r: Result<
    (EntityId, EntityId),
    String,
>)
    requires
        disp@.wf(),
    ensures
        match r {
            Ok(ends) => relate_fault(disp@.store, *args, rtype) is None && resolved(
                disp@.store,
                args.source_id@,
            ) == Some(ends.0) && resolved(disp@.store, args.target_id@) == Some(ends.1),
            Err(t) => relate_fault(disp@.store, *args, rtype) == Some(t@),
        },
{
    let source = match disp.repo.resolve_id(args.source_id.as_str()) {
        Ok(id) => id,
        Err(_) => return Err(no_source(args.source_id.as_str())),
    };
    let target = match disp.repo.resolve_id(args.target_id.as_str()) {
        Ok(id) => id,
        Err(_) => return Err(no_target(args.target_id.as_str())),
    };
    if source == target {
        return Err("sourceId and targetId cannot be the same".to_owned());
    }
    if disp.repo.memory(source).is_none() {
        return Err(no_source(args.source_id.as_str()));
    }
    if disp.repo.memory(target).is_none() {
        return Err(no_target(args.target_id.as_str()));
    }
    if disp.repo.relation_exists(source, target, rtype) {
        return Err(
            related_before(
                args.source_id.as_str(),
                args.target_id.as_str(),
                args.relation_type.as_str(),
            ),
        );
    }
    Ok((source, target))
}

/// `memory_relate`: draws an edge between two memories.
pub fn exec_memory_relate(disp: &mut Dispatcher, envelope: &IpcEnvelope, args: &MemoryRelateArgs) -> (
r: DomainResult<ToolResult>)
    requires
        old(disp)@.wf(),
        old(disp)@.store.room(1),
    ensures
        final(disp)@.wf(),
        (final(disp)@, answer(r)) == memory_relate(old(disp)@, *envelope, *args),
{
    proof {
        reveal(memory_relate);
    }
    let rtype = match RelationType::parse(args.relation_type.as_str()) {
        Some(t) => t,
        None => return Err(
            DomainError::new(
                DomainErrorCode::Validation,
                "'type' must be one of: contradicts, supersedes, supports, related_to",
            ),
        ),
    };
    let (source, target) = match fault_of(disp, args, rtype) {
        Ok(ends) => ends,
        Err(fault) => return Ok(err_result(fault.as_str())),
    };
    let relation = new_relation(envelope, source, target, rtype, args.note.clone());
    if let Err(e) = issue(disp, envelope, 0, &DomainCommand::Relate { relation }) {
        return Err(e);
    }
    let note = match &args.note {
        Some(n) => note_part(n.as_str()),
        None => "".to_owned(),
    };
    let text = related(
        args.source_id.as_str(),
        args.relation_type.as_str(),
        args.target_id.as_str(),
        note.as_str(),
    );
    Ok(ok_result(text, ToolData::Related { relation: args.relation_type.clone() }))
}

} // verus!
