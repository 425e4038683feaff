//! The tools for guides: `guide_get`, `guide_practice`, `guide_create`,
//! `guide_distill`, `guide_update`, `guide_forget` and `guide_merge`.

use crate::canonical::laws::memories_room;
use crate::canonical::repository::{
    guide_key, guide_of, key_of_guide, looked_up, with_guide, with_memory, without_key,
    CanonicalRepository,
};
use crate::compatibility::lemma::analytics::total_usage;
use crate::compatibility::lemma::tool_args::{
    GuideCreateArgs, GuideDistillArgs, GuideForgetArgs, GuideGetArgs, GuideMergeArgs,
    GuidePracticeArgs, GuideUpdateArgs,
};
use crate::daemon::dispatcher::{Dispatcher, DispatcherView};
use crate::daemon::envelope::{IpcEnvelope, ToolResult, ToolResultView};
use crate::daemon::registry::RegistryView;
use crate::daemon::tools::common::{
    err_result, err_view, format_result, formatted, ok_result, ok_view, text_or, text_or_else,
};
use crate::daemon::tools::data::{GuideEntry, ToolData, ToolDataView};
use crate::daemon::tools::detail::part_if;
use crate::daemon::tools::guide_text::{
    merge_guide_refs, create_guide, format_guide_detail, guide_detail, guide_entry, guide_json, has_folded,
    holds_folded, made_guide, tries, tries_of, trim_all, trimmed_all, with_keys,
};
use crate::daemon::tools::suggest::{
    format_guide_suggestions, suggest_guides, suggested, suggestions_text, GuideSuggestion,
    GuideSuggestionView,
};
use crate::domain::guide::{Guide, GuideView};
use crate::domain::id::EntityId;
use crate::domain::memory::{clone_ids, Instant, Memory, MemoryView};
use crate::domain::session::SessionView;
use crate::domain::state::{session_of, StateView};
use crate::double::{quotient, ratio};
use crate::figures::{ratio_string, ratio_text};
use crate::lists::{find, first, first_place, mapped, select, take_first, texts};
use crate::rank::lemma_filter_step;
use crate::text::{
    add_text, add_texts, clone_all, contains, dec, decimal, equal_fold, eq_fold, join, joined,
    lowercase, opt_view, part_of, same, trim, trimmed, views, with_text, with_texts,
};
use vstd::prelude::*;

verus! {

/// The state of the daemon and the answer after a tool that the store does not
/// refuse.
pub type Effect = (DispatcherView, ToolResultView);

/// The daemon with other guides.
pub open spec fn with_guides(d: DispatcherView, guides: Seq<GuideView>) -> DispatcherView {
    DispatcherView { store: StateView { guides, ..d.store }, ..d }
}

/// Whether a text is blank.
pub open spec fn blank(t: Seq<char>) -> bool {
    trimmed(t).len() == 0
}

pub fn is_blank(t: &str) -> (r: bool)
    ensures
        r == blank(t@),
{
    trim(t).as_str().is_empty()
}

// ---------------------------------------------------------------------------
// guide_get
// ---------------------------------------------------------------------------

/// A guide in a list.
pub open spec fn listed_text(category: Seq<char>, name: Seq<char>, n: nat, l: nat) -> Seq<char> {
    "["@ + category + "] "@ + name + " — "@ + dec(n) + "x usage, "@ + dec(l) + " learnings"@
}

pub fn listed(category: &str, name: &str, n: u64, l: usize) -> (r: String)
    ensures
        r@ == listed_text(category@, name@, n as nat, l as nat),
{
    let mut out = "[".to_owned();
    out.append(category);
    out.append("] ");
    out.append(name);
    out.append(" — ");
    out.append(decimal(n).as_str());
    out.append("x usage, ");
    out.append(decimal(l as u64).as_str());
    out.append(" learnings");
    out
}

pub open spec fn listed_guide(g: GuideView) -> Seq<char> {
    listed_text(g.category, g.name, g.usage_count as nat, g.learnings.len())
}

/// Guides as a list.
pub open spec fn guides_text(gs: Seq<GuideView>) -> Seq<char> {
    "## Guides\n---\n"@ + if gs.len() == 0 {
        "(no guides tracked yet)\n---"@
    } else {
        joined(first(gs, 30).map_values(|g: GuideView| listed_guide(g)), "\n"@) + "\n---"@
    }
}

fn guides_string(gs: &Vec<Guide>) -> (r: String)
    ensures
        r@ == guides_text(views(gs@)),
{
    proof {
        assert(views(gs@).len() == gs@.len());
    }
    let mut out = "## Guides\n---\n".to_owned();
    if gs.len() == 0 {
        out.append("(no guides tracked yet)\n---");
    } else {
        let some = take_first(gs, 30);
        let lines = texts(
            &some,
            |g: &Guide| -> (t: String)
                ensures
                    t@ == listed_guide(g@)
                {
                    proof {
                        assert(views(g.learnings@).len() == g.learnings@.len());
                    }
                    listed(
                        g.category.as_str(),
                        g.name.as_str(),
                        g.usage_count as u64,
                        g.learnings.len(),
                    )
                },
            Ghost(|g: GuideView| listed_guide(g)),
        );
        let mut part = join(&lines, "\n");
        part.append("\n---");
        out.append(part.as_str());
    }
    out
}

/// The guides of a category, or all.
pub open spec fn guides_in(gs: Seq<GuideView>, category: Option<Seq<char>>) -> Seq<GuideView> {
    match category {
        Some(c) => gs.filter(|g: GuideView| eq_fold(g.category, c)),
        None => gs,
    }
}

/// What `guide_get` answers.
#[verifier::opaque]
pub open spec fn guide_get(s: StateView, args: GuideGetArgs) -> ToolResultView {
    if args.task is Some {
        let list = suggested(args.task->0@, s.guides);
        formatted(
            suggestions_text(list),
            ToolDataView::GuideNames {
                names: list.map_values(|x: GuideSuggestionView| x.guide),
            },
            args.response_format,
        )
    } else if args.guide is Some {
        match guide_of(s.guides, args.guide->0@) {
            Some(g) => formatted(
                guide_detail(g),
                ToolDataView::GuideDetail { guide: Some(guide_entry(g)) },
                args.response_format,
            ),
            None => formatted(
                "Guide not found."@,
                ToolDataView::GuideDetail { guide: None },
                args.response_format,
            ),
        }
    } else {
        let gs = guides_in(s.guides, opt_view(args.category));
        formatted(
            guides_text(gs),
            ToolDataView::Guides { guides: gs.map_values(|g: GuideView| guide_entry(g)) },
            args.response_format,
        )
    }
}

fn get_list(guides: &Vec<Guide>, args: &GuideGetArgs) -> (r: ToolResult)
    ensures
        r@ == formatted(
            guides_text(guides_in(views(guides@), opt_view(args.category))),
            ToolDataView::Guides {
                guides: guides_in(views(guides@), opt_view(args.category)).map_values(
                    |g: GuideView| guide_entry(g),
                ),
            },
            args.response_format,
        ),
{
    let some = match &args.category {
        Some(c) => select(
            guides,
            |g: &Guide| -> (b: bool)
                ensures
                    b == eq_fold(g@.category, c@)
                { equal_fold(g.category.as_str(), c.as_str()) },
            Ghost(|g: GuideView| eq_fold(g.category, c@)),
        ),
        None => clone_all(guides),
    };
    let entries: Vec<GuideEntry> = mapped(
        &some,
        |g: &Guide| -> (e: GuideEntry)
            ensures
                e@ == guide_entry(g@)
            { guide_json(g) },
        Ghost(|g: GuideView| guide_entry(g)),
    );
    format_result(guides_string(&some), ToolData::Guides { guides: entries }, args.response_format)
}

/// `guide_get`: the guides for a task, one guide, or a list of them.
pub fn exec_guide_get(disp: &Dispatcher, args: &GuideGetArgs) -> (r: ToolResult)
    ensures
        r@ == guide_get(disp@.store, *args),
{
    proof {
        reveal(guide_get);
    }
    let guides = disp.repo.get_guides();
    if let Some(task) = &args.task {
        let list = suggest_guides(task.as_str(), &guides);
        let names = texts(
            &list,
            |x: &GuideSuggestion| -> (t: String)
                ensures
                    t@ == x@.guide
                { x.guide.clone() },
            Ghost(|x: GuideSuggestionView| x.guide),
        );
        return format_result(
            format_guide_suggestions(&list),
            ToolData::GuideNames { names },
            args.response_format,
        );
    }
    if let Some(name) = &args.guide {
        return match disp.repo.get_guide(name.as_str()) {
            Some(g) => format_result(
                format_guide_detail(&g),
                ToolData::GuideDetail { guide: Some(guide_json(&g)) },
                args.response_format,
            ),
            None => format_result(
                "Guide not found.".to_owned(),
                ToolData::GuideDetail { guide: None },
                args.response_format,
            ),
        };
    }
    get_list(&guides, args)
}

// ---------------------------------------------------------------------------
// guide_practice
// ---------------------------------------------------------------------------

/// How a practice ended, if it was said.
pub open spec fn outcome_of(args: GuidePracticeArgs) -> Option<bool> {
    if opt_view(args.outcome) == Some("success"@) {
        Some(true)
    } else if opt_view(args.outcome) == Some("failure"@) {
        Some(false)
    } else {
        None
    }
}

fn outcome_from(args: &GuidePracticeArgs) -> (r: Option<bool>)
    ensures
        r == outcome_of(*args),
{
    match &args.outcome {
        Some(t) => if same(t.as_str(), "success") {
            Some(true)
        } else if same(t.as_str(), "failure") {
            Some(false)
        } else {
            None
        },
        None => None,
    }
}

/// A guide with one more success or failure.
pub open spec fn scored(g: GuideView, outcome: Option<bool>) -> GuideView {
    GuideView {
        success_count: if outcome == Some(true) {
            (g.success_count + 1) as u32
        } else {
            g.success_count
        },
        failure_count: if outcome == Some(false) {
            (g.failure_count + 1) as u32
        } else {
            g.failure_count
        },
        ..g
    }
}

/// A guide that is practised again.
pub open spec fn again(g: GuideView, args: GuidePracticeArgs, now: u64) -> GuideView {
    GuideView {
        usage_count: (g.usage_count + 1) as u32,
        last_used: Some(Instant(now)),
        description: if g.description.len() == 0 && args.description is Some {
            trimmed(args.description->0@)
        } else {
            g.description
        },
        contexts: with_keys(g.contexts, views(args.contexts@), ""@),
        learnings: with_texts(g.learnings, trimmed_all(views(args.learnings@))),
        ..g
    }
}

/// The guide that is practised: the one of the name, or a new one.
pub open spec fn practised_guide(gs: Seq<GuideView>, args: GuidePracticeArgs, now: u64) -> GuideView {
    scored(
        match guide_of(gs, args.guide@) {
            None => made_guide(
                args.guide@,
                args.category@,
                text_or(opt_view(args.description), ""@),
                views(args.contexts@),
                views(args.learnings@),
                now,
            ),
            Some(g) => again(g, args, now),
        },
        outcome_of(args),
    )
}

/// The sessions with a guide noted in the one of the channel.
pub open spec fn guide_noted(r: RegistryView, env: IpcEnvelope, name: Seq<char>) -> RegistryView {
    r.with_active_change(
        env.frontend_id,
        env.channel_id,
        |s: SessionView|
            SessionView { guides_used: with_text(s.guides_used, lowercase(name)), ..s },
    )
}

/// The memories that the channel's session has read.
pub open spec fn read_in_session(r: RegistryView, env: IpcEnvelope) -> Seq<Seq<char>> {
    match r.active(env.frontend_id, env.channel_id) {
        Some(h) => session_of(r.sessions, h).memories_read,
        None => Seq::empty(),
    }
}

/// What was practised.
pub open spec fn practice_head_text(
    action: Seq<char>,
    name: Seq<char>,
    category: Seq<char>,
    n: nat,
    l: nat,
    c: nat,
) -> Seq<char> {
    action + " guide \""@ + name + "\" ("@ + category + "): "@ + dec(n) + "x usage, "@ + dec(l) + " learnings, "@ + dec(c) + " contexts"@
}

pub fn practice_head(action: &str, name: &str, category: &str, n: u64, l: usize, c: usize) -> (r: String)
    ensures
        r@ == practice_head_text(action@, name@, category@, n as nat, l as nat, c as nat),
{
    let mut out = action.to_owned();
    out.append(" guide \"");
    out.append(name);
    out.append("\" (");
    out.append(category);
    out.append("): ");
    out.append(decimal(n).as_str());
    out.append("x usage, ");
    out.append(decimal(l as u64).as_str());
    out.append(" learnings, ");
    out.append(decimal(c as u64).as_str());
    out.append(" contexts");
    out
}

/// It fails more often than not.
pub open spec fn weak_guide_text(name: Seq<char>, rate: Seq<char>, n: nat, all: nat) -> Seq<char> {
    "\n\n--- HOOK SUGGESTIONS ---\nGuide \""@ + name + "\" success rate is "@ + rate + " ("@ + dec(n) + "/"@ + dec(all) + "). Consider guide_update to refine."@
}

pub fn weak_guide(name: &str, rate: &str, n: u64, all: u64) -> (r: String)
    ensures
        r@ == weak_guide_text(name@, rate@, n as nat, all as nat),
{
    let mut out = "\n\n--- HOOK SUGGESTIONS ---\nGuide \"".to_owned();
    out.append(name);
    out.append("\" success rate is ");
    out.append(rate);
    out.append(" (");
    out.append(decimal(n).as_str());
    out.append("/");
    out.append(decimal(all).as_str());
    out.append("). Consider guide_update to refine.");
    out
}

/// Whether a guide was tried often enough to say that it is weak.
pub open spec fn is_weak(g: GuideView) -> bool {
    tries(g) >= 3 && ratio(g.success_count as nat, tries(g)).below(ratio(2, 5))
}

/// What is said of a guide that was practised.
pub open spec fn practice_text(g: GuideView) -> Seq<char> {
    practice_head_text(
        if g.usage_count == 1 {
            "Created"@
        } else {
            "Updated"@
        },
        g.name,
        g.category,
        g.usage_count as nat,
        g.learnings.len(),
        g.contexts.len(),
    ) + part_if(
        is_weak(g),
        weak_guide_text(
            g.name,
            ratio_text(g.success_count as nat, tries(g)),
            g.success_count as nat,
            tries(g),
        ),
    )
}

fn practice_string(g: &Guide) -> (r: String)
    ensures
        r@ == practice_text(g@),
{
    proof {
        assert(views(g.learnings@).len() == g.learnings@.len());
        assert(views(g.contexts@).len() == g.contexts@.len());
    }
    let action = if g.usage_count == 1 {
        "Created"
    } else {
        "Updated"
    };
    let mut out = practice_head(
        action,
        g.name.as_str(),
        g.category.as_str(),
        g.usage_count as u64,
        g.learnings.len(),
        g.contexts.len(),
    );
    let all: u64 = tries_of(g);
    if all >= 3 && quotient(g.success_count as u128, all as u128).is_below(quotient(2, 5)) {
        let rate = ratio_string(g.success_count as u64, all);
        out.append(
            weak_guide(g.name.as_str(), rate.as_str(), g.success_count as u64, all).as_str(),
        );
    } else {
        out.append("");
    }
    out
}

/// What `guide_practice` does and answers.
#[verifier::opaque]
pub open spec fn guide_practice(d: DispatcherView, env: IpcEnvelope, args: GuidePracticeArgs) ->
    Effect {
    if blank(args.guide@) || blank(args.category@) {
        (d, err_view("'guide' and 'category' parameters are required"@))
    } else {
        let g = practised_guide(d.store.guides, args, d.store.now);
        let registry = guide_noted(d.registry, env, g.name);
        let kept = GuideView {
            validated_by: with_texts(g.validated_by, read_in_session(registry, env)),
            updated_at: Instant(d.store.now),
            ..g
        };
        (
            DispatcherView {
                store: StateView { guides: with_guide(d.store.guides, kept), ..d.store },
                registry,
                ..d
            },
            ok_view(
                practice_text(kept),
                ToolDataView::Practised { guide: kept.name, usage_count: kept.usage_count },
            ),
        )
    }
}

fn score_guide(g: &mut Guide, outcome: Option<bool>)
    requires
        old(g).success_count < u32::MAX,
        old(g).failure_count < u32::MAX,
    ensures
        final(g)@ == scored(old(g)@, outcome),
{
    match outcome {
        Some(true) => {
            g.success_count = g.success_count + 1;
        },
        Some(false) => {
            g.failure_count = g.failure_count + 1;
        },
        None => {},
    }
}

proof fn lemma_guide_of_room(gs: Seq<GuideView>, key: Seq<char>, from: int)
    requires
        0 <= from <= gs.len(),
    ensures
        from <= crate::canonical::repository::guide_place(gs, key, from) <= gs.len(),
    decreases gs.len() - from,
{
    if from < gs.len() && guide_key(gs[from].name) != key {
        lemma_guide_of_room(gs, key, from + 1);
    }
}

fn guide_to_practise(repo: &CanonicalRepository, args: &GuidePracticeArgs) -> (r: Guide)
    requires
        repo@.room(1),
    ensures
        r@ == practised_guide(repo@.guides, *args, repo@.now),
{
    let now: u64 = repo.now_millis();
    proof {
        lemma_guide_of_room(repo@.guides, guide_key(args.guide@), 0);
    }
    let mut g = match repo.get_guide(args.guide.as_str()) {
        None => create_guide(
            args.guide.as_str(),
            args.category.as_str(),
            text_or_else(&args.description, "").as_str(),
            &args.contexts,
            &args.learnings,
            now,
        ),
        Some(found) => {
            let mut g = found;
            let ghost before = g@;
            proof {
                assert(g@.room(1));
            }
            g.usage_count = g.usage_count + 1;
            g.last_used = Some(Instant::new(now));
            if g.description.as_str().is_empty() {
                if let Some(t) = &args.description {
                    g.description = trim(t.as_str());
                }
            }
            g.contexts = merge_guide_refs(&g.contexts, &args.contexts, "");
            let learned = trim_all(&args.learnings);
            add_texts(&mut g.learnings, &learned);
            proof {
                assert(g@ =~= again(before, *args, now));
            }
            g
        },
    };
    score_guide(&mut g, outcome_from(args));
    g
}

/// `guide_practice`: a guide was used. One that is not there is made.
pub fn exec_guide_practice(
    disp: &mut Dispatcher,
    envelope: &IpcEnvelope,
    args: &GuidePracticeArgs,
) -> (r: ToolResult)
    requires
        old(disp)@.wf(),
        old(disp)@.store.room(1),
    ensures
        final(disp)@.wf(),
        (final(disp)@, r@) == guide_practice(old(disp)@, *envelope, *args),
{
    proof {
        reveal(guide_practice);
    }
    if is_blank(args.guide.as_str()) || is_blank(args.category.as_str()) {
        return err_result("'guide' and 'category' parameters are required");
    }
    let mut g = guide_to_practise(&disp.repo, args);
    disp.registry.track_guide_used(envelope.frontend_id, envelope.channel_id, g.name.as_str());
    let read = match disp.registry.resolve_session(envelope.frontend_id, envelope.channel_id) {
        Some(h) => match disp.registry.session(h) {
            Some(s) => clone_all(&s.memories_read),
            None => Vec::new(),
        },
        None => {
            let none: Vec<String> = Vec::new();
            proof {
                assert(views(none@) =~= Seq::empty());
            }
            none
        },
    };
    add_texts(&mut g.validated_by, &read);
    g.updated_at = Instant::new(disp.repo.now_millis());
    disp.repo.put_guide(&g);
    let text = practice_string(&g);
    ok_result(text, ToolData::Practised { guide: g.name, usage_count: g.usage_count })
}

// ---------------------------------------------------------------------------
// guide_create
// ---------------------------------------------------------------------------

/// A guide got a new manual.
pub open spec fn manual_set_text(name: Seq<char>, category: Seq<char>) -> Seq<char> {
    "Updated manual for existing guide \""@ + name + "\" ("@ + category + ")"@
}

pub fn manual_set(name: &str, category: &str) -> (r: String)
    ensures
        r@ == manual_set_text(name@, category@),
{
    let mut out = "Updated manual for existing guide \"".to_owned();
    out.append(name);
    out.append("\" (");
    out.append(category);
    out.append(")");
    out
}

/// A guide was made.
pub open spec fn guide_made_text(name: Seq<char>, category: Seq<char>) -> Seq<char> {
    "Created new guide \""@ + name + "\" ("@ + category + ") with a detailed manual."@
}

pub fn guide_made(name: &str, category: &str) -> (r: String)
    ensures
        r@ == guide_made_text(name@, category@),
{
    let mut out = "Created new guide \"".to_owned();
    out.append(name);
    out.append("\" (");
    out.append(category);
    out.append(") with a detailed manual.");
    out
}

/// The guide whose manual a request sets: the one of its name, or the first
/// whose name is a part of that name or has it as a part.
pub open spec fn manual_of(gs: Seq<GuideView>, name: Seq<char>) -> Option<GuideView> {
    match guide_of(gs, name) {
        Some(g) => Some(g),
        None => {
            let key = guide_key(name);
            let i = first_place(gs, |g: GuideView| part_of(key, g.name) || part_of(g.name, key), 0);
            if i < gs.len() {
                Some(gs[i])
            } else {
                None
            }
        },
    }
}

/// What `guide_create` does and answers.
#[verifier::opaque]
pub open spec fn guide_create(d: DispatcherView, args: GuideCreateArgs) -> Effect {
    if blank(args.guide@) || blank(args.category@) || blank(args.description@) {
        (d, err_view("'guide', 'category', and 'description' parameters are required"@))
    } else {
        match manual_of(d.store.guides, args.guide@) {
            Some(g) => {
                let kept = GuideView {
                    description: args.description@,
                    updated_at: Instant(d.store.now),
                    ..g
                };
                (
                    with_guides(d, with_guide(d.store.guides, kept)),
                    ok_view(
                        manual_set_text(kept.name, kept.category),
                        ToolDataView::GuideDone { guide: kept.name },
                    ),
                )
            },
            None => {
                let g = made_guide(
                    args.guide@,
                    args.category@,
                    args.description@,
                    views(args.contexts@),
                    views(args.learnings@),
                    d.store.now,
                );
                (
                    with_guides(d, with_guide(d.store.guides, g)),
                    ok_view(
                        guide_made_text(g.name, g.category),
                        ToolDataView::GuideDone { guide: g.name },
                    ),
                )
            },
        }
    }
}

fn find_manual(repo: &CanonicalRepository, name: &str) -> (r: Option<Guide>)
    ensures
        opt_view(r) == manual_of(repo@.guides, name@),
{
    if let Some(g) = repo.get_guide(name) {
        return Some(g);
    }
    let guides = repo.get_guides();
    let key = key_of_guide(name);
    proof {
        assert(views(guides@).len() == guides@.len());
    }
    let place = find(
        &guides,
        |g: &Guide| -> (b: bool)
            ensures
                b == (part_of(key@, g@.name) || part_of(g@.name, key@))
            {
                contains(g.name.as_str(), key.as_str()) || contains(key.as_str(), g.name.as_str())
            },
        Ghost(|g: GuideView| part_of(key@, g.name) || part_of(g.name, key@)),
    );
    match place {
        Some(i) => Some(guides[i].clone()),
        None => None,
    }
}

/// `guide_create`: a guide with a manual, or a new manual for a guide that is
/// there.
pub fn exec_guide_create(disp: &mut Dispatcher, args: &GuideCreateArgs) -> (r: ToolResult)
    requires
        old(disp)@.wf(),
    ensures
        final(disp)@.wf(),
        (final(disp)@, r@) == guide_create(old(disp)@, *args),
{
    proof {
        reveal(guide_create);
    }
    if is_blank(args.guide.as_str()) || is_blank(args.category.as_str()) || is_blank(
        args.description.as_str(),
    ) {
        return err_result("'guide', 'category', and 'description' parameters are required");
    }
    let now: u64 = disp.repo.now_millis();
    if let Some(found) = find_manual(&disp.repo, args.guide.as_str()) {
        let mut g = found;
        g.description = args.description.clone();
        g.updated_at = Instant::new(now);
        disp.repo.put_guide(&g);
        let text = manual_set(g.name.as_str(), g.category.as_str());
        return ok_result(text, ToolData::GuideDone { guide: g.name });
    }
    let g = create_guide(
        args.guide.as_str(),
        args.category.as_str(),
        args.description.as_str(),
        &args.contexts,
        &args.learnings,
        now,
    );
    disp.repo.put_guide(&g);
    let text = guide_made(g.name.as_str(), g.category.as_str());
    ok_result(text, ToolData::GuideDone { guide: g.name })
}

// ---------------------------------------------------------------------------
// guide_distill
// ---------------------------------------------------------------------------

/// There is nothing to distill.
pub open spec fn no_memory_text(id: Seq<char>) -> Seq<char> {
    "Memory fragment with ID '"@ + id + "' not found."@
}

pub fn no_memory(id: &str) -> (r: String)
    ensures
        r@ == no_memory_text(id@),
{
    let mut out = "Memory fragment with ID '".to_owned();
    out.append(id);
    out.append("' not found.");
    out
}

/// A memory became part of a guide.
pub open spec fn distilled_text(id: Seq<char>, name: Seq<char>, category: Seq<char>, detail: Seq<char>) -> Seq<char> {
    "Successfully distilled memory ["@ + id + "] into guide \""@ + name + "\" ("@ + category + ").\n\n"@ + detail
}

pub fn distilled(id: &str, name: &str, category: &str, detail: &str) -> (r: String)
    ensures
        r@ == distilled_text(id@, name@, category@, detail@),
{
    let mut out = "Successfully distilled memory [".to_owned();
    out.append(id);
    out.append("] into guide \"");
    out.append(name);
    out.append("\" (");
    out.append(category);
    out.append(").\n\n");
    out.append(detail);
    out
}

/// The context of a memory: its project, as a key.
pub open spec fn memory_context(m: MemoryView) -> Seq<char> {
    guide_key(text_or(m.project, "global"@))
}

/// A guide that a memory went into.
pub open spec fn fed(g: GuideView, m: MemoryView, now: u64) -> GuideView {
    let context = memory_context(m);
    GuideView {
        learnings: with_text(g.learnings, m.fragment),
        contexts: if context.len() == 0 {
            g.contexts
        } else {
            with_text(g.contexts, context)
        },
        usage_count: (g.usage_count + 1) as u32,
        last_used: Some(Instant(now)),
        ..g
    }
}

/// The guide that a memory goes into: the one of the name, or a new one.
pub open spec fn distilled_guide(
    gs: Seq<GuideView>,
    m: MemoryView,
    args: GuideDistillArgs,
    now: u64,
) -> GuideView {
    let g = match guide_of(gs, args.guide@) {
        Some(g) => fed(g, m, now),
        None => made_guide(
            args.guide@,
            text_or(opt_view(args.category), "dev-tool"@),
            "Created via distillation from memory."@,
            seq![memory_context(m)],
            seq![m.fragment],
            now,
        ),
    };
    GuideView {
        source_memories: if g.source_memories.contains(m.id) {
            g.source_memories
        } else {
            g.source_memories.push(m.id)
        },
        updated_at: Instant(now),
        ..g
    }
}

/// A memory that went into a guide.
pub open spec fn spent(m: MemoryView, guide: Seq<char>) -> MemoryView {
    MemoryView {
        related_guides: with_text(m.related_guides, guide_key(guide)),
        distill_candidate: false,
        ..m
    }
}

/// What `guide_distill` does and answers.
#[verifier::opaque]
pub open spec fn guide_distill(d: DispatcherView, args: GuideDistillArgs) -> Effect {
    if blank(args.memory_id@) || blank(args.guide@) {
        (d, err_view("'memory_id' and 'guide' parameters are required"@))
    } else {
        match looked_up(d.store, args.memory_id@) {
            None => (d, err_view(no_memory_text(args.memory_id@))),
            Some(m) => {
                let g = distilled_guide(d.store.guides, m, args, d.store.now);
                (
                    DispatcherView {
                        store: StateView {
                            guides: with_guide(d.store.guides, g),
                            memories: with_memory(d.store.memories, spent(m, args.guide@)),
                            ..d.store
                        },
                        ..d
                    },
                    ok_view(
                        distilled_text(args.memory_id@, g.name, g.category, guide_detail(g)),
                        ToolDataView::Distilled { guide: g.name, memory_id: args.memory_id@ },
                    ),
                )
            },
        }
    }
}

fn has_entity(ids: &Vec<EntityId>, id: EntityId) -> (r: bool)
    ensures
        r == ids@.contains(id),
{
    let mut i: usize = 0;
    while i < ids.len()
        invariant
            i <= ids@.len(),
            forall|j: int| 0 <= j < i ==> ids@[j] != id,
        decreases ids@.len() - i,
    {
        if ids[i] == id {
            return true;
        }
        i += 1;
    }
    false
}

fn guide_to_feed(repo: &CanonicalRepository, m: &Memory, args: &GuideDistillArgs) -> (r: Guide)
    requires
        repo@.room(1),
    ensures
        r@ == distilled_guide(repo@.guides, m@, *args, repo@.now),
{
    let now: u64 = repo.now_millis();
    let context = key_of_guide(text_or_else(&m.project, "global").as_str());
    proof {
        lemma_guide_of_room(repo@.guides, guide_key(args.guide@), 0);
    }
    let mut g = match repo.get_guide(args.guide.as_str()) {
        Some(found) => {
            let mut g = found;
            let ghost before = g@;
            proof {
                assert(g@.room(1));
            }
            add_text(&mut g.learnings, m.fragment.as_str());
            if !context.as_str().is_empty() {
                add_text(&mut g.contexts, context.as_str());
            }
            g.usage_count = g.usage_count + 1;
            g.last_used = Some(Instant::new(now));
            proof {
                assert(g@ =~= fed(before, m@, now));
            }
            g
        },
        None => {
            let mut contexts: Vec<String> = Vec::new();
            contexts.push(context);
            let mut learnings: Vec<String> = Vec::new();
            learnings.push(m.fragment.clone());
            proof {
                assert(views(contexts@) =~= seq![memory_context(m@)]);
                assert(views(learnings@) =~= seq![m@.fragment]);
            }
            create_guide(
                args.guide.as_str(),
                text_or_else(&args.category, "dev-tool").as_str(),
                "Created via distillation from memory.",
                &contexts,
                &learnings,
                now,
            )
        },
    };
    if !has_entity(&g.source_memories, m.id) {
        g.source_memories.push(m.id);
    }
    g.updated_at = Instant::new(now);
    g
}

/// `guide_distill`: a memory becomes part of a guide.
pub fn exec_guide_distill(disp: &mut Dispatcher, args: &GuideDistillArgs) -> (r: ToolResult)
    requires
        old(disp)@.wf(),
        old(disp)@.store.room(1),
    ensures
        final(disp)@.wf(),
        (final(disp)@, r@) == guide_distill(old(disp)@, *args),
{
    proof {
        reveal(guide_distill);
    }
    if is_blank(args.memory_id.as_str()) || is_blank(args.guide.as_str()) {
        return err_result("'memory_id' and 'guide' parameters are required");
    }
    let m = match disp.repo.look_up(args.memory_id.as_str()) {
        Some(m) => m,
        None => return err_result(no_memory(args.memory_id.as_str()).as_str()),
    };
    let g = guide_to_feed(&disp.repo, &m, args);
    disp.repo.put_guide(&g);
    let mut used = m;
    let ghost before = used@;
    add_text(&mut used.related_guides, key_of_guide(args.guide.as_str()).as_str());
    used.distill_candidate = false;
    proof {
        assert(used@ =~= spent(before, args.guide@));
    }
    disp.repo.put_memory_direct(&used);
    let text = distilled(
        args.memory_id.as_str(),
        g.name.as_str(),
        g.category.as_str(),
        format_guide_detail(&g).as_str(),
    );
    ok_result(text, ToolData::Distilled { guide: g.name, memory_id: args.memory_id.clone() })
}

// ---------------------------------------------------------------------------
// References to guides
// ---------------------------------------------------------------------------

/// A memory with its references to a guide renamed.
pub open spec fn renamed(m: MemoryView, from: Seq<char>, to: Seq<char>) -> MemoryView {
    if holds_folded(m.related_guides, from) {
        MemoryView {
            related_guides: m.related_guides.map_values(
                |g: Seq<char>|
                    if eq_fold(g, from) {
                        to
                    } else {
                        g
                    },
            ),
            ..m
        }.document_advanced()
    } else {
        m
    }
}

/// The memories with the references to a guide renamed.
pub open spec fn renamed_all(ms: Seq<MemoryView>, old_name: Seq<char>, new_name: Seq<char>) -> Seq<
    MemoryView,
> {
    let from = guide_key(old_name);
    let to = guide_key(new_name);
    if from.len() == 0 || from == to {
        ms
    } else {
        ms.map_values(|m: MemoryView| renamed(m, from, to))
    }
}

/// A memory without its references to a guide.
pub open spec fn unlinked(m: MemoryView, name: Seq<char>) -> MemoryView {
    if holds_folded(m.related_guides, name) {
        MemoryView {
            related_guides: m.related_guides.filter(|g: Seq<char>| !eq_fold(g, name)),
            ..m
        }.document_advanced()
    } else {
        m
    }
}

/// The memories without the references to a guide.
pub open spec fn unlinked_all(ms: Seq<MemoryView>, name: Seq<char>) -> Seq<MemoryView> {
    let key = guide_key(name);
    if key.len() == 0 {
        ms
    } else {
        ms.map_values(|m: MemoryView| unlinked(m, key))
    }
}

fn rename_in(m: &Memory, from: &str, to: &str) -> (r: Memory)
    requires
        m@.room(1),
    ensures
        r@ == renamed(m@, from@, to@),
{
    let mut out = m.clone();
    if has_folded(&m.related_guides, from) {
        out.related_guides = texts(
            &m.related_guides,
            |g: &String| -> (t: String)
                ensures
                    t@ == (if eq_fold(g@, from@) {
                        to@
                    } else {
                        g@
                    })
                {
                    if equal_fold(g.as_str(), from) {
                        to.to_owned()
                    } else {
                        g.clone()
                    }
                },
            Ghost(
                |g: Seq<char>|
                    if eq_fold(g, from@) {
                        to@
                    } else {
                        g
                    },
            ),
        );
        out.advance_document();
    }
    out
}

fn unlink_in(m: &Memory, name: &str) -> (r: Memory)
    requires
        m@.room(1),
    ensures
        r@ == unlinked(m@, name@),
{
    let mut out = m.clone();
    if has_folded(&m.related_guides, name) {
        out.related_guides = select(
            &m.related_guides,
            |g: &String| -> (b: bool)
                ensures
                    b == !eq_fold(g@, name@)
                { !equal_fold(g.as_str(), name) },
            Ghost(|g: Seq<char>| !eq_fold(g, name@)),
        );
        out.advance_document();
    }
    out
}

/// Renames a guide in the memories that refer to it.
pub fn rename_guide_in_memories(repo: &mut CanonicalRepository, old_name: &str, new_name: &str)
    requires
        old(repo)@.wf(),
        old(repo)@.room(1),
    ensures
        final(repo)@.wf(),
        final(repo)@ == (StateView {
            memories: renamed_all(old(repo)@.memories, old_name@, new_name@),
            ..old(repo)@
        }),
{
    let from = key_of_guide(old_name);
    let to = key_of_guide(new_name);
    if from.as_str().is_empty() || same(from.as_str(), to.as_str()) {
        return;
    }
    repo.edit_memories(
        |m: &Memory| -> (r: Memory)
            requires
                m@.room(1),
            ensures
                r@ == renamed(m@, from@, to@)
            { rename_in(m, from.as_str(), to.as_str()) },
        Ghost(|m: MemoryView| renamed(m, from@, to@)),
    );
}

/// Removes a guide from the memories that refer to it.
pub fn remove_guide_from_memories(repo: &mut CanonicalRepository, guide_name: &str)
    requires
        old(repo)@.wf(),
        old(repo)@.room(1),
    ensures
        final(repo)@.wf(),
        final(repo)@ == (StateView {
            memories: unlinked_all(old(repo)@.memories, guide_name@),
            ..old(repo)@
        }),
{
    let key = key_of_guide(guide_name);
    if key.as_str().is_empty() {
        return;
    }
    repo.edit_memories(
        |m: &Memory| -> (r: Memory)
            requires
                m@.room(1),
            ensures
                r@ == unlinked(m@, key@)
            { unlink_in(m, key.as_str()) },
        Ghost(|m: MemoryView| unlinked(m, key@)),
    );
}

/// Renaming steps each counter once at most.
proof fn lemma_renamed_room(ms: Seq<MemoryView>, old_name: Seq<char>, new_name: Seq<char>, n: int)
    requires
        memories_room(ms, n + 1),
    ensures
        memories_room(renamed_all(ms, old_name, new_name), n),
{
    let after = renamed_all(ms, old_name, new_name);
    assert forall|i: int| 0 <= i < after.len() implies (#[trigger] after[i]).room(n) by {
        assert(ms[i].room(n + 1));
    }
}

// ---------------------------------------------------------------------------
// guide_update
// ---------------------------------------------------------------------------

/// There is no such guide.
pub open spec fn no_guide_text(name: Seq<char>) -> Seq<char> {
    "Guide \""@ + name + "\" not found."@
}

pub fn no_guide(name: &str) -> (r: String)
    ensures
        r@ == no_guide_text(name@),
{
    let mut out = "Guide \"".to_owned();
    out.append(name);
    out.append("\" not found.");
    out
}

/// A guide was changed.
pub open spec fn guide_updated_text(name: Seq<char>, detail: Seq<char>) -> Seq<char> {
    "Updated guide \""@ + name + "\":\n"@ + detail
}

pub fn guide_updated(name: &str, detail: &str) -> (r: String)
    ensures
        r@ == guide_updated_text(name@, detail@),
{
    let mut out = "Updated guide \"".to_owned();
    out.append(name);
    out.append("\":\n");
    out.append(detail);
    out
}

/// The key of a text, or another where it is missing or blank.
pub open spec fn key_or(t: Option<Seq<char>>, other: Seq<char>) -> Seq<char> {
    if t is Some && !blank(t->0) {
        guide_key(t->0)
    } else {
        other
    }
}

fn key_or_else(t: &Option<String>, other: &str) -> (r: String)
    ensures
        r@ == key_or(opt_view(*t), other@),
{
    match t {
        Some(x) => if is_blank(x.as_str()) {
            other.to_owned()
        } else {
            key_of_guide(x.as_str())
        },
        None => other.to_owned(),
    }
}

/// A guide after an update.
pub open spec fn updated_guide(g: GuideView, args: GuideUpdateArgs, now: u64) -> GuideView {
    let name = key_or(opt_view(args.new_name), g.name);
    GuideView {
        name,
        category: key_or(opt_view(args.category), g.category),
        description: if args.description is Some && !blank(args.description->0@) {
            trimmed(args.description->0@)
        } else {
            g.description
        },
        anti_patterns: g.anti_patterns + views(args.add_anti_patterns@),
        pitfalls: g.pitfalls + views(args.add_pitfalls@),
        depends_on: with_keys(g.depends_on, views(args.add_depends_on@), name),
        enables: with_keys(g.enables, views(args.add_enables@), name),
        superseded_by: if args.superseded_by is Some && !blank(args.superseded_by->0@) {
            Some(args.superseded_by->0@)
        } else {
            g.superseded_by
        },
        deprecated: g.deprecated || args.deprecated,
        updated_at: Instant(now),
        ..g
    }
}

/// What `guide_update` does and answers.
#[verifier::opaque]
pub open spec fn guide_update(d: DispatcherView, args: GuideUpdateArgs) -> Effect {
    if blank(args.guide@) {
        (d, err_view("'guide' parameter is required"@))
    } else {
        match guide_of(d.store.guides, args.guide@) {
            None => (d, err_view(no_guide_text(args.guide@))),
            Some(g) => {
                let kept = updated_guide(g, args, d.store.now);
                let moved = !eq_fold(g.name, kept.name);
                (
                    DispatcherView {
                        store: StateView {
                            memories: if moved {
                                renamed_all(d.store.memories, g.name, kept.name)
                            } else {
                                d.store.memories
                            },
                            guides: with_guide(
                                if moved {
                                    without_key(d.store.guides, guide_key(g.name))
                                } else {
                                    d.store.guides
                                },
                                kept,
                            ),
                            ..d.store
                        },
                        ..d
                    },
                    ok_view(
                        guide_updated_text(kept.name, guide_detail(kept)),
                        ToolDataView::GuideDone { guide: kept.name },
                    ),
                )
            },
        }
    }
}

fn add_all(list: &Vec<String>, add: &Vec<String>) -> (r: Vec<String>)
    ensures
        views(r@) == views(list@) + views(add@),
{
    let mut out = clone_all(list);
    let mut i: usize = 0;
    let ghost start = views(list@);
    while i < add.len()
        invariant
            i <= add@.len(),
            start == views(list@),
            views(out@) == start + views(add@).take(i as int),
        decreases add@.len() - i,
    {
        broadcast use crate::text::lemma_views_push;

        out.push(add[i].clone());
        proof {
            assert(views(out@) =~= start + views(add@).take(i + 1));
        }
        i += 1;
    }
    proof {
        assert(views(add@).take(add@.len() as int) =~= views(add@));
    }
    out
}

fn update_guide(found: Guide, args: &GuideUpdateArgs, now: u64) -> (r: Guide)
    ensures
        r@ == updated_guide(found@, *args, now),
{
    let mut g = found;
    let ghost before = g@;
    g.name = key_or_else(&args.new_name, g.name.as_str());
    g.category = key_or_else(&args.category, g.category.as_str());
    if let Some(t) = &args.description {
        if !is_blank(t.as_str()) {
            g.description = trim(t.as_str());
        }
    }
    g.anti_patterns = add_all(&g.anti_patterns, &args.add_anti_patterns);
    g.pitfalls = add_all(&g.pitfalls, &args.add_pitfalls);
    g.depends_on = merge_guide_refs(&g.depends_on, &args.add_depends_on, g.name.as_str());
    g.enables = merge_guide_refs(&g.enables, &args.add_enables, g.name.as_str());
    if let Some(t) = &args.superseded_by {
        if !is_blank(t.as_str()) {
            g.superseded_by = Some(t.clone());
        }
    }
    if args.deprecated {
        g.deprecated = true;
    }
    g.updated_at = Instant::new(now);
    proof {
        assert(g@ =~= updated_guide(before, *args, now));
    }
    g
}

/// `guide_update`: changes a guide. Where its name changes, the memories that
/// refer to it follow.
pub fn exec_guide_update(disp: &mut Dispatcher, args: &GuideUpdateArgs) -> (r: ToolResult)
    requires
        old(disp)@.wf(),
        old(disp)@.store.room(1),
    ensures
        final(disp)@.wf(),
        (final(disp)@, r@) == guide_update(old(disp)@, *args),
{
    proof {
        reveal(guide_update);
    }
    if is_blank(args.guide.as_str()) {
        return err_result("'guide' parameter is required");
    }
    let found = match disp.repo.get_guide(args.guide.as_str()) {
        Some(g) => g,
        None => return err_result(no_guide(args.guide.as_str()).as_str()),
    };
    let old_name = found.name.clone();
    let g = update_guide(found, args, disp.repo.now_millis());
    if !equal_fold(old_name.as_str(), g.name.as_str()) {
        rename_guide_in_memories(&mut disp.repo, old_name.as_str(), g.name.as_str());
        disp.repo.delete_guide(old_name.as_str());
    }
    disp.repo.put_guide(&g);
    let text = guide_updated(g.name.as_str(), format_guide_detail(&g).as_str());
    ok_result(text, ToolData::GuideDone { guide: g.name })
}

// ---------------------------------------------------------------------------
// guide_forget
// ---------------------------------------------------------------------------

/// A guide was removed.
pub open spec fn guide_gone_text(name: Seq<char>) -> Seq<char> {
    "Successfully forgot guide: "@ + name
}

pub fn guide_gone(name: &str) -> (r: String)
    ensures
        r@ == guide_gone_text(name@),
{
    let mut out = "Successfully forgot guide: ".to_owned();
    out.append(name);
    out
}

/// What `guide_forget` does and answers.
#[verifier::opaque]
pub open spec fn guide_forget(d: DispatcherView, args: GuideForgetArgs) -> Effect {
    if blank(args.guide@) {
        (d, err_view("'guide' parameter is required"@))
    } else if guide_of(d.store.guides, args.guide@) is None {
        (d, err_view(no_guide_text(args.guide@)))
    } else {
        (
            DispatcherView {
                store: StateView {
                    memories: unlinked_all(d.store.memories, args.guide@),
                    guides: without_key(d.store.guides, guide_key(args.guide@)),
                    ..d.store
                },
                ..d
            },
            ok_view(
                guide_gone_text(args.guide@),
                ToolDataView::GuideDone { guide: args.guide@ },
            ),
        )
    }
}

/// `guide_forget`: removes a guide, and the references to it.
pub fn exec_guide_forget(disp: &mut Dispatcher, args: &GuideForgetArgs) -> (r: ToolResult)
    requires
        old(disp)@.wf(),
        old(disp)@.store.room(1),
    ensures
        final(disp)@.wf(),
        (final(disp)@, r@) == guide_forget(old(disp)@, *args),
{
    proof {
        reveal(guide_forget);
    }
    if is_blank(args.guide.as_str()) {
        return err_result("'guide' parameter is required");
    }
    if disp.repo.get_guide(args.guide.as_str()).is_none() {
        return err_result(no_guide(args.guide.as_str()).as_str());
    }
    remove_guide_from_memories(&mut disp.repo, args.guide.as_str());
    disp.repo.delete_guide(args.guide.as_str());
    ok_result(
        guide_gone(args.guide.as_str()),
        ToolData::GuideDone { guide: args.guide.clone() },
    )
}

// ---------------------------------------------------------------------------
// guide_merge
// ---------------------------------------------------------------------------

/// Some guides are not there.
pub open spec fn no_guides_text(names: Seq<char>) -> Seq<char> {
    "Guide(s) not found: "@ + names
}

pub fn no_guides(names: &str) -> (r: String)
    ensures
        r@ == no_guides_text(names@),
{
    let mut out = "Guide(s) not found: ".to_owned();
    out.append(names);
    out
}

/// Guides were put together.
pub open spec fn guides_merged_text(
    n: nat,
    name: Seq<char>,
    category: Seq<char>,
    usage: nat,
    c: nat,
    l: nat,
    names: Seq<char>,
) -> Seq<char> {
    "Merged "@ + dec(n) + " guides into \""@ + name + "\" ("@ + category + ")\nTotal usage: "@ + dec(usage) + "x | Contexts: "@ + dec(c) + " | Learnings: "@ + dec(l) + "\nRemoved: "@ + names
}

pub fn guides_merged(
    n: usize,
    name: &str,
    category: &str,
    usage: u64,
    c: usize,
    l: usize,
    names: &str,
) -> (r: String)
    ensures
        r@ == guides_merged_text(n as nat, name@, category@, usage as nat, c as nat, l as nat, names@),
{
    let mut out = "Merged ".to_owned();
    out.append(decimal(n as u64).as_str());
    out.append(" guides into \"");
    out.append(name);
    out.append("\" (");
    out.append(category);
    out.append(")\nTotal usage: ");
    out.append(decimal(usage).as_str());
    out.append("x | Contexts: ");
    out.append(decimal(c as u64).as_str());
    out.append(" | Learnings: ");
    out.append(decimal(l as u64).as_str());
    out.append("\nRemoved: ");
    out.append(names);
    out
}

/// What the guide took over.
pub open spec fn inherited_patterns_text(n: nat) -> Seq<char> {
    "Anti-patterns inherited: "@ + dec(n) + "\n"@
}

pub fn inherited_patterns(n: usize) -> (r: String)
    ensures
        r@ == inherited_patterns_text(n as nat),
{
    let mut out = "Anti-patterns inherited: ".to_owned();
    out.append(decimal(n as u64).as_str());
    out.append("\n");
    out
}

/// What the guide took over.
pub open spec fn inherited_pitfalls_text(n: nat) -> Seq<char> {
    "Pitfalls inherited: "@ + dec(n) + "\n"@
}

pub fn inherited_pitfalls(n: usize) -> (r: String)
    ensures
        r@ == inherited_pitfalls_text(n as nat),
{
    let mut out = "Pitfalls inherited: ".to_owned();
    out.append(decimal(n as u64).as_str());
    out.append("\n");
    out
}

/// What the guide took over.
pub open spec fn linked_sources_text(n: nat) -> Seq<char> {
    "Source memories linked: "@ + dec(n) + " fragment(s)\n"@
}

pub fn linked_sources(n: usize) -> (r: String)
    ensures
        r@ == linked_sources_text(n as nat),
{
    let mut out = "Source memories linked: ".to_owned();
    out.append(decimal(n as u64).as_str());
    out.append(" fragment(s)\n");
    out
}

/// What the guide took over.
pub open spec fn linked_checks_text(n: nat) -> Seq<char> {
    "Validated by: "@ + dec(n) + " fragment(s)\n"@
}

pub fn linked_checks(n: usize) -> (r: String)
    ensures
        r@ == linked_checks_text(n as nat),
{
    let mut out = "Validated by: ".to_owned();
    out.append(decimal(n as u64).as_str());
    out.append(" fragment(s)\n");
    out
}

/// The guides of names; names that stand for none are passed over.
pub open spec fn guides_named(gs: Seq<GuideView>, names: Seq<Seq<char>>) -> Seq<GuideView>
    decreases names.len(),
{
    if names.len() == 0 {
        Seq::empty()
    } else {
        match guide_of(gs, names.last()) {
            Some(g) => guides_named(gs, names.drop_last()).push(g),
            None => guides_named(gs, names.drop_last()),
        }
    }
}

/// The texts that guides have in one of their lists, one guide after the other.
pub open spec fn gathered(gs: Seq<GuideView>, pick: spec_fn(GuideView) -> Seq<Seq<char>>) -> Seq<
    Seq<char>,
>
    decreases gs.len(),
{
    if gs.len() == 0 {
        Seq::empty()
    } else {
        gathered(gs.drop_last(), pick) + pick(gs.last())
    }
}

/// The memories that guides were made from.
pub open spec fn gathered_sources(gs: Seq<GuideView>) -> Seq<EntityId>
    decreases gs.len(),
{
    if gs.len() == 0 {
        Seq::empty()
    } else {
        gathered_sources(gs.drop_last()) + gs.last().source_memories
    }
}

/// Each identifier of a list once, in order.
pub open spec fn distinct_ids(ids: Seq<EntityId>) -> Seq<EntityId>
    decreases ids.len(),
{
    if ids.len() == 0 {
        Seq::empty()
    } else {
        let rest = distinct_ids(ids.drop_last());
        if rest.contains(ids.last()) {
            rest
        } else {
            rest.push(ids.last())
        }
    }
}

/// Each text of a list once, in order.
pub open spec fn distinct_texts(list: Seq<Seq<char>>) -> Seq<Seq<char>> {
    with_texts(Seq::empty(), list)
}

pub open spec fn merged_contexts(args: GuideMergeArgs, gs: Seq<GuideView>) -> Seq<Seq<char>> {
    match args.contexts {
        Some(c) => views(c@),
        None => distinct_texts(gathered(gs, |g: GuideView| g.contexts)),
    }
}

pub open spec fn merged_learnings(args: GuideMergeArgs, gs: Seq<GuideView>) -> Seq<Seq<char>> {
    match args.learnings {
        Some(c) => views(c@),
        None => distinct_texts(gathered(gs, |g: GuideView| g.learnings)),
    }
}

/// The guide that takes the place of others.
pub open spec fn merged_guide(args: GuideMergeArgs, gs: Seq<GuideView>, now: u64) -> GuideView {
    GuideView {
        usage_count: total_usage(gs) as u32,
        anti_patterns: distinct_texts(gathered(gs, |g: GuideView| g.anti_patterns)),
        pitfalls: distinct_texts(gathered(gs, |g: GuideView| g.pitfalls)),
        source_memories: distinct_ids(gathered_sources(gs)),
        validated_by: distinct_texts(gathered(gs, |g: GuideView| g.validated_by)),
        ..made_guide(
            args.guide@,
            args.category@,
            text_or(opt_view(args.description), ""@),
            merged_contexts(args, gs),
            merged_learnings(args, gs),
            now,
        )
    }
}

/// The memories after the references to the first `n` guides were renamed.
pub open spec fn renamed_first(
    ms: Seq<MemoryView>,
    names: Seq<Seq<char>>,
    to: Seq<char>,
    n: int,
) -> Seq<MemoryView>
    decreases n,
{
    if n <= 0 {
        ms
    } else {
        renamed_all(renamed_first(ms, names, to, n - 1), names[n - 1], to)
    }
}

/// The guides without the first `n` of these names.
pub open spec fn without_first(gs: Seq<GuideView>, names: Seq<Seq<char>>, n: int) -> Seq<GuideView>
    decreases n,
{
    if n <= 0 {
        gs
    } else {
        without_key(without_first(gs, names, n - 1), guide_key(names[n - 1]))
    }
}

/// What the new guide took over, as text.
pub open spec fn inherited_text(gs: Seq<GuideView>, g: GuideView) -> Seq<char> {
    let sources = gathered_sources(gs).len();
    let checks = gathered(gs, |x: GuideView| x.validated_by).len();
    part_if(g.anti_patterns.len() > 0, inherited_patterns_text(g.anti_patterns.len())) + part_if(
        g.pitfalls.len() > 0,
        inherited_pitfalls_text(g.pitfalls.len()),
    ) + part_if(sources > 0, linked_sources_text(sources)) + part_if(
        checks > 0,
        linked_checks_text(checks),
    )
}

/// Whether the new guide took anything over.
pub open spec fn inherits(gs: Seq<GuideView>, g: GuideView) -> bool {
    g.anti_patterns.len() > 0 || g.pitfalls.len() > 0 || gathered_sources(gs).len() > 0
        || gathered(gs, |x: GuideView| x.validated_by).len() > 0
}

/// What is said of guides that were put together.
pub open spec fn guide_merge_text(args: GuideMergeArgs, gs: Seq<GuideView>, g: GuideView) -> Seq<
    char,
> {
    guides_merged_text(
        args.guides@.len(),
        g.name,
        g.category,
        g.usage_count as nat,
        merged_contexts(args, gs).len(),
        merged_learnings(args, gs).len(),
        joined(views(args.guides@), ", "@),
    ) + part_if(
        inherits(gs, g),
        "\n\n--- HOOK SUGGESTIONS ---\n"@ + inherited_text(gs, g),
    )
}

/// What `guide_merge` does and answers.
#[verifier::opaque]
pub open spec fn guide_merge(d: DispatcherView, args: GuideMergeArgs) -> Effect {
    let names = views(args.guides@);
    let gone = names.filter(|n: Seq<char>| guide_of(d.store.guides, n) is None);
    if names.len() < 2 {
        (d, err_view("'guides' must be an array with at least 2 guide names"@))
    } else if blank(args.guide@) || blank(args.category@) {
        (d, err_view("'guide' and 'category' parameters are required"@))
    } else if gone.len() > 0 {
        (d, err_view(no_guides_text(joined(gone, ", "@))))
    } else {
        let gs = guides_named(d.store.guides, names);
        let g = merged_guide(args, gs, d.store.now);
        (
            DispatcherView {
                store: StateView {
                    memories: renamed_first(
                        d.store.memories,
                        names,
                        g.name,
                        names.len() as int,
                    ),
                    guides: with_guide(
                        without_first(d.store.guides, names, names.len() as int),
                        g,
                    ),
                    ..d.store
                },
                ..d
            },
            ok_view(
                guide_merge_text(args, gs, g),
                ToolDataView::GuidesMerged { guide: g.name, merged: names },
            ),
        )
    }
}

fn gather<F: Fn(&Guide) -> Vec<String>>(
    gs: &Vec<Guide>,
    f: F,
    Ghost(pick): Ghost<spec_fn(GuideView) -> Seq<Seq<char>>>,
) -> (r: Vec<String>)
    requires
        forall|g: &Guide| #[trigger] call_requires(f, (g,)),
        forall|g: &Guide, v: Vec<String>| #[trigger]
            call_ensures(f, (g,), v) ==> views(v@) == pick(g@),
    ensures
        views(r@) == gathered(views(gs@), pick),
{
    let ghost vs = views(gs@);
    let mut out: Vec<String> = Vec::new();
    let mut i: usize = 0;
    proof {
        assert(vs.take(0) =~= Seq::empty());
        assert(views(out@) =~= Seq::empty());
    }
    while i < gs.len()
        invariant
            i <= gs@.len(),
            vs == views(gs@),
            views(out@) == gathered(vs.take(i as int), pick),
            forall|g: &Guide| #[trigger] call_requires(f, (g,)),
            forall|g: &Guide, v: Vec<String>| #[trigger]
                call_ensures(f, (g,), v) ==> views(v@) == pick(g@),
        decreases gs@.len() - i,
    {
        proof {
            let t = vs.take(i + 1);
            assert(t.drop_last() =~= vs.take(i as int));
            assert(t.last() == gs@[i as int]@);
        }
        let more = f(&gs[i]);
        out = add_all(&out, &more);
        i += 1;
    }
    proof {
        assert(vs.take(vs.len() as int) =~= vs);
    }
    out
}

fn gather_sources(gs: &Vec<Guide>) -> (r: Vec<EntityId>)
    ensures
        r@ == gathered_sources(views(gs@)),
{
    let ghost vs = views(gs@);
    let mut out: Vec<EntityId> = Vec::new();
    let mut i: usize = 0;
    proof {
        assert(vs.take(0) =~= Seq::empty());
        assert(out@ =~= Seq::empty());
    }
    while i < gs.len()
        invariant
            i <= gs@.len(),
            vs == views(gs@),
            out@ == gathered_sources(vs.take(i as int)),
        decreases gs@.len() - i,
    {
        proof {
            let t = vs.take(i + 1);
            assert(t.drop_last() =~= vs.take(i as int));
            assert(t.last() == gs@[i as int]@);
        }
        let mut more = clone_ids(&gs[i].source_memories);
        out.append(&mut more);
        i += 1;
    }
    proof {
        assert(vs.take(vs.len() as int) =~= vs);
    }
    out
}

fn dedup_ids(ids: &Vec<EntityId>) -> (r: Vec<EntityId>)
    ensures
        r@ == distinct_ids(ids@),
{
    let mut out: Vec<EntityId> = Vec::new();
    let mut i: usize = 0;
    proof {
        assert(ids@.take(0) =~= Seq::empty());
        assert(out@ =~= Seq::empty());
    }
    while i < ids.len()
        invariant
            i <= ids@.len(),
            out@ == distinct_ids(ids@.take(i as int)),
        decreases ids@.len() - i,
    {
        proof {
            let t = ids@.take(i + 1);
            assert(t.drop_last() =~= ids@.take(i as int));
            assert(t.last() == ids@[i as int]);
        }
        if !has_entity(&out, ids[i]) {
            out.push(ids[i]);
        }
        i += 1;
    }
    proof {
        assert(ids@.take(ids@.len() as int) =~= ids@);
    }
    out
}

fn dedup(list: &Vec<String>) -> (r: Vec<String>)
    ensures
        views(r@) == distinct_texts(views(list@)),
{
    let mut out: Vec<String> = Vec::new();
    proof {
        assert(views(out@) =~= Seq::empty());
    }
    add_texts(&mut out, list);
    out
}

proof fn lemma_total_usage_grows(gs: Seq<GuideView>, n: int)
    requires
        0 <= n <= gs.len(),
    ensures
        0 <= total_usage(gs.take(n)) <= total_usage(gs),
    decreases gs.len(),
{
    if n == gs.len() {
        assert(gs.take(n) =~= gs);
        if gs.len() > 0 {
            lemma_total_usage_grows(gs.drop_last(), n - 1);
        }
    } else {
        lemma_total_usage_grows(gs.drop_last(), n);
        assert(gs.drop_last().take(n) =~= gs.take(n));
    }
}

fn sum_usage(gs: &Vec<Guide>) -> (r: u32)
    requires
        total_usage(views(gs@)) <= u32::MAX,
    ensures
        r == total_usage(views(gs@)),
{
    let ghost vs = views(gs@);
    let mut n: u32 = 0;
    let mut i: usize = 0;
    proof {
        assert(vs.take(0) =~= Seq::empty());
    }
    while i < gs.len()
        invariant
            i <= gs@.len(),
            vs == views(gs@),
            total_usage(vs) <= u32::MAX,
            n == total_usage(vs.take(i as int)),
        decreases gs@.len() - i,
    {
        proof {
            let t = vs.take(i + 1);
            assert(t.drop_last() =~= vs.take(i as int));
            assert(t.last() == gs@[i as int]@);
            lemma_total_usage_grows(vs, i + 1);
        }
        n = n + gs[i].usage_count;
        i += 1;
    }
    proof {
        assert(vs.take(vs.len() as int) =~= vs);
    }
    n
}

fn contexts_for(args: &GuideMergeArgs, gs: &Vec<Guide>) -> (r: Vec<String>)
    ensures
        views(r@) == merged_contexts(*args, views(gs@)),
{
    match &args.contexts {
        Some(c) => clone_all(c),
        None => {
            let all = gather(
                gs,
                |g: &Guide| -> (v: Vec<String>)
                    ensures
                        views(v@) == g@.contexts
                    { clone_all(&g.contexts) },
                Ghost(|g: GuideView| g.contexts),
            );
            dedup(&all)
        },
    }
}

fn learnings_for(args: &GuideMergeArgs, gs: &Vec<Guide>) -> (r: Vec<String>)
    ensures
        views(r@) == merged_learnings(*args, views(gs@)),
{
    match &args.learnings {
        Some(c) => clone_all(c),
        None => {
            let all = gather(
                gs,
                |g: &Guide| -> (v: Vec<String>)
                    ensures
                        views(v@) == g@.learnings
                    { clone_all(&g.learnings) },
                Ghost(|g: GuideView| g.learnings),
            );
            dedup(&all)
        },
    }
}

fn gather_checks(gs: &Vec<Guide>) -> (r: Vec<String>)
    ensures
        views(r@) == gathered(views(gs@), |g: GuideView| g.validated_by),
{
    gather(
        gs,
        |g: &Guide| -> (v: Vec<String>)
            ensures
                views(v@) == g@.validated_by
            { clone_all(&g.validated_by) },
        Ghost(|g: GuideView| g.validated_by),
    )
}

fn guide_from_merge(
    args: &GuideMergeArgs,
    gs: &Vec<Guide>,
    contexts: &Vec<String>,
    learnings: &Vec<String>,
    now: u64,
) -> (r: Guide)
    requires
        total_usage(views(gs@)) <= u32::MAX,
        views(contexts@) == merged_contexts(*args, views(gs@)),
        views(learnings@) == merged_learnings(*args, views(gs@)),
    ensures
        r@ == merged_guide(*args, views(gs@), now),
{
    let mut g = create_guide(
        args.guide.as_str(),
        args.category.as_str(),
        text_or_else(&args.description, "").as_str(),
        contexts,
        learnings,
        now,
    );
    let patterns = gather(
        gs,
        |x: &Guide| -> (v: Vec<String>)
            ensures
                views(v@) == x@.anti_patterns
            { clone_all(&x.anti_patterns) },
        Ghost(|x: GuideView| x.anti_patterns),
    );
    let pitfalls = gather(
        gs,
        |x: &Guide| -> (v: Vec<String>)
            ensures
                views(v@) == x@.pitfalls
            { clone_all(&x.pitfalls) },
        Ghost(|x: GuideView| x.pitfalls),
    );
    g.usage_count = sum_usage(gs);
    g.anti_patterns = dedup(&patterns);
    g.pitfalls = dedup(&pitfalls);
    g.source_memories = dedup_ids(&gather_sources(gs));
    g.validated_by = dedup(&gather_checks(gs));
    proof {
        assert(g@ =~= merged_guide(*args, views(gs@), now));
    }
    g
}

fn inherited_string(gs: &Vec<Guide>, g: &Guide) -> (r: String)
    ensures
        r@ == part_if(
            inherits(views(gs@), g@),
            "\n\n--- HOOK SUGGESTIONS ---\n"@ + inherited_text(views(gs@), g@),
        ),
{
    let sources: usize = gather_sources(gs).len();
    let all_checks = gather_checks(gs);
    proof {
        assert(views(all_checks@).len() == all_checks@.len());
        assert(views(g.anti_patterns@).len() == g.anti_patterns@.len());
        assert(views(g.pitfalls@).len() == g.pitfalls@.len());
    }
    let checks: usize = all_checks.len();
    let patterns: usize = g.anti_patterns.len();
    let pitfalls: usize = g.pitfalls.len();
    if patterns == 0 && pitfalls == 0 && sources == 0 && checks == 0 {
        return "".to_owned();
    }
    let mut part = if patterns > 0 {
        inherited_patterns(patterns)
    } else {
        "".to_owned()
    };
    if pitfalls > 0 {
        part.append(inherited_pitfalls(pitfalls).as_str());
    } else {
        part.append("");
    }
    if sources > 0 {
        part.append(linked_sources(sources).as_str());
    } else {
        part.append("");
    }
    if checks > 0 {
        part.append(linked_checks(checks).as_str());
    } else {
        part.append("");
    }
    let mut out = "\n\n--- HOOK SUGGESTIONS ---\n".to_owned();
    out.append(part.as_str());
    out
}

fn rename_each(repo: &mut CanonicalRepository, names: &Vec<String>, to: &str)
    requires
        old(repo)@.wf(),
        old(repo)@.room(names@.len() as int + 1),
    ensures
        final(repo)@.wf(),
        final(repo)@ == (StateView {
            memories: renamed_first(
                old(repo)@.memories,
                views(names@),
                to@,
                names@.len() as int,
            ),
            ..old(repo)@
        }),
{
    let ghost start = repo@;
    let ghost ns = views(names@);
    let mut i: usize = 0;
    while i < names.len()
        invariant
            i <= names@.len(),
            ns == views(names@),
            start.room(names@.len() as int + 1),
            repo@.wf(),
            memories_room(repo@.memories, names@.len() as int + 1 - i),
            repo@ == (StateView {
                memories: renamed_first(start.memories, ns, to@, i as int),
                ..start
            }),
        decreases names@.len() - i,
    {
        proof {
            assert(ns[i as int] == names@[i as int]@);
            crate::canonical::laws::lemma_room_mono(start, 1, names@.len() as int + 1);
            assert forall|k: int| 0 <= k < repo@.memories.len() implies (
            #[trigger] repo@.memories[k]).room(1) by {
                assert(repo@.memories[k].room(names@.len() as int + 1 - i));
            }
            assert(repo@.room(1));
            lemma_renamed_room(repo@.memories, ns[i as int], to@, names@.len() as int - i);
        }
        rename_guide_in_memories(repo, names[i].as_str(), to);
        i += 1;
    }
}

fn delete_each(repo: &mut CanonicalRepository, names: &Vec<String>)
    requires
        old(repo)@.wf(),
    ensures
        final(repo)@.wf(),
        final(repo)@ == (StateView {
            guides: without_first(old(repo)@.guides, views(names@), names@.len() as int),
            ..old(repo)@
        }),
{
    let ghost start = repo@;
    let ghost ns = views(names@);
    let mut i: usize = 0;
    while i < names.len()
        invariant
            i <= names@.len(),
            ns == views(names@),
            repo@.wf(),
            repo@ == (StateView { guides: without_first(start.guides, ns, i as int), ..start }),
        decreases names@.len() - i,
    {
        proof {
            assert(ns[i as int] == names@[i as int]@);
        }
        repo.delete_guide(names[i].as_str());
        i += 1;
    }
}

/// Finds the guides of names, and the names that stand for none.
pub fn find_guides(repo: &CanonicalRepository, names: &Vec<String>) -> (r: (Vec<Guide>, Vec<String>))
    ensures
        views(r.0@) == guides_named(repo@.guides, views(names@)),
        views(r.1@) == views(names@).filter(
            |n: Seq<char>| guide_of(repo@.guides, n) is None,
        ),
{
    let ghost all = repo@.guides;
    let ghost ns = views(names@);
    let ghost lost = |n: Seq<char>| guide_of(all, n) is None;
    let mut gs: Vec<Guide> = Vec::new();
    let mut gone: Vec<String> = Vec::new();
    let mut i: usize = 0;
    proof {
        reveal(Seq::filter);
        assert(ns.take(0) =~= Seq::empty());
        assert(views(gs@) =~= Seq::empty());
        assert(views(gone@) =~= ns.take(0).filter(lost));
    }
    while i < names.len()
        invariant
            i <= names@.len(),
            ns == views(names@),
            all == repo@.guides,
            lost == (|n: Seq<char>| guide_of(all, n) is None),
            views(gs@) == guides_named(all, ns.take(i as int)),
            views(gone@) == ns.take(i as int).filter(lost),
        decreases names@.len() - i,
    {
        broadcast use crate::text::lemma_views_push;

        proof {
            let t = ns.take(i + 1);
            assert(t.drop_last() =~= ns.take(i as int));
            assert(t.last() == names@[i as int]@);
            assert(ns[i as int] == names@[i as int]@);
            lemma_filter_step(ns, i as int, lost);
        }
        match repo.get_guide(names[i].as_str()) {
            Some(g) => {
                gs.push(g);
            },
            None => {
                gone.push(names[i].clone());
            },
        }
        i += 1;
    }
    proof {
        assert(ns.take(ns.len() as int) =~= ns);
    }
    (gs, gone)
}

/// `guide_merge`: one guide takes the place of several.
pub fn exec_guide_merge(disp: &mut Dispatcher, args: &GuideMergeArgs) -> (r: ToolResult)
    requires
        old(disp)@.wf(),
        old(disp)@.store.room(args.guides@.len() as int + 1),
        total_usage(guides_named(old(disp)@.store.guides, views(args.guides@))) <= u32::MAX,
    ensures
        final(disp)@.wf(),
        (final(disp)@, r@) == guide_merge(old(disp)@, *args),
{
    proof {
        reveal(guide_merge);
        assert(views(args.guides@).len() == args.guides@.len());
    }
    if args.guides.len() < 2 {
        return err_result("'guides' must be an array with at least 2 guide names");
    }
    if is_blank(args.guide.as_str()) || is_blank(args.category.as_str()) {
        return err_result("'guide' and 'category' parameters are required");
    }
    let (gs, gone) = find_guides(&disp.repo, &args.guides);
    proof {
        assert(views(gone@).len() == gone@.len());
    }
    if gone.len() > 0 {
        return err_result(no_guides(join(&gone, ", ").as_str()).as_str());
    }
    let contexts = contexts_for(args, &gs);
    let learnings = learnings_for(args, &gs);
    let g = guide_from_merge(args, &gs, &contexts, &learnings, disp.repo.now_millis());
    proof {
        assert(views(contexts@).len() == contexts@.len());
        assert(views(learnings@).len() == learnings@.len());
    }
    rename_each(&mut disp.repo, &args.guides, g.name.as_str());
    delete_each(&mut disp.repo, &args.guides);
    disp.repo.put_guide(&g);
    let mut text = guides_merged(
        args.guides.len(),
        g.name.as_str(),
        g.category.as_str(),
        g.usage_count as u64,
        contexts.len(),
        learnings.len(),
        join(&args.guides, ", ").as_str(),
    );
    text.append(inherited_string(&gs, &g).as_str());
    ok_result(text, ToolData::GuidesMerged { guide: g.name, merged: clone_all(&args.guides) })
}

} // verus!
