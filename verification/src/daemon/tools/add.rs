//! `memory_add`: a new memory, unless one like it is there.

use crate::canonical::laws::{lemma_put_room, lemma_room_mono, lemma_stored_room};
use crate::canonical::repository::{by_id, legacy_id, legacy_name, with_memory};
use crate::compatibility::lemma::privacy::{contains_secret, redact, redacted};
use crate::compatibility::lemma::proactive::{is_teachable, teachable};
use crate::compatibility::lemma::tool_args::{MemoryAddArgs, MemoryEvidence};
use crate::daemon::dispatcher::{Dispatcher, DispatcherView};
use crate::daemon::envelope::{IpcEnvelope, ToolResult};
use crate::daemon::registry::RegistryView;
use crate::daemon::tools::common::{
    answer, description_from, err_result, err_view, fresh_memory, generate_description,
    generate_title, issue, issued, make_memory, new_edge, new_relation, ok_result, ok_view,
    project_from, project_of, scope_string, scope_text, title_from, Outcome,
};
use crate::daemon::tools::data::{ToolData, ToolDataView};
use crate::daemon::tools::detail::part_if;
use crate::digest::{sha256_hex, text_digest};
use crate::domain::command::{DomainCommand, DomainCommandView, DomainResult};
use crate::domain::id::{uuid_text, uuid_to_text, EntityId, OperationId};
use crate::domain::memory::{
    Evidence, EvidenceView, FragmentType, Memory, MemorySource, MemoryView,
};
use crate::domain::relation::RelationType;
use crate::domain::session::SessionView;
use crate::domain::state::{session_of, StateView};
use crate::double::{quotient, ratio};
use crate::figures::{score_string, score_text, two_places, two_places_text};
use crate::lists::{append_each, count, find, first, first_place, select, take_first, written};
use crate::overlap::{overlap, word_overlap};
use crate::text::{dec, decimal_wide, opt_view, same, views, with_texts};
use vstd::prelude::*;

verus! {

/// Whether two texts say so much the same that one of them is not needed.
pub open spec fn alike(a: Seq<char>, b: Seq<char>) -> bool {
    !overlap(a, b).below(ratio(4, 5))
}

pub fn is_alike(a: &str, b: &str) -> (r: bool)
    ensures
        r == alike(a@, b@),
{
    !word_overlap(a, b).is_below(quotient(4, 5))
}

/// Whether two texts are about the same, and not the same text.
pub open spec fn akin(a: Seq<char>, b: Seq<char>) -> bool {
    !overlap(a, b).below(ratio(1, 4)) && overlap(a, b).below(ratio(19, 20))
}

pub fn is_akin(a: &str, b: &str) -> (r: bool)
    ensures
        r == akin(a@, b@),
{
    let o = word_overlap(a, b);
    !o.is_below(quotient(1, 4)) && o.is_below(quotient(19, 20))
}

/// Whether secrets are taken out of what is added.
pub open spec fn is_redacted(args: MemoryAddArgs) -> bool {
    redacted(args.fragment@) != args.fragment@ && !args.confirm
}

/// The text that is kept.
pub open spec fn kept_fragment(args: MemoryAddArgs) -> Seq<char> {
    if is_redacted(args) {
        redacted(args.fragment@)
    } else {
        args.fragment@
    }
}

/// Whether a memory stands in the way of a new text.
pub open spec fn in_the_way(args: MemoryAddArgs, fragment: Seq<char>, m: MemoryView) -> bool {
    &&& m.lifecycle is Live
    &&& args.project is None || m.project is None || m.project->0 == args.project->0@
    &&& alike(fragment, m.fragment)
}

fn stands_in_the_way(args: &MemoryAddArgs, fragment: &str, m: &Memory) -> (r: bool)
    ensures
        r == in_the_way(*args, fragment@, m@),
{
    if !m.lifecycle.is_recallable() {
        return false;
    }
    let in_scope = match (&args.project, &m.project) {
        (Some(p), Some(mp)) => same(mp.as_str(), p.as_str()),
        _ => true,
    };
    in_scope && is_alike(fragment, m.fragment.as_str())
}

/// The type of a new memory: a fact, unless it is named and known.
pub open spec fn type_of(t: Option<Seq<char>>) -> FragmentType {
    match t {
        Some(x) => match FragmentType::named(x) {
            Some(f) => f,
            None => FragmentType::Fact,
        },
        None => FragmentType::Fact,
    }
}

fn type_from(t: &Option<String>) -> (r: FragmentType)
    ensures
        r == type_of(opt_view(*t)),
{
    match t {
        Some(x) => match FragmentType::parse(x.as_str()) {
            Some(f) => f,
            None => FragmentType::Fact,
        },
        None => FragmentType::Fact,
    }
}

/// Who a new memory comes from: the machine, unless it is named and known.
pub open spec fn source_of(t: Option<Seq<char>>) -> MemorySource {
    match t {
        Some(x) => match MemorySource::named(x) {
            Some(f) => f,
            None => MemorySource::Ai,
        },
        None => MemorySource::Ai,
    }
}

fn source_from(t: &Option<String>) -> (r: MemorySource)
    ensures
        r == source_of(opt_view(*t)),
{
    match t {
        Some(x) => match MemorySource::parse(x.as_str()) {
            Some(f) => f,
            None => MemorySource::Ai,
        },
        None => MemorySource::Ai,
    }
}

/// The evidence of a new memory, with the digest of its snippet.
pub open spec fn evidence_of(e: Option<MemoryEvidence>) -> Seq<EvidenceView> {
    match e {
        Some(x) => seq![
            EvidenceView {
                file: x.file@,
                symbol: opt_view(x.symbol),
                snippet: x.snippet@,
                snippet_sha256: text_digest(x.snippet@),
            },
        ],
        None => Seq::empty(),
    }
}

fn evidence_from(e: &Option<MemoryEvidence>) -> (r: Vec<Evidence>)
    ensures
        views(r@) == evidence_of(*e),
{
    let mut out: Vec<Evidence> = Vec::new();
    if let Some(x) = e {
        out.push(
            Evidence {
                file: x.file.clone(),
                symbol: x.symbol.clone(),
                snippet: x.snippet.clone(),
                snippet_sha256: sha256_hex(x.snippet.as_str()),
            },
        );
    }
    proof {
        assert(views(out@) =~= evidence_of(*e));
    }
    out
}

/// The memory that is added.
pub open spec fn added_memory(op: OperationId, args: MemoryAddArgs, now: u64) -> MemoryView {
    let fragment = kept_fragment(args);
    let kind = type_of(opt_view(args.fragment_type));
    MemoryView {
        fragment_type: kind,
        source: source_of(opt_view(args.source)),
        evidence: evidence_of(args.evidence),
        distill_candidate: is_teachable(kind),
        ..fresh_memory(
            op,
            match args.title {
                Some(t) => t@,
                None => title_from(fragment),
            },
            fragment,
            match args.description {
                Some(t) => t@,
                None => description_from(fragment),
            },
            project_of(opt_view(args.project)),
            now,
        )
    }
}

fn memory_to_add(envelope: &IpcEnvelope, args: &MemoryAddArgs, fragment: &String, now: u64) -> (r:
    Memory)
    requires
        fragment@ == kept_fragment(*args),
    ensures
        r@ == added_memory(envelope.operation_id, *args, now),
{
    let title = match &args.title {
        Some(t) => t.clone(),
        None => generate_title(fragment.as_str()),
    };
    let description = match &args.description {
        Some(t) => t.clone(),
        None => generate_description(fragment.as_str()),
    };
    let kind = type_from(&args.fragment_type);
    let mut m = make_memory(
        envelope,
        title,
        fragment.clone(),
        description,
        project_from(&args.project),
        now,
    );
    m.fragment_type = kind;
    m.source = source_from(&args.source);
    m.evidence = evidence_from(&args.evidence);
    m.distill_candidate = teachable(kind);
    proof {
        assert(m@ =~= added_memory(envelope.operation_id, *args, now));
    }
    m
}

/// The memory as it is linked to a session.
pub open spec fn in_session(m: MemoryView, s: SessionView) -> MemoryView {
    MemoryView {
        session_id: Some(uuid_text(s.handle.0)),
        task_type: Some(
            match s.task_type {
                Some(t) => t,
                None => ""@,
            },
        ),
        ..m
    }.document_advanced()
}

/// The sessions with a new memory noted in the one of the channel.
pub open spec fn noted(r: RegistryView, env: IpcEnvelope, name: Seq<char>) -> RegistryView {
    r.with_active_change(
        env.frontend_id,
        env.channel_id,
        |s: SessionView|
            SessionView { memories_created: with_texts(s.memories_created, seq![name]), ..s },
    )
}

/// A new memory is linked to the session of the channel, if one is going on.
pub open spec fn linked(d: DispatcherView, env: IpcEnvelope, m: MemoryView) -> DispatcherView {
    match d.registry.active(env.frontend_id, env.channel_id) {
        Some(h) => DispatcherView {
            store: StateView {
                memories: with_memory(
                    d.store.memories,
                    in_session(m, session_of(d.registry.sessions, h)),
                ),
                ..d.store
            },
            registry: noted(d.registry, env, legacy_name(m)),
            ..d
        },
        None => d,
    }
}

fn link(disp: &mut Dispatcher, envelope: &IpcEnvelope, m: &Memory)
    requires
        old(disp)@.wf(),
        old(disp)@.store.room(1),
        m@.room(2),
    ensures
        final(disp)@.wf(),
        final(disp)@ == linked(old(disp)@, *envelope, m@),
        final(disp)@.store.room(1),
{
    let ghost before = disp@;
    if let Some(h) = disp.registry.resolve_session(envelope.frontend_id, envelope.channel_id) {
        let mut x = m.clone();
        let ghost s = session_of(disp@.registry.sessions, h);
        let task_type = match disp.registry.session(h) {
            Some(s) => match &s.task_type {
                Some(t) => t.clone(),
                None => "".to_owned(),
            },
            None => "".to_owned(),
        };
        let mut ids: Vec<String> = Vec::new();
        ids.push(legacy_id(m));
        proof {
            assert(views(ids@) =~= seq![legacy_name(m@)]);
        }
        disp.registry.track_memories_created(envelope.frontend_id, envelope.channel_id, &ids);
        x.session_id = Some(uuid_to_text(h.0));
        x.task_type = Some(task_type);
        x.advance_document();
        proof {
            assert(x@ =~= in_session(m@, s));
            lemma_put_room(disp@.store, x@, 1);
        }
        disp.repo.put_memory_direct(&x);
    }
}

/// A memory like it is there.
pub open spec fn similar_text(sid: Seq<char>, title: Seq<char>, same: Seq<char>) -> Seq<char> {
    "A similar memory already exists ["@ + sid + "]: \""@ + title + "\"\nUse memory_update on ["@ + same + "] if you want to modify it."@
}

pub fn similar(sid: &str, title: &str, same: &str) -> (r: String)
    ensures
        r@ == similar_text(sid@, title@, same@),
{
    let mut out = "A similar memory already exists [".to_owned();
    out.append(sid);
    out.append("]: \"");
    out.append(title);
    out.append("\"\nUse memory_update on [");
    out.append(same);
    out.append("] if you want to modify it.");
    out
}

/// What was added.
pub open spec fn added_head_text(
    id: Seq<char>,
    scope: Seq<char>,
    title: Seq<char>,
    description: Seq<char>,
) -> Seq<char> {
    "Added fragment ["@ + id + "]"@ + scope + ": \""@ + title + "\"\nSummary: "@ + description
}

pub fn added_head(id: &str, scope: &str, title: &str, description: &str) -> (r: String)
    ensures
        r@ == added_head_text(id@, scope@, title@, description@),
{
    let mut out = "Added fragment [".to_owned();
    out.append(id);
    out.append("]");
    out.append(scope);
    out.append(": \"");
    out.append(title);
    out.append("\"\nSummary: ");
    out.append(description);
    out
}

/// It may become a guide.
pub open spec fn candidate_note_text(kind: Seq<char>) -> Seq<char> {
    "\nFlagged as distill candidate (type: "@ + kind + ")."@
}

pub fn candidate_note(kind: &str) -> (r: String)
    ensures
        r@ == candidate_note_text(kind@),
{
    let mut out = "\nFlagged as distill candidate (type: ".to_owned();
    out.append(kind);
    out.append(").");
    out
}

/// Why two memories were linked.
pub open spec fn overlap_note_text(score: Seq<char>) -> Seq<char> {
    "Auto-linked: topic overlap ("@ + score + ")"@
}

pub fn overlap_note(score: &str) -> (r: String)
    ensures
        r@ == overlap_note_text(score@),
{
    let mut out = "Auto-linked: topic overlap (".to_owned();
    out.append(score);
    out.append(")");
    out
}

/// The memory that was linked.
pub open spec fn strongest_line_text(id: Seq<char>, title: Seq<char>, confidence: Seq<char>) -> Seq<char> {
    "\n  ["@ + id + "] \""@ + title + "\" ("@ + confidence + ") — AUTO-LINKED"@
}

pub fn strongest_line(id: &str, title: &str, confidence: &str) -> (r: String)
    ensures
        r@ == strongest_line_text(id@, title@, confidence@),
{
    let mut out = "\n  [".to_owned();
    out.append(id);
    out.append("] \"");
    out.append(title);
    out.append("\" (");
    out.append(confidence);
    out.append(") — AUTO-LINKED");
    out
}

/// A memory on the same topic.
pub open spec fn akin_line_text(id: Seq<char>, title: Seq<char>, confidence: Seq<char>) -> Seq<char> {
    "\n  ["@ + id + "] \""@ + title + "\" ("@ + confidence + ")"@
}

pub fn akin_line(id: &str, title: &str, confidence: &str) -> (r: String)
    ensures
        r@ == akin_line_text(id@, title@, confidence@),
{
    let mut out = "\n  [".to_owned();
    out.append(id);
    out.append("] \"");
    out.append(title);
    out.append("\" (");
    out.append(confidence);
    out.append(")");
    out
}

/// What to do with it.
pub open spec fn promote_note_text(kind: Seq<char>) -> Seq<char> {
    "\n\nSUGGESTED ACTIONS:\n- This is a "@ + kind + ". Consider guide_distill to promote it into a reusable skill."@
}

pub fn promote_note(kind: &str) -> (r: String)
    ensures
        r@ == promote_note_text(kind@),
{
    let mut out = "\n\nSUGGESTED ACTIONS:\n- This is a ".to_owned();
    out.append(kind);
    out.append(". Consider guide_distill to promote it into a reusable skill.");
    out
}

/// How many may become guides.
pub open spec fn candidates_note_text(n: nat) -> Seq<char> {
    "\n--- SUGGESTIONS ---\n  [*] "@ + dec(n) + " memories marked as distill candidates. Consider promoting them to guides.\n---"@
}

pub fn candidates_note(n: u128) -> (r: String)
    ensures
        r@ == candidates_note_text(n as nat),
{
    let mut out = "\n--- SUGGESTIONS ---\n  [*] ".to_owned();
    out.append(decimal_wide(n).as_str());
    out.append(" memories marked as distill candidates. Consider promoting them to guides.\n---");
    out
}

/// Secrets were taken out.
pub const REDACTED_NOTE: &'static str = "\n\n⚠️ Privacy: potential secret(s) detected and auto-redacted. Use confirm: true to store as-is.";

pub open spec fn line_akin(m: MemoryView) -> Seq<char> {
    akin_line_text(legacy_name(m), m.title, score_text(m.confidence))
}

/// The memories on the same topic, as text, where the first was linked.
pub open spec fn related_text(ms: Seq<MemoryView>) -> Seq<char> {
    "\n\nRelated memories (auto-linked to strongest match):"@ + strongest_line_text(
        legacy_name(ms[0]),
        ms[0].title,
        score_text(ms[0].confidence),
    ) + written(ms.drop_first(), |m: MemoryView| line_akin(m))
}

fn related_string(ms: &Vec<Memory>) -> (r: String)
    requires
        ms@.len() > 0,
    ensures
        r@ == related_text(views(ms@)),
{
    let ghost vs = views(ms@);
    let mut out = "\n\nRelated memories (auto-linked to strongest match):".to_owned();
    out.append(
        strongest_line(
            legacy_id(&ms[0]).as_str(),
            ms[0].title.as_str(),
            score_string(ms[0].confidence).as_str(),
        ).as_str(),
    );
    let rest = crate::lists::take_page(ms, 1, ms.len());
    proof {
        assert(vs[0] == ms@[0]@);
        assert(views(rest@) =~= vs.drop_first());
    }
    append_each(
        &mut out,
        &rest,
        |m: &Memory| -> (t: String)
            ensures
                t@ == line_akin(m@)
            {
                akin_line(
                    legacy_id(m).as_str(),
                    m.title.as_str(),
                    score_string(m.confidence).as_str(),
                )
            },
        Ghost(|m: MemoryView| line_akin(m)),
    );
    out
}

/// The memories on the same topic: the first five.
pub open spec fn kin(all: Seq<MemoryView>, id: EntityId, fragment: Seq<char>) -> Seq<MemoryView> {
    first(
        all.filter(
            |m: MemoryView| m.lifecycle is Live && m.id != id && akin(fragment, m.fragment),
        ),
        5,
    )
}

/// The note of the edge to a memory on the same topic.
pub open spec fn kin_note(fragment: Seq<char>, m: MemoryView) -> Seq<char> {
    overlap_note_text(two_places(overlap(fragment, m.fragment).hundredths()))
}

/// A new memory is linked to the first on the same topic, if there is one and
/// the store allows it.
pub open spec fn auto_linked(
    d: DispatcherView,
    env: IpcEnvelope,
    id: EntityId,
    fragment: Seq<char>,
    ms: Seq<MemoryView>,
) -> (DispatcherView, bool) {
    if ms.len() == 0 {
        (d, false)
    } else {
        let (after, r) = issued(
            d,
            env,
            1,
            DomainCommandView::Relate {
                relation: new_edge(
                    env.operation_id,
                    id,
                    ms[0].id,
                    RelationType::RelatedTo,
                    Some(kin_note(fragment, ms[0])),
                ),
            },
        );
        (after, r is Ok)
    }
}

fn auto_link(
    disp: &mut Dispatcher,
    envelope: &IpcEnvelope,
    id: EntityId,
    fragment: &str,
    ms: &Vec<Memory>,
) -> (r: bool)
    requires
        old(disp)@.wf(),
        old(disp)@.store.room(1),
    ensures
        final(disp)@.wf(),
        (final(disp)@, r) == auto_linked(old(disp)@, *envelope, id, fragment@, views(ms@)),
{
    proof {
        assert(views(ms@).len() == ms@.len());
    }
    if ms.len() == 0 {
        return false;
    }
    proof {
        assert(views(ms@)[0] == ms@[0]@);
    }
    let score = two_places_text(word_overlap(fragment, ms[0].fragment.as_str()).to_hundredths());
    let note = overlap_note(score.as_str());
    let relation = new_relation(envelope, id, ms[0].id, RelationType::RelatedTo, Some(note));
    match issue(disp, envelope, 1, &DomainCommand::Relate { relation }) {
        Ok(_) => true,
        Err(_) => false,
    }
}

/// How many memories may become guides, the new one counted in.
pub open spec fn candidates(all: Seq<MemoryView>) -> nat {
    all.filter(|m: MemoryView| m.distill_candidate && m.lifecycle is Live).len() + 1
}

/// What is said of a memory that was added.
pub open spec fn added_text(
    args: MemoryAddArgs,
    m: MemoryView,
    ms: Seq<MemoryView>,
    is_linked: bool,
    n: nat,
) -> Seq<char> {
    added_head_text(legacy_name(m), scope_text(m.project), m.title, m.description) + part_if(
        m.distill_candidate,
        candidate_note_text(m.fragment_type.name()),
    ) + part_if(is_redacted(args), REDACTED_NOTE@) + part_if(is_linked, related_text(ms)) + part_if(
        is_teachable(m.fragment_type),
        promote_note_text(m.fragment_type.name()),
    ) + part_if(n >= 3, candidates_note_text(n))
}

fn added_string(
    args: &MemoryAddArgs,
    m: &Memory,
    ms: &Vec<Memory>,
    is_linked: bool,
    n: u128,
    redacts: bool,
) -> (r: String)
    requires
        is_linked ==> ms@.len() > 0,
        redacts == is_redacted(*args),
    ensures
        r@ == added_text(*args, m@, views(ms@), is_linked, n as nat),
{
    let mut out = added_head(
        legacy_id(m).as_str(),
        scope_string(&m.project).as_str(),
        m.title.as_str(),
        m.description.as_str(),
    );
    if m.distill_candidate {
        out.append(candidate_note(m.fragment_type.as_str()).as_str());
    } else {
        out.append("");
    }
    if redacts {
        out.append(REDACTED_NOTE);
    } else {
        out.append("");
    }
    if is_linked {
        out.append(related_string(ms).as_str());
    } else {
        out.append("");
    }
    if teachable(m.fragment_type) {
        out.append(promote_note(m.fragment_type.as_str()).as_str());
    } else {
        out.append("");
    }
    if n >= 3 {
        out.append(candidates_note(n).as_str());
    } else {
        out.append("");
    }
    out
}

/// What comes of a memory that nothing stands in the way of.
pub open spec fn add_new(d: DispatcherView, env: IpcEnvelope, args: MemoryAddArgs) -> Outcome {
    let m = added_memory(env.operation_id, args, d.store.now);
    let all = by_id(d.store.memories);
    let (d1, r) = issued(
        d,
        env,
        0,
        DomainCommandView::AddMemory { memory: m, session: None },
    );
    match r {
        Err(e) => (d1, Err(e)),
        Ok(_) => {
            let ms = kin(all, m.id, m.fragment);
            let (d2, is_linked) = auto_linked(linked(d1, env, m), env, m.id, m.fragment, ms);
            (
                d2,
                Ok(
                    ok_view(
                        added_text(args, m, ms, is_linked, candidates(all)),
                        ToolDataView::Added { id: legacy_name(m) },
                    ),
                ),
            )
        },
    }
}

/// What `memory_add` answers.
#[verifier::opaque]
pub open spec fn memory_add(d: DispatcherView, env: IpcEnvelope, args: MemoryAddArgs) -> Outcome {
    let all = by_id(d.store.memories);
    let fragment = kept_fragment(args);
    let i = first_place(all, |m: MemoryView| in_the_way(args, fragment, m), 0);
    if i < all.len() {
        (
            d,
            Ok(
                err_view(
                    similar_text(legacy_name(all[i]), all[i].title, legacy_name(all[i])),
                ),
            ),
        )
    } else {
        add_new(d, env, args)
    }
}

fn exec_add_new(
    disp: &mut Dispatcher,
    envelope: &IpcEnvelope,
    args: &MemoryAddArgs,
    all: &Vec<Memory>,
    fragment: &String,
    redacts: bool,
) -> (r: DomainResult<ToolResult>)
    requires
        old(disp)@.wf(),
        old(disp)@.store.room(2),
        views(all@) == by_id(old(disp)@.store.memories),
        fragment@ == kept_fragment(*args),
        redacts == is_redacted(*args),
    ensures
        final(disp)@.wf(),
        (final(disp)@, answer(r)) == add_new(old(disp)@, *envelope, *args),
{
    let m = memory_to_add(envelope, args, fragment, disp.repo.now_millis());
    let ghost before = disp@;
    let id = m.id;
    let cmd = DomainCommand::AddMemory { memory: m.clone(), session: None };
    proof {
        lemma_room_mono(disp@.store, 1, 2);
        lemma_stored_room(disp@.store, envelope.sub_context(0), cmd@, 1);
    }
    if let Err(e) = issue(disp, envelope, 0, &cmd) {
        return Err(e);
    }
    link(disp, envelope, &m);
    let akin_ms = select(
        all,
        |x: &Memory| -> (b: bool)
            ensures
                b == (x@.lifecycle is Live && x@.id != id && akin(fragment@, x@.fragment))
            {
                x.lifecycle.is_recallable() && x.id != id && is_akin(
                    fragment.as_str(),
                    x.fragment.as_str(),
                )
            },
        Ghost(
            |x: MemoryView| x.lifecycle is Live && x.id != id && akin(fragment@, x.fragment),
        ),
    );
    let ms = take_first(&akin_ms, 5);
    proof {
        assert(views(ms@) == kin(views(all@), id, fragment@));
        assert(views(ms@).len() == ms@.len());
    }
    let is_linked = auto_link(disp, envelope, id, fragment.as_str(), &ms);
    let n: usize = count(
        all,
        |x: &Memory| -> (b: bool)
            ensures
                b == (x@.distill_candidate && x@.lifecycle is Live)
            { x.distill_candidate && x.lifecycle.is_recallable() },
        Ghost(|x: MemoryView| x.distill_candidate && x.lifecycle is Live),
    );
    let text = added_string(args, &m, &ms, is_linked, n as u128 + 1, redacts);
    Ok(ok_result(text, ToolData::Added { id: legacy_id(&m) }))
}

/// `memory_add`: adds a memory, unless a live one in its scope says the same.
/// Secrets are taken out unless the caller insists. The memory is linked to
/// the channel's session and to the first memory on the same topic.
pub fn exec_memory_add(disp: &mut Dispatcher, envelope: &IpcEnvelope, args: &MemoryAddArgs) -> (r:
    DomainResult<ToolResult>)
    requires
        old(disp)@.wf(),
        old(disp)@.store.room(2),
    ensures
        final(disp)@.wf(),
        (final(disp)@, answer(r)) == memory_add(old(disp)@, *envelope, *args),
{
    proof {
        reveal(memory_add);
    }
    let has_secrets = contains_secret(args.fragment.as_str());
    let redacts = has_secrets && !args.confirm;
    let fragment = if redacts {
        redact(args.fragment.as_str())
    } else {
        args.fragment.clone()
    };
    let all = disp.repo.all_memories();
    proof {
        assert(views(all@).len() == all@.len());
    }
    let place = find(
        &all,
        |m: &Memory| -> (b: bool)
            ensures
                b == in_the_way(*args, fragment@, m@)
            { stands_in_the_way(args, fragment.as_str(), m) },
        Ghost(|m: MemoryView| in_the_way(*args, fragment@, m)),
    );
    if let Some(i) = place {
        let sid = legacy_id(&all[i]);
        return Ok(err_result(similar(sid.as_str(), all[i].title.as_str(), sid.as_str()).as_str()));
    }
    exec_add_new(disp, envelope, args, &all, &fragment, redacts)
}

} // verus!
