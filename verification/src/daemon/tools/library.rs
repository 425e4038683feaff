//! `memory_library`: the whole store at a glance.

use crate::canonical::repository::{by_id, edges_by_id, legacy_id, legacy_name};
use crate::compatibility::lemma::tool_args::MemoryLibraryArgs;
use crate::daemon::dispatcher::Dispatcher;
use crate::daemon::envelope::{ToolResult, ToolResultView};
use crate::daemon::tools::common::{format_result, formatted, text_or, text_or_else};
use crate::daemon::tools::data::{
    DistillEntry, DistillEntryView, Hub, HubView, LibraryData, LibraryDataView, LibraryEntry,
    LibraryEntryView, LibraryGuide, LibraryGuideView, RelationFigures, RelationFiguresView,
    Signals, SignalsView, StaleEntry, StaleEntryView, Tally, TallyView, ToolData, ToolDataView,
};
use crate::daemon::tools::detail::part_if;
use crate::daemon::tools::tally::{tally, tally_of};
use crate::dates::DAY;
use crate::domain::guide::{Guide, GuideView};
use crate::domain::id::EntityId;
use crate::domain::memory::{Memory, MemoryView};
use crate::domain::relation::{Relation, RelationView};
use crate::domain::score::Score;
use crate::domain::state::StateView;
use crate::figures::{score_string, score_text};
use crate::lists::{
    append_each, count, mapped, next_page, page, rank, select, take_page, texts, written,
};
use crate::rank::ranked;
use crate::text::{
    dec, decimal, first_chars, lower, lowercase, opt_view, same, take_chars, trim, trimmed, views,
};
use vstd::prelude::*;

verus! {

/// What is looked at.
pub open spec fn focus_of(args: MemoryLibraryArgs) -> Seq<char> {
    text_or(opt_view(args.focus), "full"@)
}

pub open spec fn wants_fragments(f: Seq<char>) -> bool {
    f == "full"@ || f == "stale"@ || f == "duplicates"@ || f == "orphans"@
}

pub open spec fn wants_guides(f: Seq<char>) -> bool {
    f == "full"@ || f == "guides"@
}

pub open spec fn wants_relations(f: Seq<char>) -> bool {
    f == "full"@ || f == "orphans"@
}

pub open spec fn wants_signals(f: Seq<char>) -> bool {
    f == "full"@ || f == "stale"@ || f == "duplicates"@ || f == "distill"@ || f == "guides"@
}

/// How many memories a page holds.
pub open spec fn library_limit(args: MemoryLibraryArgs) -> int {
    match args.limit {
        None => 50,
        Some(n) => if n < 1 {
            1
        } else if n > 200 {
            200
        } else {
            n as int
        },
    }
}

pub open spec fn library_offset(args: MemoryLibraryArgs) -> int {
    match args.offset {
        None => 0,
        Some(n) => n as int,
    }
}

/// Whether a memory is of the project that was asked for.
pub open spec fn is_of(m: MemoryView, project: Option<Seq<char>>) -> bool {
    project is None || (m.project is Some && m.project->0 == lowercase(trimmed(project->0)))
}

/// The memories that are looked at, the most trusted first.
pub open spec fn shelf(s: StateView, project: Option<Seq<char>>) -> Seq<MemoryView> {
    ranked(
        by_id(s.memories).filter(|m: MemoryView| is_of(m, project)),
        |m: MemoryView| (-(m.confidence.0 as int), 0int),
    )
}

/// The age of a memory in days.
pub open spec fn age_of(m: MemoryView, now: u64) -> u64 {
    if now > m.created_at.0 {
        ((now - m.created_at.0) as u64 / DAY) as u64
    } else {
        0
    }
}

fn age_in_days(m: &Memory, now: u64) -> (r: u64)
    ensures
        r == age_of(m@, now),
{
    if now > m.created_at.0 {
        (now - m.created_at.0) / DAY
    } else {
        0
    }
}

/// A memory on the shelf.
pub open spec fn shelf_entry(m: MemoryView, now: u64) -> LibraryEntryView {
    LibraryEntryView {
        id: legacy_name(m),
        title: m.title,
        kind: m.fragment_type.name(),
        project: m.project,
        confidence: m.confidence,
        age_days: age_of(m, now),
        access_count: m.access_count,
        positive_feedback: m.positive_feedback,
        negative_feedback: m.negative_feedback,
        distill_candidate: m.distill_candidate,
        fragment_preview: first_chars(m.fragment, 80),
    }
}

fn entry_of(m: &Memory, now: u64) -> (r: LibraryEntry)
    ensures
        r@ == shelf_entry(m@, now),
{
    LibraryEntry {
        id: legacy_id(m),
        title: m.title.clone(),
        kind: m.fragment_type.as_str().to_owned(),
        project: m.project.clone(),
        confidence: m.confidence,
        age_days: age_in_days(m, now),
        access_count: m.access_count,
        positive_feedback: m.positive_feedback,
        negative_feedback: m.negative_feedback,
        distill_candidate: m.distill_candidate,
        fragment_preview: take_chars(m.fragment.as_str(), 80),
    }
}

/// A guide on the shelf.
pub open spec fn guide_entry(g: GuideView) -> LibraryGuideView {
    LibraryGuideView {
        name: g.name,
        category: g.category,
        usage_count: g.usage_count,
        success_count: g.success_count,
        failure_count: g.failure_count,
        last_used: match g.last_used {
            Some(t) => Some(t.0),
            None => None,
        },
    }
}

fn guide_entries(guides: &Vec<Guide>) -> (r: Vec<LibraryGuide>)
    ensures
        views(r@) == views(guides@).map_values(|g: GuideView| guide_entry(g)),
{
    mapped(
        guides,
        |g: &Guide| -> (e: LibraryGuide)
            ensures
                e@ == guide_entry(g@)
            {
                LibraryGuide {
                    name: g.name.clone(),
                    category: g.category.clone(),
                    usage_count: g.usage_count,
                    success_count: g.success_count,
                    failure_count: g.failure_count,
                    last_used: match g.last_used {
                        Some(t) => Some(t.0),
                        None => None,
                    },
                }
            },
        Ghost(|g: GuideView| guide_entry(g)),
    )
}

// ---------------------------------------------------------------------------
// Edges
// ---------------------------------------------------------------------------

/// How many edges leave a memory.
pub open spec fn out_degree(es: Seq<RelationView>, id: EntityId) -> nat {
    es.filter(|e: RelationView| e.source == id).len()
}

/// How many edges touch a memory.
pub open spec fn degree(es: Seq<RelationView>, id: EntityId) -> nat {
    es.filter(|e: RelationView| e.source == id || e.target == id).len()
}

fn out_degree_of(es: &Vec<Relation>, id: EntityId) -> (r: usize)
    ensures
        r == out_degree(views(es@), id),
{
    count(
        es,
        |e: &Relation| -> (b: bool)
            ensures
                b == (e@.source == id)
            { e.source == id },
        Ghost(|e: RelationView| e.source == id),
    )
}

fn degree_of(es: &Vec<Relation>, id: EntityId) -> (r: usize)
    ensures
        r == degree(views(es@), id),
{
    count(
        es,
        |e: &Relation| -> (b: bool)
            ensures
                b == (e@.source == id || e@.target == id)
            { e.source == id || e.target == id },
        Ghost(|e: RelationView| e.source == id || e.target == id),
    )
}

/// A memory from which many edges leave.
pub open spec fn hub(es: Seq<RelationView>, m: MemoryView) -> HubView {
    HubView { id: legacy_name(m), title: m.title, count: out_degree(es, m.id) as u64 }
}

/// The edges in figures: how many of each type, which memories have none, and
/// which have five or more that leave them.
pub open spec fn edge_figures(ms: Seq<MemoryView>, es: Seq<RelationView>) -> RelationFiguresView {
    RelationFiguresView {
        total: es.len() as usize,
        by_type: tally(es.map_values(|e: RelationView| e.relation_type.name())),
        isolated_fragment_ids: ms.filter(|m: MemoryView| degree(es, m.id) == 0).map_values(
            |m: MemoryView| legacy_name(m),
        ),
        hub_fragments: ms.filter(|m: MemoryView| out_degree(es, m.id) >= 5).map_values(
            |m: MemoryView| hub(es, m),
        ),
    }
}

pub open spec fn no_figures() -> RelationFiguresView {
    RelationFiguresView {
        total: 0,
        by_type: Seq::empty(),
        isolated_fragment_ids: Seq::empty(),
        hub_fragments: Seq::empty(),
    }
}

fn no_edge_figures() -> (r: RelationFigures)
    ensures
        r@ == no_figures(),
{
    let r = RelationFigures {
        total: 0,
        by_type: Vec::new(),
        isolated_fragment_ids: Vec::new(),
        hub_fragments: Vec::new(),
    };
    proof {
        assert(r@ =~= no_figures());
    }
    r
}

fn figures_of_edges(ms: &Vec<Memory>, es: &Vec<Relation>) -> (r: RelationFigures)
    ensures
        r@ == edge_figures(views(ms@), views(es@)),
{
    let ghost ev = views(es@);
    proof {
        assert(ev.len() == es@.len());
    }
    let kinds = texts(
        es,
        |e: &Relation| -> (t: String)
            ensures
                t@ == e@.relation_type.name()
            { e.relation_type.as_str().to_owned() },
        Ghost(|e: RelationView| e.relation_type.name()),
    );
    let alone = select(
        ms,
        |m: &Memory| -> (b: bool)
            ensures
                b == (degree(ev, m@.id) == 0)
            { degree_of(es, m.id) == 0 },
        Ghost(|m: MemoryView| degree(ev, m.id) == 0),
    );
    let isolated_fragment_ids = texts(
        &alone,
        |m: &Memory| -> (t: String)
            ensures
                t@ == legacy_name(m@)
            { legacy_id(m) },
        Ghost(|m: MemoryView| legacy_name(m)),
    );
    let busy = select(
        ms,
        |m: &Memory| -> (b: bool)
            ensures
                b == (out_degree(ev, m@.id) >= 5)
            { out_degree_of(es, m.id) >= 5 },
        Ghost(|m: MemoryView| out_degree(ev, m.id) >= 5),
    );
    let hub_fragments: Vec<Hub> = mapped(
        &busy,
        |m: &Memory| -> (h: Hub)
            ensures
                h@ == hub(ev, m@)
            {
                Hub {
                    id: legacy_id(m),
                    title: m.title.clone(),
                    count: out_degree_of(es, m.id) as u64,
                }
            },
        Ghost(|m: MemoryView| hub(ev, m)),
    );
    RelationFigures {
        total: es.len(),
        by_type: tally_of(&kinds),
        isolated_fragment_ids,
        hub_fragments,
    }
}

// ---------------------------------------------------------------------------
// Signals
// ---------------------------------------------------------------------------

/// The codes of the scores between the fifths of the scale, and of one half.
pub const ONE_FIFTH: i64 = 4_596_373_779_694_328_218;

pub const TWO_FIFTHS: i64 = 4_600_877_379_321_698_714;

pub const THREE_FIFTHS: i64 = 4_603_579_539_098_121_011;

pub const FOUR_FIFTHS: i64 = 4_605_380_978_949_069_210;

pub const HALF: i64 = 4_602_678_819_172_646_912;

/// Which fifth of the scale a confidence is in.
pub open spec fn fifth(c: Score) -> int {
    if c.0 < ONE_FIFTH {
        0
    } else if c.0 < TWO_FIFTHS {
        1
    } else if c.0 < THREE_FIFTHS {
        2
    } else if c.0 < FOUR_FIFTHS {
        3
    } else {
        4
    }
}

fn fifth_of(c: Score) -> (r: u8)
    ensures
        r == fifth(c),
{
    if c.0 < ONE_FIFTH {
        0
    } else if c.0 < TWO_FIFTHS {
        1
    } else if c.0 < THREE_FIFTHS {
        2
    } else if c.0 < FOUR_FIFTHS {
        3
    } else {
        4
    }
}

/// Which span of time an age in days is in: a week, a month, a quarter, or
/// more.
pub open spec fn span(days: u64) -> int {
    if days < 7 {
        0
    } else if days < 30 {
        1
    } else if days < 90 {
        2
    } else {
        3
    }
}

fn span_of(days: u64) -> (r: u8)
    ensures
        r == span(days),
{
    if days < 7 {
        0
    } else if days < 30 {
        1
    } else if days < 90 {
        2
    } else {
        3
    }
}

/// How many memories are in a fifth of the scale.
pub open spec fn in_fifth(ms: Seq<MemoryView>, k: int, name: Seq<char>) -> TallyView {
    TallyView {
        name,
        count: ms.filter(|m: MemoryView| fifth(m.confidence) == k).len() as u64,
    }
}

/// How many memories are of an age.
pub open spec fn in_span(ms: Seq<MemoryView>, now: u64, k: int, name: Seq<char>) -> TallyView {
    TallyView {
        name,
        count: ms.filter(|m: MemoryView| span(age_of(m, now)) == k).len() as u64,
    }
}

fn count_fifth(ms: &Vec<Memory>, k: u8, name: &str) -> (r: Tally)
    ensures
        r@ == in_fifth(views(ms@), k as int, name@),
{
    let n: usize = count(
        ms,
        |m: &Memory| -> (b: bool)
            ensures
                b == (fifth(m@.confidence) == k as int)
            { fifth_of(m.confidence) == k },
        Ghost(|m: MemoryView| fifth(m.confidence) == k as int),
    );
    Tally { name: name.to_owned(), count: n as u64 }
}

fn count_span(ms: &Vec<Memory>, now: u64, k: u8, name: &str) -> (r: Tally)
    ensures
        r@ == in_span(views(ms@), now, k as int, name@),
{
    let n: usize = count(
        ms,
        |m: &Memory| -> (b: bool)
            ensures
                b == (span(age_of(m@, now)) == k as int)
            { span_of(age_in_days(m, now)) == k },
        Ghost(|m: MemoryView| span(age_of(m, now)) == k as int),
    );
    Tally { name: name.to_owned(), count: n as u64 }
}

/// Whether a memory is stale: never read, older than a month, and trusted less
/// than half.
pub open spec fn is_stale(m: MemoryView, now: u64) -> bool {
    m.access_count == 0 && age_of(m, now) > 30 && m.confidence.0 < HALF
}

pub open spec fn stale_entry(m: MemoryView, now: u64) -> StaleEntryView {
    StaleEntryView {
        id: legacy_name(m),
        title: m.title,
        age_days: age_of(m, now),
        confidence: m.confidence,
    }
}

pub open spec fn distill_entry(m: MemoryView) -> DistillEntryView {
    DistillEntryView { id: legacy_name(m), title: m.title, kind: m.fragment_type.name() }
}

/// What the memories need attention for. The names of the counts are in the
/// order of texts.
pub open spec fn signals_of(ms: Seq<MemoryView>, now: u64) -> SignalsView {
    SignalsView {
        confidence_distribution: seq![
            in_fifth(ms, 0, "0.0-0.2"@),
            in_fifth(ms, 1, "0.2-0.4"@),
            in_fifth(ms, 2, "0.4-0.6"@),
            in_fifth(ms, 3, "0.6-0.8"@),
            in_fifth(ms, 4, "0.8-1.0"@),
        ],
        age_distribution: seq![
            in_span(ms, now, 2, "30-90"@),
            in_span(ms, now, 1, "7-30"@),
            in_span(ms, now, 0, "< 7"@),
            in_span(ms, now, 3, "> 90"@),
        ],
        stale_fragments: ms.filter(|m: MemoryView| is_stale(m, now)).map_values(
            |m: MemoryView| stale_entry(m, now),
        ),
        distill_candidates: ms.filter(|m: MemoryView| m.distill_candidate).map_values(
            |m: MemoryView| distill_entry(m),
        ),
        never_accessed_count: ms.filter(|m: MemoryView| m.access_count == 0).len() as u64,
    }
}

fn stale_of(ms: &Vec<Memory>, now: u64) -> (r: Vec<StaleEntry>)
    ensures
        views(r@) == views(ms@).filter(|m: MemoryView| is_stale(m, now)).map_values(
            |m: MemoryView| stale_entry(m, now),
        ),
{
    let stale = select(
        ms,
        |m: &Memory| -> (b: bool)
            ensures
                b == is_stale(m@, now)
            {
                m.access_count == 0 && age_in_days(m, now) > 30 && m.confidence.0 < HALF
            },
        Ghost(|m: MemoryView| is_stale(m, now)),
    );
    mapped(
        &stale,
        |m: &Memory| -> (e: StaleEntry)
            ensures
                e@ == stale_entry(m@, now)
            {
                StaleEntry {
                    id: legacy_id(m),
                    title: m.title.clone(),
                    age_days: age_in_days(m, now),
                    confidence: m.confidence,
                }
            },
        Ghost(|m: MemoryView| stale_entry(m, now)),
    )
}

fn distill_of(ms: &Vec<Memory>) -> (r: Vec<DistillEntry>)
    ensures
        views(r@) == views(ms@).filter(|m: MemoryView| m.distill_candidate).map_values(
            |m: MemoryView| distill_entry(m),
        ),
{
    let candidates = select(
        ms,
        |m: &Memory| -> (b: bool)
            ensures
                b == m@.distill_candidate
            { m.distill_candidate },
        Ghost(|m: MemoryView| m.distill_candidate),
    );
    mapped(
        &candidates,
        |m: &Memory| -> (e: DistillEntry)
            ensures
                e@ == distill_entry(m@)
            {
                DistillEntry {
                    id: legacy_id(m),
                    title: m.title.clone(),
                    kind: m.fragment_type.as_str().to_owned(),
                }
            },
        Ghost(|m: MemoryView| distill_entry(m)),
    )
}

fn make_signals(ms: &Vec<Memory>, now: u64) -> (r: Signals)
    ensures
        r@ == signals_of(views(ms@), now),
{
    let mut confidence_distribution: Vec<Tally> = Vec::new();
    confidence_distribution.push(count_fifth(ms, 0, "0.0-0.2"));
    confidence_distribution.push(count_fifth(ms, 1, "0.2-0.4"));
    confidence_distribution.push(count_fifth(ms, 2, "0.4-0.6"));
    confidence_distribution.push(count_fifth(ms, 3, "0.6-0.8"));
    confidence_distribution.push(count_fifth(ms, 4, "0.8-1.0"));
    let mut age_distribution: Vec<Tally> = Vec::new();
    age_distribution.push(count_span(ms, now, 2, "30-90"));
    age_distribution.push(count_span(ms, now, 1, "7-30"));
    age_distribution.push(count_span(ms, now, 0, "< 7"));
    age_distribution.push(count_span(ms, now, 3, "> 90"));
    let never: usize = count(
        ms,
        |m: &Memory| -> (b: bool)
            ensures
                b == (m@.access_count == 0)
            { m.access_count == 0 },
        Ghost(|m: MemoryView| m.access_count == 0),
    );
    let r = Signals {
        confidence_distribution,
        age_distribution,
        stale_fragments: stale_of(ms, now),
        distill_candidates: distill_of(ms),
        never_accessed_count: never as u64,
    };
    proof {
        let s = signals_of(views(ms@), now);
        assert(r@.confidence_distribution =~= s.confidence_distribution);
        assert(r@.age_distribution =~= s.age_distribution);
    }
    r
}

/// Some memories may become guides.
pub open spec fn candidates_hint_text(n: nat) -> Seq<char> {
    dec(n) + " memories marked as distill candidates. Consider promoting them to guides."@
}

pub fn candidates_hint(n: usize) -> (r: String)
    ensures
        r@ == candidates_hint_text(n as nat),
{
    let mut out = decimal(n as u64);
    out.append(" memories marked as distill candidates. Consider promoting them to guides.");
    out
}

/// What is suggested.
pub open spec fn hints(signals: Option<SignalsView>) -> Seq<Seq<char>> {
    match signals {
        Some(s) => if s.distill_candidates.len() >= 3 {
            seq![candidates_hint_text(s.distill_candidates.len())]
        } else {
            Seq::empty()
        },
        None => Seq::empty(),
    }
}

fn hints_of(signals: &Option<Signals>) -> (r: Vec<String>)
    ensures
        views(r@) == hints(opt_view(*signals)),
{
    let mut out: Vec<String> = Vec::new();
    if let Some(s) = signals {
        proof {
            assert(views(s.distill_candidates@).len() == s.distill_candidates@.len());
        }
        if s.distill_candidates.len() >= 3 {
            out.push(candidates_hint(s.distill_candidates.len()));
        }
    }
    proof {
        assert(views(out@) =~= hints(opt_view(*signals)));
    }
    out
}

// ---------------------------------------------------------------------------
// The answer
// ---------------------------------------------------------------------------

/// What the library holds.
pub open spec fn library_of(s: StateView, args: MemoryLibraryArgs) -> LibraryDataView {
    let focus = focus_of(args);
    let ms = shelf(s, opt_view(args.project));
    let next = library_offset(args) + library_limit(args);
    let signals = if wants_signals(focus) {
        Some(signals_of(ms, s.now))
    } else {
        None
    };
    LibraryDataView {
        fragments: page(ms, library_offset(args), library_limit(args)).map_values(
            |m: MemoryView| shelf_entry(m, s.now),
        ),
        guides: if wants_guides(focus) {
            s.guides.map_values(|g: GuideView| guide_entry(g))
        } else {
            Seq::empty()
        },
        relations: if wants_relations(focus) {
            edge_figures(by_id(s.memories), edges_by_id(s.relations))
        } else {
            no_figures()
        },
        signals,
        suggestions: hints(signals),
        fragments_total: ms.len() as usize,
        has_more: next < ms.len(),
        next_offset: if next < ms.len() {
            next as usize
        } else {
            0
        },
    }
}

/// What there is.
pub open spec fn library_head_text(now: nat, ms: nat, gs: nat) -> Seq<char> {
    "== LIBRARY MODE SNAPSHOT ==\nGenerated: "@ + dec(now) + "\nTotal memories: "@ + dec(ms) + " | Total guides: "@ + dec(gs) + " | Total sessions: 0\n"@
}

pub fn library_head(now: u64, ms: usize, gs: usize) -> (r: String)
    ensures
        r@ == library_head_text(now as nat, ms as nat, gs as nat),
{
    let mut out = "== LIBRARY MODE SNAPSHOT ==\nGenerated: ".to_owned();
    out.append(decimal(now).as_str());
    out.append("\nTotal memories: ");
    out.append(decimal(ms as u64).as_str());
    out.append(" | Total guides: ");
    out.append(decimal(gs as u64).as_str());
    out.append(" | Total sessions: 0\n");
    out
}

/// How much of it is shown.
pub open spec fn shelf_head_text(n: nat, total: nat) -> Seq<char> {
    "\n== MEMORY FRAGMENTS ("@ + dec(n) + " shown of "@ + dec(total) + ") ==\n"@
}

pub fn shelf_head(n: usize, total: usize) -> (r: String)
    ensures
        r@ == shelf_head_text(n as nat, total as nat),
{
    let mut out = "\n== MEMORY FRAGMENTS (".to_owned();
    out.append(decimal(n as u64).as_str());
    out.append(" shown of ");
    out.append(decimal(total as u64).as_str());
    out.append(") ==\n");
    out
}

/// A memory on the shelf.
pub open spec fn shelf_line_text(id: Seq<char>, title: Seq<char>, c: Seq<char>, scope: Seq<char>) -> Seq<char> {
    "["@ + id + "] "@ + title + " (conf "@ + c + ", "@ + scope + ")\n"@
}

pub fn shelf_line(id: &str, title: &str, c: &str, scope: &str) -> (r: String)
    ensures
        r@ == shelf_line_text(id@, title@, c@, scope@),
{
    let mut out = "[".to_owned();
    out.append(id);
    out.append("] ");
    out.append(title);
    out.append(" (conf ");
    out.append(c);
    out.append(", ");
    out.append(scope);
    out.append(")\n");
    out
}

/// There is a next page.
pub open spec fn shelf_more_text(n: nat, total: nat, offset: nat, next: nat) -> Seq<char> {
    "\nShowing "@ + dec(n) + " of "@ + dec(total) + " fragments (offset "@ + dec(offset) + "). Pass offset="@ + dec(next) + " for the next page."@
}

pub fn shelf_more(n: usize, total: usize, offset: usize, next: usize) -> (r: String)
    ensures
        r@ == shelf_more_text(n as nat, total as nat, offset as nat, next as nat),
{
    let mut out = "\nShowing ".to_owned();
    out.append(decimal(n as u64).as_str());
    out.append(" of ");
    out.append(decimal(total as u64).as_str());
    out.append(" fragments (offset ");
    out.append(decimal(offset as u64).as_str());
    out.append("). Pass offset=");
    out.append(decimal(next as u64).as_str());
    out.append(" for the next page.");
    out
}

pub open spec fn shelf_line_of(m: MemoryView) -> Seq<char> {
    shelf_line_text(
        legacy_name(m),
        m.title,
        score_text(m.confidence),
        text_or(m.project, "global"@),
    )
}

/// The library as text.
pub open spec fn library_text(s: StateView, args: MemoryLibraryArgs) -> Seq<char> {
    let l = library_of(s, args);
    let ms = page(
        shelf(s, opt_view(args.project)),
        library_offset(args),
        library_limit(args),
    );
    library_head_text(s.now as nat, l.fragments_total as nat, l.guides.len()) + part_if(
        wants_fragments(focus_of(args)),
        shelf_head_text(ms.len(), l.fragments_total as nat) + written(
            ms,
            |m: MemoryView| shelf_line_of(m),
        ),
    ) + part_if(
        l.has_more,
        shelf_more_text(
            ms.len(),
            l.fragments_total as nat,
            library_offset(args) as nat,
            l.next_offset as nat,
        ),
    )
}

/// What `memory_library` answers.
#[verifier::opaque]
pub open spec fn memory_library(s: StateView, args: MemoryLibraryArgs) -> ToolResultView {
    formatted(
        library_text(s, args),
        ToolDataView::Library(library_of(s, args)),
        args.response_format,
    )
}

fn on_shelf(disp: &Dispatcher, project: &Option<String>) -> (r: Vec<Memory>)
    ensures
        views(r@) == shelf(disp@.store, opt_view(*project)),
{
    let all = disp.repo.all_memories();
    let wanted = match project {
        Some(p) => Some(lower(trim(p.as_str()).as_str())),
        None => None,
    };
    let ghost pv = opt_view(*project);
    let ms = select(
        &all,
        |m: &Memory| -> (b: bool)
            ensures
                b == is_of(m@, pv)
            {
                match (&wanted, &m.project) {
                    (None, _) => true,
                    (Some(x), Some(mp)) => same(mp.as_str(), x.as_str()),
                    (Some(_), None) => false,
                }
            },
        Ghost(|m: MemoryView| is_of(m, pv)),
    );
    rank(
        &ms,
        |m: &Memory| -> (k: (i128, u128))
            ensures
                k.0 == -m@.confidence.0 && k.1 == 0
            { (-(m.confidence.0 as i128), 0) },
        Ghost(|m: MemoryView| (-(m.confidence.0 as int), 0int)),
    )
}

fn limit_from(args: &MemoryLibraryArgs) -> (r: usize)
    ensures
        r == library_limit(*args),
        1 <= r <= 200,
{
    match args.limit {
        None => 50,
        Some(n) => if n < 1 {
            1
        } else if n > 200 {
            200
        } else {
            n
        },
    }
}

fn offset_from(args: &MemoryLibraryArgs) -> (r: usize)
    ensures
        r == library_offset(*args),
{
    match args.offset {
        None => 0,
        Some(n) => n,
    }
}

fn make_library(disp: &Dispatcher, args: &MemoryLibraryArgs, ms: &Vec<Memory>, focus: &str) -> (r:
    LibraryData)
    requires
        views(ms@) == shelf(disp@.store, opt_view(args.project)),
        focus@ == focus_of(*args),
    ensures
        r@ == library_of(disp@.store, *args),
        r.guides@.len() == r@.guides.len(),
{
    let now: u64 = disp.repo.now_millis();
    let offset: usize = offset_from(args);
    let limit: usize = limit_from(args);
    proof {
        assert(views(ms@).len() == ms@.len());
    }
    let shown = take_page(ms, offset, limit);
    let fragments: Vec<LibraryEntry> = mapped(
        &shown,
        |m: &Memory| -> (e: LibraryEntry)
            ensures
                e@ == shelf_entry(m@, now)
            { entry_of(m, now) },
        Ghost(|m: MemoryView| shelf_entry(m, now)),
    );
    let guides = if same(focus, "full") || same(focus, "guides") {
        guide_entries(&disp.repo.get_guides())
    } else {
        let none: Vec<LibraryGuide> = Vec::new();
        proof {
            assert(views(none@) =~= Seq::empty());
        }
        none
    };
    proof {
        assert(views(guides@).len() == guides@.len());
    }
    let relations = if same(focus, "full") || same(focus, "orphans") {
        figures_of_edges(&disp.repo.all_memories(), &disp.repo.all_relations())
    } else {
        no_edge_figures()
    };
    let signals = if same(focus, "full") || same(focus, "stale") || same(focus, "duplicates")
        || same(focus, "distill") || same(focus, "guides") {
        Some(make_signals(ms, now))
    } else {
        None
    };
    let next: usize = next_page(offset, limit);
    LibraryData {
        fragments,
        guides,
        relations,
        suggestions: hints_of(&signals),
        signals,
        fragments_total: ms.len(),
        has_more: next < ms.len(),
        next_offset: if next < ms.len() {
            next
        } else {
            0
        },
    }
}

/// `memory_library`: the store at a glance.
pub fn exec_memory_library(disp: &Dispatcher, args: &MemoryLibraryArgs) -> (r: ToolResult)
    ensures
        r@ == memory_library(disp@.store, *args),
{
    proof {
        reveal(memory_library);
    }
    let focus = text_or_else(&args.focus, "full");
    let ms = on_shelf(disp, &args.project);
    let data = make_library(disp, args, &ms, focus.as_str());
    let shown = take_page(&ms, offset_from(args), limit_from(args));
    proof {
        assert(views(shown@).len() == shown@.len());
        assert(views(ms@).len() == ms@.len());
    }
    let mut out = library_head(disp.repo.now_millis(), data.fragments_total, data.guides.len());
    if same(focus.as_str(), "full") || same(focus.as_str(), "stale") || same(
        focus.as_str(),
        "duplicates",
    ) || same(focus.as_str(), "orphans") {
        let mut part = shelf_head(shown.len(), data.fragments_total);
        append_each(
            &mut part,
            &shown,
            |m: &Memory| -> (t: String)
                ensures
                    t@ == shelf_line_of(m@)
                {
                    shelf_line(
                        legacy_id(m).as_str(),
                        m.title.as_str(),
                        score_string(m.confidence).as_str(),
                        text_or_else(&m.project, "global").as_str(),
                    )
                },
            Ghost(|m: MemoryView| shelf_line_of(m)),
        );
        out.append(part.as_str());
    } else {
        out.append("");
    }
    if data.has_more {
        out.append(
            shelf_more(
                shown.len(),
                data.fragments_total,
                offset_from(args),
                data.next_offset,
            ).as_str(),
        );
    } else {
        out.append("");
    }
    format_result(out, ToolData::Library(data), args.response_format)
}

} // verus!
