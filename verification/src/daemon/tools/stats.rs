//! `memory_stats` and `memory_audit`: the memories in figures, and what is
//! wrong with them.

use crate::canonical::repository::{
    by_id, edges_by_id, legacy_id, legacy_name, legacy_name_of, looked_up, CanonicalRepository,
};
use crate::compatibility::lemma::analytics::confidences;
use crate::compatibility::lemma::tool_args::{MemoryAuditArgs, MemoryStatsArgs};
use crate::daemon::dispatcher::Dispatcher;
use crate::daemon::envelope::{ToolResult, ToolResultView};
use crate::daemon::tools::common::{format_result, formatted, text_or, text_or_else};
use crate::daemon::tools::data::{
    AuditData, AuditDataView, StatsData, StatsDataView, Tally, TallyView, ToolData, ToolDataView,
};
use crate::daemon::tools::detail::part_if;
use crate::daemon::tools::tally::{tally, tally_of};
use crate::domain::id::EntityId;
use crate::domain::memory::{Memory, MemoryView};
use crate::domain::relation::{Relation, RelationView};
use crate::domain::score::UNIT;
use crate::domain::state::{has_memory, StateView};
use crate::double::{from_whole, whole};
use crate::figures::{full_string, full_text};
use crate::lists::{append_each, count, select, texts, written};
use crate::rank::lemma_filter_step;
use crate::signed::{mean, mean_of, Signed};
use crate::text::{
    dec, decimal, join, joined, lower, lowercase, opt_view, same, trim, trimmed, views,
};
use vstd::prelude::*;

verus! {

// ---------------------------------------------------------------------------
// Projects
// ---------------------------------------------------------------------------

/// The project that is asked for: trimmed, in lower case, if it is not empty.
pub open spec fn asked_project(p: Option<Seq<char>>) -> Option<Seq<char>> {
    match p {
        None => None,
        Some(x) => {
            let key = lowercase(trimmed(x));
            if key.len() == 0 {
                None
            } else {
                Some(key)
            }
        },
    }
}

pub fn project_asked(p: &Option<String>) -> (r: Option<String>)
    ensures
        opt_view(r) == asked_project(opt_view(*p)),
{
    match p {
        None => None,
        Some(x) => {
            let key = lower(trim(x.as_str()).as_str());
            if key.as_str().is_empty() {
                None
            } else {
                Some(key)
            }
        },
    }
}

/// Whether a memory is in the scope of a project: without one, only what
/// belongs to none; with one, that too.
pub open spec fn inherited(m: MemoryView, p: Option<Seq<char>>) -> bool {
    m.project is None || (p is Some && lowercase(m.project->0) == p->0)
}

/// The memories in the scope of a project. What belongs to no project is in the
/// scope of each.
pub fn filter_by_project(memories: &Vec<Memory>, current_project: &Option<String>) -> (r: Vec<
    Memory,
>)
    ensures
        views(r@) == views(memories@).filter(
            |m: MemoryView| inherited(m, asked_project(opt_view(*current_project))),
        ),
{
    let p = project_asked(current_project);
    let ghost pv = opt_view(p);
    select(
        memories,
        |m: &Memory| -> (b: bool)
            ensures
                b == inherited(m@, pv)
            {
                match (&m.project, &p) {
                    (None, _) => true,
                    (Some(mp), Some(x)) => same(lower(mp.as_str()).as_str(), x.as_str()),
                    (Some(_), None) => false,
                }
            },
        Ghost(|m: MemoryView| inherited(m, pv)),
    )
}

// ---------------------------------------------------------------------------
// memory_stats
// ---------------------------------------------------------------------------

/// Below this confidence is low: three tenths.
pub const LOW: i64 = 4_599_075_939_470_750_515;

/// Above this confidence is high: eight tenths.
pub const HIGH: i64 = 4_605_380_978_949_069_210;

/// Whether a memory is counted: where a project is asked for, only its own.
pub open spec fn counts(m: MemoryView, p: Option<Seq<char>>) -> bool {
    p is None || (m.project is Some && lowercase(m.project->0) == p->0)
}

/// The scope of a memory, by name.
pub open spec fn scope_name(m: MemoryView) -> Seq<char> {
    text_or(m.project, "(global)"@)
}

/// Memories in figures. Of none, nothing is low and nothing is high.
pub open spec fn figures_of(ms: Seq<MemoryView>) -> StatsDataView {
    StatsDataView {
        total: ms.len() as usize,
        average: if ms.len() == 0 {
            Signed { negative: false, size: whole(0) }
        } else {
            mean(ms.map_values(|m: MemoryView| m.confidence))
        },
        by_source: tally(ms.map_values(|m: MemoryView| m.source.name())),
        by_project: tally(ms.map_values(|m: MemoryView| scope_name(m))),
        low_confidence: if ms.len() == 0 {
            None
        } else {
            Some(ms.filter(|m: MemoryView| m.confidence.0 < LOW).len() as u64)
        },
        high_confidence: if ms.len() == 0 {
            None
        } else {
            Some(ms.filter(|m: MemoryView| m.confidence.0 > HIGH).len() as u64)
        },
    }
}

/// The memories of a project, or all, in figures.
pub open spec fn stats_of(ms: Seq<MemoryView>, project: Option<Seq<char>>) -> StatsDataView {
    figures_of(ms.filter(|m: MemoryView| counts(m, asked_project(project))))
}

/// The memories of a project, or all, in figures.
pub fn calculate_stats(memories: &Vec<Memory>, project: &Option<String>) -> (r: StatsData)
    ensures
        r@ == stats_of(views(memories@), opt_view(*project)),
        r.average.size.within(30_000),
{
    let p = project_asked(project);
    let ghost pv = opt_view(p);
    let ms = select(
        memories,
        |m: &Memory| -> (b: bool)
            ensures
                b == counts(m@, pv)
            {
                match (&p, &m.project) {
                    (None, _) => true,
                    (Some(x), Some(mp)) => same(lower(mp.as_str()).as_str(), x.as_str()),
                    (Some(_), None) => false,
                }
            },
        Ghost(|m: MemoryView| counts(m, pv)),
    );
    proof {
        assert(views(ms@).len() == ms@.len());
    }
    let average = if ms.len() == 0 {
        Signed { negative: false, size: from_whole(0) }
    } else {
        mean_of(&confidences(&ms))
    };
    let sources = texts(
        &ms,
        |m: &Memory| -> (t: String)
            ensures
                t@ == m@.source.name()
            { m.source.as_str().to_owned() },
        Ghost(|m: MemoryView| m.source.name()),
    );
    let scopes = texts(
        &ms,
        |m: &Memory| -> (t: String)
            ensures
                t@ == scope_name(m@)
            { text_or_else(&m.project, "(global)") },
        Ghost(|m: MemoryView| scope_name(m)),
    );
    let low: usize = count(
        &ms,
        |m: &Memory| -> (b: bool)
            ensures
                b == (m@.confidence.0 < LOW)
            { m.confidence.0 < LOW },
        Ghost(|m: MemoryView| m.confidence.0 < LOW),
    );
    let high: usize = count(
        &ms,
        |m: &Memory| -> (b: bool)
            ensures
                b == (m@.confidence.0 > HIGH)
            { m.confidence.0 > HIGH },
        Ghost(|m: MemoryView| m.confidence.0 > HIGH),
    );
    StatsData {
        total: ms.len(),
        average,
        by_source: tally_of(&sources),
        by_project: tally_of(&scopes),
        low_confidence: if ms.len() == 0 {
            None
        } else {
            Some(low as u64)
        },
        high_confidence: if ms.len() == 0 {
            None
        } else {
            Some(high as u64)
        },
    }
}

/// A number in full.
pub open spec fn signed_full(a: Signed) -> Seq<char> {
    if a.negative && a.size.m > 0 {
        "-"@ + a.size.short_text()
    } else {
        a.size.short_text()
    }
}

pub fn signed_full_string(a: Signed) -> (r: String)
    requires
        a.size.within(40_000),
    ensures
        r@ == signed_full(a),
{
    if a.negative && a.size.m > 0 {
        let mut out = "-".to_owned();
        out.append(a.size.to_text().as_str());
        out
    } else {
        a.size.to_text()
    }
}

/// How many there are.
pub open spec fn stats_head_text(n: nat, avg: Seq<char>) -> Seq<char> {
    "## Memory Stats\nTotal: "@ + dec(n) + " fragments | Avg confidence: "@ + avg + "\n"@
}

pub fn stats_head(n: usize, avg: &str) -> (r: String)
    ensures
        r@ == stats_head_text(n as nat, avg@),
{
    let mut out = "## Memory Stats\nTotal: ".to_owned();
    out.append(decimal(n as u64).as_str());
    out.append(" fragments | Avg confidence: ");
    out.append(avg);
    out.append("\n");
    out
}

/// How many are high and low.
pub open spec fn stats_levels_text(high: nat, low: nat) -> Seq<char> {
    "High confidence (>0.8): "@ + dec(high) + " | Low (<0.3): "@ + dec(low) + "\n"@
}

pub fn stats_levels(high: u64, low: u64) -> (r: String)
    ensures
        r@ == stats_levels_text(high as nat, low as nat),
{
    let mut out = "High confidence (>0.8): ".to_owned();
    out.append(decimal(high).as_str());
    out.append(" | Low (<0.3): ");
    out.append(decimal(low).as_str());
    out.append("\n");
    out
}

/// Where they come from.
pub open spec fn stats_sources_text(list: Seq<char>) -> Seq<char> {
    "Sources: "@ + list + "\n"@
}

pub fn stats_sources(list: &str) -> (r: String)
    ensures
        r@ == stats_sources_text(list@),
{
    let mut out = "Sources: ".to_owned();
    out.append(list);
    out.append("\n");
    out
}

/// Where they belong.
pub open spec fn stats_projects_text(list: Seq<char>) -> Seq<char> {
    "Projects: "@ + list + "\n"@
}

pub fn stats_projects(list: &str) -> (r: String)
    ensures
        r@ == stats_projects_text(list@),
{
    let mut out = "Projects: ".to_owned();
    out.append(list);
    out.append("\n");
    out
}

/// One count.
pub open spec fn tally_item_text(name: Seq<char>, n: nat) -> Seq<char> {
    name + ": "@ + dec(n)
}

pub fn tally_item(name: &str, n: u64) -> (r: String)
    ensures
        r@ == tally_item_text(name@, n as nat),
{
    let mut out = name.to_owned();
    out.append(": ");
    out.append(decimal(n).as_str());
    out
}

pub open spec fn or_zero(n: Option<u64>) -> nat {
    match n {
        Some(x) => x as nat,
        None => 0,
    }
}

/// Counts as text.
pub open spec fn tally_list(ts: Seq<TallyView>) -> Seq<char> {
    joined(ts.map_values(|t: TallyView| tally_item_text(t.name, t.count as nat)), ", "@)
}

fn tally_line(ts: &Vec<Tally>) -> (r: String)
    ensures
        r@ == tally_list(views(ts@)),
{
    let items = texts(
        ts,
        |t: &Tally| -> (s: String)
            ensures
                s@ == tally_item_text(t@.name, t@.count as nat)
            { tally_item(t.name.as_str(), t.count) },
        Ghost(|t: TallyView| tally_item_text(t.name, t.count as nat)),
    );
    join(&items, ", ")
}

/// The figures as text.
pub open spec fn stats_text(s: StatsDataView) -> Seq<char> {
    stats_head_text(s.total as nat, signed_full(s.average)) + part_if(
        s.total > 0,
        stats_levels_text(or_zero(s.high_confidence), or_zero(s.low_confidence))
            + stats_sources_text(tally_list(s.by_source)) + stats_projects_text(
            tally_list(s.by_project),
        ),
    )
}

fn zero_or(n: Option<u64>) -> (r: u64)
    ensures
        r == or_zero(n),
{
    match n {
        Some(x) => x,
        None => 0,
    }
}

/// The figures as text.
pub fn format_stats(stats: &StatsData) -> (r: String)
    requires
        stats.average.size.within(40_000),
    ensures
        r@ == stats_text(stats@),
{
    let mut out = stats_head(stats.total, signed_full_string(stats.average).as_str());
    if stats.total > 0 {
        let mut part = stats_levels(
            zero_or(stats.high_confidence),
            zero_or(stats.low_confidence),
        );
        part.append(stats_sources(tally_line(&stats.by_source).as_str()).as_str());
        part.append(stats_projects(tally_line(&stats.by_project).as_str()).as_str());
        out.append(part.as_str());
    } else {
        out.append("");
    }
    out
}

/// What `memory_stats` answers.
#[verifier::opaque]
pub open spec fn memory_stats(s: StateView, args: MemoryStatsArgs) -> ToolResultView {
    let stats = stats_of(by_id(s.memories), opt_view(args.project));
    formatted(stats_text(stats), ToolDataView::Stats(stats), args.response_format)
}

/// `memory_stats`: the memories of a project, or all, in figures.
pub fn exec_memory_stats(disp: &Dispatcher, args: &MemoryStatsArgs) -> (r: ToolResult)
    ensures
        r@ == memory_stats(disp@.store, *args),
{
    proof {
        reveal(memory_stats);
    }
    let stats = calculate_stats(&disp.repo.all_memories(), &args.project);
    format_result(format_stats(&stats), ToolData::Stats(stats), args.response_format)
}

// ---------------------------------------------------------------------------
// memory_audit
// ---------------------------------------------------------------------------

/// A confidence out of range.
pub open spec fn bad_confidence_text(id: Seq<char>, c: Seq<char>) -> Seq<char> {
    "Fragment ["@ + id + "] has invalid confidence: "@ + c
}

pub fn bad_confidence(id: &str, c: &str) -> (r: String)
    ensures
        r@ == bad_confidence_text(id@, c@),
{
    let mut out = "Fragment [".to_owned();
    out.append(id);
    out.append("] has invalid confidence: ");
    out.append(c);
    out
}

/// A memory without text.
pub open spec fn bad_fragment_text(id: Seq<char>) -> Seq<char> {
    "Fragment ["@ + id + "] has missing or invalid fragment text"@
}

pub fn bad_fragment(id: &str) -> (r: String)
    ensures
        r@ == bad_fragment_text(id@),
{
    let mut out = "Fragment [".to_owned();
    out.append(id);
    out.append("] has missing or invalid fragment text");
    out
}

/// A link to nothing.
pub open spec fn bad_link_text(id: Seq<char>, other: Seq<char>) -> Seq<char> {
    "Fragment ["@ + id + "] references non-existent associated fragment ["@ + other + "]"@
}

pub fn bad_link(id: &str, other: &str) -> (r: String)
    ensures
        r@ == bad_link_text(id@, other@),
{
    let mut out = "Fragment [".to_owned();
    out.append(id);
    out.append("] references non-existent associated fragment [");
    out.append(other);
    out.append("]");
    out
}

/// An edge to nothing.
pub open spec fn bad_edge_text(id: Seq<char>, other: Seq<char>) -> Seq<char> {
    "Fragment ["@ + id + "] has relation to non-existent fragment ["@ + other + "]"@
}

pub fn bad_edge(id: &str, other: &str) -> (r: String)
    ensures
        r@ == bad_edge_text(id@, other@),
{
    let mut out = "Fragment [".to_owned();
    out.append(id);
    out.append("] has relation to non-existent fragment [");
    out.append(other);
    out.append("]");
    out
}

/// Identifiers that occur twice.
pub open spec fn bad_ids_text(ids: Seq<char>) -> Seq<char> {
    "Duplicate IDs found: "@ + ids
}

pub fn bad_ids(ids: &str) -> (r: String)
    ensures
        r@ == bad_ids_text(ids@),
{
    let mut out = "Duplicate IDs found: ".to_owned();
    out.append(ids);
    out
}

/// A list with one entry, or none.
pub open spec fn only_if(b: bool, t: Seq<char>) -> Seq<Seq<char>> {
    if b {
        seq![t]
    } else {
        Seq::empty()
    }
}

/// The links of a memory that lead nowhere.
pub open spec fn lost_links(s: StateView, m: MemoryView) -> Seq<Seq<char>> {
    m.associated_with.filter(|a: Seq<char>| looked_up(s, a) is None).map_values(
        |a: Seq<char>| bad_link_text(legacy_name(m), a),
    )
}

/// What is wrong with a memory.
pub open spec fn memory_issues(s: StateView, m: MemoryView) -> Seq<Seq<char>> {
    only_if(
        !(0 <= m.confidence.0 <= UNIT),
        bad_confidence_text(legacy_name(m), full_text(m.confidence)),
    ) + only_if(m.fragment.len() == 0, bad_fragment_text(legacy_name(m))) + lost_links(s, m)
}

/// What is wrong with the first `n` memories.
pub open spec fn memories_issues(s: StateView, ms: Seq<MemoryView>, n: int) -> Seq<Seq<char>>
    decreases n,
{
    if n <= 0 {
        Seq::empty()
    } else {
        memories_issues(s, ms, n - 1) + memory_issues(s, ms[n - 1])
    }
}

/// What is wrong with an edge among memories.
pub open spec fn edge_issues(s: StateView, ms: Seq<MemoryView>, e: RelationView) -> Seq<Seq<char>> {
    only_if(
        !has_memory(ms, e.source),
        bad_edge_text(legacy_name_of(s, e.target), legacy_name_of(s, e.source)),
    ) + only_if(
        !has_memory(ms, e.target),
        bad_edge_text(legacy_name_of(s, e.source), legacy_name_of(s, e.target)),
    )
}

/// What is wrong with the first `n` edges.
pub open spec fn edges_issues(
    s: StateView,
    ms: Seq<MemoryView>,
    es: Seq<RelationView>,
    n: int,
) -> Seq<Seq<char>>
    decreases n,
{
    if n <= 0 {
        Seq::empty()
    } else {
        edges_issues(s, ms, es, n - 1) + edge_issues(s, ms, es[n - 1])
    }
}

/// The names of those of the first `n` memories whose identifier occurred
/// before.
pub open spec fn repeated(ms: Seq<MemoryView>, n: int) -> Seq<Seq<char>>
    decreases n,
{
    if n <= 0 {
        Seq::empty()
    } else if has_memory(ms.take(n - 1), ms[n - 1].id) {
        repeated(ms, n - 1).push(legacy_name(ms[n - 1]))
    } else {
        repeated(ms, n - 1)
    }
}

/// All that is wrong.
pub open spec fn audit_of(s: StateView, ms: Seq<MemoryView>, es: Seq<RelationView>) -> AuditDataView {
    let twice = repeated(ms, ms.len() as int);
    AuditDataView {
        total_fragments: ms.len() as usize,
        issues: memories_issues(s, ms, ms.len() as int) + edges_issues(s, ms, es, es.len() as int)
            + only_if(twice.len() > 0, bad_ids_text(joined(twice, ", "@))),
    }
}

fn has_id_before(ms: &Vec<Memory>, n: usize, id: EntityId) -> (r: bool)
    requires
        n <= ms@.len(),
    ensures
        r == has_memory(views(ms@).take(n as int), id),
{
    let ghost vs = views(ms@).take(n as int);
    let mut i: usize = 0;
    while i < n
        invariant
            i <= n <= ms@.len(),
            vs == views(ms@).take(n as int),
            forall|j: int| 0 <= j < i ==> (#[trigger] vs[j]).id != id,
        decreases n - i,
    {
        proof {
            assert(vs[i as int] == ms@[i as int]@);
        }
        if ms[i].id == id {
            return true;
        }
        i += 1;
    }
    false
}

fn push_links(repo: &CanonicalRepository, m: &Memory, out: &mut Vec<String>)
    requires
        repo@.wf(),
    ensures
        views(final(out)@) == views(old(out)@) + lost_links(repo@, m@),
{
    let ghost s = repo@;
    let ghost start = views(out@);
    let ghost vs = m@.associated_with;
    let ghost lost = |a: Seq<char>| looked_up(s, a) is None;
    let ghost line = |a: Seq<char>| bad_link_text(legacy_name(m@), a);
    let mut i: usize = 0;
    proof {
        reveal(Seq::filter);
        assert(vs.take(0).filter(lost) =~= Seq::empty());
        assert(start + vs.take(0).filter(lost).map_values(line) =~= start);
    }
    while i < m.associated_with.len()
        invariant
            i <= m.associated_with@.len(),
            repo@.wf(),
            s == repo@,
            vs == views(m.associated_with@),
            lost == (|a: Seq<char>| looked_up(s, a) is None),
            line == (|a: Seq<char>| bad_link_text(legacy_name(m@), a)),
            views(out@) == start + vs.take(i as int).filter(lost).map_values(line),
        decreases m.associated_with@.len() - i,
    {
        broadcast use crate::text::lemma_views_push;

        proof {
            assert(vs[i as int] == m.associated_with@[i as int]@);
            lemma_filter_step(vs, i as int, lost);
        }
        let ghost before = vs.take(i as int).filter(lost);
        if repo.look_up(m.associated_with[i].as_str()).is_none() {
            out.push(bad_link(legacy_id(m).as_str(), m.associated_with[i].as_str()));
            proof {
                assert(start + before.push(vs[i as int]).map_values(line) =~= (start
                    + before.map_values(line)).push(line(vs[i as int])));
            }
        }
        i += 1;
    }
    proof {
        assert(vs.take(vs.len() as int) =~= vs);
    }
}

fn push_memory_issues(repo: &CanonicalRepository, m: &Memory, out: &mut Vec<String>)
    requires
        repo@.wf(),
    ensures
        views(final(out)@) == views(old(out)@) + memory_issues(repo@, m@),
{
    broadcast use crate::text::lemma_views_push;

    let ghost start = views(out@);
    if m.confidence.0 < 0 || m.confidence.0 > UNIT {
        out.push(bad_confidence(legacy_id(m).as_str(), full_string(m.confidence).as_str()));
    }
    if m.fragment.as_str().is_empty() {
        out.push(bad_fragment(legacy_id(m).as_str()));
    }
    proof {
        assert(views(out@) =~= start + only_if(
            !(0 <= m@.confidence.0 <= UNIT),
            bad_confidence_text(legacy_name(m@), full_text(m@.confidence)),
        ) + only_if(m@.fragment.len() == 0, bad_fragment_text(legacy_name(m@))));
    }
    push_links(repo, m, out);
    proof {
        assert(views(out@) =~= start + memory_issues(repo@, m@));
    }
}

fn push_edge_issues(
    repo: &CanonicalRepository,
    memories: &Vec<Memory>,
    e: &Relation,
    out: &mut Vec<String>,
)
    requires
        repo@.wf(),
    ensures
        views(final(out)@) == views(old(out)@) + edge_issues(repo@, views(memories@), e@),
{
    broadcast use crate::text::lemma_views_push;

    let ghost start = views(out@);
    proof {
        assert(views(memories@).take(memories@.len() as int) =~= views(memories@));
    }
    if !has_id_before(memories, memories.len(), e.source) {
        out.push(
            bad_edge(
                repo.legacy_id_of(e.target).as_str(),
                repo.legacy_id_of(e.source).as_str(),
            ),
        );
    }
    if !has_id_before(memories, memories.len(), e.target) {
        out.push(
            bad_edge(
                repo.legacy_id_of(e.source).as_str(),
                repo.legacy_id_of(e.target).as_str(),
            ),
        );
    }
    proof {
        assert(views(out@) =~= start + edge_issues(repo@, views(memories@), e@));
    }
}

/// What is wrong with memories and edges of a store.
pub fn audit_memory(repo: &CanonicalRepository, memories: &Vec<Memory>, relations: &Vec<Relation>) -> (
r: AuditData)
    requires
        repo@.wf(),
    ensures
        r@ == audit_of(repo@, views(memories@), views(relations@)),
{
    broadcast use crate::text::lemma_views_push;

    let ghost s = repo@;
    let ghost ms = views(memories@);
    let ghost es = views(relations@);
    let mut issues: Vec<String> = Vec::new();
    let mut twice: Vec<String> = Vec::new();
    let mut i: usize = 0;
    proof {
        assert(views(issues@) =~= Seq::empty());
        assert(views(twice@) =~= Seq::empty());
    }
    while i < memories.len()
        invariant
            i <= memories@.len(),
            repo@.wf(),
            s == repo@,
            ms == views(memories@),
            views(issues@) == memories_issues(s, ms, i as int),
            views(twice@) == repeated(ms, i as int),
        decreases memories@.len() - i,
    {
        broadcast use crate::text::lemma_views_push;

        proof {
            assert(ms[i as int] == memories@[i as int]@);
        }
        if has_id_before(memories, i, memories[i].id) {
            twice.push(legacy_id(&memories[i]));
        }
        push_memory_issues(repo, &memories[i], &mut issues);
        i += 1;
    }
    let mut j: usize = 0;
    let ghost start = views(issues@);
    proof {
        assert(start + edges_issues(s, ms, es, 0) =~= start);
    }
    while j < relations.len()
        invariant
            j <= relations@.len(),
            repo@.wf(),
            s == repo@,
            ms == views(memories@),
            es == views(relations@),
            views(issues@) == start + edges_issues(s, ms, es, j as int),
        decreases relations@.len() - j,
    {
        proof {
            assert(es[j as int] == relations@[j as int]@);
        }
        push_edge_issues(repo, memories, &relations[j], &mut issues);
        proof {
            assert(views(issues@) =~= start + edges_issues(s, ms, es, j + 1));
        }
        j += 1;
    }
    proof {
        assert(views(twice@).len() == twice@.len());
        assert(ms.len() == memories@.len());
    }
    let ghost all = views(issues@);
    if twice.len() > 0 {
        issues.push(bad_ids(join(&twice, ", ").as_str()));
    }
    proof {
        let t = repeated(ms, ms.len() as int);
        assert(views(issues@) =~= all + only_if(t.len() > 0, bad_ids_text(joined(t, ", "@))));
    }
    AuditData { total_fragments: memories.len(), issues }
}

/// How many issues there are.
pub open spec fn audit_head_text(n: nat, k: nat) -> Seq<char> {
    "## Memory Audit\nTotal fragments: "@ + dec(n) + " | Issues: "@ + dec(k) + "\n"@
}

pub fn audit_head(n: usize, k: usize) -> (r: String)
    ensures
        r@ == audit_head_text(n as nat, k as nat),
{
    let mut out = "## Memory Audit\nTotal fragments: ".to_owned();
    out.append(decimal(n as u64).as_str());
    out.append(" | Issues: ");
    out.append(decimal(k as u64).as_str());
    out.append("\n");
    out
}

/// One issue.
pub open spec fn issue_line_text(issue: Seq<char>) -> Seq<char> {
    "  ! "@ + issue + "\n"@
}

pub fn issue_line(issue: &str) -> (r: String)
    ensures
        r@ == issue_line_text(issue@),
{
    let mut out = "  ! ".to_owned();
    out.append(issue);
    out.append("\n");
    out
}

/// The issues as text.
pub open spec fn audit_text(a: AuditDataView) -> Seq<char> {
    audit_head_text(a.total_fragments as nat, a.issues.len()) + if a.issues.len() > 0 {
        written(a.issues, |t: Seq<char>| issue_line_text(t))
    } else {
        "All clear — no issues found.\n"@
    }
}

/// The issues as text.
pub fn format_audit_report(result: &AuditData) -> (r: String)
    ensures
        r@ == audit_text(result@),
{
    proof {
        assert(views(result.issues@).len() == result.issues@.len());
    }
    let mut out = audit_head(result.total_fragments, result.issues.len());
    if result.issues.len() > 0 {
        append_each(
            &mut out,
            &result.issues,
            |t: &String| -> (s: String)
                ensures
                    s@ == issue_line_text(t@)
                { issue_line(t.as_str()) },
            Ghost(|t: Seq<char>| issue_line_text(t)),
        );
    } else {
        out.append("All clear — no issues found.\n");
    }
    out
}

/// What `memory_audit` answers.
#[verifier::opaque]
pub open spec fn memory_audit(s: StateView, args: MemoryAuditArgs) -> ToolResultView {
    let a = audit_of(s, by_id(s.memories), edges_by_id(s.relations));
    formatted(audit_text(a), ToolDataView::Audit(a), args.response_format)
}

/// `memory_audit`: what is wrong with the memories and the edges.
pub fn exec_memory_audit(disp: &Dispatcher, args: &MemoryAuditArgs) -> (r: ToolResult)
    requires
        disp@.wf(),
    ensures
        r@ == memory_audit(disp@.store, *args),
{
    proof {
        reveal(memory_audit);
    }
    let memories = disp.repo.all_memories();
    let relations = disp.repo.all_relations();
    let a = audit_memory(&disp.repo, &memories, &relations);
    format_result(format_audit_report(&a), ToolData::Audit(a), args.response_format)
}

} // verus!
